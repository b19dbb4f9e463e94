use std::collections::HashMap;

use vevor_lcd::gpu::GpuRead;
use vevor_lcd::hwmon::{first_temp_input, hwmon_dirs, input_name, label_files, preferred_label};
use vevor_lcd::io::{Reply, Request};
use vevor_lcd::names::{has_form, join, replace, sort_names};
use vevor_lcd::reader::Reader;
use vevor_lcd::search::{find_cpu_sensor, CpuSearch};
use vevor_lcd::temps::{CommandOutput, Temps};

/// A system made of tables, which notes what it is asked.
struct System {
    dirs: HashMap<Vec<u8>, Vec<Vec<u8>>>,
    files: HashMap<Vec<u8>, String>,
    nvidia: Option<(bool, Vec<u8>)>,
    asked: Vec<String>,
}

impl System {
    fn new() -> Self {
        System {
            dirs: HashMap::new(),
            files: HashMap::new(),
            nvidia: None,
            asked: Vec::new(),
        }
    }

    fn add(mut self, dir: &str, names: &[&str]) -> Self {
        self.dirs.insert(
            dir.as_bytes().to_vec(),
            names.iter().map(|n| n.as_bytes().to_vec()).collect(),
        );
        self
    }

    fn file(mut self, path: &str, text: &str) -> Self {
        self.files.insert(path.as_bytes().to_vec(), text.to_string());
        self
    }

    fn smi(mut self, success: bool, stdout: &str) -> Self {
        self.nvidia = Some((success, stdout.as_bytes().to_vec()));
        self
    }

    fn answer(&mut self, request: Request) -> Reply {
        match request {
            Request::ListDir(path) => {
                self.note("list", &path);
                Reply::Listing(self.dirs.get(&path).cloned())
            }
            Request::ReadFile(path) => {
                self.note("read", &path);
                Reply::Text(self.files.get(&path).cloned())
            }
            Request::Exists(path) => {
                self.note("exists", &path);
                Reply::Found(self.files.contains_key(&path))
            }
            Request::Run(words) => {
                self.asked.push(format!("run {}", words.join(" ")));
                Reply::Output(self.nvidia.clone().map(|(success, stdout)| CommandOutput {
                    success,
                    stdout,
                }))
            }
            Request::Sleep(ms) => {
                self.asked.push(format!("sleep {ms}"));
                Reply::Slept
            }
        }
    }

    fn note(&mut self, verb: &str, path: &[u8]) {
        self.asked
            .push(format!("{verb} {}", String::from_utf8_lossy(path)));
    }
}

fn search(system: &mut System) -> Option<String> {
    let mut search = find_cpu_sensor();
    while let Some(request) = search.request() {
        search = search.step(system.answer(request));
    }
    match search {
        CpuSearch::Done(path) => path.map(|p| String::from_utf8(p).unwrap()),
        _ => panic!("no request, but not done"),
    }
}

fn read_gpu(system: &mut System) -> Option<u8> {
    let mut gpu = GpuRead::new();
    while let Some(request) = gpu.request() {
        gpu = gpu.step(system.answer(request));
    }
    match gpu {
        GpuRead::Done(value) => value,
        _ => panic!("no request, but not done"),
    }
}

/// Steps until the reader has asked to sleep `sleeps` times.
fn read_until_sleeps(reader: Reader, system: &mut System, sleeps: usize) -> Reader {
    let mut reader = reader;
    let mut seen = 0;
    loop {
        if matches!(reader.request(), Request::Sleep(_)) {
            seen += 1;
            if seen == sleeps {
                return reader;
            }
        }
        let reply = system.answer(reader.request());
        reader = reader.step(reply);
    }
}

fn amd_system() -> System {
    System::new()
        .add("/sys/class/hwmon", &["hwmon2", "hwmon10", "hwmon0"])
        .file("/sys/class/hwmon/hwmon0/name", "nvme\n")
        .file("/sys/class/hwmon/hwmon10/name", "amdgpu\n")
        .file("/sys/class/hwmon/hwmon2/name", "k10temp\n")
        .add(
            "/sys/class/hwmon/hwmon2",
            &["name", "temp3_label", "temp1_label", "temp1_input", "temp3_input"],
        )
        .file("/sys/class/hwmon/hwmon2/temp1_label", "Tccd1\n")
        .file("/sys/class/hwmon/hwmon2/temp3_label", "Tctl\n")
        .file("/sys/class/hwmon/hwmon2/temp1_input", "50000\n")
        .file("/sys/class/hwmon/hwmon2/temp3_input", "61500\n")
        .add("/sys/class/hwmon/hwmon10", &["temp2_input", "temp1_input"])
        .file("/sys/class/hwmon/hwmon10/temp1_input", "38400\n")
        .file("/sys/class/hwmon/hwmon10/temp2_input", "39000\n")
}

#[test]
fn names_sort_by_bytes() {
    let names: Vec<Vec<u8>> = ["hwmon2", "hwmon10", "hwmon", "hwmon1", "\u{e9}", "Z"]
        .iter()
        .map(|n| n.as_bytes().to_vec())
        .collect();
    let mut expected = names.clone();
    expected.sort();
    assert_eq!(sort_names(names), expected);
    assert_eq!(
        sort_names(vec![vec![2], vec![1, 255], vec![1], vec![2], vec![]]),
        vec![vec![], vec![1], vec![1, 255], vec![2], vec![2]]
    );
}

#[test]
fn paths_join_with_a_slash() {
    assert_eq!(join(b"/sys", b"name"), b"/sys/name".to_vec());
}

#[test]
fn replacement_takes_every_occurrence() {
    for (s, from, to) in [
        ("temp1_label", "_label", "_input"),
        ("temp_label_label", "_label", "_input"),
        ("_label", "_label", "_input"),
        ("temp1_labe", "_label", "_input"),
        ("aaaa", "aa", "b"),
        ("aaa", "aa", "b"),
        ("", "a", "b"),
        ("abc", "c", ""),
    ] {
        assert_eq!(
            replace(s.as_bytes(), from.as_bytes(), to.as_bytes()),
            s.replace(from, to).into_bytes()
        );
    }
    assert_eq!(input_name(b"temp12_label"), b"temp12_input".to_vec());
}

#[test]
fn label_files_give_temperature_files() {
    for (label, input) in [
        ("temp_label", "temp_input"),
        ("temp1_x_label", "temp1_x_input"),
        ("temp_label_label", "temp_input_input"),
        ("temp1_labe_label", "temp1_labe_input"),
        ("temp\u{e9}_label\u{1f321}_label", "temp\u{e9}_input\u{1f321}_input"),
    ] {
        assert!(has_form(label.as_bytes(), b"temp", b"_label"));
        assert_eq!(input_name(label.as_bytes()), input.as_bytes().to_vec());
        assert!(has_form(input.as_bytes(), b"temp", b"_input"));
    }
}

#[test]
fn file_names_have_a_form() {
    assert!(has_form(b"temp1_input", b"temp", b"_input"));
    assert!(has_form(b"temp_input", b"temp", b"_input"));
    assert!(!has_form(b"temp1_label", b"temp", b"_input"));
    assert!(!has_form(b"in1_input", b"temp", b"_input"));
    assert!(!has_form(b"temp1_inpu", b"temp", b"_input"));
    assert!(!has_form(b"tem", b"temp", b"_input"));
    assert!(has_form("temp\u{e9}_input".as_bytes(), b"temp", b"_input"));
    assert!(!has_form(b"temp\xff_input", b"temp", b"_input"));
}

#[test]
fn first_input_is_the_least() {
    let names = |list: &[&str]| -> Option<Vec<Vec<u8>>> {
        Some(list.iter().map(|n| n.as_bytes().to_vec()).collect())
    };
    assert_eq!(
        first_temp_input(b"/d", names(&["temp2_input", "temp10_input", "temp1_label"])),
        Some(b"/d/temp10_input".to_vec())
    );
    assert_eq!(first_temp_input(b"/d", names(&["temp1_label", "name"])), None);
    assert_eq!(first_temp_input(b"/d", names(&[])), None);
    assert_eq!(first_temp_input(b"/d", None), None);
    assert_eq!(
        label_files(names(&["temp2_label", "temp1_label", "temp1_input"])),
        vec![b"temp1_label".to_vec(), b"temp2_label".to_vec()]
    );
    assert!(label_files(None).is_empty());
}

#[test]
fn labels_by_prefix() {
    assert!(preferred_label("Tctl"));
    assert!(preferred_label("Package id 0"));
    assert!(!preferred_label("Tccd1"));
    assert!(!preferred_label("Core 0"));
    assert!(!preferred_label(""));
}

#[test]
fn monitors_in_order_of_directories() {
    let mut system = amd_system();
    system
        .dirs
        .get_mut("/sys/class/hwmon".as_bytes())
        .unwrap()
        .push(b"hwmon5".to_vec());
    let mut scan = hwmon_dirs();
    while let Some(request) = scan.request() {
        scan = scan.step(system.answer(request));
    }
    let found: Vec<(String, String)> = scan
        .found
        .iter()
        .map(|m| (m.name.clone(), String::from_utf8(m.dir.clone()).unwrap()))
        .collect();
    assert_eq!(
        found,
        vec![
            ("nvme".to_string(), "/sys/class/hwmon/hwmon0".to_string()),
            ("amdgpu".to_string(), "/sys/class/hwmon/hwmon10".to_string()),
            ("k10temp".to_string(), "/sys/class/hwmon/hwmon2".to_string()),
        ]
    );
}

#[test]
fn preferred_label_wins() {
    let mut system = amd_system();
    assert_eq!(
        search(&mut system),
        Some("/sys/class/hwmon/hwmon2/temp3_input".to_string())
    );
    assert_eq!(
        system.asked,
        vec![
            "list /sys/class/hwmon",
            "read /sys/class/hwmon/hwmon0/name",
            "read /sys/class/hwmon/hwmon10/name",
            "read /sys/class/hwmon/hwmon2/name",
            "list /sys/class/hwmon/hwmon2",
            "read /sys/class/hwmon/hwmon2/temp1_label",
            "read /sys/class/hwmon/hwmon2/temp3_label",
            "exists /sys/class/hwmon/hwmon2/temp3_input",
        ]
    );
}

#[test]
fn label_without_a_file_is_passed_over() {
    let mut system = amd_system();
    system
        .files
        .remove("/sys/class/hwmon/hwmon2/temp3_input".as_bytes());
    assert_eq!(
        search(&mut system),
        Some("/sys/class/hwmon/hwmon2/temp1_input".to_string())
    );
}

#[test]
fn first_input_without_labels() {
    let mut system = System::new()
        .add("/sys/class/hwmon", &["hwmon0"])
        .file("/sys/class/hwmon/hwmon0/name", " coretemp ")
        .add("/sys/class/hwmon/hwmon0", &["temp2_input", "temp1_input"]);
    assert_eq!(
        search(&mut system),
        Some("/sys/class/hwmon/hwmon0/temp1_input".to_string())
    );
}

#[test]
fn names_are_preferred_in_their_order() {
    let system = || {
        System::new()
            .add("/sys/class/hwmon", &["a", "b", "c"])
            .file("/sys/class/hwmon/a/name", "zenpower\n")
            .file("/sys/class/hwmon/b/name", "coretemp\n")
            .file("/sys/class/hwmon/c/name", "k10temp\n")
            .add("/sys/class/hwmon/a", &["temp1_input"])
            .add("/sys/class/hwmon/b", &["temp1_input"])
            .add("/sys/class/hwmon/c", &["temp1_input"])
    };
    assert_eq!(
        search(&mut system()),
        Some("/sys/class/hwmon/c/temp1_input".to_string())
    );
    assert_eq!(
        search(&mut system().add("/sys/class/hwmon/c", &["name"])),
        Some("/sys/class/hwmon/b/temp1_input".to_string())
    );
    let mut none = system().add("/sys/class/hwmon/c", &[]);
    none.dirs.remove("/sys/class/hwmon/b".as_bytes());
    assert_eq!(
        search(&mut none),
        Some("/sys/class/hwmon/a/temp1_input".to_string())
    );
}

#[test]
fn only_the_first_monitor_of_a_name_counts() {
    let mut system = System::new()
        .add("/sys/class/hwmon", &["hwmon0", "hwmon1"])
        .file("/sys/class/hwmon/hwmon0/name", "k10temp\n")
        .file("/sys/class/hwmon/hwmon1/name", "k10temp\n")
        .add("/sys/class/hwmon/hwmon0", &[])
        .add("/sys/class/hwmon/hwmon1", &["temp1_input"]);
    assert_eq!(search(&mut system), None);
}

#[test]
fn no_monitors_no_sensor() {
    assert_eq!(search(&mut System::new()), None);
    assert_eq!(search(&mut System::new().add("/sys/class/hwmon", &[])), None);
}

#[test]
fn gpu_by_command() {
    let mut system = amd_system().smi(true, "47\n");
    assert_eq!(read_gpu(&mut system), Some(47));
    assert_eq!(
        system.asked,
        vec!["run nvidia-smi --query-gpu=temperature.gpu --format=csv,noheader,nounits"]
    );
}

#[test]
fn gpu_by_monitor() {
    for mut system in [amd_system(), amd_system().smi(false, "47\n"), amd_system().smi(true, "x")] {
        assert_eq!(read_gpu(&mut system), Some(38));
    }
}

#[test]
fn gpu_nowhere() {
    assert_eq!(read_gpu(&mut System::new()), None);
    let mut no_inputs = amd_system().add("/sys/class/hwmon/hwmon10", &["name"]);
    assert_eq!(read_gpu(&mut no_inputs), None);
    let mut not_a_number = amd_system().file("/sys/class/hwmon/hwmon10/temp1_input", "?\n");
    assert_eq!(read_gpu(&mut not_a_number), None);
}

#[test]
fn first_reading_comes_before_the_first_wait() {
    let mut system = amd_system();
    let reader = Reader::new();
    assert_eq!(reader.temps(), Temps { cpu_c: 0, gpu_c: 0 });
    let reader = read_until_sleeps(reader, &mut system, 1);
    assert_eq!(reader.temps(), Temps { cpu_c: 62, gpu_c: 38 });
    assert!(matches!(reader.request(), Request::Sleep(1000)));
    assert!(!system.asked.iter().any(|a| a.starts_with("sleep")));
}

#[test]
fn next_reading_uses_the_same_sensor() {
    let mut system = amd_system().smi(true, "47\n");
    let reader = read_until_sleeps(Reader::new(), &mut system, 1);
    assert_eq!(reader.temps(), Temps { cpu_c: 62, gpu_c: 47 });
    let mut system = system
        .file("/sys/class/hwmon/hwmon2/temp3_input", "70499\n")
        .smi(true, "48\n");
    system.asked.clear();
    let reader = read_until_sleeps(reader, &mut system, 2);
    assert_eq!(reader.temps(), Temps { cpu_c: 70, gpu_c: 48 });
    assert_eq!(
        system.asked,
        vec![
            "sleep 1000",
            "read /sys/class/hwmon/hwmon2/temp3_input",
            "run nvidia-smi --query-gpu=temperature.gpu --format=csv,noheader,nounits",
        ]
    );
}

#[test]
fn sensor_stays_though_the_system_changes() {
    let read = "read /sys/class/hwmon/hwmon2/temp3_input";
    let mut reader = read_until_sleeps(Reader::new(), &mut amd_system(), 1);
    let other = System::new()
        .add("/sys/class/hwmon", &["hwmon1"])
        .file("/sys/class/hwmon/hwmon1/name", "k10temp\n")
        .add("/sys/class/hwmon/hwmon1", &["temp1_input"])
        .file("/sys/class/hwmon/hwmon1/temp1_input", "90000\n");
    for mut system in [other, System::new(), amd_system()] {
        reader = read_until_sleeps(reader, &mut system, 2);
        let cpu: Vec<&String> = system.asked.iter().filter(|a| a.ends_with("_input")).collect();
        assert_eq!(cpu[0], read);
        assert!(!system.asked.iter().any(|a| a.contains("hwmon1/temp")));
    }
    assert_eq!(reader.temps(), Temps { cpu_c: 62, gpu_c: 38 });

    let mut reader = read_until_sleeps(Reader::new(), &mut System::new(), 1);
    let mut system = amd_system();
    reader = read_until_sleeps(reader, &mut system, 2);
    assert!(!system.asked.iter().any(|a| a == read));
    assert_eq!(reader.temps(), Temps { cpu_c: 0, gpu_c: 38 });
}

#[test]
fn failed_readings_keep_the_last_values() {
    let mut system = amd_system();
    let reader = read_until_sleeps(Reader::new(), &mut system, 1);
    assert_eq!(reader.temps(), Temps { cpu_c: 62, gpu_c: 38 });
    let mut gone = System::new();
    let reader = read_until_sleeps(reader, &mut gone, 2);
    assert_eq!(reader.temps(), Temps { cpu_c: 62, gpu_c: 38 });
}

#[test]
fn without_a_cpu_sensor_the_gpu_is_read() {
    let mut system = System::new().smi(true, "47\n");
    let reader = read_until_sleeps(Reader::new(), &mut system, 1);
    assert_eq!(reader.temps(), Temps { cpu_c: 0, gpu_c: 47 });
    assert_eq!(
        system.asked,
        vec![
            "list /sys/class/hwmon",
            "run nvidia-smi --query-gpu=temperature.gpu --format=csv,noheader,nounits",
        ]
    );
}

#[test]
fn cpu_value_is_taken_over_before_the_gpu_is_asked() {
    let mut system = amd_system();
    let mut reader = Reader::new();
    while !matches!(reader.request(), Request::Run(_)) {
        let reply = system.answer(reader.request());
        reader = reader.step(reply);
    }
    assert_eq!(reader.temps(), Temps { cpu_c: 62, gpu_c: 0 });
}

#[test]
fn reply_of_another_kind_counts_as_failure() {
    let scan = hwmon_dirs().step(Reply::Slept);
    assert!(scan.request().is_none());
    assert!(scan.found.is_empty());
}

#[test]
fn comes_to_a_wait_whatever_is_answered() {
    let mut reader = Reader::new();
    let mut steps = 0;
    while !matches!(reader.request(), Request::Sleep(_)) {
        reader = reader.step(Reply::Slept);
        steps += 1;
        assert!(steps < 10);
    }
    assert_eq!(reader.temps(), Temps { cpu_c: 0, gpu_c: 0 });
}

#[test]
fn search_ends_while_the_system_changes() {
    let mut before = amd_system();
    let mut after = System::new();
    for switch in 0..9 {
        let mut search = find_cpu_sensor();
        let mut steps = 0;
        while let Some(request) = search.request() {
            let reply = if steps < switch {
                before.answer(request)
            } else {
                after.answer(request)
            };
            search = search.step(reply);
            steps += 1;
            assert!(steps < 20);
        }
    }
}
