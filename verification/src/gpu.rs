//! The GPU temperature: by `nvidia-smi`, or else by the `amdgpu` monitor.

use crate::hwmon::{
    find_named, first_input, first_named, first_temp_input, hwmon_dirs, hwmon_dirs_in,
    is_first_input_name, is_first_monitor, is_input_name, is_monitor, monitor_dir, HwmonScan,
    ScanView,
};
use crate::io::{advances, request_view, Reply, ReplyView, Request, RequestView, World};
use crate::names::{copy_of, name_le};
use crate::temps::{
    first_reading, nvidia_temp, read_gpu_temp, read_gpu_temp_amdgpu, read_gpu_temp_nvidia,
    sensor_temp,
};
use vstd::prelude::*;

verus! {

/// The command that reports the temperature of an NVIDIA GPU.
pub open spec fn nvidia_words() -> Seq<Seq<char>> {
    seq!["nvidia-smi"@, "--query-gpu=temperature.gpu"@, "--format=csv,noheader,nounits"@]
}

/// The temperature that the first monitor with the name `amdgpu` tells in its
/// first temperature file, where `mons` are the monitors.
pub open spec fn amdgpu_temp_of(mons: Seq<(Seq<char>, Seq<u8>)>, w: World) -> Option<u8> {
    match first_named(mons, "amdgpu"@) {
        Some(dir) => match first_input(dir, (w.listing)(dir)) {
            Some(path) => sensor_temp((w.text)(path)),
            None => None,
        },
        None => None,
    }
}

/// The temperature of an AMD GPU.
pub open spec fn amdgpu_temp_in(w: World) -> Option<u8> {
    amdgpu_temp_of(hwmon_dirs_in(w), w)
}

/// The GPU temperature.
pub open spec fn gpu_temp_in(w: World) -> Option<u8> {
    first_reading(nvidia_temp((w.run)(nvidia_words())), amdgpu_temp_in(w))
}

/// A reading of the GPU temperature. The monitors are looked up only where
/// the command has told nothing.
pub enum GpuRead {
    /// The command is to be run.
    Nvidia,
    /// The monitors are being looked up.
    Scan(HwmonScan),
    /// The temperature files of the monitor are to be listed.
    Inputs(Vec<u8>),
    /// The temperature file is to be read.
    Input(Vec<u8>),
    /// The reading has ended with a temperature, or with none.
    Done(Option<u8>),
}

/// A reading of the GPU temperature, as values.
pub ghost enum GpuView {
    /// The command is to be run.
    Nvidia,
    /// The monitors are being looked up.
    Scan(ScanView),
    /// The temperature files of the monitor are to be listed.
    Inputs(Seq<u8>),
    /// The temperature file is to be read.
    Input(Seq<u8>),
    /// The reading has ended with a temperature, or with none.
    Done(Option<u8>),
}

impl View for GpuRead {
    type V = GpuView;

    open spec fn view(&self) -> GpuView {
        match self {
            GpuRead::Nvidia => GpuView::Nvidia,
            GpuRead::Scan(scan) => GpuView::Scan(scan@),
            GpuRead::Inputs(dir) => GpuView::Inputs(dir@),
            GpuRead::Input(path) => GpuView::Input(path@),
            GpuRead::Done(result) => GpuView::Done(*result),
        }
    }
}

impl GpuView {
    /// What to ask next. Nothing, if the reading has ended.
    pub open spec fn request(self) -> Option<RequestView> {
        match self {
            GpuView::Nvidia => Some(RequestView::Run(nvidia_words())),
            GpuView::Scan(scan) => scan.request(),
            GpuView::Inputs(dir) => Some(RequestView::ListDir(dir)),
            GpuView::Input(path) => Some(RequestView::ReadFile(path)),
            GpuView::Done(result) => None,
        }
    }

    /// The reading after a reply.
    pub open spec fn step(self, reply: ReplyView) -> Self {
        match self {
            GpuView::Nvidia => match nvidia_temp(reply.output()) {
                Some(v) => GpuView::Done(Some(v)),
                None => GpuView::Scan(ScanView::start()),
            },
            GpuView::Scan(scan) => {
                let next = scan.step(reply);
                if next.request() is Some {
                    GpuView::Scan(next)
                } else {
                    match first_named(next.found, "amdgpu"@) {
                        Some(dir) => GpuView::Inputs(dir),
                        None => GpuView::Done(None),
                    }
                }
            },
            GpuView::Inputs(dir) => match first_input(dir, reply.listing()) {
                Some(path) => GpuView::Input(path),
                None => GpuView::Done(None),
            },
            GpuView::Input(path) => GpuView::Done(sensor_temp(reply.text())),
            GpuView::Done(result) => self,
        }
    }

    /// Whether this is a state that a reading can be in.
    pub open spec fn valid(self) -> bool {
        self matches GpuView::Scan(scan) ==> scan.request() is Some
    }

    /// What the reading will end with, in a world that stays as it is.
    pub open spec fn outcome(self, w: World) -> Option<u8> {
        match self {
            GpuView::Nvidia => gpu_temp_in(w),
            GpuView::Scan(scan) => amdgpu_temp_of(scan.outcome(w), w),
            GpuView::Inputs(dir) => match first_input(dir, (w.listing)(dir)) {
                Some(path) => sensor_temp((w.text)(path)),
                None => None,
            },
            GpuView::Input(path) => sensor_temp((w.text)(path)),
            GpuView::Done(result) => result,
        }
    }

    /// How many questions may be left, in a world that stays as it is.
    pub open spec fn remaining(self, w: World) -> nat {
        match self {
            GpuView::Nvidia => 3 + ScanView::start().remaining(w),
            GpuView::Scan(scan) => 2 + scan.remaining(w),
            GpuView::Inputs(dir) => 2,
            GpuView::Input(path) => 1,
            GpuView::Done(result) => 0,
        }
    }

    /// Where the reading is, counted down to 0 at its end.
    pub open spec fn stage(self) -> nat {
        match self {
            GpuView::Nvidia => 5,
            GpuView::Scan(scan) => 2 + scan.stage(),
            GpuView::Inputs(dir) => 2,
            GpuView::Input(path) => 1,
            GpuView::Done(result) => 0,
        }
    }

    /// How much there is to do in the stage that the reading is in.
    pub open spec fn work(self) -> nat {
        match self {
            GpuView::Scan(scan) => scan.todo.len(),
            _ => 0,
        }
    }

    /// The reading after each of its questions has been answered by `w`.
    pub open spec fn run(self, w: World) -> Self
        decreases self.remaining(w),
        when self.valid()
        via Self::run_ends
    {
        match self.request() {
            Some(request) => self.step(w.answer(request)).run(w),
            None => self,
        }
    }

    #[via_fn]
    proof fn run_ends(self, w: World) {
        if self.request() is Some {
            law_gpu_step(self, w);
        }
    }
}

/// Each answer of a world brings the reading nearer to its end, and to the
/// same temperature.
pub proof fn law_gpu_step(s: GpuView, w: World)
    requires
        s.valid(),
        s.request() is Some,
    ensures
        s.step(w.answer(s.request()->0)).valid(),
        s.step(w.answer(s.request()->0)).outcome(w) == s.outcome(w),
        s.step(w.answer(s.request()->0)).remaining(w) < s.remaining(w),
{
    match s {
        GpuView::Nvidia => {
            assert(ScanView::start().outcome(w) =~= hwmon_dirs_in(w));
        },
        GpuView::Scan(scan) => {
            crate::hwmon::law_scan_step(scan, w);
            let next = scan.step(w.answer(scan.request()->0));
            if next.request() is None {
                crate::hwmon::law_scan_end(next, w);
            }
        },
        _ => {},
    }
}

/// Whatever is answered, the reading goes on to a later stage, or stays in its
/// stage with less to do. So it ends, even where the system changes meanwhile.
pub proof fn law_gpu_always_advances(s: GpuView, reply: ReplyView)
    requires
        s.valid(),
        s.request() is Some,
    ensures
        advances((s.stage(), s.work()), (s.step(reply).stage(), s.step(reply).work())),
{
}

/// In a world that stays as it is, a reading whose questions are answered ends
/// with the outcome that its state determines.
pub proof fn law_gpu_run(s: GpuView, w: World)
    requires
        s.valid(),
    ensures
        s.run(w) == GpuView::Done(s.outcome(w)),
    decreases s.remaining(w),
{
    if let Some(request) = s.request() {
        law_gpu_step(s, w);
        law_gpu_run(s.step(w.answer(request)), w);
    }
}

/// In a world that stays as it is, a reading from the start ends with the GPU
/// temperature of that world.
pub proof fn law_reads_gpu_temp(w: World)
    ensures
        GpuView::Nvidia.run(w) == GpuView::Done(gpu_temp_in(w)),
{
    law_gpu_run(GpuView::Nvidia, w);
}

/// Where the command tells a temperature, nothing else is asked.
pub proof fn law_nvidia_first(reply: ReplyView)
    requires
        nvidia_temp(reply.output()) is Some,
    ensures
        GpuView::Nvidia.step(reply) == GpuView::Done(nvidia_temp(reply.output())),
        GpuView::Nvidia.step(reply).request() is None,
{
}

/// The words of the command.
fn nvidia_command() -> (r: Vec<String>)
    ensures
        r@.map_values(|s: String| s@) == nvidia_words(),
{
    let mut r: Vec<String> = Vec::new();
    r.push("nvidia-smi".to_owned());
    r.push("--query-gpu=temperature.gpu".to_owned());
    r.push("--format=csv,noheader,nounits".to_owned());
    assert(r@.map_values(|s: String| s@) =~= nvidia_words());
    r
}

impl GpuRead {
    /// Starts to read the GPU temperature.
    pub fn new() -> (r: Self)
        ensures
            r@ == GpuView::Nvidia,
            r@.valid(),
            forall|w: World| r@.outcome(w) == gpu_temp_in(w),
    {
        GpuRead::Nvidia
    }

    /// What to ask next. Nothing, if the reading has ended.
    pub fn request(&self) -> (r: Option<Request>)
        ensures
            self@.request() == request_view(r),
    {
        match self {
            GpuRead::Nvidia => Some(Request::Run(nvidia_command())),
            GpuRead::Scan(scan) => scan.request(),
            GpuRead::Inputs(dir) => Some(Request::ListDir(copy_of(dir.as_slice()))),
            GpuRead::Input(path) => Some(Request::ReadFile(copy_of(path.as_slice()))),
            GpuRead::Done(result) => None,
        }
    }

    /// Takes in the reply to the last request.
    pub fn step(self, reply: Reply) -> (r: Self)
        ensures
            r@ == self@.step(reply@),
            self@.valid() ==> r@.valid(),
    {
        match self {
            GpuRead::Nvidia => {
                let output = reply.output();
                let nvidia = read_gpu_temp_nvidia(output.as_ref());
                if nvidia.is_some() {
                    GpuRead::Done(read_gpu_temp(nvidia, None))
                } else {
                    GpuRead::Scan(hwmon_dirs())
                }
            },
            GpuRead::Scan(scan) => {
                let next = scan.step(reply);
                if next.request().is_some() {
                    GpuRead::Scan(next)
                } else {
                    match find_named(&next.found, "amdgpu") {
                        Some(dir) => GpuRead::Inputs(dir),
                        None => GpuRead::Done(read_gpu_temp(None, None)),
                    }
                }
            },
            GpuRead::Inputs(dir) => match first_temp_input(dir.as_slice(), reply.listing()) {
                Some(path) => GpuRead::Input(path),
                None => GpuRead::Done(read_gpu_temp(None, None)),
            },
            GpuRead::Input(path) => {
                let amdgpu = match reply.text() {
                    Some(text) => read_gpu_temp_amdgpu(Some(text.as_str())),
                    None => read_gpu_temp_amdgpu(None),
                };
                GpuRead::Done(read_gpu_temp(None, amdgpu))
            },
            GpuRead::Done(result) => GpuRead::Done(result),
        }
    }
}

/// Whether `path` is the file that tells the temperature of an AMD GPU: the first
/// temperature file of the first `amdgpu` monitor.
pub open spec fn is_gpu_file(w: World, path: Seq<u8>) -> bool {
    exists|entry: Seq<u8>, name: Seq<u8>| #[trigger]
        is_first_monitor(w, entry, "amdgpu"@) && (w.listing)(monitor_dir(entry)) is Some
            && #[trigger] is_first_input_name((w.listing)(monitor_dir(entry))->0, name) && path
            == monitor_dir(entry) + seq![0x2f] + name
}

/// In a world that stays as it is, a reading ends with what the command tells. Where
/// that is nothing, it ends with what the file of the AMD GPU tells, and with
/// nothing where there is no such file.
pub proof fn law_gpu_ends_with_temperature(w: World)
    ensures
        ({
            let words =
                seq!["nvidia-smi"@, "--query-gpu=temperature.gpu"@, "--format=csv,noheader,nounits"@];
            let end = GpuView::Nvidia.run(w);
            let told = nvidia_temp((w.run)(words));
            &&& GpuView::Nvidia.request() == Some(RequestView::Run(words))
            &&& end is Done
            &&& told is Some ==> end->Done_0 == told
            &&& told is None ==> {
                ||| exists|path: Seq<u8>| #[trigger]
                    is_gpu_file(w, path) && end->Done_0 == sensor_temp((w.text)(path))
                ||| end->Done_0 is None && forall|path: Seq<u8>| !is_gpu_file(w, path)
            }
        }),
{
    law_reads_gpu_temp(w);
    let name = "amdgpu"@;
    crate::hwmon::law_first_monitor(w, name);
    match first_named(hwmon_dirs_in(w), name) {
        Some(dir) => {
            let entry = choose|entry: Seq<u8>| #[trigger]
                is_first_monitor(w, entry, name) && dir == monitor_dir(entry);
            assert forall|other: Seq<u8>| #[trigger] is_first_monitor(w, other, name) implies other
                == entry by {
                assert(name_le(entry, other));
                assert(name_le(other, entry));
                crate::names::lemma_name_le_antisymmetric(entry, other);
            }
            if let Some(names) = (w.listing)(dir) {
                crate::hwmon::law_first_input_exact(dir, names);
                if let Some(path) = first_input(dir, Some(names)) {
                    let file = choose|file: Seq<u8>| #[trigger]
                        is_first_input_name(names, file) && path == dir + seq![0x2f] + file;
                    assert(is_first_monitor(w, entry, name) && is_first_input_name(
                        (w.listing)(monitor_dir(entry))->0,
                        file,
                    ));
                    assert(is_gpu_file(w, path));
                } else {
                    assert forall|file: Seq<u8>| !is_first_input_name(names, file) by {
                        assert(!is_input_name(names, file));
                    }
                }
            }
        },
        None => {
            assert forall|entry: Seq<u8>| !is_first_monitor(w, entry, name) by {
                assert(!is_monitor(w, entry, name));
            }
        },
    }
}

/// Where a listing and a file come in while the system changes, they count as they
/// are when they come in.
pub proof fn law_gpu_by_reply(dir: Seq<u8>, path: Seq<u8>, names: Seq<Seq<u8>>, text: Seq<char>)
    ensures
        GpuView::Inputs(dir).request() == Some(RequestView::ListDir(dir)),
        match GpuView::Inputs(dir).step(ReplyView::Listing(Some(names))) {
            GpuView::Input(file) => exists|name: Seq<u8>| #[trigger]
                is_first_input_name(names, name) && file == dir + seq![0x2f] + name,
            next => next == GpuView::Done(None) && forall|name: Seq<u8>|
                !is_input_name(names, name),
        },
        GpuView::Inputs(dir).step(ReplyView::Listing(None)) == GpuView::Done(None),
        GpuView::Input(path).request() == Some(RequestView::ReadFile(path)),
        GpuView::Input(path).step(ReplyView::Text(Some(text))) == GpuView::Done(
            sensor_temp(Some(text)),
        ),
        GpuView::Input(path).step(ReplyView::Text(None)) == GpuView::Done(None),
{
    crate::hwmon::law_first_input_exact(dir, names);
}

/// The view of a reading that has ended holds what it has ended with.
pub proof fn law_contents_of_gpu_end(value: Option<u8>, gpu: GpuRead)
    ensures
        GpuRead::Done(value)@ == GpuView::Done(value),
        gpu is Done <==> gpu@ is Done,
{
}

/// A run of the reading asks what the reading asks, goes on by the world's answer, and
/// ends when there is nothing to ask: when the reading has ended.
pub proof fn law_gpu_run_follows_steps(s: GpuView, w: World)
    requires
        s.valid(),
    ensures
        match s.request() {
            Some(request) => s.run(w) == s.step(w.answer(request)).run(w),
            None => s.run(w) == s && s is Done,
        },
{
}

} // verus!
