use vevor_lcd::cli::{help_text, interpret_args, is_settled, parse_args, ArgError, Invocation};
use vevor_lcd::decimal::IntError;

fn words(args: &[&str]) -> Vec<String> {
    args.iter().map(|a| a.to_string()).collect()
}

fn run(args: &[&str]) -> (String, u64) {
    match parse_args(&words(args)) {
        Ok(Invocation::Run(a)) => (a.device, a.interval_ms),
        Ok(Invocation::Help) => panic!("help"),
        Err(e) => panic!("{}", e),
    }
}

fn error(args: &[&str]) -> String {
    match parse_args(&words(args)) {
        Ok(_) => panic!("accepted"),
        Err(e) => e,
    }
}

fn is_help(args: &[&str]) -> bool {
    matches!(parse_args(&words(args)), Ok(Invocation::Help))
}

#[test]
fn defaults() {
    assert_eq!(run(&[]), ("/dev/vevor_lcd".to_string(), 200));
}

#[test]
fn device_option() {
    assert_eq!(run(&["--device", "/dev/hidraw3"]).0, "/dev/hidraw3");
    assert_eq!(run(&["--device=/dev/hidraw3"]).0, "/dev/hidraw3");
    assert_eq!(run(&["--device="]).0, "");
    assert_eq!(run(&["--device=a=b"]).0, "a=b");
    assert_eq!(run(&["--device=ä€"]).0, "ä€");
    assert_eq!(run(&["--device", "--help"]).0, "--help");
}

#[test]
fn interval_option() {
    assert_eq!(run(&["--interval", "500"]).1, 500);
    assert_eq!(run(&["--interval=500"]).1, 500);
    assert_eq!(run(&["--interval", "+5"]).1, 5);
    assert_eq!(run(&["--interval", "1"]).1, 1);
    assert_eq!(run(&["--interval", "999"]).1, 999);
}

#[test]
fn later_value_takes_the_place_of_earlier() {
    assert_eq!(
        run(&["--interval", "1", "--device=a", "--interval=2", "--device", "b"]),
        ("b".to_string(), 2)
    );
    assert_eq!(run(&["--interval=0", "--interval=7"]).1, 7);
}

#[test]
fn interval_out_of_range() {
    for (arg, shown) in [("0", "0"), ("1000", "1000"), ("18446744073709551615", "18446744073709551615")] {
        assert_eq!(
            error(&["--interval", arg]),
            format!(
                "--interval must be 1..999 ms (device watchdog blanks at ~1 s); got {shown}"
            )
        );
    }
}

#[test]
fn interval_not_a_number() {
    assert_eq!(
        error(&["--interval", ""]),
        "--interval: cannot parse integer from empty string"
    );
    assert_eq!(
        error(&["--interval="]),
        "--interval: cannot parse integer from empty string"
    );
    assert_eq!(
        error(&["--interval=2s"]),
        "--interval: invalid digit found in string"
    );
    assert_eq!(
        error(&["--interval", "-5"]),
        "--interval: invalid digit found in string"
    );
    assert_eq!(
        error(&["--interval", "18446744073709551616"]),
        "--interval: number too large to fit in target type"
    );
}

#[test]
fn missing_values() {
    assert_eq!(error(&["--device"]), "--device requires a value");
    assert_eq!(error(&["--interval"]), "--interval requires a value (ms)");
}

#[test]
fn unknown_arguments() {
    assert_eq!(error(&["-x"]), "unknown argument: -x");
    assert_eq!(error(&["--devices=a"]), "unknown argument: --devices=a");
    assert_eq!(error(&[""]), "unknown argument: ");
    assert_eq!(error(&["--device", "a", "b"]), "unknown argument: b");
}

#[test]
fn help_ends_reading() {
    assert!(is_help(&["-h"]));
    assert!(is_help(&["--help"]));
    assert!(is_help(&["--help", "--nonsense"]));
    assert!(is_help(&["--interval", "0", "-h"]));
    assert_eq!(error(&["--nonsense", "--help"]), "unknown argument: --nonsense");
    assert_eq!(
        error(&["--interval", "x", "-h"]),
        "--interval: invalid digit found in string"
    );
}

#[test]
fn typed_errors() {
    assert!(matches!(
        interpret_args(&words(&["--device"])),
        Err(ArgError::DeviceValue)
    ));
    assert!(matches!(
        interpret_args(&words(&["--interval"])),
        Err(ArgError::IntervalValue)
    ));
    assert!(matches!(
        interpret_args(&words(&["--interval=x"])),
        Err(ArgError::IntervalNumber(IntError::InvalidDigit))
    ));
    assert!(matches!(
        interpret_args(&words(&["--interval=1000"])),
        Err(ArgError::IntervalRange(1000))
    ));
    assert!(matches!(
        interpret_args(&words(&["what"])),
        Err(ArgError::Unknown(_))
    ));
}

#[test]
fn every_interval_as_written() {
    for ms in 0..1200u64 {
        let text = ms.to_string();
        let accepted = parse_args(&words(&["--interval", &text])).is_ok();
        assert_eq!(accepted, (1..1000).contains(&ms));
        if accepted {
            assert_eq!(run(&["--interval", &text]).1, ms);
            assert_eq!(run(&[&format!("--interval={text}")]).1, ms);
        }
    }
}

#[test]
fn help_text_exact() {
    let expected = "vevor-lcd — minimal driver for the VEVOR segmented-LCD AIO (5131:2007)\n\
         \n\
         Usage: /usr/bin/vevor-lcd [--device PATH] [--interval MS]\n\
         \n\
         Options:\n\
           --device PATH   hidraw node to write (default: /dev/vevor_lcd)\n\
           --interval MS   milliseconds between frames (default: 200;\n\
                           must be 1..999 because the device watchdog blanks\n\
                           the LCD after ~1 s of silence)\n\
           -h, --help      show this help and exit\n";
    assert_eq!(help_text(Some("/usr/bin/vevor-lcd")), expected);
}

#[test]
fn help_text_without_a_name() {
    assert!(help_text(None).contains("Usage: vevor-lcd [--device PATH]"));
}

#[test]
fn settled_arguments() {
    for args in [
        vec!["-h"],
        vec!["--device", "x", "--help"],
        vec!["--interval=x"],
        vec!["--interval", ""],
        vec!["what"],
    ] {
        assert!(is_settled(&words(&args)));
        let mut longer = args.clone();
        longer.extend(["--interval", "x", "-h", "what"]);
        assert!(is_settled(&words(&longer)));
        let short = interpret_args(&words(&args)).map_err(|e| e.message());
        let long = interpret_args(&words(&longer)).map_err(|e| e.message());
        assert_eq!(short.is_ok(), long.is_ok());
        assert_eq!(short.err(), long.err());
    }
    for args in [
        vec![],
        vec!["--device"],
        vec!["--interval"],
        vec!["--interval", "0"],
        vec!["--device=x"],
    ] {
        assert!(!is_settled(&words(&args)));
    }
}
