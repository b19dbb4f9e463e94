//! The command line.

use crate::decimal::{decimal_of, decimal_text, int_error_text, parse_u64, u64_of, IntError};
use crate::text::{same_text, starts_with};
use vstd::prelude::*;

verus! {

/// The node to write to, unless the command line names one.
pub const DEFAULT_DEVICE: &'static str = "/dev/vevor_lcd";

/// Milliseconds between frames, unless the command line says so.
pub const DEFAULT_INTERVAL_MS: u64 = 200;

/// From this many milliseconds of silence on the device blanks itself.
pub const WATCHDOG_MS: u64 = 1000;

/// What the program is to do.
pub struct Args {
    /// The node to write to.
    pub device: String,
    /// Milliseconds between frames.
    pub interval_ms: u64,
}

/// What a command line asks for.
pub enum Invocation {
    /// To show the help text.
    Help,
    /// To drive the display.
    Run(Args),
}

/// What is wrong with a command line.
pub enum ArgError {
    /// `--device` is the last argument.
    DeviceValue,
    /// `--interval` is the last argument.
    IntervalValue,
    /// The interval is no number.
    IntervalNumber(IntError),
    /// The interval is zero, or too long for the device.
    IntervalRange(u64),
    /// An argument has no meaning.
    Unknown(String),
}

/// What a command line asks for, as values.
pub ghost enum InvocationView {
    /// To show the help text.
    Help,
    /// To drive the display.
    Run { device: Seq<char>, interval_ms: u64 },
}

/// What is wrong with a command line, as values.
pub ghost enum ArgErrorView {
    /// `--device` is the last argument.
    DeviceValue,
    /// `--interval` is the last argument.
    IntervalValue,
    /// The interval is no number.
    IntervalNumber(IntError),
    /// The interval is zero, or too long for the device.
    IntervalRange(u64),
    /// An argument has no meaning.
    Unknown(Seq<char>),
}

impl View for Invocation {
    type V = InvocationView;

    open spec fn view(&self) -> InvocationView {
        match self {
            Invocation::Help => InvocationView::Help,
            Invocation::Run(args) => InvocationView::Run {
                device: args.device@,
                interval_ms: args.interval_ms,
            },
        }
    }
}

impl View for ArgError {
    type V = ArgErrorView;

    open spec fn view(&self) -> ArgErrorView {
        match self {
            ArgError::DeviceValue => ArgErrorView::DeviceValue,
            ArgError::IntervalValue => ArgErrorView::IntervalValue,
            ArgError::IntervalNumber(e) => ArgErrorView::IntervalNumber(*e),
            ArgError::IntervalRange(ms) => ArgErrorView::IntervalRange(*ms),
            ArgError::Unknown(arg) => ArgErrorView::Unknown(arg@),
        }
    }
}

/// The contents of a list of arguments.
pub open spec fn args_of(v: Seq<String>) -> Seq<Seq<char>> {
    v.map_values(|a: String| a@)
}

/// What the arguments `args` ask for, where `device` and `ms` hold until an
/// argument sets them. Arguments are read from the left. The first request for
/// help or error decides, and a later value takes the place of an earlier one.
pub open spec fn meaning_from(args: Seq<Seq<char>>, device: Seq<char>, ms: u64) -> Result<
    InvocationView,
    ArgErrorView,
>
    decreases args.len(),
{
    if args.len() == 0 {
        if 1 <= ms < WATCHDOG_MS {
            Ok(InvocationView::Run { device, interval_ms: ms })
        } else {
            Err(ArgErrorView::IntervalRange(ms))
        }
    } else {
        let arg = args.first();
        let rest = args.drop_first();
        if arg == "-h"@ || arg == "--help"@ {
            Ok(InvocationView::Help)
        } else if arg == "--device"@ {
            if rest.len() == 0 {
                Err(ArgErrorView::DeviceValue)
            } else {
                meaning_from(rest.drop_first(), rest.first(), ms)
            }
        } else if "--device="@.is_prefix_of(arg) {
            meaning_from(rest, arg.skip("--device="@.len() as int), ms)
        } else if arg == "--interval"@ {
            if rest.len() == 0 {
                Err(ArgErrorView::IntervalValue)
            } else {
                match u64_of(rest.first()) {
                    Ok(v) => meaning_from(rest.drop_first(), device, v),
                    Err(e) => Err(ArgErrorView::IntervalNumber(e)),
                }
            }
        } else if "--interval="@.is_prefix_of(arg) {
            match u64_of(arg.skip("--interval="@.len() as int)) {
                Ok(v) => meaning_from(rest, device, v),
                Err(e) => Err(ArgErrorView::IntervalNumber(e)),
            }
        } else {
            Err(ArgErrorView::Unknown(arg))
        }
    }
}

/// What the arguments `args` ask for.
pub open spec fn meaning(args: Seq<Seq<char>>) -> Result<InvocationView, ArgErrorView> {
    meaning_from(args, DEFAULT_DEVICE@, DEFAULT_INTERVAL_MS)
}

/// Whether arguments after `args` no longer matter: help was asked for, or an
/// argument is wrong in itself.
pub open spec fn settled(args: Seq<Seq<char>>) -> bool {
    match meaning(args) {
        Ok(InvocationView::Help) => true,
        Err(ArgErrorView::IntervalNumber(e)) => true,
        Err(ArgErrorView::Unknown(arg)) => true,
        _ => false,
    }
}

/// What is said of a wrong command line.
pub open spec fn error_text(e: ArgErrorView) -> Seq<char> {
    match e {
        ArgErrorView::DeviceValue => "--device requires a value"@,
        ArgErrorView::IntervalValue => "--interval requires a value (ms)"@,
        ArgErrorView::IntervalNumber(e) => "--interval: "@ + int_error_text(e),
        ArgErrorView::IntervalRange(ms) =>
            "--interval must be 1..999 ms (device watchdog blanks at ~1 s); got "@ + decimal_of(
            ms as nat,
        ),
        ArgErrorView::Unknown(arg) => "unknown argument: "@ + arg,
    }
}

/// The help text of a program that was called by the name `prog`.
pub open spec fn help_of(prog: Seq<char>) -> Seq<char> {
    "vevor-lcd — minimal driver for the VEVOR segmented-LCD AIO (5131:2007)\n\nUsage: "@ + prog
        + " [--device PATH] [--interval MS]\n\nOptions:\n--device PATH   hidraw node to write (default: "@
        + DEFAULT_DEVICE@ + ")\n--interval MS   milliseconds between frames (default: "@
        + decimal_of(DEFAULT_INTERVAL_MS as nat)
        + ";\nmust be 1..999 because the device watchdog blanks\nthe LCD after ~1 s of silence)\n-h, --help      show this help and exit\n"@
}

/// `s` without its first `n` characters.
fn after(s: &str, n: usize) -> (r: String)
    requires
        n <= s@.len(),
    ensures
        r@ == s@.skip(n as int),
{
    s.substring_char(n, s.unicode_len()).to_owned()
}

/// What the arguments `args` ask for. The name of the program is none of them.
pub fn interpret_args(args: &Vec<String>) -> (r: Result<Invocation, ArgError>)
    ensures
        match meaning(args_of(args@)) {
            Ok(invocation) => r matches Ok(i) && i@ == invocation,
            Err(error) => r matches Err(e) && e@ == error,
        },
        r matches Ok(Invocation::Run(a)) ==> 1 <= a.interval_ms <= 999,
{
    let ghost all = args_of(args@);
    let n: usize = args.len();
    let mut device: String = DEFAULT_DEVICE.to_owned();
    let mut interval_ms: u64 = DEFAULT_INTERVAL_MS;
    let mut i: usize = 0;
    assert(all.skip(0) == all);
    while i < n
        invariant
            n == args@.len(),
            i <= n,
            all == args_of(args@),
            meaning(all) == meaning_from(all.skip(i as int), device@, interval_ms),
        decreases n - i,
    {
        let arg: &str = args[i].as_str();
        assert(all.skip(i as int).first() == arg@);
        assert(all.skip(i as int).drop_first() == all.skip(i + 1));
        assert(i + 1 < n ==> all.skip(i + 1).first() == args@[i + 1]@);
        assert(i + 1 < n ==> all.skip(i + 1).drop_first() == all.skip(i + 2));
        i += 1;
        if same_text(arg, "-h") || same_text(arg, "--help") {
            return Ok(Invocation::Help);
        } else if same_text(arg, "--device") {
            if i >= n {
                return Err(ArgError::DeviceValue);
            }
            device = args[i].clone();
            i += 1;
        } else if starts_with(arg, "--device=") {
            device = after(arg, "--device=".unicode_len());
        } else if same_text(arg, "--interval") {
            if i >= n {
                return Err(ArgError::IntervalValue);
            }
            match parse_u64(args[i].as_str()) {
                Ok(v) => {
                    interval_ms = v;
                },
                Err(e) => {
                    return Err(ArgError::IntervalNumber(e));
                },
            }
            i += 1;
        } else if starts_with(arg, "--interval=") {
            let value = after(arg, "--interval=".unicode_len());
            match parse_u64(value.as_str()) {
                Ok(v) => {
                    interval_ms = v;
                },
                Err(e) => {
                    return Err(ArgError::IntervalNumber(e));
                },
            }
        } else {
            return Err(ArgError::Unknown(arg.to_owned()));
        }
    }
    if interval_ms == 0 || interval_ms >= WATCHDOG_MS {
        return Err(ArgError::IntervalRange(interval_ms));
    }
    Ok(Invocation::Run(Args { device, interval_ms }))
}

impl ArgError {
    /// What is said of the wrong command line.
    pub fn message(&self) -> (r: String)
        ensures
            r@ == error_text(self@),
    {
        match self {
            ArgError::DeviceValue => "--device requires a value".to_owned(),
            ArgError::IntervalValue => "--interval requires a value (ms)".to_owned(),
            ArgError::IntervalNumber(e) => {
                let mut r: String = "--interval: ".to_owned();
                r.append(e.text());
                r
            },
            ArgError::IntervalRange(ms) => {
                let mut r: String =
                    "--interval must be 1..999 ms (device watchdog blanks at ~1 s); got ".to_owned();
                r.append(decimal_text(*ms).as_str());
                r
            },
            ArgError::Unknown(arg) => {
                let mut r: String = "unknown argument: ".to_owned();
                r.append(arg.as_str());
                r
            },
        }
    }
}

/// What the arguments `args` ask for, or what is to be said of them.
pub fn parse_args(args: &Vec<String>) -> (r: Result<Invocation, String>)
    ensures
        match meaning(args_of(args@)) {
            Ok(invocation) => r matches Ok(i) && i@ == invocation,
            Err(error) => r matches Err(m) && m@ == error_text(error),
        },
        r matches Ok(Invocation::Run(a)) ==> 1 <= a.interval_ms <= 999,
{
    match interpret_args(args) {
        Ok(invocation) => Ok(invocation),
        Err(error) => Err(error.message()),
    }
}

/// Whether arguments after `args` no longer matter, so that none need be read.
pub fn is_settled(args: &Vec<String>) -> (r: bool)
    ensures
        r == settled(args_of(args@)),
{
    match interpret_args(args) {
        Ok(Invocation::Help) => true,
        Err(ArgError::IntervalNumber(_)) => true,
        Err(ArgError::Unknown(_)) => true,
        _ => false,
    }
}

/// The help text. `prog` is the name by which the program was called, if it
/// is known.
pub fn help_text(prog: Option<&str>) -> (r: String)
    ensures
        r@ == help_of(
            match prog {
                Some(p) => p@,
                None => "vevor-lcd"@,
            },
        ),
{
    let mut r: String =
        "vevor-lcd — minimal driver for the VEVOR segmented-LCD AIO (5131:2007)\n\nUsage: ".to_owned();
    match prog {
        Some(p) => r.append(p),
        None => r.append("vevor-lcd"),
    }
    r.append(
        " [--device PATH] [--interval MS]\n\nOptions:\n--device PATH   hidraw node to write (default: ",
    );
    r.append(DEFAULT_DEVICE);
    r.append(")\n--interval MS   milliseconds between frames (default: ");
    r.append(decimal_text(DEFAULT_INTERVAL_MS).as_str());
    r.append(
        ";\nmust be 1..999 because the device watchdog blanks\nthe LCD after ~1 s of silence)\n-h, --help      show this help and exit\n",
    );
    r
}

proof fn lemma_option_texts()
    ensures
        "-h"@.len() == 2,
        "--help"@.len() == 6,
        "--device"@.len() == 8,
        "--device="@.len() == 9,
        "--interval"@.len() == 10,
        "--interval="@.len() == 11,
        "--help"@[2] == 'h',
        "--device"@[2] == 'd',
        "--device="@[2] == 'd',
        "--device="@[8] == '=',
        "--interval"@[2] == 'i',
        "--interval="@[2] == 'i',
        "--interval="@[10] == '=',
{
    reveal_strlit("-h");
    reveal_strlit("--help");
    reveal_strlit("--device");
    reveal_strlit("--device=");
    reveal_strlit("--interval");
    reveal_strlit("--interval=");
}

/// Without arguments the defaults hold.
pub proof fn law_no_arguments()
    ensures
        meaning(Seq::empty()) == Ok::<InvocationView, ArgErrorView>(
            InvocationView::Run { device: DEFAULT_DEVICE@, interval_ms: DEFAULT_INTERVAL_MS },
        ),
{
}

/// The display is only ever driven at an interval of 1 to 999 ms, which is
/// shorter than the silence after which the device blanks itself.
pub proof fn law_interval_below_watchdog(args: Seq<Seq<char>>, device: Seq<char>, ms: u64)
    ensures
        meaning_from(args, device, ms) matches Ok(InvocationView::Run { device: d, interval_ms })
            ==> 1 <= interval_ms <= 999,
    decreases args.len(),
{
    if args.len() > 0 {
        let arg = args.first();
        let rest = args.drop_first();
        law_interval_below_watchdog(rest, device, ms);
        law_interval_below_watchdog(rest, arg.skip("--device="@.len() as int), ms);
        if let Ok(v) = u64_of(arg.skip("--interval="@.len() as int)) {
            law_interval_below_watchdog(rest, device, v);
        }
        if rest.len() > 0 {
            law_interval_below_watchdog(rest.drop_first(), rest.first(), ms);
            if let Ok(v) = u64_of(rest.first()) {
                law_interval_below_watchdog(rest.drop_first(), device, v);
            }
        }
    }
}

/// An interval that is written as a number is used if it is 1 to 999 ms, and
/// refused with that number otherwise.
pub proof fn law_interval_as_written(ms: u64)
    ensures
        meaning(seq!["--interval"@, decimal_of(ms as nat)]) == if 1 <= ms <= 999 {
            Ok::<InvocationView, ArgErrorView>(
                InvocationView::Run { device: DEFAULT_DEVICE@, interval_ms: ms },
            )
        } else {
            Err(ArgErrorView::IntervalRange(ms))
        },
{
    let none = Seq::<Seq<char>>::empty();
    let value = decimal_of(ms as nat);
    crate::decimal::law_decimal_round_trip(ms);
    law_interval_forms_agree(value, none, DEFAULT_DEVICE@, DEFAULT_INTERVAL_MS);
    assert(seq!["--interval"@, value] + none == seq!["--interval"@, value]);
}

/// `--device=PATH` means the same as `--device PATH`.
pub proof fn law_device_forms_agree(
    value: Seq<char>,
    rest: Seq<Seq<char>>,
    device: Seq<char>,
    ms: u64,
)
    ensures
        meaning_from(seq!["--device="@ + value] + rest, device, ms) == meaning_from(
            seq!["--device"@, value] + rest,
            device,
            ms,
        ),
        meaning_from(seq!["--device"@, value] + rest, device, ms) == meaning_from(rest, value, ms),
{
    lemma_option_texts();
    let arg = "--device="@ + value;
    let one = seq![arg] + rest;
    let two = seq!["--device"@, value] + rest;
    assert(arg[2] == 'd');
    assert(arg[8] == '=');
    assert("--device="@.is_prefix_of(arg));
    assert(arg.skip(9) == value);
    assert(one.drop_first() == rest);
    assert(two.first() == "--device"@);
    assert(two.drop_first().first() == value);
    assert(two.drop_first().drop_first() == rest);
}

/// `--interval=MS` means the same as `--interval MS`.
pub proof fn law_interval_forms_agree(
    value: Seq<char>,
    rest: Seq<Seq<char>>,
    device: Seq<char>,
    ms: u64,
)
    ensures
        meaning_from(seq!["--interval="@ + value] + rest, device, ms) == meaning_from(
            seq!["--interval"@, value] + rest,
            device,
            ms,
        ),
        meaning_from(seq!["--interval"@, value] + rest, device, ms) == match u64_of(value) {
            Ok(v) => meaning_from(rest, device, v),
            Err(e) => Err(ArgErrorView::IntervalNumber(e)),
        },
{
    lemma_option_texts();
    let arg = "--interval="@ + value;
    let one = seq![arg] + rest;
    let two = seq!["--interval"@, value] + rest;
    assert(arg[2] == 'i');
    assert(arg[10] == '=');
    assert(arg.subrange(0, 9)[2] == 'i');
    assert(two.first().subrange(0, 9)[2] == 'i');
    assert("--interval="@.is_prefix_of(arg));
    assert(arg.skip(11) == value);
    assert(one.drop_first() == rest);
    assert(two.first() == "--interval"@);
    assert(two.drop_first().first() == value);
    assert(two.drop_first().drop_first() == rest);
}

/// A request for help is answered whatever comes after it.
pub proof fn law_help_ends_reading(rest: Seq<Seq<char>>, device: Seq<char>, ms: u64)
    ensures
        meaning_from(seq!["-h"@] + rest, device, ms) == Ok::<InvocationView, ArgErrorView>(
            InvocationView::Help,
        ),
        meaning_from(seq!["--help"@] + rest, device, ms) == Ok::<InvocationView, ArgErrorView>(
            InvocationView::Help,
        ),
{
}

proof fn lemma_settled(args: Seq<Seq<char>>, more: Seq<Seq<char>>, device: Seq<char>, ms: u64)
    requires
        match meaning_from(args, device, ms) {
            Ok(InvocationView::Help) => true,
            Err(ArgErrorView::IntervalNumber(e)) => true,
            Err(ArgErrorView::Unknown(arg)) => true,
            _ => false,
        },
    ensures
        meaning_from(args + more, device, ms) == meaning_from(args, device, ms),
    decreases args.len(),
{
    let arg = args.first();
    let rest = args.drop_first();
    assert((args + more).first() == arg);
    assert((args + more).drop_first() == rest + more);
    if rest.len() > 0 {
        assert((rest + more).first() == rest.first());
        assert((rest + more).drop_first() == rest.drop_first() + more);
    }
    if arg == "-h"@ || arg == "--help"@ {
    } else if arg == "--device"@ {
        lemma_settled(rest.drop_first(), more, rest.first(), ms);
    } else if "--device="@.is_prefix_of(arg) {
        lemma_settled(rest, more, arg.skip("--device="@.len() as int), ms);
    } else if arg == "--interval"@ {
        if let Ok(v) = u64_of(rest.first()) {
            lemma_settled(rest.drop_first(), more, device, v);
        }
    } else if "--interval="@.is_prefix_of(arg) {
        if let Ok(v) = u64_of(arg.skip("--interval="@.len() as int)) {
            lemma_settled(rest, more, device, v);
        }
    }
}

/// Once the arguments have settled what is asked for, whatever comes after them
/// changes nothing.
pub proof fn law_settled_stays(args: Seq<Seq<char>>, more: Seq<Seq<char>>)
    requires
        settled(args),
    ensures
        meaning(args + more) == meaning(args),
        settled(args + more),
{
    lemma_settled(args, more, DEFAULT_DEVICE@, DEFAULT_INTERVAL_MS);
}

/// Where no arguments are left, the display is driven with exactly the device and the
/// interval that hold, if the interval is 1 to 999 ms. Any other interval is
/// refused with its number, whatever the device.
pub proof fn law_end_of_arguments(device: Seq<char>, ms: u64)
    ensures
        1 <= ms <= 999 ==> meaning_from(Seq::empty(), device, ms) == Ok::<
            InvocationView,
            ArgErrorView,
        >(InvocationView::Run { device, interval_ms: ms }),
        !(1 <= ms <= 999) ==> meaning_from(Seq::empty(), device, ms) == Err::<
            InvocationView,
            ArgErrorView,
        >(ArgErrorView::IntervalRange(ms)),
{
}

/// A command line is read with `/dev/vevor_lcd` and 200 ms until it says otherwise.
pub proof fn law_defaults_hold(args: Seq<Seq<char>>)
    ensures
        meaning(args) == meaning_from(args, "/dev/vevor_lcd"@, 200),
{
}

/// A device and an interval of 1 to 999 ms are used as they are given, both of them,
/// in either order and in either form.
pub proof fn law_device_and_interval(d: Seq<char>, ms: u64)
    requires
        1 <= ms <= 999,
    ensures
        ({
            let n = decimal_of(ms as nat);
            let run = Ok::<InvocationView, ArgErrorView>(
                InvocationView::Run { device: d, interval_ms: ms },
            );
            &&& meaning(seq!["--device"@, d, "--interval"@, n]) == run
            &&& meaning(seq!["--interval"@, n, "--device"@, d]) == run
            &&& meaning(seq!["--device="@ + d, "--interval="@ + n]) == run
            &&& meaning(seq!["--interval="@ + n, "--device="@ + d]) == run
            &&& meaning(seq!["--device="@ + d, "--interval"@, n]) == run
            &&& meaning(seq!["--interval="@ + n, "--device"@, d]) == run
            &&& meaning(seq!["--device"@, d, "--interval="@ + n]) == run
            &&& meaning(seq!["--interval"@, n, "--device="@ + d]) == run
        }),
{
    let n = decimal_of(ms as nat);
    let none = Seq::<Seq<char>>::empty();
    let dev = DEFAULT_DEVICE@;
    let usual = DEFAULT_INTERVAL_MS;
    crate::decimal::law_decimal_round_trip(ms);
    law_end_of_arguments(d, ms);
    let d2 = seq!["--device"@, d];
    let d1 = seq!["--device="@ + d];
    let i2 = seq!["--interval"@, n];
    let i1 = seq!["--interval="@ + n];
    assert(d2 + none == d2);
    assert(d1 + none == d1);
    assert(i2 + none == i2);
    assert(i1 + none == i1);
    law_device_forms_agree(d, none, dev, ms);
    law_interval_forms_agree(n, none, d, usual);
    law_device_forms_agree(d, i1, dev, usual);
    law_device_forms_agree(d, i2, dev, usual);
    law_interval_forms_agree(n, d1, dev, usual);
    law_interval_forms_agree(n, d2, dev, usual);
    assert(d2 + i2 == seq!["--device"@, d, "--interval"@, n]);
    assert(i2 + d2 == seq!["--interval"@, n, "--device"@, d]);
    assert(d1 + i1 == seq!["--device="@ + d, "--interval="@ + n]);
    assert(i1 + d1 == seq!["--interval="@ + n, "--device="@ + d]);
    assert(d1 + i2 == seq!["--device="@ + d, "--interval"@, n]);
    assert(i1 + d2 == seq!["--interval="@ + n, "--device"@, d]);
    assert(d2 + i1 == seq!["--device"@, d, "--interval="@ + n]);
    assert(i2 + d1 == seq!["--interval"@, n, "--device="@ + d]);
}

/// An option that is the last argument, so that its value is missing, is an error of its
/// own.
pub proof fn law_missing_value(device: Seq<char>, ms: u64)
    ensures
        meaning_from(seq!["--device"@], device, ms) == Err::<InvocationView, ArgErrorView>(
            ArgErrorView::DeviceValue,
        ),
        meaning_from(seq!["--interval"@], device, ms) == Err::<InvocationView, ArgErrorView>(
            ArgErrorView::IntervalValue,
        ),
{
    lemma_option_texts();
    let arg = "--interval"@;
    assert(arg.subrange(0, 9)[2] == 'i');
    assert(seq!["--device"@].drop_first() == Seq::<Seq<char>>::empty());
    assert(seq!["--interval"@].drop_first() == Seq::<Seq<char>>::empty());
}

/// An argument that is no option is refused with its text, whatever comes after
/// it.
pub proof fn law_unknown_argument(
    arg: Seq<char>,
    rest: Seq<Seq<char>>,
    device: Seq<char>,
    ms: u64,
)
    requires
        arg != "-h"@,
        arg != "--help"@,
        arg != "--device"@,
        arg != "--interval"@,
        !"--device="@.is_prefix_of(arg),
        !"--interval="@.is_prefix_of(arg),
    ensures
        meaning_from(seq![arg] + rest, device, ms) == Err::<InvocationView, ArgErrorView>(
            ArgErrorView::Unknown(arg),
        ),
{
    assert((seq![arg] + rest).first() == arg);
}

/// Arguments that settle nothing, and what one more argument makes of them.
proof fn lemma_unsettled(args: Seq<Seq<char>>, device: Seq<char>, ms: u64)
    ensures
        match meaning_from(args, device, ms) {
            Ok(InvocationView::Run { device: d, interval_ms }) => meaning_from(
                args + seq!["1"@],
                device,
                ms,
            ) is Err,
            Err(ArgErrorView::IntervalRange(v)) => meaning_from(
                args + seq!["1"@],
                device,
                ms,
            ) == Err::<InvocationView, ArgErrorView>(ArgErrorView::Unknown("1"@)),
            Err(ArgErrorView::DeviceValue) => meaning_from(
                args + seq!["1"@],
                device,
                ms,
            ) != meaning_from(args, device, ms),
            Err(ArgErrorView::IntervalValue) => meaning_from(
                args + seq!["1"@],
                device,
                ms,
            ) != meaning_from(args, device, ms),
            _ => true,
        },
    decreases args.len(),
{
    reveal_strlit("1");
    lemma_option_texts();
    let more = seq!["1"@];
    let none = Seq::<Seq<char>>::empty();
    if args.len() == 0 {
        assert(args + more == more + none);
        law_unknown_argument("1"@, none, device, ms);
    } else {
        let arg = args.first();
        let rest = args.drop_first();
        assert((args + more).first() == arg);
        assert((args + more).drop_first() == rest + more);
        if rest.len() > 0 {
            assert((rest + more).first() == rest.first());
            assert((rest + more).drop_first() == rest.drop_first() + more);
        } else {
            assert((rest + more).first() == "1"@);
            assert((rest + more).drop_first() == none);
            crate::decimal::law_u64_next_digit(Seq::empty(), '1');
            assert("1"@ == seq!['1']);
            law_end_of_arguments("1"@, ms);
            law_end_of_arguments(device, 1);
        }
        if arg == "-h"@ || arg == "--help"@ {
        } else if arg == "--device"@ {
            if rest.len() > 0 {
                lemma_unsettled(rest.drop_first(), rest.first(), ms);
            }
        } else if "--device="@.is_prefix_of(arg) {
            lemma_unsettled(rest, arg.skip("--device="@.len() as int), ms);
        } else if arg == "--interval"@ {
            if rest.len() > 0 {
                if let Ok(v) = u64_of(rest.first()) {
                    lemma_unsettled(rest.drop_first(), device, v);
                }
            }
        } else if "--interval="@.is_prefix_of(arg) {
            if let Ok(v) = u64_of(arg.skip("--interval="@.len() as int)) {
                lemma_unsettled(rest, device, v);
            }
        }
    }
}

/// Arguments have settled what is asked for exactly if no arguments after them can
/// change it.
pub proof fn law_settled_exact(args: Seq<Seq<char>>)
    ensures
        settled(args) <==> forall|more: Seq<Seq<char>>| #[trigger]
            meaning(args + more) == meaning(args),
{
    if settled(args) {
        assert forall|more: Seq<Seq<char>>| #[trigger] meaning(args + more) == meaning(args) by {
            law_settled_stays(args, more);
        }
    } else {
        lemma_unsettled(args, DEFAULT_DEVICE@, DEFAULT_INTERVAL_MS);
        assert(meaning(args + seq!["1"@]) != meaning(args));
    }
}

/// What is said of a wrong command line: the words for the error, and with them the
/// number or the argument that is wrong, in full.
pub proof fn law_error_texts(arg: Seq<char>, ms: u64, e: IntError)
    ensures
        error_text(ArgErrorView::DeviceValue) == "--device requires a value"@,
        error_text(ArgErrorView::IntervalValue) == "--interval requires a value (ms)"@,
        error_text(ArgErrorView::IntervalNumber(e)) == "--interval: "@ + match e {
            IntError::Empty => "cannot parse integer from empty string"@,
            IntError::InvalidDigit => "invalid digit found in string"@,
            IntError::PosOverflow => "number too large to fit in target type"@,
        },
        error_text(ArgErrorView::IntervalRange(ms))
            == "--interval must be 1..999 ms (device watchdog blanks at ~1 s); got "@ + decimal_of(
            ms as nat,
        ),
        error_text(ArgErrorView::Unknown(arg)) == "unknown argument: "@ + arg,
{
}

/// The help texts of a program under two names differ in the name only, which
/// stands in both behind the same words.
pub proof fn law_help_names_program(prog: Seq<char>, other: Seq<char>)
    ensures
        ({
            let n =
                "vevor-lcd — minimal driver for the VEVOR segmented-LCD AIO (5131:2007)\n\nUsage: "@.len() as int;
            help_of(prog) == help_of(other).take(n) + prog + help_of(other).skip(n + other.len())
        }),
{
    let front =
        "vevor-lcd — minimal driver for the VEVOR segmented-LCD AIO (5131:2007)\n\nUsage: "@;
    let end = help_of(Seq::empty()).skip(front.len() as int);
    lemma_help_parts(prog);
    lemma_help_parts(other);
    assert(help_of(other).take(front.len() as int) == front);
    assert(help_of(other).skip(front.len() + other.len() as int) == end);
}

proof fn lemma_help_parts(prog: Seq<char>)
    ensures
        ({
            let front =
                "vevor-lcd — minimal driver for the VEVOR segmented-LCD AIO (5131:2007)\n\nUsage: "@;
            help_of(prog) == front + prog + help_of(Seq::empty()).skip(front.len() as int)
        }),
{
    let front =
        "vevor-lcd — minimal driver for the VEVOR segmented-LCD AIO (5131:2007)\n\nUsage: "@;
    let end = help_of(Seq::empty()).skip(front.len() as int);
    assert(help_of(prog) =~= front + prog + end);
}

/// The views of a command line's arguments, of what it asks for and of what is wrong
/// with it hold all that is in them.
pub proof fn law_contents_of_command_line(
    words: Seq<String>,
    args: Args,
    e: IntError,
    ms: u64,
    arg: String,
)
    ensures
        args_of(words).len() == words.len(),
        forall|i: int| 0 <= i < words.len() ==> #[trigger] args_of(words)[i] == words[i]@,
        Invocation::Help@ == InvocationView::Help,
        Invocation::Run(args)@ == (InvocationView::Run {
            device: args.device@,
            interval_ms: args.interval_ms,
        }),
        ArgError::DeviceValue@ == ArgErrorView::DeviceValue,
        ArgError::IntervalValue@ == ArgErrorView::IntervalValue,
        ArgError::IntervalNumber(e)@ == ArgErrorView::IntervalNumber(e),
        ArgError::IntervalRange(ms)@ == ArgErrorView::IntervalRange(ms),
        ArgError::Unknown(arg)@ == ArgErrorView::Unknown(arg@),
{
}

} // verus!
