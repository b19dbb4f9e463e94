//! Temperatures: what sensors say, and what the display is to show.

use crate::decimal::{decimal_of, i32_of, is_digit, parse_i32};
use crate::text::{first_line, first_line_of, trim, trim_of, utf8_text, white_space};
use vstd::prelude::*;
use vstd::utf8::{decode_utf8, valid_utf8};

verus! {

/// The temperatures to show, in whole degrees Celsius.
#[derive(Clone, Copy, Debug, PartialEq, Eq, Structural)]
pub struct Temps {
    /// Temperature of the CPU.
    pub cpu_c: u8,
    /// Temperature of the GPU.
    pub gpu_c: u8,
}

/// What a command left behind when it ended.
pub struct CommandOutput {
    /// Whether its exit status reports success.
    pub success: bool,
    /// What it wrote to its standard output.
    pub stdout: Vec<u8>,
}

impl View for CommandOutput {
    type V = (bool, Seq<u8>);

    open spec fn view(&self) -> (bool, Seq<u8>) {
        (self.success, self.stdout@)
    }
}

/// The text that a reference may refer to.
pub open spec fn text_view(text: Option<&str>) -> Option<Seq<char>> {
    match text {
        Some(t) => Some(t@),
        None => None,
    }
}

/// The value in `0..=255` that is nearest to `v`.
pub open spec fn clamped(v: int) -> u8 {
    if v < 0 {
        0
    } else if v > 255 {
        255
    } else {
        v as u8
    }
}

/// Thousandths of a degree in whole degrees, rounded half up, as far as one byte goes.
/// The sum that rounds is a 32-bit one: a reading for which it wraps counts
/// as far below zero.
pub open spec fn whole_degrees(raw: i32) -> u8 {
    if raw + 500 > i32::MAX {
        0
    } else {
        clamped((raw + 500) / 1000)
    }
}

/// The number of thousandths of a degree that a sensor file holds, if it could be read
/// and holds a number.
pub open spec fn millidegrees_of(text: Option<Seq<char>>) -> Option<i32> {
    match text {
        Some(t) => i32_of(trim_of(t)),
        None => None,
    }
}

/// The temperature that a sensor file holds.
pub open spec fn sensor_temp(text: Option<Seq<char>>) -> Option<u8> {
    match millidegrees_of(text) {
        Some(raw) => Some(whole_degrees(raw)),
        None => None,
    }
}

/// The temperature that `nvidia-smi` reports: the number on the first line of
/// what it writes, if it could be run and succeeded.
pub open spec fn nvidia_temp(output: Option<(bool, Seq<u8>)>) -> Option<u8> {
    match output {
        Some((success, stdout)) => {
            if success && valid_utf8(stdout) {
                match first_line_of(decode_utf8(stdout)) {
                    Some(line) => match i32_of(trim_of(line)) {
                        Some(v) => Some(clamped(v as int)),
                        None => None,
                    },
                    None => None,
                }
            } else {
                None
            }
        },
        None => None,
    }
}

/// The reading to use of two, the first before the second.
pub open spec fn first_reading(first: Option<u8>, second: Option<u8>) -> Option<u8> {
    match first {
        Some(v) => Some(v),
        None => second,
    }
}

/// `temps` with the values that were read in place of the old ones.
pub open spec fn refreshed(temps: Temps, cpu: Option<u8>, gpu: Option<u8>) -> Temps {
    Temps {
        cpu_c: match cpu {
            Some(v) => v,
            None => temps.cpu_c,
        },
        gpu_c: match gpu {
            Some(v) => v,
            None => temps.gpu_c,
        },
    }
}

impl Temps {
    /// Zero for both, until something has been read.
    pub fn new() -> (r: Self)
        ensures
            r == (Temps { cpu_c: 0, gpu_c: 0 }),
    {
        Temps { cpu_c: 0, gpu_c: 0 }
    }
}

/// The value in `0..=255` that is nearest to `v`.
pub fn clamp_u8(v: i32) -> (r: u8)
    ensures
        r == clamped(v as int),
{
    if v < 0 {
        0
    } else if v > 255 {
        255
    } else {
        v as u8
    }
}

/// Thousandths of a degree in whole degrees, rounded, as far as one byte goes.
pub fn round_millidegrees(raw: i32) -> (r: u8)
    ensures
        r == whole_degrees(raw),
{
    let sum: i32 = raw.wrapping_add(500);
    if sum < 0 {
        0
    } else {
        clamp_u8(sum / 1000)
    }
}

/// The number of thousandths of a degree that a sensor file holds. `text` is what
/// the file holds, if it could be read as text.
pub fn read_millidegrees(text: Option<&str>) -> (r: Option<i32>)
    ensures
        r == millidegrees_of(text_view(text)),
{
    match text {
        Some(t) => parse_i32(trim(t)),
        None => None,
    }
}

/// The CPU temperature. `text` is what the sensor's file holds, if there is a
/// sensor and its file could be read as text.
pub fn read_cpu_temp(text: Option<&str>) -> (r: Option<u8>)
    ensures
        r == sensor_temp(text_view(text)),
{
    match read_millidegrees(text) {
        Some(raw) => Some(round_millidegrees(raw)),
        None => None,
    }
}

/// The GPU temperature by `nvidia-smi`. `output` is what the command left
/// behind, if it could be run.
pub fn read_gpu_temp_nvidia(output: Option<&CommandOutput>) -> (r: Option<u8>)
    ensures
        r == nvidia_temp(
            match output {
                Some(o) => Some(o@),
                None => None,
            },
        ),
{
    match output {
        Some(o) => {
            if !o.success {
                return None;
            }
            match utf8_text(o.stdout.as_slice()) {
                Some(text) => match first_line(text) {
                    Some(line) => match parse_i32(trim(line)) {
                        Some(v) => Some(clamp_u8(v)),
                        None => None,
                    },
                    None => None,
                },
                None => None,
            }
        },
        None => None,
    }
}

/// The GPU temperature by the `amdgpu` sensor. `text` is what its file holds,
/// if there is one and it could be read as text.
pub fn read_gpu_temp_amdgpu(text: Option<&str>) -> (r: Option<u8>)
    ensures
        r == sensor_temp(text_view(text)),
{
    match read_millidegrees(text) {
        Some(raw) => Some(round_millidegrees(raw)),
        None => None,
    }
}

/// The GPU temperature: by `nvidia-smi`, or else by the `amdgpu` sensor.
pub fn read_gpu_temp(nvidia: Option<u8>, amdgpu: Option<u8>) -> (r: Option<u8>)
    ensures
        r == first_reading(nvidia, amdgpu),
{
    match nvidia {
        Some(v) => Some(v),
        None => amdgpu,
    }
}

/// Takes over the values that were read. A value that could not be read
/// stays as it was.
pub fn refresh_temps(temps: &mut Temps, cpu: Option<u8>, gpu: Option<u8>)
    ensures
        *final(temps) == refreshed(*old(temps), cpu, gpu),
{
    if let Some(v) = cpu {
        temps.cpu_c = v;
    }
    if let Some(v) = gpu {
        temps.gpu_c = v;
    }
}

/// In the range of one byte, the whole degrees are within half a degree of
/// the reading.
pub proof fn law_rounds_to_nearest(raw: i32)
    requires
        -500 <= raw < 255_500,
    ensures
        raw - 500 < 1000 * whole_degrees(raw) <= raw + 500,
{
}

/// A higher reading never shows as a lower temperature, as long as the sum
/// that rounds does not wrap.
pub proof fn law_rounding_monotone(a: i32, b: i32)
    requires
        a <= b,
        b + 500 <= i32::MAX,
    ensures
        whole_degrees(a) <= whole_degrees(b),
{
}

/// Taking over the CPU value first and the GPU value later comes to the same
/// as taking over both at once.
pub proof fn law_refresh_in_parts(temps: Temps, cpu: Option<u8>, gpu: Option<u8>)
    ensures
        refreshed(refreshed(temps, cpu, None), None, gpu) == refreshed(temps, cpu, gpu),
{
}

/// What cannot be read leaves the last good values in place.
pub proof fn law_failed_reads_keep_values(temps: Temps)
    ensures
        refreshed(temps, None, None) == temps,
{
}

/// A sensor file that holds a number and a line feed is read as that number.
pub proof fn law_reads_sensor_file(n: i32)
    ensures
        n >= 0 ==> millidegrees_of(Some(decimal_of(n as nat) + seq!['\n'])) == Some(n),
        n < 0 ==> millidegrees_of(Some(seq!['-'] + decimal_of((-n) as nat) + seq!['\n'])) == Some(
            n,
        ),
{
    let m = if n < 0 {
        (-n) as nat
    } else {
        n as nat
    };
    let digits = decimal_of(m);
    crate::decimal::law_signed_round_trip(n);
    crate::decimal::lemma_decimal(m);
    assert(is_digit(digits[0]));
    assert(is_digit(digits[digits.len() - 1]));
    crate::text::law_trim_after(digits, seq!['\n']);
    crate::text::law_trim_after(seq!['-'] + digits, seq!['\n']);
}

/// Of the lines that `nvidia-smi` writes the first decides, one line for each GPU.
pub proof fn law_reads_first_gpu(stdout: Seq<u8>, degrees: u8, rest: Seq<char>)
    requires
        valid_utf8(stdout),
        decode_utf8(stdout) == decimal_of(degrees as nat) + seq!['\n'] + rest,
    ensures
        nvidia_temp(Some((true, stdout))) == Some(degrees),
{
    let line = decimal_of(degrees as nat);
    crate::decimal::law_signed_round_trip(degrees as i32);
    crate::decimal::lemma_decimal(degrees as nat);
    assert forall|i: int| 0 <= i < line.len() implies line[i] != '\n' && line[i] != '\r' by {
        assert(is_digit(line[i]));
    }
    crate::text::law_first_line(line, rest);
    assert(is_digit(line[0]));
    assert(is_digit(line[line.len() - 1]));
    crate::text::law_trim_after(line, Seq::empty());
    assert(line + Seq::<char>::empty() == line);
}

/// What fits in one byte stays as it is, and what does not becomes the end of the
/// range that it is past.
pub proof fn law_clamp_exact(v: int)
    ensures
        0 <= v <= 255 ==> clamped(v) as int == v,
        v < 0 ==> clamped(v) == 0,
        v > 255 ==> clamped(v) == 255,
{
}

/// Whether `t` is the reading of `n` thousandths of a degree in whole degrees: within
/// half a degree of it, or the end of the range that it is past. Where the 32-bit
/// sum that rounds wraps, it is zero.
pub open spec fn is_degrees_of(t: u8, n: i32) -> bool {
    &&& -500 <= n < 255_500 ==> n - 500 < 1000 * t <= n + 500
    &&& n < -500 ==> t == 0
    &&& 255_500 <= n <= 0x7fff_ffff - 500 ==> t == 255
    &&& n > 0x7fff_ffff - 500 ==> t == 0
}

/// A sensor file tells a temperature exactly if the text in it is a number, white
/// space at its ends aside, and then the temperature is that number in whole
/// degrees. A file that cannot be read tells none.
pub proof fn law_sensor_temp_exact(text: Seq<char>)
    ensures
        sensor_temp(None) is None,
        millidegrees_of(None) is None,
        millidegrees_of(Some(text)) == i32_of(trim_of(text)),
        sensor_temp(Some(text)) is Some <==> i32_of(trim_of(text)) is Some,
        i32_of(trim_of(text)) matches Some(n) ==> is_degrees_of(sensor_temp(Some(text))->0, n),
{
}

/// A sensor file that holds any number in decimal notation, with white space around
/// it, tells a temperature, never none, and it is that number in whole degrees.
pub proof fn law_sensor_file_temperature(n: i32, before: Seq<char>, after: Seq<char>)
    requires
        forall|i: int| 0 <= i < before.len() ==> white_space(#[trigger] before[i]),
        forall|i: int| 0 <= i < after.len() ==> white_space(#[trigger] after[i]),
    ensures
        n >= 0 ==> {
            let text = before + decimal_of(n as nat) + after;
            sensor_temp(Some(text)) is Some && is_degrees_of(sensor_temp(Some(text))->0, n)
        },
        n < 0 ==> {
            let text = before + (seq!['-'] + decimal_of((-n) as nat)) + after;
            sensor_temp(Some(text)) is Some && is_degrees_of(sensor_temp(Some(text))->0, n)
        },
{
    let m = if n < 0 {
        (-n) as nat
    } else {
        n as nat
    };
    let digits = decimal_of(m);
    crate::decimal::law_signed_round_trip(n);
    crate::decimal::lemma_decimal(m);
    assert(is_digit(digits[0]));
    assert(is_digit(digits[digits.len() - 1]));
    let s = if n < 0 {
        seq!['-'] + digits
    } else {
        digits
    };
    crate::text::law_trim_between(before, s, after);
}

/// A sensor file that holds a number of thousandths in the range of one byte and a
/// line feed tells a temperature within half a degree of it.
pub proof fn law_sensor_file_in_range(n: i32)
    requires
        0 <= n < 255_500,
    ensures
        sensor_temp(Some(decimal_of(n as nat) + seq!['\n'])) is Some,
        n - 500 < 1000 * sensor_temp(Some(decimal_of(n as nat) + seq!['\n']))->0 <= n + 500,
{
    let none = Seq::<char>::empty();
    law_sensor_file_temperature(n, none, seq!['\n']);
    assert(none + decimal_of(n as nat) + seq!['\n'] == decimal_of(n as nat) + seq!['\n']);
}

/// The command tells a temperature exactly if it ran, succeeded and wrote UTF-8 whose
/// first line is a number, white space at its ends aside. The temperature is that
/// number, or the end of the range of one byte that the number is past.
pub proof fn law_nvidia_temp_exact(success: bool, stdout: Seq<u8>)
    ensures
        nvidia_temp(None) is None,
        ({
            let line = first_line_of(decode_utf8(stdout));
            let told = nvidia_temp(Some((success, stdout)));
            if success && valid_utf8(stdout) && line is Some && i32_of(trim_of(line->0)) is Some {
                let n = i32_of(trim_of(line->0))->0;
                &&& told is Some
                &&& 0 <= n <= 255 ==> told->0 as int == n
                &&& n < 0 ==> told->0 == 0
                &&& n > 255 ==> told->0 == 255
            } else {
                told is None
            }
        }),
{
}

/// Where the first line of what the command writes holds a number in decimal
/// notation, with white space around it, the temperature is that number, or 255
/// where it is larger, whatever the other lines say.
pub proof fn law_nvidia_line_temperature(
    stdout: Seq<u8>,
    n: i32,
    before: Seq<char>,
    after: Seq<char>,
    rest: Seq<char>,
)
    requires
        n >= 0,
        forall|i: int|
            0 <= i < before.len() ==> white_space(#[trigger] before[i]) && before[i] != '\n',
        forall|i: int|
            0 <= i < after.len() ==> white_space(#[trigger] after[i]) && after[i] != '\n',
        valid_utf8(stdout),
        decode_utf8(stdout) == before + decimal_of(n as nat) + after + seq!['\n'] + rest,
    ensures
        nvidia_temp(Some((true, stdout))) is Some,
        nvidia_temp(Some((true, stdout)))->0 as int == if n <= 255 {
            n as int
        } else {
            255
        },
{
    let text = decode_utf8(stdout);
    let digits = decimal_of(n as nat);
    let line = before + digits + after;
    let end = line.len() as int;
    crate::decimal::law_signed_round_trip(n);
    crate::decimal::lemma_decimal(n as nat);
    assert(is_digit(digits[0]));
    assert(is_digit(digits[digits.len() - 1]));
    assert forall|i: int| 0 <= i < end implies #[trigger] text[i] != '\n' by {
        let j = i - before.len();
        if i < before.len() {
            assert(text[i] == before[i]);
        } else if j < digits.len() {
            assert(text[i] == digits[j]);
            assert(is_digit(digits[j]));
        } else {
            assert(text[i] == after[j - digits.len()]);
        }
    }
    assert(text[end] == '\n');
    crate::text::law_first_line_exact(text, end);
    if text[end - 1] == '\r' {
        if after.len() == 0 {
            assert(text[end - 1] == digits[digits.len() - 1]);
        }
        assert(text.take(end - 1) == before + digits + after.drop_last());
        crate::text::law_trim_between(before, digits, after.drop_last());
    } else {
        assert(text.take(end) == before + digits + after);
        crate::text::law_trim_between(before, digits, after);
    }
}

/// What the command tells goes before what the sensor tells, and the sensor's word
/// counts where the command has told nothing.
pub proof fn law_command_before_sensor(command: Option<u8>, sensor: Option<u8>)
    ensures
        command is Some ==> first_reading(command, sensor) == command,
        command is None ==> first_reading(command, sensor) == sensor,
{
}

/// A value that was read takes the place of the old one, higher or lower, and a value
/// that was not read stays. Neither temperature depends on the other's reading.
pub proof fn law_new_values_replace_old(temps: Temps, cpu: Option<u8>, gpu: Option<u8>)
    ensures
        cpu matches Some(c) ==> refreshed(temps, cpu, gpu).cpu_c == c,
        gpu matches Some(g) ==> refreshed(temps, cpu, gpu).gpu_c == g,
        cpu is None ==> refreshed(temps, cpu, gpu).cpu_c == temps.cpu_c,
        gpu is None ==> refreshed(temps, cpu, gpu).gpu_c == temps.gpu_c,
{
}

/// The view of what a command left behind holds both of its parts, and that of
/// text is the text.
pub proof fn law_contents_of_output(output: CommandOutput, text: &str)
    ensures
        output@.0 == output.success,
        output@.1 == output.stdout@,
        text_view(Some(text)) == Some(text@),
        text_view(None) is None,
{
}

} // verus!
