//! The report that sets what the display shows.

use crate::temps::{clamp_u8, clamped};
use vstd::prelude::*;

verus! {

/// Bytes in one OUT report.
pub const REPORT_LEN: usize = 64;

/// Bytes in one write: the report-id byte and the report.
pub const FRAME_LEN: usize = 65;

/// Where the CPU temperature stands in a report.
pub const OFF_CPU: usize = 3;

/// Where the GPU temperature stands in a report.
pub const OFF_GPU: usize = 13;

/// Where the hour stands in a report.
pub const OFF_HOUR: usize = 29;

/// Where the minute stands in a report.
pub const OFF_MINUTE: usize = 30;

/// The report that every frame is made from: one telemetry report as the vendor's
/// application sends it. The firmware renders four of its bytes. The others
/// keep plausible values for firmware that looks at them.
pub const BASELINE: [u8; 64] = [
    0x00, 0x01, 0x02, 0x36, 0x00, 0x00, 0x05, 0x42, 0x28, 0x36, 0x24, 0x01, 0x64, 0x35, 0x00, 0x00,
    0x1b, 0x21, 0x28, 0x19, 0x14, 0x21, 0x3a, 0x21, 0x3a, 0x14, 0x1a, 0x04, 0x12, 0x0a, 0x25, 0x31,
    0x06, 0x1b, 0x00, 0x00, 0x00, 0x00, 0x00, 0x00, 0x00, 0x00, 0x00, 0x00, 0x00, 0x00, 0x00, 0x00,
    0x00, 0x00, 0x00, 0x00, 0x00, 0x00, 0x00, 0x00, 0x00, 0x00, 0x00, 0x00, 0x00, 0x00, 0x00, 0x00,
];

/// The report with four values in it.
pub open spec fn report_of(cpu: u8, gpu: u8, hour: u8, minute: u8) -> Seq<u8> {
    BASELINE@.update(OFF_CPU as int, cpu).update(OFF_GPU as int, gpu).update(
        OFF_HOUR as int,
        hour,
    ).update(OFF_MINUTE as int, minute)
}

/// The bytes to write: a zero for the report id, then the report.
pub open spec fn frame_of(cpu: u8, gpu: u8, hour: u8, minute: u8) -> Seq<u8> {
    seq![0u8] + report_of(cpu, gpu, hour, minute)
}

/// What the display shows of a frame: CPU and GPU temperature, hour and minute.
pub open spec fn shown(frame: Seq<u8>) -> (u8, u8, u8, u8) {
    (
        frame[1 + OFF_CPU as int],
        frame[1 + OFF_GPU as int],
        frame[1 + OFF_HOUR as int],
        frame[1 + OFF_MINUTE as int],
    )
}

/// The hour and minute to show, from the hour and minute of the local time if
/// that is known.
pub open spec fn hour_minute_of(local: Option<(i32, i32)>) -> (u8, u8) {
    match local {
        Some((hour, minute)) => (clamped(hour as int), clamped(minute as int)),
        None => (0, 0),
    }
}

/// The hour and minute to show. `local` is the hour and minute of the local
/// time, if the time zone could be applied.
pub fn localtime_hm(local: Option<(i32, i32)>) -> (r: (u8, u8))
    ensures
        r == hour_minute_of(local),
{
    match local {
        Some((hour, minute)) => (clamp_u8(hour), clamp_u8(minute)),
        None => (0, 0),
    }
}

/// The bytes to write for the display to show these values.
pub fn build_frame(cpu: u8, gpu: u8, hour: u8, minute: u8) -> (r: [u8; FRAME_LEN])
    ensures
        r@ == frame_of(cpu, gpu, hour, minute),
{
    let baseline: [u8; 64] = BASELINE;
    let mut buf: [u8; FRAME_LEN] = [0u8; FRAME_LEN];
    for i in 0..REPORT_LEN
        invariant
            buf@.len() == FRAME_LEN,
            baseline == BASELINE,
            buf@[0] == 0,
            forall|j: int| 0 <= j < i ==> #[trigger] buf@[1 + j] == baseline@[j],
    {
        buf[1 + i] = baseline[i];
    }
    assert(buf@ == seq![0u8] + BASELINE@) by {
        assert forall|k: int| 0 <= k < FRAME_LEN implies buf@[k] == (seq![0u8] + BASELINE@)[k] by {
            if k > 0 {
                assert(buf@[1 + (k - 1)] == baseline@[k - 1]);
            }
        }
    }
    buf[1 + OFF_CPU] = cpu;
    buf[1 + OFF_GPU] = gpu;
    buf[1 + OFF_HOUR] = hour;
    buf[1 + OFF_MINUTE] = minute;
    buf
}

/// The display shows the values that a frame was built from.
pub proof fn law_frame_shows_values(cpu: u8, gpu: u8, hour: u8, minute: u8)
    ensures
        frame_of(cpu, gpu, hour, minute).len() == FRAME_LEN,
        shown(frame_of(cpu, gpu, hour, minute)) == (cpu, gpu, hour, minute),
{
}

/// Frames differ in the four rendered bytes only.
pub proof fn law_frame_other_bytes(cpu: u8, gpu: u8, hour: u8, minute: u8, i: int)
    requires
        0 <= i < REPORT_LEN,
        i != OFF_CPU,
        i != OFF_GPU,
        i != OFF_HOUR,
        i != OFF_MINUTE,
    ensures
        frame_of(cpu, gpu, hour, minute)[1 + i] == BASELINE@[i],
{
}

/// Every frame has a zero report id, the header and opcode of a telemetry
/// report, both Celsius flags and a zero in place of a checksum.
pub proof fn law_frame_header(cpu: u8, gpu: u8, hour: u8, minute: u8)
    ensures
        frame_of(cpu, gpu, hour, minute)[0] == 0,
        report_of(cpu, gpu, hour, minute)[0] == 0x00,
        report_of(cpu, gpu, hour, minute)[1] == 0x01,
        report_of(cpu, gpu, hour, minute)[2] == 0x02,
        report_of(cpu, gpu, hour, minute)[5] == 0,
        report_of(cpu, gpu, hour, minute)[15] == 0,
        report_of(cpu, gpu, hour, minute)[63] == 0,
{
}

/// A clock reading in the usual ranges is shown as it is.
pub proof fn law_clock_exact(hour: i32, minute: i32)
    requires
        0 <= hour < 24,
        0 <= minute < 60,
    ensures
        hour_minute_of(Some((hour, minute))) == (hour as u8, minute as u8),
{
}

/// A frame has 65 bytes, the four values in the bytes 4, 14, 30 and 31, whatever the
/// values are, and every other byte is the same in all frames.
pub proof fn law_frame_bytes(
    cpu: u8,
    gpu: u8,
    hour: u8,
    minute: u8,
    other: (u8, u8, u8, u8),
    i: int,
)
    requires
        0 <= i < 65,
    ensures
        ({
            let frame = frame_of(cpu, gpu, hour, minute);
            let second = frame_of(other.0, other.1, other.2, other.3);
            &&& frame.len() == 65
            &&& frame[4] == cpu
            &&& frame[14] == gpu
            &&& frame[30] == hour
            &&& frame[31] == minute
            &&& i != 4 && i != 14 && i != 30 && i != 31 ==> frame[i] == second[i]
        }),
{
}

/// Hour and minute of the local time are shown as they are, as far as one byte
/// goes, each on its own. A local time that is not known is shown as midnight.
pub proof fn law_clock_shown(hour: i32, minute: i32)
    ensures
        hour_minute_of(None) == (0u8, 0u8),
        ({
            let (h, m) = hour_minute_of(Some((hour, minute)));
            &&& 0 <= hour <= 255 ==> h as int == hour
            &&& hour < 0 ==> h == 0
            &&& hour > 255 ==> h == 255
            &&& 0 <= minute <= 255 ==> m as int == minute
            &&& minute < 0 ==> m == 0
            &&& minute > 255 ==> m == 255
        }),
{
}

} // verus!
