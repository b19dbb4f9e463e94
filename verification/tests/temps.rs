use vevor_lcd::temps::{
    clamp_u8, read_cpu_temp, read_gpu_temp, read_gpu_temp_amdgpu, read_gpu_temp_nvidia,
    read_millidegrees, refresh_temps, round_millidegrees, CommandOutput, Temps,
};

fn output(success: bool, stdout: &[u8]) -> CommandOutput {
    CommandOutput {
        success,
        stdout: stdout.to_vec(),
    }
}

#[test]
fn clamp_to_a_byte() {
    assert_eq!(clamp_u8(i32::MIN), 0);
    assert_eq!(clamp_u8(-1), 0);
    assert_eq!(clamp_u8(0), 0);
    assert_eq!(clamp_u8(54), 54);
    assert_eq!(clamp_u8(255), 255);
    assert_eq!(clamp_u8(256), 255);
    assert_eq!(clamp_u8(i32::MAX), 255);
}

#[test]
fn rounding_is_half_up() {
    assert_eq!(round_millidegrees(44499), 44);
    assert_eq!(round_millidegrees(44500), 45);
    assert_eq!(round_millidegrees(45499), 45);
    assert_eq!(round_millidegrees(499), 0);
    assert_eq!(round_millidegrees(500), 1);
    assert_eq!(round_millidegrees(0), 0);
}

#[test]
fn rounding_below_zero_and_past_a_byte() {
    assert_eq!(round_millidegrees(-499), 0);
    assert_eq!(round_millidegrees(-500), 0);
    assert_eq!(round_millidegrees(-501), 0);
    assert_eq!(round_millidegrees(-40000), 0);
    assert_eq!(round_millidegrees(i32::MIN), 0);
    assert_eq!(round_millidegrees(255499), 255);
    assert_eq!(round_millidegrees(255500), 255);
    assert_eq!(round_millidegrees(300000), 255);
    assert_eq!(round_millidegrees(i32::MAX - 500), 255);
}

#[test]
fn rounding_sum_wraps() {
    assert_eq!(round_millidegrees(i32::MAX - 499), 0);
    assert_eq!(round_millidegrees(i32::MAX), 0);
}

#[test]
fn rounding_is_monotone_and_nearest() {
    let mut last = 0;
    for raw in -1000..256_000 {
        let r = round_millidegrees(raw);
        assert!(r >= last);
        last = r;
        if (-500..255_500).contains(&raw) {
            let shown = 1000 * i32::from(r);
            assert!(raw - 500 < shown && shown <= raw + 500);
        }
    }
}

#[test]
fn millidegrees_of_a_file() {
    assert_eq!(read_millidegrees(Some("45250\n")), Some(45250));
    assert_eq!(read_millidegrees(Some("-5000\n")), Some(-5000));
    assert_eq!(read_millidegrees(Some("  +7 \r\n")), Some(7));
    assert_eq!(read_millidegrees(Some("")), None);
    assert_eq!(read_millidegrees(Some("4 5")), None);
    assert_eq!(read_millidegrees(Some("hot\n")), None);
    assert_eq!(read_millidegrees(Some("2147483648\n")), None);
    assert_eq!(read_millidegrees(None), None);
}

#[test]
fn sensor_temperatures() {
    assert_eq!(read_cpu_temp(Some("61375\n")), Some(61));
    assert_eq!(read_cpu_temp(Some("61500\n")), Some(62));
    assert_eq!(read_cpu_temp(Some("n/a\n")), None);
    assert_eq!(read_cpu_temp(None), None);
    assert_eq!(read_gpu_temp_amdgpu(Some("38000\n")), Some(38));
    assert_eq!(read_gpu_temp_amdgpu(Some("\n")), None);
    assert_eq!(read_gpu_temp_amdgpu(None), None);
}

#[test]
fn nvidia_first_line_decides() {
    assert_eq!(read_gpu_temp_nvidia(Some(&output(true, b"47\n"))), Some(47));
    assert_eq!(read_gpu_temp_nvidia(Some(&output(true, b"47"))), Some(47));
    assert_eq!(
        read_gpu_temp_nvidia(Some(&output(true, b"47\n52\n"))),
        Some(47)
    );
    assert_eq!(
        read_gpu_temp_nvidia(Some(&output(true, b" 47 \r\nxyz"))),
        Some(47)
    );
    assert_eq!(read_gpu_temp_nvidia(Some(&output(true, b"-3\n"))), Some(0));
    assert_eq!(
        read_gpu_temp_nvidia(Some(&output(true, b"1000\n"))),
        Some(255)
    );
}

#[test]
fn nvidia_failures() {
    assert_eq!(read_gpu_temp_nvidia(None), None);
    assert_eq!(read_gpu_temp_nvidia(Some(&output(false, b"47\n"))), None);
    assert_eq!(read_gpu_temp_nvidia(Some(&output(true, b""))), None);
    assert_eq!(read_gpu_temp_nvidia(Some(&output(true, b"\n47\n"))), None);
    assert_eq!(read_gpu_temp_nvidia(Some(&output(true, b"[N/A]\n"))), None);
}

#[test]
fn nvidia_output_must_be_utf8() {
    assert_eq!(
        read_gpu_temp_nvidia(Some(&output(true, b"47\n\xff\n"))),
        None
    );
    assert_eq!(
        read_gpu_temp_nvidia(Some(&output(true, "47\n°\n".as_bytes()))),
        Some(47)
    );
    assert_eq!(
        read_gpu_temp_nvidia(Some(&output(true, "\u{a0}47\u{3000}\n".as_bytes()))),
        Some(47)
    );
}

#[test]
fn gpu_prefers_nvidia() {
    assert_eq!(read_gpu_temp(Some(40), Some(50)), Some(40));
    assert_eq!(read_gpu_temp(Some(40), None), Some(40));
    assert_eq!(read_gpu_temp(None, Some(50)), Some(50));
    assert_eq!(read_gpu_temp(None, None), None);
}

#[test]
fn refresh_keeps_what_was_not_read() {
    let mut temps = Temps::new();
    assert_eq!(temps, Temps { cpu_c: 0, gpu_c: 0 });
    refresh_temps(&mut temps, Some(50), None);
    assert_eq!(temps, Temps { cpu_c: 50, gpu_c: 0 });
    refresh_temps(&mut temps, None, Some(40));
    assert_eq!(temps, Temps { cpu_c: 50, gpu_c: 40 });
    refresh_temps(&mut temps, None, None);
    assert_eq!(temps, Temps { cpu_c: 50, gpu_c: 40 });
    refresh_temps(&mut temps, Some(51), Some(41));
    assert_eq!(temps, Temps { cpu_c: 51, gpu_c: 41 });
}
