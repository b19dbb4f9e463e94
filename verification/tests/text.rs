use vevor_lcd::decimal::{decimal_text, parse_i32, parse_u64, IntError};
use vevor_lcd::text::{chars_of, first_line, is_white_space, same_text, starts_with, trim};

#[test]
fn white_space_is_the_unicode_property() {
    for u in 0..=0x10ffffu32 {
        if let Some(c) = char::from_u32(u) {
            assert_eq!(is_white_space(c), c.is_whitespace(), "U+{u:04X}");
        }
    }
}

#[test]
fn trim_agrees_with_std() {
    let texts = [
        "",
        " ",
        "\n",
        "k10temp\n",
        "  Tctl \t\r\n",
        "a b",
        "\u{a0}x y\u{3000}",
        "\u{200b}z\u{200b}",
        "née \u{2003}",
    ];
    for t in texts {
        assert_eq!(trim(t), t.trim());
    }
}

#[test]
fn first_line_agrees_with_std() {
    let texts = [
        "", "\n", "45", "45\n", "45\r\n", "45\r", "45\r\r\n7", "45\n46\n", "\n45", "\r\n", "ä\nö",
    ];
    for t in texts {
        assert_eq!(first_line(t), t.lines().next());
    }
}

#[test]
fn prefixes() {
    assert!(starts_with("Tctl", "Tctl"));
    assert!(starts_with("Package id 0", "Package"));
    assert!(!starts_with("Tctx", "Tctl"));
    assert!(!starts_with("Tct", "Tctl"));
    assert!(starts_with("x", ""));
    assert!(same_text("amdgpu", "amdgpu"));
    assert!(!same_text("amdgpu", "amdgp"));
    assert!(!same_text("amdgp", "amdgpu"));
    assert!(!same_text("amdgpu", "amdgpv"));
    assert_eq!(chars_of("aé"), vec!['a', 'é']);
}

fn number_texts() -> Vec<&'static str> {
    vec![
        "",
        "+",
        "-",
        "0",
        "-0",
        "+0",
        "007",
        "42",
        "+42",
        "-42",
        "++1",
        "+-1",
        "--1",
        "-+1",
        " 1",
        "1 ",
        "1_000",
        "0x10",
        "1.5",
        "٣",
        "12٣",
        "255",
        "2147483647",
        "2147483648",
        "-2147483648",
        "-2147483649",
        "18446744073709551615",
        "18446744073709551616",
        "+18446744073709551615",
        "00000000000000000000000000000000000000001",
        "99999999999999999999999x",
        "9x999999999999999999999999",
        "18446744073709551615x",
        "1844674407370955161x",
    ]
}

#[test]
fn parse_i32_agrees_with_std() {
    for t in number_texts() {
        assert_eq!(parse_i32(t), t.parse::<i32>().ok(), "{t:?}");
    }
}

#[test]
fn parse_u64_agrees_with_std() {
    for t in number_texts() {
        let ours = match parse_u64(t) {
            Ok(v) => Ok(v),
            Err(e) => Err(e.text().to_string()),
        };
        let theirs = t.parse::<u64>().map_err(|e| e.to_string());
        assert_eq!(ours, theirs, "{t:?}");
    }
}

#[test]
fn parse_u64_errors() {
    assert_eq!(parse_u64(""), Err(IntError::Empty));
    assert_eq!(parse_u64("+"), Err(IntError::InvalidDigit));
    assert_eq!(parse_u64("-1"), Err(IntError::InvalidDigit));
    assert_eq!(parse_u64("18446744073709551616"), Err(IntError::PosOverflow));
    assert_eq!(parse_u64("18446744073709551616 "), Err(IntError::PosOverflow));
}

#[test]
fn decimal_round_trip() {
    for n in [0u64, 1, 9, 10, 99, 100, 200, 999, 1000, 4294967296, u64::MAX] {
        let text = decimal_text(n);
        assert_eq!(text, n.to_string());
        assert_eq!(parse_u64(&text), Ok(n));
    }
}

#[test]
fn signed_round_trip() {
    for n in [0i32, 1, -1, 45000, -45000, i32::MAX, i32::MIN] {
        assert_eq!(parse_i32(&n.to_string()), Some(n));
    }
}
