use ssh_manager::decimal::{parse_decimal, parse_u32, parse_usize, push_decimal};

fn text(s: &str) -> Vec<char> {
    s.chars().collect()
}

#[test]
fn reads_a_number() {
    assert_eq!(parse_u32(&text("0")), Some(0));
    assert_eq!(parse_u32(&text("22")), Some(22));
    assert_eq!(parse_u32(&text("+22")), Some(22));
    assert_eq!(parse_u32(&text("0022")), Some(22));
    assert_eq!(parse_u32(&text("4294967295")), Some(4294967295));
    assert_eq!(parse_decimal(&text("18446744073709551615"), u64::MAX), Some(u64::MAX));
    assert_eq!(parse_decimal(&text("7"), 7), Some(7));
}

#[test]
fn reads_no_number() {
    let samples = [
        "", "+", "-", "-1", "++1", "1+", "1 ", " 1", "1_000", "0x10", "١٢", "1.0", "4294967296",
    ];
    for s in samples {
        assert_eq!(parse_u32(&text(s)), None, "{:?}", s);
    }
    assert_eq!(parse_decimal(&text("8"), 7), None);
    assert_eq!(parse_decimal(&text("18446744073709551616"), u64::MAX), None);
    assert_eq!(parse_decimal(&text("99999999999999999999999"), u64::MAX), None);
}

#[test]
fn reading_is_what_std_says() {
    let samples = [
        "", "0", "1", "+0", "+", "-0", "00", "12a", "a12", "4294967295", "4294967296",
        "04294967295", "18446744073709551615", "18446744073709551616", "+18446744073709551615",
        "9999999999", "65535", " 1", "1\n", "٣",
    ];
    for s in samples {
        assert_eq!(parse_u32(&text(s)), s.parse::<u32>().ok(), "{:?}", s);
        assert_eq!(parse_usize(&text(s)), s.parse::<usize>().ok(), "{:?}", s);
        assert_eq!(parse_decimal(&text(s), u64::MAX), s.parse::<u64>().ok(), "{:?}", s);
    }
}

#[test]
fn writes_a_number() {
    let mut out = String::from("n=");
    push_decimal(&mut out, 0);
    assert_eq!(out, "n=0");
    push_decimal(&mut out, 1234567890);
    assert_eq!(out, "n=01234567890");
    let mut out = String::new();
    push_decimal(&mut out, u64::MAX);
    assert_eq!(out, "18446744073709551615");
}

#[test]
fn writing_is_what_std_says_and_is_read_back() {
    let samples = [0u64, 1, 9, 10, 11, 99, 100, 101, 65535, 4294967295, 4294967296, u64::MAX];
    for n in samples {
        let mut out = String::new();
        push_decimal(&mut out, n);
        assert_eq!(out, n.to_string());
        assert_eq!(parse_decimal(&text(&out), u64::MAX), Some(n));
    }
}
