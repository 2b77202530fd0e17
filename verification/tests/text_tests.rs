use config_generator::text::{chars_of, decimal_string, parse_unsigned, string_of};

#[test]
fn decimal_text() {
    assert_eq!(decimal_string(0), "0");
    assert_eq!(decimal_string(7), "7");
    assert_eq!(decimal_string(10), "10");
    assert_eq!(decimal_string(18446744073709551615), "18446744073709551615");
}

#[test]
fn unsigned_parsing_matches_std() {
    for s in ["0", "255", "256", "+7", "+", "", "-1", "12a", " 1", "0007", "4294967295", "4294967296"] {
        let cs = chars_of(s);
        assert_eq!(parse_unsigned(&cs, 255), s.parse::<u8>().ok().map(u32::from), "{}", s);
        assert_eq!(parse_unsigned(&cs, u32::MAX), s.parse::<u32>().ok(), "{}", s);
    }
}

#[test]
fn chars_round_trip() {
    let s = "héllo ✅";
    assert_eq!(string_of(&chars_of(s)), s);
}

#[test]
fn white_space_set_matches_std() {
    let listed = |v: u32| {
        (0x09..=0x0d).contains(&v)
            || v == 0x20
            || v == 0x85
            || v == 0xa0
            || v == 0x1680
            || (0x2000..=0x200a).contains(&v)
            || v == 0x2028
            || v == 0x2029
            || v == 0x202f
            || v == 0x205f
            || v == 0x3000
    };
    for c in '\0'..=char::MAX {
        assert_eq!(c.is_whitespace(), listed(c as u32), "{:?}", c);
    }
}
