use djls_core::text::{
    length_text, parse_digits, parse_unsigned, push_signed, split_words, trim, white_space,
};
use djls_core::unit::{share_from_bits, ONE};

fn chars(s: &str) -> Vec<char> {
    s.chars().collect()
}

#[test]
fn white_space_is_what_the_standard_library_says() {
    for u in 0..=0x10ffffu32 {
        if let Some(c) = char::from_u32(u) {
            assert_eq!(white_space(c), c.is_whitespace(), "{u:x}");
        }
    }
}

#[test]
fn trimming_and_splitting_agree_with_the_standard_library() {
    for text in ["", "  ", " a ", "\u{3000}b\tc\u{85}", "x", " a  b "] {
        let c = chars(text);
        assert_eq!(trim(&c).iter().collect::<String>(), text.trim());
        let words: Vec<String> = split_words(&c).iter().map(|w| w.iter().collect()).collect();
        let expected: Vec<String> = text.split_whitespace().map(|w| w.to_string()).collect();
        assert_eq!(words, expected);
    }
}

#[test]
fn numbers_are_read_as_the_standard_library_reads_them() {
    for text in [
        "0",
        "7",
        "007",
        "+5",
        "",
        "+",
        "-1",
        "1a",
        "18446744073709551615",
        "18446744073709551616",
        "99999999999999999999999",
    ] {
        assert_eq!(parse_unsigned(&chars(text)), text.parse::<u64>().ok(), "{text}");
    }
    assert_eq!(parse_digits(&chars("+5")), None);
}

#[test]
fn signed_numbers_are_written_out() {
    for n in [0i64, 5, -5, 1000, i64::MAX, i64::MIN] {
        let mut out = String::new();
        push_signed(&mut out, n);
        assert_eq!(out, n.to_string());
    }
}

#[test]
fn lengths_are_minutes_and_seconds() {
    assert_eq!(length_text(0), "0:00");
    assert_eq!(length_text(65_999), "1:05");
    assert_eq!(length_text(3_600_000), "60:00");
}

#[test]
fn floating_point_patterns_become_shares() {
    assert_eq!(share_from_bits(0.0f64.to_bits()), 0);
    assert_eq!(share_from_bits(1.0f64.to_bits()), ONE);
    assert_eq!(share_from_bits(0.5f64.to_bits()), 500_000_000);
    assert_eq!(share_from_bits(0.92f64.to_bits()), 920_000_000);
    assert_eq!(share_from_bits((-0.5f64).to_bits()), 0);
    assert_eq!(share_from_bits(7.0f64.to_bits()), ONE);
    assert_eq!(share_from_bits(f64::MIN_POSITIVE.to_bits()), 0);
    assert_eq!(share_from_bits((1.0f64 / 3.0).to_bits()), 333_333_333);
}
