//! Text primitives against the standard library.

use deps_core::text::{
    chars_of, count_occurrences, decimal_of, is_text_le, is_white_space, lines_of, parse_number,
    replace, split, string_of, strip_whitespace, trim, wide_decimal_of,
};

const SAMPLES: [&str; 9] = [
    "",
    "a",
    " a b ",
    "\u{a0}\u{2003}x\u{3000}",
    "a\nb\r\nc",
    "a\n\n",
    "\r\n",
    "x\r",
    "\u{1D11E}-\u{e9}-",
];

#[test]
fn texts_round_trip_through_characters() {
    for s in SAMPLES {
        assert_eq!(chars_of(s), s.chars().collect::<Vec<char>>());
        assert_eq!(string_of(&chars_of(s)), s);
    }
}

#[test]
fn trimming_agrees_with_the_standard_library() {
    for s in SAMPLES {
        assert_eq!(trim(s), s.trim());
        let bare: Vec<char> = s.chars().filter(|c| !c.is_whitespace()).collect();
        assert_eq!(strip_whitespace(s), bare);
    }
    for code in 0..=0x3100u32 {
        if let Some(c) = char::from_u32(code) {
            assert_eq!(is_white_space(c), c.is_whitespace(), "{code:x}");
        }
    }
}

#[test]
fn lines_and_pieces_agree_with_the_standard_library() {
    for s in SAMPLES {
        let lines: Vec<String> = lines_of(s).iter().map(|l| string_of(l)).collect();
        assert_eq!(lines, s.lines().map(str::to_string).collect::<Vec<_>>());
        let pieces: Vec<String> = split(&chars_of(s), '-').iter().map(|l| string_of(l)).collect();
        assert_eq!(pieces, s.split('-').map(str::to_string).collect::<Vec<_>>());
    }
}

#[test]
fn replacing_and_counting_agree_with_the_standard_library() {
    for (s, from, to) in [("aaa", "aa", "b"), ("{} {}", "{}", "1"), ("", "x", "y"), ("ab", "b", "")] {
        assert_eq!(replace(s, from, to), s.replace(from, to));
        assert_eq!(count_occurrences(&chars_of(s), &chars_of(from)), s.matches(from).count());
    }
}

#[test]
fn numbers_agree_with_the_standard_library() {
    for n in [0, 9, 10, 1234567890, u64::MAX] {
        assert_eq!(decimal_of(n), n.to_string());
        assert_eq!(parse_number(&chars_of(&n.to_string())), Some(n));
    }
    assert_eq!(wide_decimal_of(u128::MAX), u128::MAX.to_string());
    assert_eq!(parse_number(&chars_of("+1")), None);
    assert_eq!(parse_number(&chars_of("")), None);
    assert_eq!(parse_number(&chars_of("007")), Some(7));
    assert_eq!(parse_number(&chars_of("18446744073709551616")), None);
}

#[test]
fn order_agrees_with_the_standard_library() {
    for a in SAMPLES {
        for b in SAMPLES {
            assert_eq!(is_text_le(&chars_of(a), &chars_of(b)), a <= b, "{a:?} {b:?}");
        }
    }
}
