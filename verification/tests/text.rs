use ff_video::number::{
    decimal_digits, float_literal, parse_bounded, parse_u32, parse_u64, IntError,
};
use ff_video::text::{
    begins_with, chars_of, find, finishes_with, same, space, string_of, strip_end,
    strip_end_repeated, strip_start, trimmed, trimmed_end, trimmed_start,
};

fn chars(text: &str) -> Vec<char> {
    text.chars().collect()
}

#[test]
fn text_and_characters_convert_both_ways() {
    assert_eq!(chars_of("a\u{e9}\u{1f600}b"), vec!['a', '\u{e9}', '\u{1f600}', 'b']);
    assert_eq!(chars_of(""), Vec::<char>::new());
    assert_eq!(string_of(&['x', '\u{2028}', 'y']), "x\u{2028}y");
}

#[test]
fn white_space_is_what_std_trims() {
    for code in 0..0x11_0000u32 {
        if let Some(c) = char::from_u32(code) {
            assert_eq!(space(c), c.is_whitespace(), "U+{:04X}", code);
        }
    }
}

#[test]
fn trimming_is_std_trimming() {
    for text in ["", " ", "a", "  a b \t\n", "\u{3000}x\u{a0}", "\u{85}\u{1680}", "x  ", "  x"] {
        assert_eq!(string_of(trimmed(&chars(text))), text.trim());
        assert_eq!(string_of(trimmed_start(&chars(text))), text.trim_start());
        assert_eq!(string_of(trimmed_end(&chars(text))), text.trim_end());
    }
}

#[test]
fn prefixes_and_suffixes() {
    let text = chars("to 'pipe:':");
    assert!(begins_with(&text, &chars("to '")));
    assert!(!begins_with(&text, &chars("from '")));
    assert!(begins_with(&text, &[]));
    assert!(!begins_with(&chars("to"), &chars("to '")));
    assert!(finishes_with(&text, &chars("':")));
    assert!(!finishes_with(&text, &chars("' :")));
    assert_eq!(string_of(strip_start(&text, &chars("to '"))), "pipe:':");
    assert_eq!(string_of(strip_start(&text, &chars("from '"))), "to 'pipe:':");
    assert_eq!(string_of(strip_end(&text, &chars("':"))), "to 'pipe:");
    assert_eq!(string_of(strip_end(&text, &chars("x"))), "to 'pipe:':");
    assert_eq!(string_of(strip_end_repeated(&chars("30 fps fps"), &chars(" fps"))), "30");
    assert_eq!(string_of(strip_end_repeated(&chars("30 fps"), &[])), "30 fps");
    assert_eq!(string_of(strip_end_repeated(&chars(" fps"), &chars(" fps"))), "");
    assert!(same(&chars("abc"), &chars("abc")));
    assert!(!same(&chars("abc"), &chars("abd")));
    assert!(!same(&chars("abc"), &chars("ab")));
}

#[test]
fn find_gives_the_first_or_the_length() {
    assert_eq!(find(&chars("a,b,c"), ','), 1);
    assert_eq!(find(&chars(",b,c"), ','), 0);
    assert_eq!(find(&chars("abc"), ','), 3);
    assert_eq!(find(&[], ','), 0);
}

#[test]
fn unsigned_numbers_are_read_as_std_reads_them() {
    let texts = [
        "", "+", "-", "0", "+0", "-0", "007", "42", "+42", "4294967295", "4294967296",
        "42949672950", "18446744073709551615", "18446744073709551616", "99999999999999999999x",
        "9x9999999999999999999", " 1", "1 ", "1_000", "\u{661}", "++1", "1+",
    ];
    for text in texts {
        let kind = |e: std::num::ParseIntError| match format!("{:?}", e.kind()).as_str() {
            "Empty" => IntError::Empty,
            "InvalidDigit" => IntError::InvalidDigit,
            "PosOverflow" => IntError::PosOverflow,
            other => panic!("unexpected kind {}", other),
        };
        assert_eq!(parse_u32(&chars(text)), text.parse::<u32>().map_err(kind), "{:?}", text);
        assert_eq!(parse_u64(&chars(text)), text.parse::<u64>().map_err(kind), "{:?}", text);
    }
    assert_eq!(parse_bounded(&chars("255"), 255), Ok(255));
    assert_eq!(parse_bounded(&chars("256"), 255), Err(IntError::PosOverflow));
    assert_eq!(parse_bounded(&chars("0"), 0), Ok(0));
    assert_eq!(parse_bounded(&chars("1"), 0), Err(IntError::PosOverflow));
}

#[test]
fn digits_of_a_number() {
    for n in [0u64, 7, 10, 99, 100, 4294967295, 18446744073709551615] {
        assert_eq!(string_of(&decimal_digits(n)), n.to_string());
    }
}

#[test]
fn float_literals_are_what_std_parses() {
    let texts = [
        "", "0", "1.5", "+1.5", "-1.5", ".5", "5.", ".", "+.", "1e5", "1E5", "1e+5", "1e-5", "1e",
        "1e+", "e5", ".e5", "1.e5", ".5e5", "1.5e5.5", "inf", "INF", "Inf", "+inf", "-inf",
        "infinity", "INFINITY", "iNfInItY", "infinit", "infinityy", "nan", "NaN", "NAN", "-nan",
        "nana", "na", " 1", "1 ", "1f", "0x10", "1_0", "--1", "+-1", "1..2", "12345678901234567890",
        "1e400", "\u{661}", "i\u{307}nf", "\u{212a}", "1\u{ff0e}5",
    ];
    for text in texts {
        assert_eq!(float_literal(&chars(text)), text.parse::<f32>().is_ok(), "{:?}", text);
        assert_eq!(float_literal(&chars(text)), text.parse::<f64>().is_ok(), "{:?}", text);
    }
}
