use milstian_internet_framework::decimal::{decimal_of, parse_number};
use milstian_internet_framework::text::{
    chars_of, copy_range, decode, last_position, position, split_on, spells, starts_with,
    string_of, stripped, trimmed, whitespace,
};

fn chars(text: &str) -> Vec<char> {
    text.chars().collect()
}

fn text(chars: &Vec<char>) -> String {
    chars.iter().collect()
}

#[test]
fn white_space_is_what_the_standard_library_calls_so() {
    let mut code: u32 = 0;
    while code <= 0x10FFFF {
        if let Some(c) = char::from_u32(code) {
            assert_eq!(whitespace(c), c.is_whitespace(), "U+{:04X}", code);
        }
        code += 1;
    }
}

#[test]
fn trimmed_is_the_trim_of_the_standard_library() {
    let samples = [
        "",
        " ",
        "a",
        "  a b  ",
        "\r\na\t",
        "\u{00A0}x\u{3000}",
        "\u{2003}\u{2028}mid dle\u{205F}\u{0085}",
        "no-cache \r\n",
        "\u{200B}zero width is kept\u{200B}",
    ];
    for sample in samples.iter() {
        assert_eq!(text(&trimmed(&chars(sample))), sample.trim());
    }
}

#[test]
fn stripped_takes_the_character_from_both_ends() {
    assert_eq!(text(&stripped(&chars("\"losen\""), '"')), "losen");
    assert_eq!(text(&stripped(&chars("\"\"a\"b\"\""), '"')), "a\"b");
    assert_eq!(text(&stripped(&chars("\0\0"), '\0')), "");
    assert_eq!(text(&stripped(&chars("plain"), '"')), "plain");
}

#[test]
fn split_on_gives_the_pieces_between_the_separators() {
    let samples = ["", "a", "a&b", "&", "a&&b&", "&&", "k=v&x"];
    for sample in samples.iter() {
        let expected: Vec<String> = sample.split('&').map(|piece| piece.to_string()).collect();
        let pieces: Vec<String> = split_on(&chars(sample), '&').iter().map(text).collect();
        assert_eq!(pieces, expected);
    }
}

#[test]
fn positions_are_those_of_the_first_and_the_last() {
    assert_eq!(position(&chars("a?b?c"), '?'), 1);
    assert_eq!(position(&chars("abc"), '?'), 3);
    assert_eq!(position(&chars(""), '?'), 0);
    assert_eq!(last_position(&chars("a.b.c"), '.'), Some(3));
    assert_eq!(last_position(&chars("abc"), '.'), None);
    assert_eq!(last_position(&chars(""), '.'), None);
}

#[test]
fn characters_and_text_convert_both_ways() {
    let sample = "Grüße, 世界";
    assert_eq!(chars_of(sample), chars(sample));
    assert_eq!(string_of(&chars(sample)), sample.to_string());
    assert_eq!(text(&copy_range(&chars("abcdef"), 2, 4)), "cd");
    assert_eq!(text(&copy_range(&chars("abcdef"), 3, 3)), "");
    assert!(spells(&chars("GET"), "GET"));
    assert!(!spells(&chars("GET"), "GE"));
    assert!(!spells(&chars("GET"), "GEX"));
    assert!(starts_with(&chars("/srv/html/a"), &chars("/srv/html")));
    assert!(!starts_with(&chars("/srv"), &chars("/srv/html")));
    assert!(starts_with(&chars("abc"), &chars("")));
}

#[test]
fn decode_accepts_valid_utf8_only() {
    assert_eq!(decode(b"abc"), Some(chars("abc")));
    assert_eq!(decode("Grüße".as_bytes()), Some(chars("Grüße")));
    assert_eq!(decode(b""), Some(Vec::new()));
    assert_eq!(decode(&[0xff, 0xfe]), None);
    assert_eq!(decode(&[0xC3]), None);
}

#[test]
fn numbers_are_read_as_the_standard_library_reads_them() {
    let samples = [
        "0",
        "7",
        "42",
        "007",
        "+5",
        "+",
        "-5",
        "",
        " 5",
        "5 ",
        "4x",
        "1024",
        "4294967295",
        "4294967296",
        "18446744073709551615",
        "18446744073709551616",
        "99999999999999999999999",
        "٣",
    ];
    for sample in samples.iter() {
        assert_eq!(
            parse_number(&chars(sample), u64::MAX),
            sample.parse::<u64>().ok(),
            "{:?}",
            sample
        );
        assert_eq!(
            parse_number(&chars(sample), u32::MAX as u64),
            sample.parse::<u32>().ok().map(|n| n as u64),
            "{:?}",
            sample
        );
    }
}

#[test]
fn numbers_are_written_in_decimal() {
    let samples: [u64; 8] = [0, 7, 10, 42, 100, 2592000, 4294967296, u64::MAX];
    for sample in samples.iter() {
        assert_eq!(decimal_of(*sample), sample.to_string());
    }
}
