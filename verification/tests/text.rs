use rawrr::name_map::NameMap;
use rawrr::number::{parse_i64, parse_u32, parse_u64};
use rawrr::text::{
    chars_of, find_char, is_white_space, rfind_char, same_text, split_text, split_text_once,
    trim_text, trim_text_end_matches, trim_text_start_matches,
};

#[test]
fn white_space_is_that_of_unicode() {
    for code in 0..=0x10ffff {
        if let Some(c) = char::from_u32(code) {
            assert_eq!(is_white_space(c), c.is_whitespace(), "{:x}", code);
        }
    }
}

const SAMPLES: [&str; 14] = [
    "", ",", "a", "a,b", ",a,", "a,,b", " a , b ", "é,ü", "=a=b", "\u{a0}x\u{2003}", "//a/", "///", "\t\n",
    "a=b:c",
];

#[test]
fn pieces_are_those_of_std() {
    for s in SAMPLES {
        for c in [',', '=', ':', '/', 'é'] {
            assert_eq!(split_text(s, c), s.split(c).collect::<Vec<&str>>());
            assert_eq!(split_text_once(s, c), s.split_once(c));
            assert_eq!(trim_text_start_matches(s, c), s.trim_start_matches(c));
            assert_eq!(trim_text_end_matches(s, c), s.trim_end_matches(c));
            let chars: Vec<char> = s.chars().collect();
            assert_eq!(find_char(s, c), chars.iter().position(|x| *x == c));
            assert_eq!(rfind_char(s, c), chars.iter().rposition(|x| *x == c));
        }
        assert_eq!(trim_text(s), s.trim());
        assert_eq!(chars_of(s), s.chars().collect::<Vec<char>>());
        for t in SAMPLES {
            assert_eq!(same_text(s, t), s == t);
        }
    }
}

#[test]
fn numbers_are_those_of_std() {
    let numbers = [
        "", "+", "-", "0", "-0", "+0", "00", "007", "+7", "-7", "7 ", " 7", "1_000", "٣", "12a", "++1",
        "4294967295", "4294967296", "9223372036854775807", "9223372036854775808",
        "-9223372036854775808", "-9223372036854775809", "18446744073709551615",
        "18446744073709551616", "000000000000000000000000000000000001",
        "99999999999999999999999999999999999999999999",
    ];
    for s in numbers {
        assert_eq!(parse_u64(s), s.parse::<u64>().ok(), "{:?}", s);
        assert_eq!(parse_u32(s), s.parse::<u32>().ok(), "{:?}", s);
        assert_eq!(parse_i64(s), s.parse::<i64>().ok(), "{:?}", s);
    }
}

#[test]
fn maps_keep_one_value_under_a_name() {
    let mut map: NameMap<u32> = NameMap::new();
    assert!(map.is_empty());
    map.insert("a".to_string(), 1);
    map.insert("b".to_string(), 2);
    map.insert("a".to_string(), 3);
    assert_eq!(map.len(), 2);
    assert_eq!(map.get("a"), Some(&3));
    assert_eq!(map.get("c"), None);
    *map.get_mut("b").unwrap() = 5;
    assert!(map.get_mut("c").is_none());
    *map.get_or_insert("c".to_string(), 7) += 1;
    *map.get_or_insert("b".to_string(), 0) += 1;
    assert_eq!(
        map.entries(),
        &vec![("a".to_string(), 3), ("b".to_string(), 6), ("c".to_string(), 8)]
    );
}
