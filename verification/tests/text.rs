use cps::number::{read_decimal, write_aligned, write_decimal};
use cps::text::{
    contains, field, find, first_word, is_among, is_white_space, join, same, split_once,
    split_words, strip_prefix, trim, trim_end, trim_start,
};

const SAMPLES: [&str; 12] = [
    "",
    " ",
    "a",
    " a",
    "a ",
    "\u{3000}a b\u{2003}\tc\u{a0}\n",
    "plain words, and commas,,here",
    ",",
    ",,",
    "a=b=c",
    "\u{200b}zero width\u{200b}",
    "\u{1d11e} \u{85}\u{2028} \u{e9}",
];

#[test]
fn knows_white_space() {
    for c in '\0'..=char::MAX {
        assert_eq!(is_white_space(c), c.is_whitespace(), "{c:?}");
    }
}

#[test]
fn trims_white_space() {
    for sample in SAMPLES {
        assert_eq!(trim(sample), sample.trim());
        assert_eq!(trim_start(sample), sample.trim_start());
        assert_eq!(trim_end(sample), sample.trim_end());
    }
}

#[test]
fn splits_text() {
    for sample in SAMPLES {
        assert_eq!(
            split_words(sample),
            sample.split_whitespace().collect::<Vec<&str>>()
        );
        assert_eq!(first_word(sample), sample.split_whitespace().next());
        for c in [',', '=', ' ', '\u{e9}'] {
            assert_eq!(split_once(sample, c), sample.split_once(c));
            for n in 0..5 {
                assert_eq!(field(sample, c, n), sample.split(c).nth(n));
            }
        }
    }
}

#[test]
fn searches_text() {
    for sample in SAMPLES {
        for pattern in ["", "a", "and", ",,", "here", "width", "b=c", "wordy"] {
            let expected = sample
                .find(pattern)
                .map(|bytes| sample[..bytes].chars().count());
            assert_eq!(find(sample, pattern), expected);
            assert_eq!(contains(sample, pattern), sample.contains(pattern));
            assert_eq!(strip_prefix(sample, pattern), sample.strip_prefix(pattern));
            assert_eq!(same(sample, pattern), sample == pattern);
        }
    }
}

#[test]
fn joins_text() {
    let texts: Vec<String> = ["a", "", "bc"].iter().map(|t| t.to_string()).collect();

    for n in 0..=texts.len() {
        assert_eq!(join(&texts[..n], ", "), texts[..n].join(", "));
    }
    assert!(is_among("bc", &texts));
    assert!(!is_among("b", &texts));
    assert!(!is_among("bc", &texts[..2]));
}

#[test]
fn writes_numbers() {
    for n in [0, 1, 9, 10, 99, 100, 784, 1000, 4294967295, 2345678, u128::MAX] {
        assert_eq!(write_decimal(n), n.to_string());
        assert_eq!(write_aligned(n, 4), format!("{n:>4}"));
        assert_eq!(write_aligned(n, 0), n.to_string());
    }
}

#[test]
fn reads_numbers() {
    for text in [
        "",
        "+",
        "-",
        "0",
        "-0",
        "+0",
        "++1",
        "7",
        "007",
        "+42",
        " 42",
        "42 ",
        "4_2",
        "\u{664}",
        "4294967295",
        "4294967296",
        "18446744073709551615",
        "18446744073709551616",
        "00000000000000000000000000000018446744073709551615",
        "99999999999999999999999999",
        "12a",
    ] {
        assert_eq!(read_decimal(text, u64::MAX), text.parse::<u64>().ok(), "{text}");
        assert_eq!(
            read_decimal(text, u32::MAX as u64),
            text.parse::<u32>().ok().map(u64::from),
            "{text}"
        );
    }
}

#[test]
fn reads_back_what_it_writes() {
    for n in [0, 5, 10, 123456789, u64::MAX] {
        assert_eq!(read_decimal(&write_decimal(n as u128), u64::MAX), Some(n));
    }
}
