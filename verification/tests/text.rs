use tricoder::text::{
    chars_of, char_is_white_space, contains, has_char, lines_of, push_decimal, push_unique,
    starts_with, trim,
};

const SAMPLES: [&str; 10] = [
    "",
    "   ",
    "  a b  ",
    "\u{3000}x\u{85}",
    "\u{a0}\u{2009}mid\u{200b}",
    "line\n",
    "\na\n\nb",
    "é\u{1680}ü",
    "\t\r\n trimmed \x0b\x0c",
    "no-space",
];

#[test]
fn trim_agrees_with_std() {
    for sample in SAMPLES {
        assert_eq!(trim(sample), sample.trim(), "{sample:?}");
    }
}

#[test]
fn white_space_agrees_with_std() {
    for code in 0u32..0x3100 {
        if let Some(c) = char::from_u32(code) {
            assert_eq!(char_is_white_space(c), c.is_whitespace(), "{code:x}");
        }
    }
}

#[test]
fn lines_agree_with_std_split() {
    for sample in SAMPLES {
        let expected: Vec<String> = sample.split('\n').map(|l| l.to_owned()).collect();
        assert_eq!(lines_of(sample), expected, "{sample:?}");
    }
}

#[test]
fn contains_agrees_with_std() {
    let patterns = ["", "a", "ab", "b  ", "mid\u{200b}", "\n\n", "ü", "zz"];
    for sample in SAMPLES {
        for pattern in patterns {
            assert_eq!(contains(sample, pattern), sample.contains(pattern));
            assert_eq!(starts_with(sample, pattern), sample.starts_with(pattern));
        }
        assert_eq!(has_char(sample, '\n'), sample.contains('\n'));
    }
}

#[test]
fn chars_in_order() {
    assert_eq!(chars_of("aé\n"), vec!['a', 'é', '\n']);
}

#[test]
fn decimal_agrees_with_display() {
    for n in [0u16, 7, 9, 10, 99, 100, 443, 8080, 65535] {
        let mut out = "p".to_owned();
        push_decimal(&mut out, n);
        assert_eq!(out, format!("p{n}"));
    }
}

#[test]
fn push_unique_keeps_first() {
    let mut list = vec!["a".to_owned()];
    push_unique(&mut list, "b".to_owned());
    push_unique(&mut list, "a".to_owned());
    assert_eq!(list, vec!["a", "b"]);
}
