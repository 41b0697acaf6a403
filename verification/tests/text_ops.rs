use lddns::decimal::{decimal_chars, parse_unsigned_chars};
use lddns::text::{chars_of, contains_chars, split_lines, split_words, trim_chars, split_fields};

fn s(v: &[char]) -> String {
    v.iter().collect()
}

const TEXTS: &[&str] = &[
    "", "a", "a\n", "a\nb", "a\r\nb\r\n", "\n\n", "a\r", " x \t", "\u{a0}x\u{3000}",
    "one  two\tthree\n", "  lead", "trail  ", "\u{2028}mid\u{85}dle\u{200a}", "=\n=\r\n",
];

#[test]
fn lines_agree_with_std() {
    for t in TEXTS {
        let ours: Vec<String> = split_lines(&chars_of(t)).iter().map(|l| s(l)).collect();
        let std_lines: Vec<String> = t.lines().map(|l| l.to_string()).collect();
        assert_eq!(ours, std_lines, "on {:?}", t);
    }
}

#[test]
fn trim_agrees_with_std() {
    for t in TEXTS {
        assert_eq!(s(&trim_chars(&chars_of(t))), t.trim(), "on {:?}", t);
    }
}

#[test]
fn words_agree_with_std() {
    for t in TEXTS {
        let ours: Vec<String> = split_words(&chars_of(t)).iter().map(|w| s(w)).collect();
        let std_words: Vec<String> = t.split_whitespace().map(|w| w.to_string()).collect();
        assert_eq!(ours, std_words, "on {:?}", t);
    }
}

#[test]
fn fields_agree_with_std() {
    for t in ["", "a.b", "..", "1.2.3.4", ".x."] {
        let ours: Vec<String> = split_fields(&chars_of(t), '.').iter().map(|w| s(w)).collect();
        let std_fields: Vec<String> = t.split('.').map(|w| w.to_string()).collect();
        assert_eq!(ours, std_fields, "on {:?}", t);
    }
}

#[test]
fn contains_examples() {
    assert!(contains_chars(&chars_of("inet 10.0.0.1/24"), &chars_of("inet ")));
    assert!(!contains_chars(&chars_of("inet6 ::1"), &chars_of("inet ")));
    assert!(contains_chars(&chars_of("abc"), &chars_of("")));
    assert!(!contains_chars(&chars_of("ab"), &chars_of("abc")));
}

#[test]
fn unsigned_parse_agrees_with_std() {
    for t in ["", "+", "-", "0", "007", "+5", "-5", "255", "256", "1_0", " 1", "99999999999999999999999"] {
        assert_eq!(parse_unsigned_chars(&chars_of(t), 255).map(|v| v as u8), t.parse::<u8>().ok(), "u8 on {:?}", t);
        assert_eq!(
            parse_unsigned_chars(&chars_of(t), usize::MAX as u64).map(|v| v as usize),
            t.parse::<usize>().ok(),
            "usize on {:?}",
            t
        );
    }
}

#[test]
fn decimal_formatting() {
    for n in [0u64, 7, 10, 255, 63200, u64::MAX] {
        assert_eq!(s(&decimal_chars(n)), n.to_string());
    }
}
