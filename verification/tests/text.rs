use looper::decimal::{parse_usize, push_decimal};
use looper::numeral::numeral;
use looper::text::{split, trim, whitespace};

fn decimal(n: u64) -> String {
    let mut text = String::from("<");
    push_decimal(&mut text, n);
    text
}

#[test]
fn decimal_notation() {
    assert_eq!(decimal(0), "<0");
    assert_eq!(decimal(7), "<7");
    assert_eq!(decimal(10), "<10");
    assert_eq!(decimal(15728641), "<15728641");
    assert_eq!(decimal(u64::MAX), "<18446744073709551615");
}

#[test]
fn decimal_notation_reads_back() {
    for n in [0usize, 1, 9, 10, 99, 100, 12345, usize::MAX - 1, usize::MAX] {
        let mut text = String::new();
        push_decimal(&mut text, n as u64);
        assert_eq!(parse_usize(&text), Some(n));
    }
}

#[test]
fn whole_numbers_in_texts() {
    assert_eq!(parse_usize("42"), Some(42));
    assert_eq!(parse_usize("+42"), Some(42));
    assert_eq!(parse_usize("0042"), Some(42));
    assert_eq!(parse_usize(""), None);
    assert_eq!(parse_usize("+"), None);
    assert_eq!(parse_usize("-1"), None);
    assert_eq!(parse_usize("-0"), None);
    assert_eq!(parse_usize("++1"), None);
    assert_eq!(parse_usize(" 1"), None);
    assert_eq!(parse_usize("1 "), None);
    assert_eq!(parse_usize("4x"), None);
    assert_eq!(parse_usize("\u{0661}"), None);
}

#[test]
fn whole_numbers_agree_with_std() {
    let edges = [
        "18446744073709551615",
        "18446744073709551616",
        "18446744073709551619",
        "18446744073709551620",
        "184467440737095516150",
        "99999999999999999999999999999999999x",
        "00000000000000000000000000000000000000001",
        "+18446744073709551615",
    ];
    for text in edges {
        assert_eq!(parse_usize(text), text.parse::<usize>().ok(), "{text}");
    }
    for_all_texts(&['0', '7', '+', '-', ' ', 'a'], 5, &mut |text| {
        assert_eq!(parse_usize(text), text.parse::<usize>().ok(), "{text:?}");
    });
}

fn for_all_texts(alphabet: &[char], len: usize, check: &mut dyn FnMut(&str)) {
    let mut texts = vec![String::new()];
    for _ in 0..=len {
        let mut longer = Vec::new();
        for text in &texts {
            check(text);
            for c in alphabet {
                let mut next = text.clone();
                next.push(*c);
                longer.push(next);
            }
        }
        texts = longer;
    }
}

#[test]
fn numerals() {
    for text in ["0", "1.5", ".5", "5.", "-3", "+3.25", "1e5", "1E-5", "1.e+0", ".1e3", "inf", "-Infinity", "NaN", "+nan"] {
        assert!(numeral(text), "{text}");
    }
    for text in ["", "+", ".", "e5", "1e", "1e+", "1.2.3", " 1", "1 ", "1,5", "infi", "0x10", "--1", "1_0", "in", "infinityy"] {
        assert!(!numeral(text), "{text}");
    }
}

#[test]
fn numerals_agree_with_std() {
    for_all_texts(&['0', '9', '.', 'e', 'E', '+', '-'], 6, &mut |text| {
        assert_eq!(numeral(text), text.parse::<f64>().is_ok(), "{text:?}");
        assert_eq!(numeral(text), text.parse::<f32>().is_ok(), "{text:?}");
    });
    for_all_texts(&['i', 'n', 'F', 'a', 'N', '-'], 5, &mut |text| {
        assert_eq!(numeral(text), text.parse::<f64>().is_ok(), "{text:?}");
    });
    for text in ["infinity", "INFINITY", "-iNfInItY", "infinit", "1\u{0660}", "\u{212a}", "1e400", "1e-400"] {
        assert_eq!(numeral(text), text.parse::<f64>().is_ok(), "{text:?}");
    }
}

#[test]
fn whitespace_agrees_with_std() {
    for u in 0..=0x10ffffu32 {
        if let Some(c) = char::from_u32(u) {
            assert_eq!(whitespace(c), c.is_whitespace(), "{u:x}");
        }
    }
}

#[test]
fn trimming_agrees_with_std() {
    for text in ["", " ", "a", " a ", "\n\na b\t\n", "\u{3000}x\u{a0}", "\u{200b}x", "a\u{2028}b", "\r\n"] {
        assert_eq!(trim(text), text.trim(), "{text:?}");
    }
}

#[test]
fn splitting_agrees_with_std() {
    for text in ["", " ", "a", "a b", " a", "a ", "a  b", "1 2 3 4 5", "\u{e4} \u{1f3b5}"] {
        let expected: Vec<String> = text.split(' ').map(String::from).collect();
        assert_eq!(split(text, ' '), expected, "{text:?}");
    }
    assert_eq!(split("a\nb", '\n'), vec!["a", "b"]);
}

#[test]
fn splitting_loses_nothing() {
    for text in ["", "x", "a,b,,c", ",", "a,b,"] {
        let parts = split(text, ',');
        assert_eq!(parts.join(","), text);
        assert!(parts.iter().all(|part| !part.contains(',')));
    }
}

#[test]
fn joined_texts_split_again() {
    let parts = vec!["one", "", "three"];
    assert_eq!(split(&parts.join(" "), ' '), parts);
}
