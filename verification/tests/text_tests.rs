use symphony_rs::text::{
    blank, chars_of, comes_before, decimal_text, joined, lowered, parse_u64, replaced, same_text,
    signed_decimal_text, split_lines, strip_prefix, trimmed,
};

#[test]
fn characters_come_back_from_a_string() {
    assert_eq!(chars_of("aé\u{1f600}"), vec!['a', 'é', '\u{1f600}']);
    assert!(same_text("über", "über"));
    assert!(!same_text("über", "uber"));
}

#[test]
fn trimming_agrees_with_std() {
    let samples = [
        "", " ", "a", " a ", "\t\n a b \r\n", "\u{a0}x\u{2003}", "\u{feff}x", "\u{85}\u{3000}",
        "\u{200b}x",
    ];
    for sample in samples {
        assert_eq!(trimmed(sample), sample.trim());
        assert_eq!(blank(sample), sample.trim().is_empty());
    }
    assert_eq!(trimmed(&trimmed("  a  ")), "a");
}

#[test]
fn white_space_agrees_with_std_everywhere() {
    for code in 0..0x11_0000u32 {
        if let Some(c) = char::from_u32(code) {
            assert_eq!(symphony_rs::text::char_is_space(c), c.is_whitespace());
        }
    }
}

#[test]
fn lower_case_is_ascii_only() {
    assert_eq!(lowered("In PROGRESS É"), "in progress É");
}

#[test]
fn dictionary_order_agrees_with_std() {
    let samples = ["", "a", "ab", "b", "B", "é", "z", "\u{ffff}", "\u{10000}", "a\u{0}"];
    for left in samples {
        for right in samples {
            assert_eq!(comes_before(left, right), left < right);
        }
    }
}

#[test]
fn lines_agree_with_std() {
    let samples = ["", "a", "a\n", "a\r\nb", "a\n\nb\n", "\n", "\r\n", "a\r", "a\r\r\nb", "a\nb\r"];
    for sample in samples {
        let expected: Vec<String> = sample.lines().map(|line| line.to_string()).collect();
        assert_eq!(split_lines(sample), expected);
    }
}

#[test]
fn joining_puts_separators_between() {
    assert_eq!(joined(&vec![], ", "), "");
    assert_eq!(joined(&vec!["a".to_string()], ", "), "a");
    assert_eq!(joined(&vec!["a".to_string(), "".to_string(), "c".to_string()], ", "), "a, , c");
}

#[test]
fn replacing_replaces_every_one() {
    assert_eq!(replaced("a'b''", '\'', "<q>"), "a<q>b<q><q>");
}

#[test]
fn prefixes_are_stripped_once() {
    assert_eq!(strip_prefix("~/~/x", "~/"), Some("~/x".to_string()));
    assert_eq!(strip_prefix("x", "~/"), None);
}

#[test]
fn numbers_have_their_decimal_texts() {
    for n in [0u64, 7, 10, 99, 100, 18_446_744_073_709_551_615] {
        assert_eq!(decimal_text(n), n.to_string());
    }
    for n in [0i64, -1, 42, i64::MIN, i64::MAX] {
        assert_eq!(signed_decimal_text(n), n.to_string());
    }
}

#[test]
fn unsigned_numbers_are_read_as_std_reads_them() {
    let samples = [
        "", "+", "-", "0", "007", "+12", "-1", "1 ", " 1", "12a", "18446744073709551615",
        "18446744073709551616", "99999999999999999999999", "+18446744073709551615", "++1", "٣",
    ];
    for sample in samples {
        assert_eq!(parse_u64(sample), sample.parse::<u64>().ok());
    }
}
