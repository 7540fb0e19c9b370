use budget_bot::text::{join, split_lines, split_words, str_eq};

const SAMPLES: [&str; 14] = [
    "",
    "\n",
    "a",
    "a\n",
    "a\nb",
    "a\r\nb\r\n",
    "a\rb",
    "tail\r",
    "\r\n",
    "one\n\nthree\n",
    "  Milk   2.50 ",
    "\tКава\x0Cз молоком\r3",
    "x\u{a0}y 1",
    "\n\n",
];

#[test]
fn words_agree_with_std() {
    for s in SAMPLES {
        let std_words: Vec<String> = s.split_ascii_whitespace().map(|w| w.to_string()).collect();
        assert_eq!(split_words(s), std_words, "words of {:?}", s);
    }
}

#[test]
fn lines_agree_with_std() {
    for s in SAMPLES {
        let std_lines: Vec<String> = s.lines().map(|l| l.to_string()).collect();
        assert_eq!(split_lines(s), std_lines, "lines of {:?}", s);
    }
}

#[test]
fn words_of_a_receipt_line() {
    assert_eq!(split_words("  Хліб  білий 1.20\t"), vec!["Хліб", "білий", "1.20"]);
    assert!(split_words(" \t\r ").is_empty());
}

#[test]
fn join_with_separator() {
    let parts = vec!["a".to_string(), "bc".to_string(), "d".to_string()];
    assert_eq!(join(&parts, " "), "a bc d");
    assert_eq!(join(&parts[..1], " "), "a");
    assert_eq!(join(&[], " "), "");
    assert_eq!(join(&parts, ", "), "a, bc, d");
}

#[test]
fn string_equality() {
    assert!(str_eq("Аренда", "Аренда"));
    assert!(!str_eq("Аренда", "Аренд"));
    assert!(!str_eq("ab", "ba"));
    assert!(str_eq("", ""));
}
