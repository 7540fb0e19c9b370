use budget_bot::check::{Check, CheckEntry};

fn entry(line: &str) -> (String, String) {
    let e = CheckEntry::from_str(line).expect("line should read");
    (e.description().to_string(), e.price().to_string())
}

#[test]
fn entry_with_decimal_price() {
    assert_eq!(entry("Milk 2.50"), ("Milk".to_string(), "2.50".to_string()));
}

#[test]
fn entry_description_is_joined_by_single_spaces() {
    assert_eq!(
        entry("  Хліб   білий\t 1.20 "),
        ("Хліб білий".to_string(), "1.20".to_string())
    );
}

#[test]
fn price_is_the_match_inside_the_last_word() {
    assert_eq!(entry("Apples x3.25€"), ("Apples".to_string(), "3.25".to_string()));
    assert_eq!(entry("Bread 1,20"), ("Bread".to_string(), "1".to_string()));
    assert_eq!(entry("Coffee -.5"), ("Coffee".to_string(), "-.5".to_string()));
    assert_eq!(entry("Cake +7"), ("Cake".to_string(), "7".to_string()));
    assert_eq!(entry("Tip 12."), ("Tip".to_string(), "12".to_string()));
}

#[test]
fn single_word_line() {
    assert_eq!(entry("42"), ("".to_string(), "42".to_string()));
}

#[test]
fn line_without_price_is_refused() {
    assert!(CheckEntry::from_str("Tea free").is_err());
    assert!(CheckEntry::from_str("Tea 12 €").is_err());
}

#[test]
fn entry_from_words_and_found_price() {
    let words = vec!["Big".to_string(), "apple".to_string(), "x2.5".to_string()];
    let e = CheckEntry::from_words(words.clone(), Some("2.5".to_string())).unwrap();
    assert_eq!(e.description(), "Big apple");
    assert_eq!(e.price(), "2.5");
    assert!(CheckEntry::from_words(words, None).is_err());
    let e = CheckEntry::from_words(vec!["9".to_string()], Some("9".to_string())).unwrap();
    assert_eq!(e.description(), "");
}

#[test]
fn receipt_one_entry_per_line() {
    let c = Check::parse("Milk 2.50\r\nBread 1\nCheese 4.99\n").unwrap();
    let got: Vec<(String, String)> = c
        .entries
        .iter()
        .map(|e| (e.description().to_string(), e.price().to_string()))
        .collect();
    assert_eq!(
        got,
        vec![
            ("Milk".to_string(), "2.50".to_string()),
            ("Bread".to_string(), "1".to_string()),
            ("Cheese".to_string(), "4.99".to_string()),
        ]
    );
}

#[test]
fn empty_receipt_has_no_entries() {
    assert!(Check::parse("").unwrap().entries.is_empty());
}

#[test]
fn parse_keeps_line_order() {
    let text = "a 1\nb 2";
    let p = Check::parse(text).unwrap();
    assert_eq!(p.entries.len(), 2);
    assert_eq!(p.entries[1].price(), "2");
}

#[test]
fn parse_refuses_corrupted_receipts() {
    assert!(Check::parse("a 1\n\nb 2").is_none());
    assert!(Check::parse("a 1\nb two").is_none());
    assert!(Check::parse("   ").is_none());
}

#[test]
fn entry_display() {
    let e = CheckEntry::from_str("Milk 2.50").unwrap();
    assert_eq!(e.display_with("2.5"), "Milk — ціна: 2.5 (в євро)");
}
