use page_insight::segments::{replace_non_ascii_letter, strip_non_chars, CharGroupMatch, ExtractSegments, NumericSeparatorSet};

fn strings(items: &[&str]) -> Vec<String> {
    items.iter().map(|s| s.to_string()).collect()
}

#[test]
fn test_tail_pair() {
    let source = "/path/with/many/parts".to_string();
    let result = ("parts".to_string(), "/path/with/many".to_string());
    assert_eq!(source.extract_tail_pair("/"), result);
}

#[test]
fn test_extract_segment() {
    let source = "/path/with/many/segments/and/words".to_string();
    let result = "segments".to_string();
    assert_eq!(source.extract_segment("/", 4).unwrap_or("invalid".to_string()), result);
}

#[test]
fn test_extract_inner_segment() {
    let source = "/path/with/many/segments/image-name.jpg".to_string();
    let result = "image-name".to_string();
    let groups = &[("/", -1), (".", 0)];
    assert_eq!(source.extract_inner_segment(groups).unwrap_or("invalid".to_string()), result);
}

#[test]
fn test_strip_non_chars() {
    let source = "I went to the café for lunch in Zürich. Привет".to_string();
    let result = "IwenttothecaféforlunchinZürichПривет".to_string();
    assert_eq!(strip_non_chars(&source), result);
}

#[test]
fn test_extract_numeric_strings() {
    let source = "I spent £4.80 on 2 ham sandwiches".to_string();
    let result = strings(&["4.80", "2"]);
    assert_eq!(source.extract_numeric_segments(NumericSeparatorSet::Point), result);
    let source = "In one shop I paid £2.75. Later I saw the same product on sale for £2.00.".to_string();
    let result = strings(&["2.75", "2.00"]);
    assert_eq!(source.extract_numeric_segments(NumericSeparatorSet::Point), result);
    let source = "Ho pagato 3.299,90€, ma dopo ho visto lo stesso prodotto in vendita per €2.500,00".to_string();
    let result = strings(&["3299.90", "2500.00"]);
    assert_eq!(source.extract_numeric_segments(NumericSeparatorSet::PointComma), result);
    let source = "A quarter can be represented as .25".to_string();
    let result = strings(&["0.25"]);
    assert_eq!(source.extract_numeric_segments(NumericSeparatorSet::Point), result);
}

#[test]
fn heads_tails_and_segments() {
    let source = "a/b/c".to_string();
    assert_eq!(source.extract_head("/"), "a");
    assert_eq!(source.extract_tail("/"), "c");
    assert_eq!(source.extract_head_pair("/"), ("a".to_string(), "b/c".to_string()));
    assert_eq!(source.extract_segment("/", -1), Some("c".to_string()));
    assert_eq!(source.extract_segment("/", 3), None);
    assert_eq!(source.extract_segment("/", -4), None);
    let plain = "abc".to_string();
    assert_eq!(plain.extract_head("/"), "abc");
    assert_eq!(plain.extract_head_pair("/"), (String::new(), "abc".to_string()));
    assert_eq!(plain.extract_tail_pair("/"), ("abc".to_string(), String::new()));
    assert_eq!(plain.extract_segments("/"), strings(&["abc"]));
    let no_groups: &[(&str, i32)] = &[];
    assert_eq!(plain.extract_inner_segment(no_groups), None);
}

#[test]
fn separator_sets() {
    assert_eq!(NumericSeparatorSet::Comma.decimal(), vec![',']);
    assert_eq!(NumericSeparatorSet::Point.group(), Vec::<char>::new());
    assert_eq!(NumericSeparatorSet::CommaSpacePoint.char_set(), (vec![',', ' ', '_'], vec!['.', '‧']));
}

#[test]
fn character_classes() {
    assert!("abc1".to_string().has_digits());
    assert!(!"abc".to_string().has_digits());
    assert!("__x".to_string().has_alphanumeric());
    assert!(!"123".to_string().has_alphabetic());
    assert_eq!(replace_non_ascii_letter('é'), Some("e"));
    assert_eq!(replace_non_ascii_letter('ß'), Some("ss"));
    assert_eq!(replace_non_ascii_letter('x'), None);
}
