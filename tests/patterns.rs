use page_insight::expand_path::expand_css_path;
use page_insight::pattern::{PatternMatch, PatternMatchMany};
use page_insight::text::{clean_raw_html, strip_literal_tags};

#[test]
fn test_css_path_rewrite() {
    let source_path = "#oiltb tr:(7) td:nth-child(2)".to_string();
    let target_path = "#oiltb tr:nth-child(7) td:nth-child(2)".to_string();
    let corrected_path = expand_css_path(&source_path);
    assert_eq!(corrected_path, target_path);

    let source_path = "#oiltb tr:(4) td (3)".to_string();
    let target_path = "#oiltb tr:nth-child(4) td:nth-child(3)".to_string();
    let corrected_path = expand_css_path(&source_path);
    assert_eq!(corrected_path, target_path);
}

#[test]
fn expands_shorthand_with_id_prefix() {
    assert_eq!(expand_css_path("#id tr:(7) td (3)"), "#id tr:nth-child(7) td:nth-child(3)");
}

#[test]
fn leaves_plain_path_unchanged() {
    assert_eq!(expand_css_path("div.main > p"), "div.main > p");
}

#[test]
fn string_utils_test_replace_many() {
    let text = "The cat caught a mouse in the cattle ranch".to_string();
    let target_text = "The lion caught a zebra in the cattle ranch".to_string();
    let sets = vec![(r"\bcat\b", "lion", true), (r"\bmouse\b", "zebra", true)];
    assert_eq!(text.pattern_replace_sets(&sets), target_text);
}

#[test]
fn string_utils_test_muiltiple_replace_many() {
    let texts = vec![
        "The cat caught a mouse in the cattle ranch".to_string(),
        "The mousetrap did not stop the cat".to_string(),
    ];
    let target_texts = vec![
        "The lion caught a zebra in the cattle ranch".to_string(),
        "The mousetrap did not stop the lion".to_string(),
    ];
    let sets = vec![(r"\bcat\b", "lion", true), (r"\bmouse\b", "zebra", true)];
    assert_eq!(texts.pattern_replace_sets(&sets), target_texts);
}

#[test]
fn string_patterns_test_replace_many() {
    let text = "The cat caught a mouse in the cattle ranch".to_string();
    let target_text = "The lion caught a zebra in the cattle ranch".to_string();
    let sets = vec![(r"\bcat\b", "lion", true), (r"\bmouse\b", "zebra", true)];
    assert_eq!(text.pattern_replace_sets(&sets), target_text);
}

#[test]
fn string_patterns_test_muiltiple_replace_many() {
    let texts = vec![
        "The cat caught a mouse in the cattle ranch".to_string(),
        "The mousetrap did not stop the cat".to_string(),
    ];
    let target_texts = vec![
        "The lion caught a zebra in the cattle ranch".to_string(),
        "The mousetrap did not stop the lion".to_string(),
    ];
    let sets = vec![(r"\bcat\b", "lion", true), (r"\bmouse\b", "zebra", true)];
    assert_eq!(texts.pattern_replace_sets(&sets), target_texts);
}

#[test]
fn test_pattern_match() {
    let text = "The cat caught a mouse in the cattle ranch".to_string();
    let pattern = r"\bmouse\b";
    assert!(text.pattern_match(&pattern, true));
}

#[test]
fn test_pattern_not_match() {
    let text = "The cat caught a mouse in the cattle ranch".to_string();
    let pattern = r"\bzebre\b";
    assert!(text.pattern_match(&pattern, true) == false);
}

#[test]
fn test_pattern_match_many() {
    let texts: Vec<String> = ["The cat caught a mouse in the shed.", "The cat caught a bird in the park."]
        .iter()
        .map(|s| s.to_string())
        .collect();
    let pattern = r"\bmouse\b";
    assert!(texts.pattern_match(&pattern, true));
}

#[test]
fn invalid_pattern_is_skipped() {
    let text = "abc".to_string();
    assert_eq!(text.pattern_match_opt("(", false), None);
    assert_eq!(text.pattern_replace("(", "x", false), "abc");
    assert_eq!(text.pattern_replace_pairs(&[("(", "x"), ("b", "B")]), "aBc");
}

#[test]
fn match_many_variants() {
    let text = "Alpha Beta".to_string();
    assert!(text.pattern_match_many(&["alpha", "beta"], true));
    assert!(!text.pattern_match_many_sensitive(&["alpha", "Beta"]));
    assert!(text.pattern_match_many_insensitive(&["ALPHA"]));
    assert!(text.pattern_match_many_mixed(&[("Alpha", false), ("beta", true)]));
    assert!(text.pattern_match_many_conditional(&[(true, "Alpha", false), (false, "gamma", true)]));
    assert!(!text.pattern_match_many_conditional(&[(false, "Alpha", false)]));
}

#[test]
fn cleans_whitespace_comments_and_styles() {
    let raw = "<div  style=\"color:red\">\n  Hello <!-- note --> <b style='x'>you</b></div>";
    assert_eq!(clean_raw_html(raw), "<div> Hello  <b>you</b></div>");
}

#[test]
fn strips_tags_and_trims() {
    assert_eq!(strip_literal_tags("  <a href=\"/x\">Home <b>page</b></a> "), "Home page");
}

#[test]
fn expands_spaced_shorthand_alone() {
    assert_eq!(expand_css_path("td (3)"), "td:nth-child(3)");
}
