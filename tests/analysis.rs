use page_insight::cache::{
    cache_window_minutes, get_max_page_age_minutes, read_fresh, seconds_between, serves_request, to_page_key,
    FlatPage, MAX_PAGE_AGE_MINS_DEFAULT,
};
use page_insight::page::{
    page_link_items, related_uris, split_target, wants_stats, wrap_with_header, PageInfo, PageResultSet, ShowMode,
};
use page_insight::snippet::{build_page_content_items, cast_value, Snippet, TargetConfig, TargetKind, TypedValue};
use page_insight::stats::{
    extract_description_from_doc, extract_href_from_node, extract_image_from_doc, extract_lang_from_doc,
    extract_meta_from_doc, extract_tag_name, extract_title_from_doc, PageElement, PageOverviewResult, PageStats,
};
use page_insight::tree::{extract_inner_text_length, remove_tags, strip_extra_tags, DomNode, DomTree};
use page_insight::truthy::IsTruthy;
use page_insight::uri::{concat_full_uri, extract_base_uri, is_javascript_link, is_local_uri};

fn el(tag: &str, attrs: &[(&str, &str)], children: Vec<usize>) -> DomNode {
    DomNode {
        tag: Some(tag.to_string()),
        text: String::new(),
        attrs: attrs.iter().map(|(k, v)| (k.to_string(), v.to_string())).collect(),
        children,
    }
}

fn txt(s: &str) -> DomNode {
    DomNode { tag: None, text: s.to_string(), attrs: vec![], children: vec![] }
}

/// A body holding `div#main` with 800 characters of prose and a `nav` list of
/// ten links, two of them to the same address.
fn sample_page() -> DomTree {
    let prose = "abcd ".repeat(160);
    let mut nodes = vec![
        DomNode { tag: None, text: String::new(), attrs: vec![], children: vec![1] },
        el("html", &[("lang", "en")], vec![2, 4]),
        el("head", &[], vec![3]),
        el("title", &[], vec![]),
        el("body", &[], vec![5, 7]),
        el("div", &[("id", "main"), ("class", "story  wide")], vec![6]),
        txt(&prose),
        el("nav", &[], vec![8]),
    ];
    let ul_children: Vec<usize> = (0..10).map(|k| 9 + 3 * k).collect();
    nodes.push(el("ul", &[], ul_children));
    for k in 0..10 {
        let base = 9 + 3 * k;
        let href = if k == 9 { "/news0".to_string() } else { format!("/news{}", k) };
        nodes.push(el("li", &[], vec![base + 1]));
        nodes.push(el("a", &[("href", href.as_str())], vec![base + 2]));
        nodes.push(txt(&format!("Link{}", k)));
    }
    DomTree { nodes }
}

#[test]
fn local_uri_examples() {
    assert!(is_local_uri("/a/b", "https://example.com"));
    assert!(is_local_uri("https://sub.example.com/x", "https://example.com"));
    assert!(!is_local_uri("https://other.com/x", "https://example.com"));
    assert!(!is_local_uri("mailto:someone@example.com", "https://example.com"));
    assert!(is_local_uri("../up", "https://example.com"));
    assert!(is_local_uri("https://example.com/deep", "https://example.com"));
}

#[test]
fn base_and_full_uri() {
    assert_eq!(extract_base_uri("https://example.com/a/b?c"), "https://example.com");
    assert_eq!(extract_base_uri("https://example.com"), "https://example.com");
    assert_eq!(extract_base_uri("no-scheme/path"), "no-scheme/path");
    assert_eq!(concat_full_uri("/x", "https://example.com"), "https://example.com/x");
    assert_eq!(concat_full_uri("http://a.org/x", "https://example.com"), "http://a.org/x");
}

#[test]
fn placeholder_links() {
    assert!(is_javascript_link("{{title}}", "/x"));
    assert!(is_javascript_link("Home", "/x/{id}"));
    assert!(!is_javascript_link("Home", "/x"));
}

#[test]
fn truthy_examples() {
    assert_eq!("yes".is_truthy(), Some(true));
    assert_eq!("0".is_truthy(), Some(false));
    assert_eq!("-3".is_truthy(), Some(false));
    assert_eq!("banana".is_truthy(), None);
    assert_eq!(" TRUE ".is_truthy(), Some(true));
    assert_eq!("2.5".is_truthy(), Some(true));
    assert_eq!("0.0".is_truthy(), Some(false));
    assert_eq!("Truly".is_truthy(), Some(true));
    assert_eq!("falsy".is_truthy(), Some(false));
    assert!("banana".smart_cast_bool(true));
    assert!(!"banana".smart_cast_bool(false));
}

#[test]
fn cache_round_trip() {
    let page = FlatPage::new_at("https://example.com", "<p>hi</p>", false, 1_000);
    let hit = read_fresh(page, 1_000 + 60, 1440).expect("fresh record");
    assert!(hit.cached);
    assert_eq!(hit.content, "<p>hi</p>");
    assert_eq!(hit.ts, 1_000);
    let page = FlatPage::new_at("https://example.com", "<p>hi</p>", false, 1_000);
    assert!(read_fresh(page, 1_000 + 1440 * 60, 1440).is_none());
}

#[test]
fn skip_cache_window_is_one_minute() {
    assert_eq!(cache_window_minutes(true, 1440), 1);
    assert_eq!(cache_window_minutes(false, 30), 30);
    let page = FlatPage::new_at("u", "c", false, 0);
    assert!(read_fresh(page, 59, cache_window_minutes(true, 1440)).is_some());
    let page = FlatPage::new_at("u", "c", false, 0);
    assert!(read_fresh(page, 60, cache_window_minutes(true, 1440)).is_none());
}

#[test]
fn page_record_helpers() {
    let mut page = FlatPage::new("u", "  \n ", true);
    assert!(page.is_empty());
    assert!(!page.cached);
    page.set_cached();
    assert!(page.cached);
    let empty = FlatPage::empty();
    assert_eq!(empty.ts, 0);
    assert!(empty.is_empty());
    assert!(serves_request(&page, true));
    assert!(!serves_request(&page, false));
    assert_eq!(seconds_between(100, 40), 60);
    assert_eq!(seconds_between(i64::MIN, 1), i64::MIN);
}

#[test]
fn configured_age() {
    assert_eq!(get_max_page_age_minutes(Some("30")), 30);
    assert_eq!(get_max_page_age_minutes(Some("abc")), MAX_PAGE_AGE_MINS_DEFAULT);
    assert_eq!(get_max_page_age_minutes(None), 1440);
}

#[test]
fn page_key_is_unpadded_base64() {
    assert_eq!(to_page_key("https://example.com"), "aHR0cHM6Ly9leGFtcGxlLmNvbQ");
}

#[test]
fn end_to_end_main_content_and_domain_links() {
    let tree = sample_page();
    let stats = PageStats::new(&tree, "https://example.com/page", true);
    let best = stats.best_content_match().expect("a main element");
    assert_eq!(best.selector(), "div#main.story.wide");
    assert_eq!(best.text_len, 799);
    assert_eq!(stats.text_len, 799 + 50);
    assert!(best.text_len * 100 > 94 * stats.text_len);
    assert_eq!(stats.num_links, 10);
    assert_eq!(stats.num_domain_links, 9);
    assert_eq!(stats.domain_links[0], "/news0");
    assert_eq!(stats.domain_links[8], "/news8");
    assert_eq!(stats.lang.as_deref(), Some("en"));
    assert_eq!(stats.title, None);
}

#[test]
fn elements_ranked_and_totals_set() {
    let tree = sample_page();
    let stats = PageStats::new(&tree, "https://example.com/page", false);
    let lens: Vec<usize> = stats.elements.iter().map(|e| e.text_len).collect();
    assert_eq!(lens, vec![799, 50, 50]);
    assert!(stats.elements.iter().all(|e| e.total_text_len == 849));
    assert_eq!(stats.elements[1].tag_name, "nav");
    assert_eq!(stats.elements[2].tag_name, "ul");
    assert_eq!(stats.elements[2].depth, 1);
    assert_eq!(stats.elements[2].list_links, 10);
    assert_eq!(stats.elements[1].num_links, 10);
    assert_eq!(stats.elements[1].link_text_len, 50);
    assert!(stats.domain_links.is_empty());
    let depth0: usize = stats.elements.iter().filter(|e| e.depth == 0 && e.has_meaningful_content()).map(|e| e.text_len).sum();
    assert_eq!(depth0, stats.text_len);
    let texts = stats.top_text_elements();
    assert_eq!(texts.len(), 1);
    assert_eq!(texts[0].tag_name, "div");
    let menus = stats.top_menu_elements();
    assert_eq!(menus.len(), 2);
    assert_eq!(menus[0].weighted_num_links(), 10 * 3 + 10 + 10 * 200 / 50);
}

#[test]
fn best_content_falls_back_to_first_walked() {
    let nodes = vec![
        DomNode { tag: None, text: String::new(), attrs: vec![], children: vec![1] },
        el("body", &[], vec![2, 4]),
        el("section", &[], vec![3]),
        txt("short"),
        el("aside", &[], vec![5]),
        txt("tiny"),
    ];
    let tree = DomTree { nodes };
    let stats = PageStats::new(&tree, "https://example.com", false);
    assert_eq!(stats.elements.len(), 2);
    let best = stats.best_content_match().expect("fallback element");
    assert_eq!(best.tag_name, "section");
    let empty = PageStats::new(&DomTree { nodes: vec![] }, "https://example.com", false);
    assert!(empty.best_content_match().is_none());
}

#[test]
fn removing_tags_hides_their_subtrees() {
    let mut tree = DomTree {
        nodes: vec![
            DomNode { tag: None, text: String::new(), attrs: vec![], children: vec![1] },
            el("body", &[], vec![2, 4]),
            el("script", &[], vec![3]),
            txt("var x = 1;"),
            el("div", &[], vec![5]),
            txt("visible"),
        ],
    };
    remove_tags(&mut tree, &vec!["script", "style", "link", "noscript"]);
    assert_eq!(tree.nodes[1].children, vec![4]);
    let stats = PageStats::new(&tree, "https://example.com", false);
    assert_eq!(stats.elements.len(), 1);
    assert_eq!(stats.elements[0].tag_name, "div");
}

#[test]
fn element_predicates() {
    let e = PageElement {
        depth: 0,
        tag_name: "div".to_string(),
        class_names: vec![],
        id: None,
        text_len: 200,
        link_text_len: 150,
        list_links: 2,
        num_links: 4,
        num_paras: 0,
        num_headings: 0,
        total_text_len: 250,
        order: 0,
    };
    assert!(e.is_main_text_element());
    assert!(!e.has_plain_majority());
    assert!(!e.has_meaningful_text());
    assert_eq!(e.weighted_num_links(), 2 * 3 + 4 + 4);
    assert_eq!(e.selector(), "div");
}

#[test]
fn typed_snippet_cast() {
    assert!(matches!(cast_value(Some(TargetKind::Integer), "Price: 42 dollars"), TypedValue::Integer(42)));
    match cast_value(Some(TargetKind::Integer), "no number here") {
        TypedValue::Text(t) => assert_eq!(t, "no number here"),
        other => panic!("unexpected {:?}", other),
    }
    assert!(matches!(cast_value(Some(TargetKind::Boolean), "yes"), TypedValue::Flag(Some(true))));
    assert!(matches!(cast_value(Some(TargetKind::Boolean), "banana"), TypedValue::Flag(None)));
    match cast_value(Some(TargetKind::Float), "about 3.5 kg") {
        TypedValue::Decimal(d) => assert_eq!(d, "3.5"),
        other => panic!("unexpected {:?}", other),
    }
    match cast_value(Some(TargetKind::Data), "42") {
        TypedValue::Text(t) => assert_eq!(t, "42"),
        other => panic!("unexpected {:?}", other),
    }
}

#[test]
fn snippet_single_and_multiple() {
    let texts = vec!["7 items".to_string(), "9 items".to_string()];
    let single = Snippet::new_item(&texts, "li", "count", false, Some(TargetKind::Integer));
    assert!(matches!(single.content, Some(TypedValue::Integer(7))));
    assert!(single.matches.is_empty());
    assert_eq!(single.key.as_deref(), Some("count"));
    let many = Snippet::new_item(&texts, "li", "", true, Some(TargetKind::Integer));
    assert!(many.content.is_none());
    assert_eq!(many.matches.len(), 2);
    assert!(matches!(many.matches[1], TypedValue::Integer(9)));
    assert!(many.key.is_none());
    assert!(many.has_content());
    let none = Snippet::new("", "p");
    assert!(!none.has_content());
}

fn rule(kind: Option<TargetKind>, paths: &[&str], pattern: Option<&str>, plain: bool, multiple: bool) -> TargetConfig {
    TargetConfig {
        kind,
        path: None,
        paths: Some(paths.iter().map(|p| p.to_string()).collect()),
        key: Some("k".to_string()),
        multiple: Some(multiple),
        pattern: pattern.map(|p| p.to_string()),
        plain: Some(plain),
        numeric: None,
    }
}

#[test]
fn content_items_filter_and_skip() {
    let targets = vec![("tr:(2)".to_string(), "<tr>x</tr>".to_string()), ("p".to_string(), String::new())];
    let items = vec![
        rule(Some(TargetKind::Integer), &["td"], Some("price"), true, true),
        rule(None, &["td"], Some("("), false, false),
        rule(None, &["b", "i"], None, false, false),
    ];
    let matches = vec![
        vec![vec!["<td>Price 12</td>".to_string(), "<td>Other 5</td>".to_string()]],
        vec![vec!["<td>anything</td>".to_string()]],
        vec![vec![], vec!["<i>it</i>".to_string()]],
    ];
    let set = build_page_content_items(&targets, &items, &matches, None, true);
    assert!(set.cached);
    assert!(set.valid);
    assert_eq!(set.contents.len(), 4);
    assert_eq!(set.contents[0].path, "tr:nth-child(2)");
    assert!(set.contents[1].content.is_none());
    assert_eq!(set.contents[2].path, "td");
    assert_eq!(set.contents[2].matches.len(), 1);
    assert!(matches!(set.contents[2].matches[0], TypedValue::Integer(12)));
    assert_eq!(set.contents[3].path, "i");
    match &set.contents[3].content {
        Some(TypedValue::Text(t)) => assert_eq!(t, "<i>it</i>"),
        other => panic!("unexpected {:?}", other),
    }
}

#[test]
fn show_modes_and_info() {
    assert_eq!(ShowMode::new(true, true), ShowMode::ElementsAndLinks);
    assert_eq!(ShowMode::new(true, false), ShowMode::ContentOnly);
    assert_eq!(ShowMode::new(false, true), ShowMode::LinksOnly);
    assert!(ShowMode::LinksOnly.show_links());
    assert!(!ShowMode::LinksOnly.show_elements());
    assert!(wants_stats(ShowMode::ContentOnly, false));
    assert!(!wants_stats(ShowMode::ContentOnly, true));
    let info = PageInfo::new(10, 8, 6, false, "x", 1);
    assert!(info.best_text.is_none());
    let info = PageInfo::new(10, 8, 6, true, "<p>ok</p>", 9);
    assert_eq!(info.best_text.as_deref(), Some("<p>ok</p>"));
}

#[test]
fn targets_and_wrapping() {
    assert_eq!(split_target("header/body"), ("header".to_string(), "body".to_string()));
    assert_eq!(split_target("#main"), (String::new(), "#main".to_string()));
    assert_eq!(wrap_with_header("h1", "<h1>T</h1>", "<p>b</p>"), "<div class=\"content-wrapper\"><h1>T</h1><p>b</p></div>");
    assert_eq!(wrap_with_header("", "<h1>T</h1>", "<p>b</p>"), "<p>b</p>");
}

#[test]
fn related_pages_are_capped() {
    let links: Vec<String> = (0..70).map(|k| format!("/news{}", k)).collect();
    let uris = related_uris(&links, "https://example.com");
    assert_eq!(uris.len(), 64);
    assert_eq!(uris[0], "https://example.com/news0");
    let mut result = PageResultSet::new(None, None, None);
    assert!(result.domain_links().is_empty());
    result.add_related(PageResultSet::empty());
    assert_eq!(result.related.len(), 1);
    assert!(!result.related[0].valid);
}

#[test]
fn link_items_are_distinct_and_titled() {
    let tree = DomTree {
        nodes: vec![
            DomNode { tag: None, text: String::new(), attrs: vec![], children: vec![1] },
            el("body", &[], vec![2, 4, 6, 8]),
            el("a", &[("href", "/one")], vec![3]),
            txt(" One "),
            el("a", &[("href", "/one")], vec![5]),
            txt("Again"),
            el("a", &[("href", "https://other.org/")], vec![7]),
            txt("{{tpl}}"),
            el("a", &[("href", "https://other.org/x")], vec![9]),
            txt("Other"),
        ],
    };
    let links = page_link_items(&tree, "https://example.com/start");
    assert_eq!(links.len(), 2);
    assert_eq!(links[0].uri, "/one");
    assert_eq!(links[0].title, "One");
    assert!(links[0].local);
    assert_eq!(links[1].uri, "https://other.org/x");
    assert!(!links[1].local);
}

#[test]
fn overview_and_result() {
    let tree = sample_page();
    let stats = PageStats::new(&tree, "https://example.com/page", true);
    let overview = stats.to_overview();
    assert_eq!(overview.num_links, 10);
    assert_eq!(overview.text_len, 849);
    match stats.to_result(true) {
        PageOverviewResult::Full(p) => {
            let set = PageResultSet::new(Some(PageOverviewResult::Full(p)), None, None);
            assert_eq!(set.domain_links().len(), 9);
        },
        _ => panic!("expected the full result"),
    }
}

#[test]
fn extra_strip_drops_media_and_empty_containers() {
    let mut tree = DomTree {
        nodes: vec![
            DomNode { tag: None, text: String::new(), attrs: vec![], children: vec![1] },
            el("body", &[], vec![2, 3, 5, 7]),
            el("img", &[("src", "x.png")], vec![]),
            el("div", &[], vec![4]),
            txt(" !! "),
            el("span", &[], vec![6]),
            txt("kept"),
            el("p", &[], vec![8]),
            txt("  "),
        ],
    };
    assert_eq!(extract_inner_text_length(&tree, 3), 0);
    assert_eq!(extract_inner_text_length(&tree, 5), 4);
    strip_extra_tags(&mut tree);
    assert_eq!(tree.nodes[1].children, vec![5, 7]);
    assert_eq!(extract_inner_text_length(&tree, 1), 4);
}

#[test]
fn page_info_sizes_follow_the_target() {
    let with_target = page_insight::page::page_content_info(true, 100, 80, 12, 60, false, "<p>abc</p>");
    assert_eq!(with_target.stripped_len, 12);
    assert_eq!(with_target.compact_len, 10);
    assert_eq!(with_target.compact_text_len, 10);
    let without = page_insight::page::page_content_info(false, 100, 80, 12, 60, true, "");
    assert_eq!(without.stripped_len, 80);
    assert_eq!(without.compact_len, 60);
    assert!(without.best_text.is_none());
    assert!(without.cached);
}

#[test]
fn metadata_extraction() {
    let tree = DomTree {
        nodes: vec![
            DomNode { tag: None, text: String::new(), attrs: vec![], children: vec![1] },
            el("html", &[("lang", "de")], vec![2]),
            el("head", &[], vec![3, 5, 6, 7]),
            el("title", &[], vec![4]),
            txt("Seite"),
            el("meta", &[("name", "keywords"), ("content", "k")], vec![]),
            el("meta", &[("name", "description"), ("content", "Eine Seite")], vec![]),
            el("meta", &[("property", "og:image"), ("content", "/img.png")], vec![]),
        ],
    };
    assert_eq!(extract_title_from_doc(&tree).as_deref(), Some("Seite"));
    assert_eq!(extract_lang_from_doc(&tree).as_deref(), Some("de"));
    assert_eq!(extract_description_from_doc(&tree).as_deref(), Some("Eine Seite"));
    assert_eq!(extract_image_from_doc(&tree).as_deref(), Some("/img.png"));
    assert_eq!(extract_meta_from_doc(&tree, "name", "author"), None);
    assert_eq!(extract_href_from_node(&tree, 1), None);
    assert_eq!(extract_tag_name(&tree, 1), "html");
    assert_eq!(extract_tag_name(&tree, 4), "");
}
