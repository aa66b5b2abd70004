use page_insight::assemble::build_page_content_data;
use page_insight::cache::to_page_key;
use page_insight::page::ShowMode;
use page_insight::stats::PageOverviewResult;
use page_insight::text::clean_raw_html;
use page_insight::tree::{DomNode, DomTree};
use scraper::{Html, Node};
use std::collections::HashMap;

/// The document arena of markup, nodes in document order.
fn document_tree(markup: &str) -> DomTree {
    let html = Html::parse_document(markup);
    let index: HashMap<ego_tree::NodeId, usize> =
        html.tree.root().descendants().enumerate().map(|(i, n)| (n.id(), i)).collect();
    let nodes = html
        .tree
        .root()
        .descendants()
        .map(|node| {
            let children = node.children().map(|c| index[&c.id()]).collect();
            match node.value() {
                Node::Element(e) => DomNode {
                    tag: Some(e.name().to_string()),
                    text: String::new(),
                    attrs: e.attrs().map(|(k, v)| (k.to_string(), v.to_string())).collect(),
                    children,
                },
                Node::Text(t) => DomNode { tag: None, text: t.to_string(), attrs: vec![], children },
                _ => DomNode { tag: Some(String::new()), text: String::new(), attrs: vec![], children },
            }
        })
        .collect();
    DomTree { nodes }
}

fn sample_markup() -> String {
    let prose = "abcd ".repeat(160);
    let links: String = (0..10)
        .map(|k| format!("<li><a href=\"/news{}\">Link{}</a></li>", if k == 9 { 0 } else { k }, k))
        .collect();
    format!(
        "<html><head><title>T</title><script>var x = 1;</script></head><body><div id=\"main\">{}</div><div class=\"empty\"></div><nav><ul>{}</ul></nav><img src=\"a.png\"></body></html>",
        prose, links
    )
}

#[test]
fn assembled_page_selects_main_content() {
    let html = clean_raw_html(&sample_markup());
    let tree = document_tree(&html);
    assert!(tree.is_well_formed());
    let result = build_page_content_data("https://example.com/page", &html, tree, ShowMode::ElementsAndLinks, true, None, false, false);
    assert!(result.valid);
    let info = result.content.expect("page info");
    let best = info.best_text.expect("best markup");
    assert!(best.starts_with("<div id=\"main\">abcd"));
    assert!(!info.cached);
    assert!(result.raw.is_none());
    match result.stats {
        Some(PageOverviewResult::Full(p)) => {
            assert_eq!(p.num_links, 10);
            assert_eq!(p.domain_links.len(), 9);
            assert_eq!(p.title.as_deref(), Some("T"));
            assert!(p.elements.iter().all(|e| e.tag_name != "img"));
            assert!(!p.elements.iter().any(|e| e.class_names == vec!["empty".to_string()]));
        },
        _ => panic!("expected the full analysis"),
    }
}

#[test]
fn assembled_page_with_target_skips_extra_strip() {
    let html = clean_raw_html(&sample_markup());
    let tree = document_tree(&html);
    let result = build_page_content_data("https://example.com/page", &html, tree, ShowMode::ContentOnly, true, Some("div.empty"), true, true);
    assert!(result.stats.is_none());
    assert_eq!(result.raw.as_deref(), Some(html.as_str()));
    let info = result.content.expect("page info");
    assert_eq!(info.best_text.as_deref(), Some("<div class=\"empty\"></div>"));
    assert_eq!(info.stripped_len, 0);
    assert!(info.cached);
}

#[test]
fn assembled_page_target_text_length() {
    let html = clean_raw_html(&sample_markup());
    let tree = document_tree(&html);
    let result = build_page_content_data("https://example.com/page", &html, tree, ShowMode::ContentOnly, false, Some("#main"), false, false);
    let info = result.content.expect("page info");
    assert_eq!(info.stripped_len, 799);
    assert_eq!(info.compact_len, info.best_text.as_ref().map(|b| b.len()).unwrap_or(0));
}

#[test]
fn stripped_markup_drops_scripts() {
    let html = clean_raw_html(&sample_markup());
    let tree = document_tree(&html);
    let (markup, _) = page_insight::assemble::stripped_page(&html, tree);
    assert!(!markup.contains("<script"));
    assert!(markup.contains("<img"));
}

#[test]
fn page_keys_are_url_safe() {
    let key = to_page_key("https://example.com/a?b=~~~&c=>>>");
    assert!(key.chars().all(|c| c.is_ascii_alphanumeric() || c == '-' || c == '_'));
    assert!(key.contains('_') || key.contains('-'));
    assert!(!key.contains('='));
}
