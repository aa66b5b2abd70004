//! Assembling the result for one page: stripping, analysis, the best
//! matched markup and the size summary.
use vstd::prelude::*;
use crate::expand_path::{expand_css_path, expanded_path};
use crate::page::{
    info_of, page_content_info, split_target, target_parts, wants_stats, wrap_with_header, wrapped_content, PageResultSet,
    ShowMode,
};
use crate::segments::{join_parts, join_with};
use crate::stats::{analysis_of, best_choice, opt_view, overview_of, selector_of, PageOverviewResult, PageStats};
use crate::tree::{
    add_sat, detached_nodes, extra_stripped, lemma_sat_add, remove_tags, sat, strip_extra_tags, tags_removed, text_weight,
    text_weight_of, unreached_mask, DomNode, DomTree,
};
use crate::uri::byte_len;

verus! {

/// What the markup's elements that the selector matches serialise to, in
/// document order (none for a selector that does not parse).
pub uninterp spec fn selected_html_of(markup: Seq<char>, selector: Seq<char>) -> Seq<Seq<char>>;

/// What the markup, parsed as a document, serialises to once the nodes
/// marked in `removed` (by their place in document order) are detached.
pub uninterp spec fn html_without_of(markup: Seq<char>, removed: Seq<bool>) -> Seq<char>;

/// The text nodes of the markup, parsed as a fragment, in document order.
pub uninterp spec fn text_pieces_of(markup: Seq<char>) -> Seq<Seq<char>>;

/// Relies on scraper's `Html::parse_document`, `Selector::parse`,
/// `Html::select` and `ElementRef::html`.
#[verifier::external_body]
fn select_html(markup: &str, selector: &str) -> (r: Vec<String>)
    ensures
        r@.map_values(|x: String| x@) == selected_html_of(markup@, selector@),
{
    match scraper::Selector::parse(selector) {
        Ok(sel) => scraper::Html::parse_document(markup).select(&sel).map(|e| e.html()).collect(),
        Err(_) => Vec::new(),
    }
}

/// Relies on scraper's `Html::parse_document` and `Html::html`, and on
/// ego-tree's `descendants` (document order) and `detach`.
#[verifier::external_body]
fn html_without(markup: &str, removed: &Vec<bool>) -> (r: String)
    ensures
        r@ == html_without_of(markup@, removed@),
{
    let mut doc = scraper::Html::parse_document(markup);
    let ids: Vec<_> = doc.tree.root().descendants().map(|n| n.id()).collect();
    for (i, id) in ids.into_iter().enumerate() {
        if removed.get(i) == Some(&true) {
            if let Some(mut node) = doc.tree.get_mut(id) {
                node.detach();
            }
        }
    }
    doc.html()
}

/// Relies on scraper's `Html::parse_fragment` and `ElementRef::text`.
#[verifier::external_body]
fn text_pieces(markup: &str) -> (r: Vec<String>)
    ensures
        r@.map_values(|x: String| x@) == text_pieces_of(markup@),
{
    scraper::Html::parse_fragment(markup).root_element().text().map(|t| t.to_string()).collect()
}

/// Tags taken out of every page before analysis.
pub open spec fn stripped_tags() -> Seq<Seq<char>> {
    seq!["script"@, "style"@, "link"@, "noscript"@]
}

pub open spec fn joined(parts: Seq<Seq<char>>) -> Seq<char> {
    join_with(parts, "\n"@)
}

/// The summed weights of the texts.
pub open spec fn pieces_weight(ps: Seq<Seq<char>>) -> nat
    decreases ps.len(),
{
    if ps.len() == 0 {
        0
    } else {
        pieces_weight(ps.drop_last()) + text_weight(ps.last())
    }
}

/// The markup a target selects: the content path's matches, wrapped with the
/// header path's matches when there are both.
pub open spec fn target_markup(markup: Seq<char>, target: Seq<char>) -> Seq<char> {
    let (hp, cp) = target_parts(target);
    wrapped_content(
        hp,
        joined(selected_html_of(markup, expanded_path(hp))),
        joined(selected_html_of(markup, expanded_path(cp))),
    )
}

/// The markup of the main-content element of an analysis.
pub open spec fn best_markup(markup: Seq<char>, p: Option<PageStats>) -> Seq<char> {
    match p {
        Some(ps) => match best_choice(ps.elements@) {
            Some(i) => joined(selected_html_of(markup, selector_of(ps.elements@[i]))),
            None => Seq::empty(),
        },
        None => Seq::empty(),
    }
}

pub open spec fn str_opt_view(o: Option<&str>) -> Option<Seq<char>> {
    match o {
        Some(s) => Some(s@),
        None => None,
    }
}

/// `r` is the result for `html`, parsed as `nodes`: `s` is the page without
/// script, style, link and noscript nodes; `c` is `s` after the extra strip
/// (through `m`) when it is asked for and no target is given, else `s`
/// itself; `p` is the analysis of `c`, made when elements are shown or no
/// target is given.
pub open spec fn page_data_holds(
    uri: Seq<char>,
    html: Seq<char>,
    nodes: Seq<DomNode>,
    mode: ShowMode,
    strip_extra: bool,
    target: Option<Seq<char>>,
    show_raw: bool,
    cached: bool,
    s: Seq<DomNode>,
    m: Seq<DomNode>,
    c: Seq<DomNode>,
    p: Option<PageStats>,
    r: PageResultSet,
) -> bool {
    let has_target = target is Some;
    let stripped_markup = html_without_of(html, detached_nodes(s));
    let compact_markup = if has_target { Seq::empty() } else { html_without_of(html, detached_nodes(c)) };
    let best = match target {
        Some(tg) => target_markup(stripped_markup, tg),
        None => best_markup(compact_markup, p),
    };
    let target_len: usize = if has_target { sat(pieces_weight(text_pieces_of(best))) } else { 0 };
    let show_links = mode != ShowMode::ContentOnly;
    &&& tags_removed(nodes, s, stripped_tags())
    &&& if strip_extra && !has_target { extra_stripped(s, m, c) } else { c == s }
    &&& (p is Some <==> (mode == ShowMode::ElementsAndLinks || !has_target))
    &&& (p matches Some(ps) ==> analysis_of(ps, c, uri, show_links))
    &&& match p {
        None => r.stats is None,
        Some(ps) => if show_links {
            r.stats == Some(PageOverviewResult::Full(ps))
        } else {
            r.stats matches Some(PageOverviewResult::Basic(o)) && overview_of(o, ps)
        },
    }
    &&& r.content matches Some(info) && info_of(
        info,
        has_target,
        byte_len(html) as usize,
        byte_len(stripped_markup) as usize,
        target_len,
        byte_len(compact_markup) as usize,
        cached,
        best,
    )
    &&& opt_view(r.raw) == if show_raw { Some(html) } else { None::<Seq<char>> }
    &&& r.related@.len() == 0
    &&& r.valid
}

/// The markup the selector matches, joined by newlines.
fn joined_selection(markup: &str, selector: &str) -> (r: String)
    ensures
        r@ == joined(selected_html_of(markup@, selector@)),
{
    let parts = select_html(markup, selector);
    let n = parts.len();
    let r = join_parts(&parts, 0, n, "\n");
    assert(parts@.map_values(|x: String| x@).subrange(0, n as int) =~= selected_html_of(markup@, selector@));
    r
}

/// The inner text length of markup: the summed weights of its text nodes.
fn markup_text_len(markup: &str) -> (r: usize)
    ensures
        r == sat(pieces_weight(text_pieces_of(markup@))),
{
    let pieces = text_pieces(markup);
    let ghost pv = pieces@.map_values(|x: String| x@);
    let mut acc: usize = 0;
    let mut k: usize = 0;
    while k < pieces.len()
        invariant
            0 <= k <= pieces@.len(),
            pv == pieces@.map_values(|x: String| x@),
            acc == sat(pieces_weight(pv.subrange(0, k as int))),
        decreases pieces@.len() - k,
    {
        let w = text_weight_of(pieces[k].as_str());
        proof {
            let sub = pv.subrange(0, k + 1);
            assert(sub.drop_last() =~= pv.subrange(0, k as int));
            assert(sub.last() == pieces@[k as int]@);
            lemma_sat_add(pieces_weight(pv.subrange(0, k as int)), w as nat);
        }
        acc = add_sat(acc, w);
        k = k + 1;
    }
    assert(pv.subrange(0, pv.len() as int) =~= text_pieces_of(markup@));
    acc
}

/// The page without its script, style, link and noscript nodes, and the
/// markup it serialises to.
pub fn stripped_page(html: &str, tree: DomTree) -> (r: (String, DomTree))
    requires
        tree.wf(),
    ensures
        r.1.wf(),
        tags_removed(tree.nodes@, r.1.nodes@, stripped_tags()),
        r.0@ == html_without_of(html@, detached_nodes(r.1.nodes@)),
{
    let mut t = tree;
    let names = vec!["script", "style", "link", "noscript"];
    proof {
        assert(names@.map_values(|w: &str| w@) =~= stripped_tags());
    }
    remove_tags(&mut t, &names);
    let markup = html_without(html, &unreached_mask(&t));
    (markup, t)
}

/// The result for one page: `html` is its cleaned markup and `tree` that
/// markup parsed as a document, node `i` being the `i`-th node in document
/// order.
pub fn build_page_content_data(
    uri: &str,
    html: &str,
    tree: DomTree,
    mode: ShowMode,
    strip_extra: bool,
    target: Option<&str>,
    show_raw: bool,
    cached: bool,
) -> (r: PageResultSet)
    requires
        tree.wf(),
    ensures
        exists|s: Seq<DomNode>, m: Seq<DomNode>, c: Seq<DomNode>, p: Option<PageStats>|
            #[trigger] page_data_holds(uri@, html@, tree.nodes@, mode, strip_extra, str_opt_view(target), show_raw, cached, s, m, c, p, r),
{
    let ghost nodes = tree.nodes@;
    let has_target = target.is_some();
    let (stripped_markup, mut t) = stripped_page(html, tree);
    let ghost s = t.nodes@;
    let ghost mut m: Seq<DomNode> = s;
    if strip_extra && !has_target {
        strip_extra_tags(&mut t);
        proof {
            m = choose|mid: Seq<DomNode>| #[trigger] extra_stripped(s, mid, t.nodes@);
        }
    }
    let ghost c = t.nodes@;
    let compact_markup = if has_target { String::new() } else { html_without(html, &unreached_mask(&t)) };
    let show_links = mode.show_links();
    let stats = if wants_stats(mode, has_target) { Some(PageStats::new(&t, uri, show_links)) } else { None };
    let ghost p = stats;
    let mut best = String::new();
    let mut target_len: usize = 0;
    match target {
        Some(tg) => {
            let (hp, cp) = split_target(tg);
            let header = joined_selection(stripped_markup.as_str(), expand_css_path(hp.as_str()).as_str());
            let content = joined_selection(stripped_markup.as_str(), expand_css_path(cp.as_str()).as_str());
            best = wrap_with_header(hp.as_str(), header.as_str(), content.as_str());
            target_len = markup_text_len(best.as_str());
        },
        None => {
            match &stats {
                Some(ps) => match ps.best_content_index() {
                    Some(i) => {
                        best = joined_selection(compact_markup.as_str(), ps.elements[i].selector().as_str());
                    },
                    None => {},
                },
                None => {},
            }
        },
    }
    let info = page_content_info(
        has_target,
        html.as_bytes().len(),
        stripped_markup.as_str().as_bytes().len(),
        target_len,
        compact_markup.as_str().as_bytes().len(),
        cached,
        best.as_str(),
    );
    let raw = if show_raw { Some(html.to_owned()) } else { None };
    let overview = match stats {
        Some(ps) => Some(ps.to_result(show_links)),
        None => None,
    };
    let r = PageResultSet::new(overview, Some(info), raw);
    proof {
        assert(page_data_holds(uri@, html@, nodes, mode, strip_extra, str_opt_view(target), show_raw, cached, s, m, c, p, r));
    }
    r
}

} // verus!
