//! Page-level results: which projections to show, the size summary, the
//! link list of a page, and the plan for related pages.
use vstd::prelude::*;
use crate::stats::{opt_view, PageOverviewResult};
use crate::text::{strip_literal_tags, tag_pattern, trimmed};
use crate::pattern::replaced_once;
use crate::tree::{attr_in, document_order, has_tag, extract_element_attr, node_text, order_of, tag_is, text_of, DomTree};
use crate::uri::{
    base_of, byte_len, concat_full_uri, extract_base_uri, has_prefix, has_protocol, is_javascript_link,
    is_local_uri, local_uri, placeholder_text, starts_with,
};

verus! {

/// At most this many related pages are fetched for one page.
pub const RELATED_SCAN_LIMIT: usize = 64;

/// What `ToSegments::to_head_tail` returns: the part before the first
/// separator that is not leading, and the non-empty part after it.
pub uninterp spec fn head_tail_of(s: Seq<char>, separator: Seq<char>) -> (Option<Seq<char>>, Option<Seq<char>>);

/// Relies on `to_segments::ToSegments::to_head_tail`.
#[verifier::external_body]
fn head_tail(s: &str, separator: &str) -> (r: (Option<String>, Option<String>))
    ensures
        (opt_view(r.0), opt_view(r.1)) == head_tail_of(s@, separator@),
{
    let (h, t) = to_segments::ToSegments::to_head_tail(&s, separator);
    (h.map(|x| x.to_string()), t.map(|x| x.to_string()))
}

/// Which projections a result includes.
#[derive(Debug, Clone, Copy, PartialEq, Eq, Structural)]
pub enum ShowMode {
    ElementsAndLinks,
    LinksOnly,
    ContentOnly,
}

impl ShowMode {
    pub fn new(show_elements: bool, show_links: bool) -> (r: ShowMode)
        ensures
            r == if show_elements && show_links {
                ShowMode::ElementsAndLinks
            } else if show_links {
                ShowMode::LinksOnly
            } else {
                ShowMode::ContentOnly
            },
    {
        if show_elements && show_links {
            ShowMode::ElementsAndLinks
        } else if show_links {
            ShowMode::LinksOnly
        } else {
            ShowMode::ContentOnly
        }
    }

    pub fn show_elements(&self) -> (r: bool)
        ensures
            r == (*self == ShowMode::ElementsAndLinks),
    {
        match self {
            ShowMode::ElementsAndLinks => true,
            _ => false,
        }
    }

    pub fn show_links(&self) -> (r: bool)
        ensures
            r == (*self != ShowMode::ContentOnly),
    {
        match self {
            ShowMode::ContentOnly => false,
            _ => true,
        }
    }
}

/// Sizes of the page at each stage, and the best matched markup.
#[derive(Debug)]
pub struct PageInfo {
    pub source_len: usize,
    pub stripped_len: usize,
    pub compact_len: usize,
    pub cached: bool,
    pub best_text: Option<String>,
    pub compact_text_len: usize,
}

impl PageInfo {
    /// The summary; the best markup is kept only when it is longer than one byte.
    pub fn new(source_len: usize, stripped_len: usize, compact_len: usize, cached: bool, best_text_match: &str, compact_text_len: usize) -> (r: PageInfo)
        ensures
            r.source_len == source_len,
            r.stripped_len == stripped_len,
            r.compact_len == compact_len,
            r.cached == cached,
            r.compact_text_len == compact_text_len,
            opt_view(r.best_text) == if byte_len(best_text_match@) > 1 { Some(best_text_match@) } else { None::<Seq<char>> },
    {
        let best_text = if best_text_match.as_bytes().len() > 1 {
            Some(best_text_match.to_owned())
        } else {
            None
        };
        PageInfo { source_len, stripped_len, compact_len, cached, best_text, compact_text_len }
    }
}

/// One link of a page: where it points, its title, a summary, and whether it
/// stays on the same site.
#[derive(Debug)]
pub struct LinkItem {
    pub uri: String,
    pub title: String,
    pub summary: String,
    pub local: bool,
}

impl LinkItem {
    pub fn new(uri: &str, title: &str, summary: &str, local: bool) -> (r: LinkItem)
        ensures
            r.uri@ == uri@,
            r.title@ == title@,
            r.summary@ == summary@,
            r.local == local,
    {
        LinkItem { uri: uri.to_owned(), title: title.to_owned(), summary: summary.to_owned(), local }
    }
}

/// The result for one page, with the results for its related pages.
#[derive(Debug)]
pub struct PageResultSet {
    pub stats: Option<PageOverviewResult>,
    pub content: Option<PageInfo>,
    pub raw: Option<String>,
    pub related: Vec<PageResultSet>,
    pub valid: bool,
}

impl PageResultSet {
    pub fn new(stats: Option<PageOverviewResult>, content: Option<PageInfo>, raw: Option<String>) -> (r: PageResultSet)
        ensures
            r.stats == stats,
            r.content == content,
            r.raw == raw,
            r.related@.len() == 0,
            r.valid,
    {
        PageResultSet { stats, content, raw, related: Vec::new(), valid: true }
    }

    /// The result that says nothing could be produced.
    pub fn empty() -> (r: PageResultSet)
        ensures
            r.stats is None,
            r.content is None,
            r.raw is None,
            r.related@.len() == 0,
            !r.valid,
    {
        PageResultSet { stats: None, content: None, raw: None, related: Vec::new(), valid: false }
    }

    /// The same-site links of the full analysis; none for a summary.
    pub fn domain_links(&self) -> (r: &[String])
        ensures
            self.stats matches Some(PageOverviewResult::Full(p)) ==> r@ == p.domain_links@,
            !(self.stats matches Some(PageOverviewResult::Full(_))) ==> r@.len() == 0,
    {
        match &self.stats {
            Some(PageOverviewResult::Full(p)) => p.domain_links.as_slice(),
            _ => &[],
        }
    }

    pub fn add_related(&mut self, result_set: PageResultSet)
        ensures
            final(self).related@ == old(self).related@.push(result_set),
            final(self).stats == old(self).stats,
            final(self).content == old(self).content,
            final(self).raw == old(self).raw,
            final(self).valid == old(self).valid,
    {
        self.related.push(result_set);
    }
}

/// `r` is the size summary of a page result made of these values.
pub open spec fn info_of(
    r: PageInfo,
    has_target: bool,
    source_len: usize,
    stripped_len: usize,
    target_text_len: usize,
    compact_html_len: usize,
    cached: bool,
    best_text: Seq<char>,
) -> bool {
    &&& r.source_len == source_len
    &&& r.stripped_len == if has_target { target_text_len } else { stripped_len }
    &&& r.compact_len == if has_target { byte_len(best_text) as usize } else { compact_html_len }
    &&& r.compact_text_len == byte_len(best_text) as usize
    &&& r.cached == cached
    &&& opt_view(r.best_text) == if byte_len(best_text) > 1 { Some(best_text) } else { None::<Seq<char>> }
}

/// The size summary of a page result. With a target, the stripped length
/// is the inner text length of the targeted markup and the compact length
/// that of the markup itself; without one, the stripped and compact markup
/// lengths are kept. The compact text length is the best markup's length.
pub fn page_content_info(
    has_target: bool,
    source_len: usize,
    stripped_len: usize,
    target_text_len: usize,
    compact_html_len: usize,
    cached: bool,
    best_text: &str,
) -> (r: PageInfo)
    ensures
        info_of(r, has_target, source_len, stripped_len, target_text_len, compact_html_len, cached, best_text@),
{
    let best_len = best_text.as_bytes().len();
    let stripped = if has_target { target_text_len } else { stripped_len };
    let compact = if has_target { best_len } else { compact_html_len };
    PageInfo::new(source_len, stripped, compact, cached, best_text, best_len)
}

/// Whether the analysis is computed: when elements are shown, or when no
/// target narrows the page.
pub fn wants_stats(mode: ShowMode, has_target: bool) -> (r: bool)
    ensures
        r == (mode == ShowMode::ElementsAndLinks || !has_target),
{
    mode.show_elements() || !has_target
}

/// A target split at its first `/` into a header path and a content path;
/// without one, the whole target is the content path.
pub open spec fn target_parts(target: Seq<char>) -> (Seq<char>, Seq<char>) {
    match head_tail_of(target, "/"@) {
        (Some(h), Some(t)) => (h, t),
        (Some(h), None) => (Seq::empty(), h),
        (None, Some(t)) => (Seq::empty(), t),
        (None, None) => (Seq::empty(), target),
    }
}

pub fn split_target(target: &str) -> (r: (String, String))
    ensures
        (r.0@, r.1@) == target_parts(target@),
{
    match head_tail(target, "/") {
        (Some(h), Some(t)) => (h, t),
        (Some(h), None) => (String::new(), h),
        (None, Some(t)) => (String::new(), t),
        (None, None) => (String::new(), target.to_owned()),
    }
}

/// The content markup, wrapped together with the header markup when both a
/// header path (longer than one byte) and its markup (longer than one byte)
/// are there.
pub open spec fn wrapped_content(header_path: Seq<char>, header: Seq<char>, content: Seq<char>) -> Seq<char> {
    if byte_len(header_path) > 1 && byte_len(header) > 1 {
        "<div class=\"content-wrapper\">"@ + header + content + "</div>"@
    } else {
        content
    }
}

pub fn wrap_with_header(header_path: &str, header: &str, content: &str) -> (r: String)
    ensures
        r@ == wrapped_content(header_path@, header@, content@),
{
    if header_path.as_bytes().len() > 1 && header.as_bytes().len() > 1 {
        let mut out: String = "<div class=\"content-wrapper\">".to_owned();
        out.append(header);
        out.append(content);
        out.append("</div>");
        out
    } else {
        content.to_owned()
    }
}

/// The link list of a page in document order: each anchor with an href and
/// a title (its text without tags, trimmed) that is not empty and holds no
/// template placeholder, once per href, with its same-site flag.
pub open spec fn link_list(nodes: Seq<crate::tree::DomNode>, ord: Seq<int>, uri: Seq<char>) -> Seq<(Seq<char>, Seq<char>, bool)>
    decreases ord.len(),
{
    if ord.len() == 0 {
        Seq::empty()
    } else {
        let prev = link_list(nodes, ord.drop_last(), uri);
        let i = ord.last();
        if tag_is(nodes, i, "a"@) && attr_in(nodes[i].attrs@, "href"@) is Some {
            let h = attr_in(nodes[i].attrs@, "href"@)->0;
            let title = trimmed(replaced_once(text_of(nodes, i), tag_pattern(), ""@, true));
            if byte_len(title) > 0 && !(placeholder_text(title) || placeholder_text(h)) && !starts_with(uri, "#"@)
                && !(exists|k: int| 0 <= k < prev.len() && (#[trigger] prev[k]).0 == h) {
                prev.push((h, title, local_uri(h, base_of(uri))))
            } else {
                prev
            }
        } else {
            prev
        }
    }
}

pub open spec fn link_view(l: LinkItem) -> (Seq<char>, Seq<char>, bool) {
    (l.uri@, l.title@, l.local)
}

fn has_link(links: &Vec<LinkItem>, h: &str) -> (r: bool)
    ensures
        r == exists|k: int| 0 <= k < links@.len() && (#[trigger] links@[k]).uri@ == h@,
{
    let mut k: usize = 0;
    while k < links.len()
        invariant
            0 <= k <= links@.len(),
            forall|j: int| 0 <= j < k ==> (#[trigger] links@[j]).uri@ != h@,
        decreases links@.len() - k,
    {
        if crate::truthy::same_text(links[k].uri.as_str(), h) {
            return true;
        }
        k = k + 1;
    }
    false
}

/// The links of a parsed page, as `link_list` describes them.
pub fn page_link_items(tree: &DomTree, uri: &str) -> (r: Vec<LinkItem>)
    requires
        tree.wf(),
    ensures
        r@.map_values(|l: LinkItem| link_view(l)) == link_list(tree.nodes@, order_of(tree.nodes@, 0), uri@),
        forall|k: int| 0 <= k < r@.len() ==> (#[trigger] r@[k]).summary@.len() == 0,
{
    let ghost nodes = tree.nodes@;
    let ord = document_order(tree);
    let ghost ov = ord@.map_values(|x: usize| x as int);
    let base = extract_base_uri(uri);
    let page_hash = has_prefix(uri, "#");
    let mut links: Vec<LinkItem> = Vec::new();
    let mut k: usize = 0;
    proof {
        assert(ov.subrange(0, 0) =~= Seq::<int>::empty());
        assert(links@.map_values(|l: LinkItem| link_view(l)) =~= Seq::<(Seq<char>, Seq<char>, bool)>::empty());
    }
    while k < ord.len()
        invariant
            0 <= k <= ord@.len(),
            tree.wf(),
            nodes == tree.nodes@,
            ov == ord@.map_values(|x: usize| x as int),
            base@ == base_of(uri@),
            page_hash == starts_with(uri@, "#"@),
            links@.map_values(|l: LinkItem| link_view(l)) == link_list(nodes, ov.subrange(0, k as int), uri@),
            forall|j: int| 0 <= j < links@.len() ==> (#[trigger] links@[j]).summary@.len() == 0,
        decreases ord@.len() - k,
    {
        let i = ord[k];
        let ghost sub = ov.subrange(0, k + 1);
        let ghost prev = link_list(nodes, ov.subrange(0, k as int), uri@);
        proof {
            assert(sub.drop_last() =~= ov.subrange(0, k as int));
            assert(sub.last() == i as int);
        }
        if i < tree.nodes.len() && has_tag(tree, i, "a") {
            match extract_element_attr(tree, i, "href") {
                Some(h) => {
                    let text = node_text(tree, i);
                    let title = strip_literal_tags(text.as_str());
                    if title.as_str().as_bytes().len() > 0 && !is_javascript_link(title.as_str(), h.as_str()) && !page_hash {
                        let seen = has_link(&links, h.as_str());
                        proof {
                            let lv = links@.map_values(|l: LinkItem| link_view(l));
                            assert(seen == exists|j: int| 0 <= j < prev.len() && (#[trigger] prev[j]).0 == h@) by {
                                if seen {
                                    let j = choose|j: int| 0 <= j < links@.len() && (#[trigger] links@[j]).uri@ == h@;
                                    assert(prev[j] == lv[j]);
                                }
                                if exists|j: int| 0 <= j < prev.len() && (#[trigger] prev[j]).0 == h@ {
                                    let j = choose|j: int| 0 <= j < prev.len() && (#[trigger] prev[j]).0 == h@;
                                    assert(lv[j] == link_view(links@[j]));
                                }
                            }
                        }
                        if !seen {
                            let local = is_local_uri(h.as_str(), base.as_str());
                            proof {
                                reveal_strlit("");
                            }
                            let item = LinkItem::new(h.as_str(), title.as_str(), "", local);
                            let ghost before = links@;
                            links.push(item);
                            proof {
                                assert(links@.map_values(|l: LinkItem| link_view(l)) =~= before.map_values(|l: LinkItem| link_view(l)).push(link_view(item)));
                            }
                        }
                    }
                },
                None => {},
            }
        }
        k = k + 1;
    }
    proof {
        assert(ov.subrange(0, ov.len() as int) =~= ov);
    }
    links
}

/// The addresses of the related pages to fetch: each same-site link made
/// absolute against the page's base, the first `RELATED_SCAN_LIMIT` only.
pub fn related_uris(domain_links: &[String], base_uri: &str) -> (r: Vec<String>)
    ensures
        r@.len() == if domain_links@.len() < RELATED_SCAN_LIMIT { domain_links@.len() } else { RELATED_SCAN_LIMIT as nat },
        forall|k: int| 0 <= k < r@.len() ==> (#[trigger] r@[k])@ == if has_protocol(domain_links@[k]@) {
            domain_links@[k]@
        } else {
            base_uri@ + domain_links@[k]@
        },
{
    let mut out: Vec<String> = Vec::new();
    let mut k: usize = 0;
    while k < domain_links.len() && k < RELATED_SCAN_LIMIT
        invariant
            0 <= k <= domain_links@.len(),
            k <= RELATED_SCAN_LIMIT,
            out@.len() == k,
            forall|j: int| 0 <= j < k ==> (#[trigger] out@[j])@ == if has_protocol(domain_links@[j]@) {
                domain_links@[j]@
            } else {
                base_uri@ + domain_links@[j]@
            },
        decreases domain_links@.len() - k,
    {
        out.push(concat_full_uri(domain_links[k].as_str(), base_uri));
        k = k + 1;
    }
    out
}

} // verus!
