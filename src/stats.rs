//! Structural analysis of a page: one feature record per content-bearing
//! element, page metadata, and the same-site links of the page.
use vstd::prelude::*;
use crate::pattern::{replaced_in_turn, text_replace_pairs, pair_view, RuleView};
use crate::text::{lower_text, lowercased, trim_text, trimmed};
use crate::tree::{
    add_sat, attr_in, has_tag, lemma_sat_add, extract_element_attr, node_text, sat, tally_node, tally_of, tag_is, text_of, Counts, DomTree,
};
use crate::segments::{split_of, split_pieces};
use crate::uri::{base_of, byte_len, extract_base_uri, has_prefix, is_local_uri, local_uri, starts_with};
use crate::tree::{document_order, order_of};
use crate::rank::{rank_desc, ranked};

verus! {

pub const MIN_MEANINGFUL_TEXT_LENGTH: usize = 128;

pub const MAX_SCAN_DEPTH: usize = 9;

pub open spec fn opt_view(o: Option<String>) -> Option<Seq<char>> {
    match o {
        Some(s) => Some(s@),
        None => None,
    }
}

/// Bracketed noise, stray brackets, punctuation runs and white space, in turn.
pub open spec fn noise_rules() -> Seq<RuleView> {
    seq![
        (r"\{.*?\}"@, ""@, false),
        (r"[\{\}\(\)]+"@, ""@, false),
        (r"[,;\.-]+"@, " "@, false),
        (r"\s+"@, " "@, false),
    ]
}

/// The measured text length of a node: its text without noise, trimmed, in bytes.
pub open spec fn text_len_of(nodes: Seq<crate::tree::DomNode>, i: int) -> nat {
    byte_len(trimmed(replaced_in_turn(text_of(nodes, i), noise_rules())))
}

/// Tags never taken as content containers.
pub open spec fn ignored_tags() -> Seq<Seq<char>> {
    seq![
        "script"@, "style"@, "object"@, "li"@, "a"@, "p"@, "span"@, "td"@, "th"@, "tr"@, "tbody"@,
        "thead"@, "br"@, "map"@, "img"@, "audio"@, "video"@, "code"@, "link"@,
    ]
}

/// An element whose lower-cased tag is not empty and not ignored.
pub open spec fn is_candidate(nodes: Seq<crate::tree::DomNode>, i: int) -> bool {
    &&& 0 <= i < nodes.len()
    &&& nodes[i].tag is Some
    &&& lowercased(nodes[i].tag->0@).len() > 0
    &&& !ignored_tags().contains(lowercased(nodes[i].tag->0@))
}

/// Enough text, or at least one link, to be worth descending into.
pub open spec fn is_meaningful(nodes: Seq<crate::tree::DomNode>, i: int) -> bool {
    text_len_of(nodes, i) > MIN_MEANINGFUL_TEXT_LENGTH || tally_of(nodes, i, false).0 > 0
}

/// The non-blank parts, in order.
pub open spec fn nonblank(parts: Seq<Seq<char>>) -> Seq<Seq<char>>
    decreases parts.len(),
{
    if parts.len() == 0 {
        Seq::empty()
    } else {
        let rest = nonblank(parts.drop_last());
        if trimmed(parts.last()).len() > 0 {
            rest.push(parts.last())
        } else {
            rest
        }
    }
}

pub open spec fn class_list(v: Option<Seq<char>>) -> Seq<Seq<char>> {
    match v {
        Some(s) => nonblank(split_of(s, " "@)),
        None => Seq::empty(),
    }
}

/// One content-bearing element. `total_text_len` is the page's total
/// top-level text length: the element's share of the page is
/// `text_len / total_text_len`. `order` is its place in the walk.
#[derive(Debug)]
pub struct PageElement {
    pub depth: usize,
    pub tag_name: String,
    pub class_names: Vec<String>,
    pub id: Option<String>,
    pub text_len: usize,
    pub link_text_len: usize,
    pub list_links: usize,
    pub num_links: usize,
    pub num_paras: usize,
    pub num_headings: usize,
    pub total_text_len: usize,
    pub order: usize,
}

/// The features of `e` are those of node `i` met at depth `depth`.
pub open spec fn describes(e: PageElement, nodes: Seq<crate::tree::DomNode>, i: int, depth: nat) -> bool {
    let t = tally_of(nodes, i, false);
    &&& e.depth == depth
    &&& e.tag_name@ == nodes[i].tag->0@
    &&& e.class_names@.map_values(|s: String| s@) == class_list(attr_in(nodes[i].attrs@, "class"@))
    &&& opt_view(e.id) == attr_in(nodes[i].attrs@, "id"@)
    &&& e.text_len as nat == text_len_of(nodes, i)
    &&& e.num_links == sat(t.0)
    &&& e.list_links == sat(t.1)
    &&& e.num_paras == sat(t.2)
    &&& e.num_headings == sat(t.3)
    &&& e.link_text_len == sat(t.4)
}

/// The candidates met by the walk below `parent`, each with its depth.
pub open spec fn walk_list(nodes: Seq<crate::tree::DomNode>, parent: int, cs: Seq<usize>, depth: nat) -> Seq<(int, nat)>
    decreases nodes.len() - parent, cs.len(),
{
    if cs.len() == 0 {
        Seq::empty()
    } else {
        let c = cs.last() as int;
        let rest = walk_list(nodes, parent, cs.drop_last(), depth);
        if 0 <= parent < c < nodes.len() && is_candidate(nodes, c) {
            rest + seq![(c, depth)] + (if depth < MAX_SCAN_DEPTH && is_meaningful(nodes, c) {
                walk_list(nodes, c, nodes[c].children@, depth + 1)
            } else {
                Seq::empty()
            })
        } else {
            rest
        }
    }
}

/// The summed text length of the meaningful candidates directly below `parent`.
pub open spec fn top_total(nodes: Seq<crate::tree::DomNode>, parent: int, cs: Seq<usize>) -> nat
    decreases cs.len(),
{
    if cs.len() == 0 {
        0
    } else {
        let c = cs.last() as int;
        let rest = top_total(nodes, parent, cs.drop_last());
        if 0 <= parent < c < nodes.len() && is_candidate(nodes, c) && is_meaningful(nodes, c) {
            rest + text_len_of(nodes, c)
        } else {
            rest
        }
    }
}

/// The element at place `pos` of the list stands for walk entry `w`.
pub open spec fn placed(e: PageElement, nodes: Seq<crate::tree::DomNode>, w: (int, nat), pos: int) -> bool {
    describes(e, nodes, w.0, w.1) && e.order == pos && e.total_text_len == 0
}

fn class_names_of(tree: &DomTree, i: usize) -> (r: Vec<String>)
    requires
        i < tree.nodes@.len(),
    ensures
        r@.map_values(|s: String| s@) == class_list(attr_in(tree.nodes@[i as int].attrs@, "class"@)),
{
    let mut out: Vec<String> = Vec::new();
    match extract_element_attr(tree, i, "class") {
        Some(v) => {
            let parts = split_pieces(v.as_str(), " ");
            let ghost pv = parts@.map_values(|x: String| x@);
            let mut k: usize = 0;
            while k < parts.len()
                invariant
                    0 <= k <= parts@.len(),
                    pv == parts@.map_values(|x: String| x@),
                    out@.map_values(|s: String| s@) == nonblank(pv.subrange(0, k as int)),
                decreases parts@.len() - k,
            {
                let piece = &parts[k];
                let keep = trim_text(piece.as_str()).unicode_len() > 0;
                proof {
                    let sub = pv.subrange(0, k + 1);
                    assert(sub.drop_last() =~= pv.subrange(0, k as int));
                    assert(sub.last() == piece@);
                }
                if keep {
                    let ghost before = out@;
                    out.push(piece.clone());
                    proof {
                        assert(out@.map_values(|s: String| s@) =~= before.map_values(|s: String| s@).push(piece@));
                    }
                }
                k = k + 1;
            }
            proof {
                assert(pv.subrange(0, pv.len() as int) =~= pv);
            }
        },
        None => {
            assert(out@.map_values(|s: String| s@) =~= Seq::<Seq<char>>::empty());
        },
    }
    out
}

/// Whether node `i` is a content candidate.
pub fn is_content_element(tree: &DomTree, i: usize) -> (r: bool)
    requires
        i < tree.nodes@.len(),
    ensures
        r == is_candidate(tree.nodes@, i as int),
{
    match &tree.nodes[i].tag {
        Some(t) => {
            let name = lower_text(t.as_str());
            if name.as_str().unicode_len() == 0 {
                return false;
            }
            let ignored = vec![
                "script", "style", "object", "li", "a", "p", "span", "td", "th", "tr", "tbody",
                "thead", "br", "map", "img", "audio", "video", "code", "link",
            ];
            proof {
                assert(ignored@.map_values(|w: &str| w@) =~= ignored_tags());
            }
            let mut k: usize = 0;
            while k < ignored.len()
                invariant
                    0 <= k <= ignored@.len(),
                    i < tree.nodes@.len(),
                    tree.nodes@[i as int].tag is Some,
                    name@ == lowercased(tree.nodes@[i as int].tag->0@),
                    name@.len() > 0,
                    ignored@.map_values(|w: &str| w@) == ignored_tags(),
                    forall|j: int| 0 <= j < k ==> ignored_tags()[j] != name@,
                decreases ignored@.len() - k,
            {
                if crate::truthy::same_text(name.as_str(), ignored[k]) {
                    assert(ignored_tags()[k as int] == name@);
                    assert(name@ == lowercased(tree.nodes@[i as int].tag->0@));
                    assert(ignored_tags().contains(name@));
                    return false;
                }
                k = k + 1;
            }
            true
        },
        None => false,
    }
}

impl PageElement {
    /// The feature record of node `node`, met at depth `depth`, placed at
    /// `order` in the walk.
    pub fn new(tree: &DomTree, node: usize, depth: usize, order: usize) -> (r: PageElement)
        requires
            tree.wf(),
            node < tree.nodes@.len(),
            tree.nodes@[node as int].tag is Some,
        ensures
            placed(r, tree.nodes@, (node as int, depth as nat), order as int),
    {
        let counts: Counts = tally_node(tree, node, false);
        let raw = node_text(tree, node);
        let pairs = vec![(r"\{.*?\}", ""), (r"[\{\}\(\)]+", ""), (r"[,;\.-]+", " "), (r"\s+", " ")];
        proof {
            assert(pairs@.map_values(|t: (&str, &str)| pair_view(t)) =~= noise_rules());
        }
        let cleaned = text_replace_pairs(raw.as_str(), pairs.as_slice());
        let text_len = trim_text(cleaned.as_str()).as_bytes().len();
        let tag_name = match &tree.nodes[node].tag {
            Some(t) => t.clone(),
            None => String::new(),
        };
        PageElement {
            depth,
            tag_name,
            class_names: class_names_of(tree, node),
            id: extract_element_attr(tree, node, "id"),
            text_len,
            link_text_len: counts.link_text_len,
            list_links: counts.list_links,
            num_links: counts.links,
            num_paras: counts.paras,
            num_headings: counts.headings,
            total_text_len: 0,
            order,
        }
    }
}


/// `after` is `before` followed by one element for each walk entry, in order.
pub open spec fn walked_into(before: Seq<PageElement>, after: Seq<PageElement>, nodes: Seq<crate::tree::DomNode>, w: Seq<(int, nat)>) -> bool {
    &&& after.len() == before.len() + w.len()
    &&& forall|j: int| 0 <= j < before.len() ==> after[j] == before[j]
    &&& forall|j: int| 0 <= j < w.len() ==> placed(#[trigger] after[before.len() + j], nodes, w[j], before.len() + j)
}

/// Walks the children of `parent` depth first, appending a feature record for
/// each content candidate, and descending below a candidate only while the
/// depth is under the limit and the candidate is meaningful. At depth 0 it
/// returns the summed text length of the meaningful candidates.
pub fn loop_content_tags(tree: &DomTree, node_items: &mut Vec<PageElement>, parent: usize, depth: usize) -> (r: usize)
    requires
        tree.wf(),
        parent < tree.nodes@.len(),
        depth <= MAX_SCAN_DEPTH,
    ensures
        walked_into(old(node_items)@, final(node_items)@, tree.nodes@, walk_list(tree.nodes@, parent as int, tree.nodes@[parent as int].children@, depth as nat)),
        r == if depth == 0 { sat(top_total(tree.nodes@, parent as int, tree.nodes@[parent as int].children@)) } else { 0 },
    decreases tree.nodes@.len() - parent,
{
    let ghost nodes = tree.nodes@;
    let ghost start = node_items@;
    let node = &tree.nodes[parent];
    let mut total: usize = 0;
    let mut k: usize = 0;
    proof {
        assert(node.children@.subrange(0, 0) =~= Seq::<usize>::empty());
    }
    while k < node.children.len()
        invariant
            tree.wf(),
            nodes == tree.nodes@,
            parent < nodes.len(),
            *node == nodes[parent as int],
            depth <= MAX_SCAN_DEPTH,
            0 <= k <= node.children@.len(),
            walked_into(start, node_items@, nodes, walk_list(nodes, parent as int, node.children@.subrange(0, k as int), depth as nat)),
            total == if depth == 0 { sat(top_total(nodes, parent as int, node.children@.subrange(0, k as int))) } else { 0 },
        decreases node.children@.len() - k,
    {
        let c = node.children[k];
        assert(parent < c && c < nodes.len());
        let ghost before = node_items@;
        let ghost wk = walk_list(nodes, parent as int, node.children@.subrange(0, k as int), depth as nat);
        let ghost sub = node.children@.subrange(0, k + 1);
        proof {
            assert(sub.drop_last() =~= node.children@.subrange(0, k as int));
            assert(sub.last() == c);
        }
        if is_content_element(tree, c) {
            let pos = node_items.len();
            let e = PageElement::new(tree, c, depth, pos);
            let descend = depth < MAX_SCAN_DEPTH && (e.text_len > MIN_MEANINGFUL_TEXT_LENGTH || e.num_links > 0);
            let add = e.text_len;
            node_items.push(e);
            let ghost pushed = node_items@;
            if descend {
                loop_content_tags(tree, node_items, c, depth + 1);
                if depth < 1 {
                    proof {
                        lemma_sat_add(top_total(nodes, parent as int, node.children@.subrange(0, k as int)), add as nat);
                    }
                    total = add_sat(total, add);
                }
            }
            proof {
                let subw = if depth < MAX_SCAN_DEPTH && is_meaningful(nodes, c as int) {
                    walk_list(nodes, c as int, nodes[c as int].children@, (depth + 1) as nat)
                } else {
                    Seq::empty()
                };
                let w2 = walk_list(nodes, parent as int, sub, depth as nat);
                assert(descend == (depth < MAX_SCAN_DEPTH && is_meaningful(nodes, c as int)));
                assert(w2 =~= wk + seq![(c as int, depth as nat)] + subw);
                assert(pushed[before.len() as int] == e);
                assert forall|j: int| 0 <= j < w2.len() implies placed(
                    #[trigger] node_items@[start.len() + j],
                    nodes,
                    w2[j],
                    start.len() + j,
                ) by {
                    if j < wk.len() {
                        assert(node_items@[start.len() + j] == before[start.len() + j]);
                    } else if j == wk.len() {
                        assert(node_items@[start.len() + j] == pushed[before.len() as int]);
                    } else {
                        assert(descend);
                        let jj = j - wk.len() - 1;
                        assert(node_items@[pushed.len() + jj] == node_items@[start.len() + j]);
                    }
                }
                assert forall|j: int| 0 <= j < start.len() implies node_items@[j] == start[j] by {
                    assert(node_items@[j] == before[j]);
                }
            }
        } else {
            proof {
                assert(walk_list(nodes, parent as int, sub, depth as nat) == wk);
            }
        }
        k = k + 1;
    }
    proof {
        assert(node.children@.subrange(0, node.children@.len() as int) =~= node.children@);
    }
    total
}


/// The element's share of the page is above `num / den`. A zero total
/// makes any non-empty element's share unbounded.
pub open spec fn share_above(e: PageElement, num: nat, den: nat) -> bool {
    ||| (e.total_text_len > 0 && e.text_len * den > num * e.total_text_len)
    ||| (e.total_text_len == 0 && e.text_len > 0)
}

/// Less than half of the element's text sits inside links.
pub open spec fn plain_majority(e: PageElement) -> bool {
    e.text_len > 0 && 2 * e.link_text_len < e.text_len
}

pub open spec fn meaningful_content(e: PageElement) -> bool {
    e.text_len > MIN_MEANINGFUL_TEXT_LENGTH || e.num_links > 0
}

/// Long enough, above a fiftieth of the page, and mostly plain text.
pub open spec fn meaningful_text(e: PageElement) -> bool {
    e.text_len >= MIN_MEANINGFUL_TEXT_LENGTH && share_above(e, 1, 50) && plain_majority(e)
}

/// Long enough and above three quarters of the page.
pub open spec fn main_text(e: PageElement) -> bool {
    e.text_len >= MIN_MEANINGFUL_TEXT_LENGTH && share_above(e, 3, 4)
}

/// `x` held to the range of `usize`.
pub open spec fn sat_int(x: int) -> usize {
    if x > usize::MAX {
        usize::MAX
    } else if x < 0 {
        0
    } else {
        x as usize
    }
}

/// Links weighted for menu detection: list links thrice, every link once,
/// and links per 200 bytes of text.
pub open spec fn weighted_links(e: PageElement) -> usize {
    let term: int = if e.text_len == 0 {
        if e.num_links > 0 { usize::MAX as int } else { 0 }
    } else {
        (e.num_links * 200) as int / e.text_len as int
    };
    sat_int(e.list_links * 3 + e.num_links + term)
}

pub open spec fn join_dots(parts: Seq<Seq<char>>) -> Seq<char>
    decreases parts.len(),
{
    if parts.len() == 0 {
        Seq::empty()
    } else if parts.len() == 1 {
        parts[0]
    } else {
        join_dots(parts.drop_last()) + "."@ + parts.last()
    }
}

/// Tag, then `#id`, then `.` and the class names joined by dots.
pub open spec fn selector_of(e: PageElement) -> Seq<char> {
    let with_id = match e.id {
        Some(i) => e.tag_name@ + "#"@ + i@,
        None => e.tag_name@,
    };
    if e.class_names@.len() > 0 {
        with_id + "."@ + join_dots(e.class_names@.map_values(|c: String| c@))
    } else {
        with_id
    }
}

impl PageElement {
    pub fn has_meaningful_content(&self) -> (r: bool)
        ensures
            r == meaningful_content(*self),
    {
        self.text_len > MIN_MEANINGFUL_TEXT_LENGTH || self.num_links > 0
    }

    fn share_exceeds(&self, num: u128, den: u128) -> (r: bool)
        requires
            num <= 1000,
            den <= 1000,
        ensures
            r == share_above(*self, num as nat, den as nat),
    {
        if self.total_text_len > 0 {
            let a = self.text_len as u128;
            let b = self.total_text_len as u128;
            assert(a * den <= 0x1_0000_0000_0000_0000 * 1000) by (nonlinear_arith)
                requires a < 0x1_0000_0000_0000_0000, den <= 1000;
            assert(num * b <= 1000 * 0x1_0000_0000_0000_0000) by (nonlinear_arith)
                requires b < 0x1_0000_0000_0000_0000, num <= 1000;
            a * den > num * b
        } else {
            self.text_len > 0
        }
    }

    pub fn has_plain_majority(&self) -> (r: bool)
        ensures
            r == plain_majority(*self),
    {
        self.text_len > 0 && 2 * (self.link_text_len as u128) < self.text_len as u128
    }

    pub fn has_meaningful_text(&self) -> (r: bool)
        ensures
            r == meaningful_text(*self),
    {
        self.text_len >= MIN_MEANINGFUL_TEXT_LENGTH && self.share_exceeds(1, 50) && self.has_plain_majority()
    }

    pub fn is_main_text_element(&self) -> (r: bool)
        ensures
            r == main_text(*self),
    {
        self.text_len >= MIN_MEANINGFUL_TEXT_LENGTH && self.share_exceeds(3, 4)
    }

    /// Sets the page total against which the element's share is measured.
    pub fn set_fraction(&mut self, total_text_len: usize)
        ensures
            *final(self) == (PageElement { total_text_len, ..*old(self) }),
    {
        self.total_text_len = total_text_len;
    }

    pub fn weighted_num_links(&self) -> (r: usize)
        ensures
            r == weighted_links(*self),
    {
        let term: u128 = if self.text_len == 0 {
            if self.num_links > 0 { usize::MAX as u128 } else { 0 }
        } else {
            (self.num_links as u128 * 200) / self.text_len as u128
        };
        let sum: u128 = self.list_links as u128 * 3 + self.num_links as u128 + term;
        if sum > usize::MAX as u128 {
            usize::MAX
        } else {
            sum as usize
        }
    }

    /// A selector that finds the element again: tag, `#id`, `.classes`.
    pub fn selector(&self) -> (r: String)
        ensures
            r@ == selector_of(*self),
    {
        let mut out: String = self.tag_name.as_str().to_owned();
        match &self.id {
            Some(i) => {
                out.append("#");
                out.append(i.as_str());
            },
            None => {},
        }
        let n = self.class_names.len();
        if n > 0 {
            out.append(".");
            let ghost head = out@;
            let ghost cv = self.class_names@.map_values(|c: String| c@);
            let mut k: usize = 0;
            while k < n
                invariant
                    n == self.class_names@.len(),
                    cv == self.class_names@.map_values(|c: String| c@),
                    0 <= k <= n,
                    out@ == head + join_dots(cv.subrange(0, k as int)),
                decreases n - k,
            {
                if k > 0 {
                    out.append(".");
                }
                out.append(self.class_names[k].as_str());
                proof {
                    let sub = cv.subrange(0, k + 1);
                    assert(sub.drop_last() =~= cv.subrange(0, k as int));
                    assert(sub.last() == self.class_names@[k as int]@);
                    if k == 0 {
                        assert(sub.len() == 1);
                        assert(cv.subrange(0, 0) =~= Seq::<Seq<char>>::empty());
                    }
                }
                k = k + 1;
            }
            proof {
                assert(cv.subrange(0, n as int) =~= cv);
            }
        }
        out
    }
}


/// The first node of `ord` with that tag.
pub open spec fn first_tag(nodes: Seq<crate::tree::DomNode>, ord: Seq<int>, name: Seq<char>) -> Option<int>
    decreases ord.len(),
{
    if ord.len() == 0 {
        None
    } else if tag_is(nodes, ord[0], name) {
        Some(ord[0])
    } else {
        first_tag(nodes, ord.drop_first(), name)
    }
}

/// The first `meta` node of `ord` whose attribute `field` is `value`.
pub open spec fn first_meta(nodes: Seq<crate::tree::DomNode>, ord: Seq<int>, field: Seq<char>, value: Seq<char>) -> Option<int>
    decreases ord.len(),
{
    if ord.len() == 0 {
        None
    } else if tag_is(nodes, ord[0], "meta"@) && attr_in(nodes[ord[0]].attrs@, field) == Some(value) {
        Some(ord[0])
    } else {
        first_meta(nodes, ord.drop_first(), field, value)
    }
}

pub open spec fn title_of(nodes: Seq<crate::tree::DomNode>, ord: Seq<int>) -> Option<Seq<char>> {
    match first_tag(nodes, ord, "title"@) {
        Some(i) => if text_of(nodes, i).len() > 0 { Some(text_of(nodes, i)) } else { None },
        None => None,
    }
}

pub open spec fn lang_of(nodes: Seq<crate::tree::DomNode>, ord: Seq<int>) -> Option<Seq<char>> {
    match first_tag(nodes, ord, "html"@) {
        Some(i) => attr_in(nodes[i].attrs@, "lang"@),
        None => None,
    }
}

pub open spec fn meta_of(nodes: Seq<crate::tree::DomNode>, ord: Seq<int>, field: Seq<char>, value: Seq<char>) -> Option<Seq<char>> {
    match first_meta(nodes, ord, field, value) {
        Some(i) => attr_in(nodes[i].attrs@, "content"@),
        None => None,
    }
}

/// The links of the page in document order: the distinct same-site hrefs,
/// and the number of anchors that have an href.
pub open spec fn page_links(nodes: Seq<crate::tree::DomNode>, ord: Seq<int>, base: Seq<char>, page_ok: bool) -> (Seq<Seq<char>>, nat)
    decreases ord.len(),
{
    if ord.len() == 0 {
        (Seq::empty(), 0)
    } else {
        let prev = page_links(nodes, ord.drop_last(), base, page_ok);
        let i = ord.last();
        if tag_is(nodes, i, "a"@) && attr_in(nodes[i].attrs@, "href"@) is Some {
            let h = attr_in(nodes[i].attrs@, "href"@)->0;
            let kept = if page_ok && local_uri(h, base) && !prev.0.contains(h) {
                prev.0.push(h)
            } else {
                prev.0
            };
            (kept, prev.1 + 1)
        } else {
            prev
        }
    }
}

/// Links are classified only on a page whose address is more than a byte
/// long and does not start with `#`.
pub open spec fn page_classifiable(uri: Seq<char>) -> bool {
    !starts_with(uri, "#"@) && byte_len(uri) > 1
}

pub open spec fn with_total(s: Seq<PageElement>, total: usize) -> Seq<PageElement> {
    s.map_values(|e: PageElement| PageElement { total_text_len: total, ..e })
}

/// The elements ordered by text length, longest first, ties in walk order.
pub open spec fn ranked_elements(s: Seq<PageElement>) -> Seq<PageElement> {
    ranked(s.map_values(|e: PageElement| (e.text_len, e))).map_values(|p: (usize, PageElement)| p.1)
}

/// The walk from the document's first `body` element.
pub open spec fn body_walk(nodes: Seq<crate::tree::DomNode>) -> Seq<(int, nat)> {
    match first_tag(nodes, order_of(nodes, 0), "body"@) {
        Some(b) => walk_list(nodes, b, nodes[b].children@, 0),
        None => Seq::empty(),
    }
}

/// The page total: the summed text length of the body's meaningful top-level candidates.
pub open spec fn body_total(nodes: Seq<crate::tree::DomNode>) -> usize {
    match first_tag(nodes, order_of(nodes, 0), "body"@) {
        Some(b) => sat(top_total(nodes, b, nodes[b].children@)),
        None => 0,
    }
}

/// The analysis of one page.
#[derive(Debug)]
pub struct PageStats {
    pub uri: String,
    pub text_len: usize,
    pub lang: Option<String>,
    pub title: Option<String>,
    pub description: Option<String>,
    pub image: Option<String>,
    pub elements: Vec<PageElement>,
    pub domain_links: Vec<String>,
    pub num_links: usize,
    pub num_domain_links: usize,
}

/// The page summary without its elements and links.
#[derive(Debug)]
pub struct PageOverview {
    pub uri: String,
    pub lang: Option<String>,
    pub text_len: usize,
    pub title: Option<String>,
    pub description: Option<String>,
    pub image: Option<String>,
    pub num_links: usize,
    pub num_domain_links: usize,
}

/// `o` summarises `p`.
pub open spec fn overview_of(o: PageOverview, p: PageStats) -> bool {
    &&& o.uri@ == p.uri@
    &&& opt_view(o.lang) == opt_view(p.lang)
    &&& o.text_len == p.text_len
    &&& opt_view(o.title) == opt_view(p.title)
    &&& opt_view(o.description) == opt_view(p.description)
    &&& opt_view(o.image) == opt_view(p.image)
    &&& o.num_links == p.num_links
    &&& o.num_domain_links == p.num_domain_links
}

#[derive(Debug)]
pub enum PageOverviewResult {
    Full(PageStats),
    Basic(PageOverview),
}

fn reversed<T>(v: Vec<T>) -> (r: Vec<T>)
    ensures
        r@.len() == v@.len(),
        forall|j: int| 0 <= j < v@.len() ==> #[trigger] r@[j] == v@[v@.len() - 1 - j],
{
    let ghost all = v@;
    let mut rest = v;
    let mut out: Vec<T> = Vec::new();
    while rest.len() > 0
        invariant
            rest@ == all.subrange(0, rest@.len() as int),
            out@.len() == all.len() - rest@.len(),
            forall|j: int| 0 <= j < out@.len() ==> #[trigger] out@[j] == all[all.len() - 1 - j],
        decreases rest@.len(),
    {
        let x = rest.pop().unwrap();
        out.push(x);
    }
    out
}

fn keyed_with_total(walked: Vec<PageElement>, total: usize) -> (r: Vec<(usize, PageElement)>)
    ensures
        r@ == with_total(walked@, total).map_values(|e: PageElement| (e.text_len, e)),
{
    let ghost all = walked@;
    let mut rest = walked;
    let mut rev: Vec<(usize, PageElement)> = Vec::new();
    while rest.len() > 0
        invariant
            rest@ == all.subrange(0, rest@.len() as int),
            rev@.len() == all.len() - rest@.len(),
            forall|j: int| 0 <= j < rev@.len() ==> #[trigger] rev@[j] == (all[all.len() - 1 - j].text_len, PageElement { total_text_len: total, ..all[all.len() - 1 - j] }),
        decreases rest@.len(),
    {
        let mut e = rest.pop().unwrap();
        e.set_fraction(total);
        let key = e.text_len;
        rev.push((key, e));
    }
    let r = reversed(rev);
    assert(r@ =~= with_total(all, total).map_values(|e: PageElement| (e.text_len, e)));
    r
}

fn values_of<T>(v: Vec<(usize, T)>) -> (r: Vec<T>)
    ensures
        r@ == v@.map_values(|p: (usize, T)| p.1),
{
    let ghost all = v@;
    let mut rest = v;
    let mut rev: Vec<T> = Vec::new();
    while rest.len() > 0
        invariant
            rest@ == all.subrange(0, rest@.len() as int),
            rev@.len() == all.len() - rest@.len(),
            forall|j: int| 0 <= j < rev@.len() ==> #[trigger] rev@[j] == all[all.len() - 1 - j].1,
        decreases rest@.len(),
    {
        let p = rest.pop().unwrap();
        rev.push(p.1);
    }
    let r = reversed(rev);
    assert(r@ =~= all.map_values(|p: (usize, T)| p.1));
    r
}

fn ord_first_tag(tree: &DomTree, ord: &Vec<usize>, name: &str) -> (r: Option<usize>)
    ensures
        r matches Some(i) ==> first_tag(tree.nodes@, ord@.map_values(|x: usize| x as int), name@) == Some(i as int) && i < tree.nodes@.len(),
        r is None ==> first_tag(tree.nodes@, ord@.map_values(|x: usize| x as int), name@) is None,
{
    let ghost ov = ord@.map_values(|x: usize| x as int);
    let mut k: usize = 0;
    assert(ov.subrange(0, ov.len() as int) =~= ov);
    while k < ord.len()
        invariant
            0 <= k <= ord@.len(),
            ov == ord@.map_values(|x: usize| x as int),
            first_tag(tree.nodes@, ov, name@) == first_tag(tree.nodes@, ov.subrange(k as int, ov.len() as int), name@),
        decreases ord@.len() - k,
    {
        let i = ord[k];
        let ghost rest = ov.subrange(k as int, ov.len() as int);
        assert(rest[0] == i as int);
        if i < tree.nodes.len() && has_tag(tree, i, name) {
            return Some(i);
        }
        assert(rest.drop_first() =~= ov.subrange(k + 1, ov.len() as int));
        k = k + 1;
    }
    None
}

fn ord_first_meta(tree: &DomTree, ord: &Vec<usize>, field: &str, value: &str) -> (r: Option<usize>)
    ensures
        r matches Some(i) ==> first_meta(tree.nodes@, ord@.map_values(|x: usize| x as int), field@, value@) == Some(i as int) && i < tree.nodes@.len(),
        r is None ==> first_meta(tree.nodes@, ord@.map_values(|x: usize| x as int), field@, value@) is None,
{
    let ghost ov = ord@.map_values(|x: usize| x as int);
    let mut k: usize = 0;
    assert(ov.subrange(0, ov.len() as int) =~= ov);
    while k < ord.len()
        invariant
            0 <= k <= ord@.len(),
            ov == ord@.map_values(|x: usize| x as int),
            first_meta(tree.nodes@, ov, field@, value@) == first_meta(tree.nodes@, ov.subrange(k as int, ov.len() as int), field@, value@),
        decreases ord@.len() - k,
    {
        let i = ord[k];
        let ghost rest = ov.subrange(k as int, ov.len() as int);
        assert(rest[0] == i as int);
        if i < tree.nodes.len() && has_tag(tree, i, "meta") {
            match extract_element_attr(tree, i, field) {
                Some(v) => {
                    if crate::truthy::same_text(v.as_str(), value) {
                        return Some(i);
                    }
                },
                None => {},
            }
        }
        assert(rest.drop_first() =~= ov.subrange(k + 1, ov.len() as int));
        k = k + 1;
    }
    None
}

fn contains_text(list: &Vec<String>, h: &str) -> (r: bool)
    ensures
        r == list@.map_values(|x: String| x@).contains(h@),
{
    let ghost lv = list@.map_values(|x: String| x@);
    let mut k: usize = 0;
    while k < list.len()
        invariant
            0 <= k <= list@.len(),
            lv == list@.map_values(|x: String| x@),
            forall|j: int| 0 <= j < k ==> #[trigger] lv[j] != h@,
        decreases list@.len() - k,
    {
        if crate::truthy::same_text(list[k].as_str(), h) {
            assert(lv[k as int] == h@);
            return true;
        }
        k = k + 1;
    }
    false
}

fn collect_links(tree: &DomTree, ord: &Vec<usize>, base: &str, page_ok: bool) -> (r: (Vec<String>, usize))
    ensures
        r.0@.map_values(|x: String| x@) == page_links(tree.nodes@, ord@.map_values(|x: usize| x as int), base@, page_ok).0,
        r.1 == sat(page_links(tree.nodes@, ord@.map_values(|x: usize| x as int), base@, page_ok).1),
{
    let ghost ov = ord@.map_values(|x: usize| x as int);
    let mut links: Vec<String> = Vec::new();
    let mut count: usize = 0;
    let mut k: usize = 0;
    proof {
        assert(ov.subrange(0, 0) =~= Seq::<int>::empty());
        assert(links@.map_values(|x: String| x@) =~= Seq::<Seq<char>>::empty());
    }
    while k < ord.len()
        invariant
            0 <= k <= ord@.len(),
            ov == ord@.map_values(|x: usize| x as int),
            links@.map_values(|x: String| x@) == page_links(tree.nodes@, ov.subrange(0, k as int), base@, page_ok).0,
            count == sat(page_links(tree.nodes@, ov.subrange(0, k as int), base@, page_ok).1),
        decreases ord@.len() - k,
    {
        let i = ord[k];
        let ghost sub = ov.subrange(0, k + 1);
        let ghost prev = page_links(tree.nodes@, ov.subrange(0, k as int), base@, page_ok);
        proof {
            assert(sub.drop_last() =~= ov.subrange(0, k as int));
            assert(sub.last() == i as int);
        }
        if i < tree.nodes.len() && has_tag(tree, i, "a") {
            match extract_element_attr(tree, i, "href") {
                Some(h) => {
                    proof {
                        lemma_sat_add(prev.1, 1);
                    }
                    count = add_sat(count, 1);
                    if page_ok && is_local_uri(h.as_str(), base) && !contains_text(&links, h.as_str()) {
                        let ghost before = links@;
                        let ghost hv = h@;
                        links.push(h);
                        proof {
                            assert(links@.map_values(|x: String| x@) =~= before.map_values(|x: String| x@).push(hv));
                        }
                        assert(links@.map_values(|x: String| x@) == page_links(tree.nodes@, sub, base@, page_ok).0);
                    }
                },
                None => {},
            }
        }
        k = k + 1;
    }
    proof {
        assert(ov.subrange(0, ov.len() as int) =~= ov);
    }
    (links, count)
}


/// Among the first `n` elements, the first of least text length that is main text.
pub open spec fn main_min_upto(s: Seq<PageElement>, n: int) -> Option<int>
    decreases n,
{
    if n <= 0 || n > s.len() {
        None
    } else {
        let b = main_min_upto(s, n - 1);
        if main_text(s[n - 1]) && (b is None || s[n - 1].text_len < s[b->0].text_len) {
            Some(n - 1)
        } else {
            b
        }
    }
}

/// Among the first `n` elements, the first of greatest text length that is meaningful text.
pub open spec fn text_max_upto(s: Seq<PageElement>, n: int) -> Option<int>
    decreases n,
{
    if n <= 0 || n > s.len() {
        None
    } else {
        let b = text_max_upto(s, n - 1);
        if meaningful_text(s[n - 1]) && (b is None || s[n - 1].text_len > s[b->0].text_len) {
            Some(n - 1)
        } else {
            b
        }
    }
}

/// Among the first `n` elements, the one met first by the walk.
pub open spec fn walk_first_upto(s: Seq<PageElement>, n: int) -> Option<int>
    decreases n,
{
    if n <= 0 || n > s.len() {
        None
    } else {
        let b = walk_first_upto(s, n - 1);
        if b is None || s[n - 1].order < s[b->0].order {
            Some(n - 1)
        } else {
            b
        }
    }
}

/// The main-content choice: the smallest near-total container if it is also
/// meaningful text; else the largest meaningful-text element; else the
/// element met first by the walk.
pub open spec fn best_choice(s: Seq<PageElement>) -> Option<int> {
    let n = s.len() as int;
    let m = main_min_upto(s, n);
    if m is Some && meaningful_text(s[m->0]) {
        m
    } else if text_max_upto(s, n) is Some {
        text_max_upto(s, n)
    } else {
        walk_first_upto(s, n)
    }
}

/// (text length, place) of the meaningful-text elements among the first `n`.
pub open spec fn text_keys(s: Seq<PageElement>, n: int) -> Seq<(usize, usize)>
    decreases n,
{
    if n <= 0 || n > s.len() {
        Seq::empty()
    } else if meaningful_text(s[n - 1]) {
        text_keys(s, n - 1).push((s[n - 1].text_len, (n - 1) as usize))
    } else {
        text_keys(s, n - 1)
    }
}

/// (link weight, place) of the menu-like elements among the first `n`:
/// some text and more than one list link.
pub open spec fn menu_keys(s: Seq<PageElement>, n: int) -> Seq<(usize, usize)>
    decreases n,
{
    if n <= 0 || n > s.len() {
        Seq::empty()
    } else if s[n - 1].text_len >= 16 && s[n - 1].list_links > 1 {
        menu_keys(s, n - 1).push((weighted_links(s[n - 1]), (n - 1) as usize))
    } else {
        menu_keys(s, n - 1)
    }
}

fn copy_opt(o: &Option<String>) -> (r: Option<String>)
    ensures
        opt_view(r) == opt_view(*o),
{
    match o {
        Some(s) => Some(s.clone()),
        None => None,
    }
}

fn refs_at<'a>(s: &'a Vec<PageElement>, keys: &Vec<(usize, usize)>) -> (r: Vec<&'a PageElement>)
    requires
        forall|k: int| 0 <= k < keys@.len() ==> #[trigger] keys@[k].1 < s@.len(),
    ensures
        r@.len() == keys@.len(),
        forall|k: int| 0 <= k < keys@.len() ==> *#[trigger] r@[k] == s@[keys@[k].1 as int],
{
    let mut out: Vec<&'a PageElement> = Vec::new();
    let mut k: usize = 0;
    while k < keys.len()
        invariant
            0 <= k <= keys@.len(),
            out@.len() == k,
            forall|j: int| 0 <= j < keys@.len() ==> #[trigger] keys@[j].1 < s@.len(),
            forall|j: int| 0 <= j < k ==> *#[trigger] out@[j] == s@[keys@[j].1 as int],
        decreases keys@.len() - k,
    {
        out.push(&s[keys[k].1]);
        k = k + 1;
    }
    out
}

proof fn lemma_keys_in_range(s: Seq<PageElement>, n: int)
    requires
        0 <= n <= s.len(),
        s.len() <= usize::MAX,
    ensures
        forall|k: int| 0 <= k < text_keys(s, n).len() ==> #[trigger] text_keys(s, n)[k].1 < n,
        forall|k: int| 0 <= k < menu_keys(s, n).len() ==> #[trigger] menu_keys(s, n)[k].1 < n,
    decreases n,
{
    if n > 0 {
        lemma_keys_in_range(s, n - 1);
        let a = text_keys(s, n - 1);
        let b = menu_keys(s, n - 1);
        assert forall|k: int| 0 <= k < text_keys(s, n).len() implies #[trigger] text_keys(s, n)[k].1 < n by {
            if k < a.len() {
                assert(text_keys(s, n)[k] == a[k]);
            }
        }
        assert forall|k: int| 0 <= k < menu_keys(s, n).len() implies #[trigger] menu_keys(s, n)[k].1 < n by {
            if k < b.len() {
                assert(menu_keys(s, n)[k] == b[k]);
            }
        }
    }
}

proof fn lemma_ranked_keeps<T>(s: Seq<(usize, T)>)
    ensures
        ranked(s).len() == s.len(),
        forall|k: int| 0 <= k < ranked(s).len() ==> exists|j: int| 0 <= j < s.len() && #[trigger] ranked(s)[k] == s[j],
    decreases s.len(),
{
    if s.len() > 0 {
        lemma_ranked_keeps(s.drop_first());
        let rest = ranked(s.drop_first());
        crate::rank::lemma_slot_in_range(rest, s[0].0);
        let p = crate::rank::slot_from(rest, s[0].0, 0);
        assert forall|k: int| 0 <= k < ranked(s).len() implies exists|j: int| 0 <= j < s.len() && #[trigger] ranked(s)[k] == s[j] by {
            if k < p {
                let jj = choose|jj: int| 0 <= jj < s.drop_first().len() && rest[k] == s.drop_first()[jj];
                assert(ranked(s)[k] == s[jj + 1]);
            } else if k == p {
                assert(ranked(s)[k] == s[0]);
            } else {
                let jj = choose|jj: int| 0 <= jj < s.drop_first().len() && rest[k - 1] == s.drop_first()[jj];
                assert(ranked(s)[k] == s[jj + 1]);
            }
        }
    }
}

/// The text of the document's first `title` element, when it is not empty.
pub fn extract_title_from_doc(tree: &DomTree) -> (r: Option<String>)
    requires
        tree.wf(),
    ensures
        opt_view(r) == title_of(tree.nodes@, order_of(tree.nodes@, 0)),
{
    let ord = document_order(tree);
    match ord_first_tag(tree, &ord, "title") {
        Some(i) => {
            let t = node_text(tree, i);
            if t.as_str().is_empty() { None } else { Some(t) }
        },
        None => None,
    }
}

/// The `lang` attribute of the document's first `html` element.
pub fn extract_lang_from_doc(tree: &DomTree) -> (r: Option<String>)
    requires
        tree.wf(),
    ensures
        opt_view(r) == lang_of(tree.nodes@, order_of(tree.nodes@, 0)),
{
    let ord = document_order(tree);
    match ord_first_tag(tree, &ord, "html") {
        Some(i) => extract_element_attr(tree, i, "lang"),
        None => None,
    }
}

/// The `content` of the first `meta` element whose `ref_field` attribute is `name`.
pub fn extract_meta_from_doc(tree: &DomTree, ref_field: &str, name: &str) -> (r: Option<String>)
    requires
        tree.wf(),
    ensures
        opt_view(r) == meta_of(tree.nodes@, order_of(tree.nodes@, 0), ref_field@, name@),
{
    let ord = document_order(tree);
    match ord_first_meta(tree, &ord, ref_field, name) {
        Some(i) => extract_element_attr(tree, i, "content"),
        None => None,
    }
}

pub fn extract_description_from_doc(tree: &DomTree) -> (r: Option<String>)
    requires
        tree.wf(),
    ensures
        opt_view(r) == meta_of(tree.nodes@, order_of(tree.nodes@, 0), "name"@, "description"@),
{
    extract_meta_from_doc(tree, "name", "description")
}

pub fn extract_image_from_doc(tree: &DomTree) -> (r: Option<String>)
    requires
        tree.wf(),
    ensures
        opt_view(r) == meta_of(tree.nodes@, order_of(tree.nodes@, 0), "property"@, "og:image"@),
{
    extract_meta_from_doc(tree, "property", "og:image")
}

/// The `href` of node `i`.
pub fn extract_href_from_node(tree: &DomTree, i: usize) -> (r: Option<String>)
    requires
        i < tree.nodes@.len(),
    ensures
        opt_view(r) == attr_in(tree.nodes@[i as int].attrs@, "href"@),
{
    extract_element_attr(tree, i, "href")
}

/// The lower-cased tag name of node `i`; empty for a text node.
pub fn extract_tag_name(tree: &DomTree, i: usize) -> (r: String)
    requires
        i < tree.nodes@.len(),
    ensures
        r@ == match tree.nodes@[i as int].tag {
            Some(t) => lowercased(t@),
            None => Seq::empty(),
        },
{
    match &tree.nodes[i].tag {
        Some(t) => lower_text(t.as_str()),
        None => String::new(),
    }
}

/// `r` is the analysis of the page `nodes` at `uri`: its metadata, the walk
/// from the first `body` element with every element's share set against the
/// page total and the elements ranked by text length, and, when asked, the
/// page's distinct same-site links.
pub open spec fn analysis_of(r: PageStats, nodes: Seq<crate::tree::DomNode>, uri: Seq<char>, fetch_related_links: bool) -> bool {
    let ord = order_of(nodes, 0);
    let links = page_links(nodes, ord, base_of(uri), page_classifiable(uri));
    &&& r.uri@ == uri
    &&& opt_view(r.title) == title_of(nodes, ord)
    &&& opt_view(r.lang) == lang_of(nodes, ord)
    &&& opt_view(r.description) == meta_of(nodes, ord, "name"@, "description"@)
    &&& opt_view(r.image) == meta_of(nodes, ord, "property"@, "og:image"@)
    &&& r.text_len == body_total(nodes)
    &&& exists|w: Seq<PageElement>|
        walked_into(Seq::empty(), w, nodes, body_walk(nodes))
        && r.elements@ == ranked_elements(with_total(w, r.text_len))
    &&& fetch_related_links ==> r.domain_links@.map_values(|x: String| x@) == links.0
    &&& fetch_related_links ==> r.num_links == sat(links.1)
    &&& !fetch_related_links ==> r.domain_links@.len() == 0 && r.num_links == 0
    &&& r.num_domain_links == r.domain_links@.len()
}

impl PageStats {
    /// Analyses a parsed page: metadata, the walk from the first `body`
    /// element with every element's share set against the page total and
    /// the elements ranked by text length, and, when asked, the page's
    /// distinct same-site links.
    pub fn new(tree: &DomTree, uri: &str, fetch_related_links: bool) -> (r: PageStats)
        requires
            tree.wf(),
        ensures
            analysis_of(r, tree.nodes@, uri@, fetch_related_links),
    {
        let ghost nodes = tree.nodes@;
        let ord = document_order(tree);
        let title = extract_title_from_doc(tree);
        let lang = extract_lang_from_doc(tree);
        let description = extract_description_from_doc(tree);
        let image = extract_image_from_doc(tree);
        let mut walked: Vec<PageElement> = Vec::new();
        let mut text_len: usize = 0;
        match ord_first_tag(tree, &ord, "body") {
            Some(b) => {
                text_len = loop_content_tags(tree, &mut walked, b, 0);
                assert(walked_into(Seq::empty(), walked@, nodes, body_walk(nodes)));
            },
            None => {
                assert(walked_into(Seq::empty(), walked@, nodes, body_walk(nodes)));
            },
        }
        let ghost w = walked@;
        assert(text_len == body_total(nodes));
        let keyed = keyed_with_total(walked, text_len);
        let elements = values_of(rank_desc(keyed));
        assert(elements@ == ranked_elements(with_total(w, text_len)));
        let mut domain_links: Vec<String> = Vec::new();
        let mut num_links: usize = 0;
        if fetch_related_links {
            let base = extract_base_uri(uri);
            let page_ok = !has_prefix(uri, "#") && uri.as_bytes().len() > 1;
            let (links, count) = collect_links(tree, &ord, base.as_str(), page_ok);
            domain_links = links;
            num_links = count;
        }
        let num_domain_links = domain_links.len();
        PageStats {
            uri: uri.to_owned(),
            text_len,
            lang,
            title,
            description,
            image,
            elements,
            domain_links,
            num_links,
            num_domain_links,
        }
    }

    /// The summary of the page.
    pub fn to_overview(&self) -> (r: PageOverview)
        ensures
            overview_of(r, *self),
    {
        PageOverview {
            uri: self.uri.clone(),
            lang: copy_opt(&self.lang),
            text_len: self.text_len,
            title: copy_opt(&self.title),
            description: copy_opt(&self.description),
            image: copy_opt(&self.image),
            num_links: self.num_links,
            num_domain_links: self.num_domain_links,
        }
    }

    /// The full analysis, or only its summary.
    pub fn to_result(self, full: bool) -> (r: PageOverviewResult)
        ensures
            full ==> r == PageOverviewResult::Full(self),
            !full ==> (r matches PageOverviewResult::Basic(o) && overview_of(o, self)),
    {
        if full {
            PageOverviewResult::Full(self)
        } else {
            PageOverviewResult::Basic(self.to_overview())
        }
    }

    /// The place of the main-content element, if the page has elements.
    pub fn best_content_index(&self) -> (r: Option<usize>)
        ensures
            r matches Some(i) ==> best_choice(self.elements@) == Some(i as int) && i < self.elements@.len(),
            r is None ==> best_choice(self.elements@) is None,
    {
        let s = &self.elements;
        let n = s.len();
        let mut m: Option<usize> = None;
        let mut t: Option<usize> = None;
        let mut f: Option<usize> = None;
        let mut k: usize = 0;
        while k < n
            invariant
                n == s@.len(),
                0 <= k <= n,
                m matches Some(i) ==> main_min_upto(s@, k as int) == Some(i as int) && i < k,
                t matches Some(i) ==> i < k,
                f matches Some(i) ==> i < k,
                m is None ==> main_min_upto(s@, k as int) is None,
                t matches Some(i) ==> text_max_upto(s@, k as int) == Some(i as int),
                t is None ==> text_max_upto(s@, k as int) is None,
                f matches Some(i) ==> walk_first_upto(s@, k as int) == Some(i as int),
                f is None ==> walk_first_upto(s@, k as int) is None,
            decreases n - k,
        {
            let e = &s[k];
            if e.is_main_text_element() {
                match m {
                    Some(b) => {
                        if e.text_len < s[b].text_len {
                            m = Some(k);
                        }
                    },
                    None => {
                        m = Some(k);
                    },
                }
            }
            if e.has_meaningful_text() {
                match t {
                    Some(b) => {
                        if e.text_len > s[b].text_len {
                            t = Some(k);
                        }
                    },
                    None => {
                        t = Some(k);
                    },
                }
            }
            match f {
                Some(b) => {
                    if e.order < s[b].order {
                        f = Some(k);
                    }
                },
                None => {
                    f = Some(k);
                },
            }
            k = k + 1;
        }
        match m {
            Some(i) => {
                if s[i].has_meaningful_text() {
                    return Some(i);
                }
            },
            None => {},
        }
        match t {
            Some(j) => Some(j),
            None => f,
        }
    }

    /// The element most likely to hold the page's main content.
    pub fn best_content_match(&self) -> (r: Option<&PageElement>)
        ensures
            r matches Some(e) ==> best_choice(self.elements@) matches Some(i) && *e == self.elements@[i],
            r is None ==> best_choice(self.elements@) is None,
    {
        match self.best_content_index() {
            Some(i) => Some(&self.elements[i]),
            None => None,
        }
    }

    /// The meaningful-text elements, longest first.
    pub fn top_text_elements(&self) -> (r: Vec<&PageElement>)
        ensures
            r@.len() == ranked(text_keys(self.elements@, self.elements@.len() as int)).len(),
            forall|k: int| 0 <= k < r@.len() ==> *#[trigger] r@[k] == self.elements@[ranked(text_keys(self.elements@, self.elements@.len() as int))[k].1 as int],
    {
        let s = &self.elements;
        let n = s.len();
        let mut keys: Vec<(usize, usize)> = Vec::new();
        let mut k: usize = 0;
        while k < n
            invariant
                n == s@.len(),
                0 <= k <= n,
                keys@ == text_keys(s@, k as int),
            decreases n - k,
        {
            if s[k].has_meaningful_text() {
                keys.push((s[k].text_len, k));
            }
            k = k + 1;
        }
        let ranked_keys = rank_desc(keys);
        proof {
            lemma_keys_in_range(s@, n as int);
            lemma_ranked_keeps(text_keys(s@, n as int));
        }
        refs_at(s, &ranked_keys)
    }

    /// The menu-like elements, heaviest in links first.
    pub fn top_menu_elements(&self) -> (r: Vec<&PageElement>)
        ensures
            r@.len() == ranked(menu_keys(self.elements@, self.elements@.len() as int)).len(),
            forall|k: int| 0 <= k < r@.len() ==> *#[trigger] r@[k] == self.elements@[ranked(menu_keys(self.elements@, self.elements@.len() as int))[k].1 as int],
    {
        let s = &self.elements;
        let n = s.len();
        let mut keys: Vec<(usize, usize)> = Vec::new();
        let mut k: usize = 0;
        while k < n
            invariant
                n == s@.len(),
                0 <= k <= n,
                keys@ == menu_keys(s@, k as int),
            decreases n - k,
        {
            if s[k].text_len >= 16 && s[k].list_links > 1 {
                keys.push((s[k].weighted_num_links(), k));
            }
            k = k + 1;
        }
        let ranked_keys = rank_desc(keys);
        proof {
            lemma_keys_in_range(s@, n as int);
            lemma_ranked_keeps(menu_keys(s@, n as int));
        }
        refs_at(s, &ranked_keys)
    }
}


/// The summed text length of the walk entries at depth 0 that are meaningful.
pub open spec fn depth0_sum(nodes: Seq<crate::tree::DomNode>, w: Seq<(int, nat)>) -> nat
    decreases w.len(),
{
    if w.len() == 0 {
        0
    } else {
        let e = w.last();
        depth0_sum(nodes, w.drop_last()) + if e.1 == 0 && is_meaningful(nodes, e.0) {
            text_len_of(nodes, e.0)
        } else {
            0
        }
    }
}

proof fn lemma_depth0_sum_concat(nodes: Seq<crate::tree::DomNode>, a: Seq<(int, nat)>, b: Seq<(int, nat)>)
    ensures
        depth0_sum(nodes, a + b) == depth0_sum(nodes, a) + depth0_sum(nodes, b),
    decreases b.len(),
{
    if b.len() == 0 {
        assert(a + b =~= a);
    } else {
        lemma_depth0_sum_concat(nodes, a, b.drop_last());
        assert((a + b).drop_last() =~= a + b.drop_last());
    }
}

proof fn lemma_deep_walk_sums_zero(nodes: Seq<crate::tree::DomNode>, w: Seq<(int, nat)>)
    requires
        forall|k: int| 0 <= k < w.len() ==> #[trigger] w[k].1 > 0,
    ensures
        depth0_sum(nodes, w) == 0,
    decreases w.len(),
{
    if w.len() > 0 {
        lemma_deep_walk_sums_zero(nodes, w.drop_last());
    }
}

proof fn lemma_walk_depth(nodes: Seq<crate::tree::DomNode>, parent: int, cs: Seq<usize>, depth: nat)
    ensures
        forall|k: int| 0 <= k < walk_list(nodes, parent, cs, depth).len() ==> #[trigger] walk_list(nodes, parent, cs, depth)[k].1 >= depth,
    decreases nodes.len() - parent, cs.len(),
{
    if cs.len() > 0 {
        let c = cs.last() as int;
        lemma_walk_depth(nodes, parent, cs.drop_last(), depth);
        if 0 <= parent < c < nodes.len() && is_candidate(nodes, c) {
            lemma_walk_depth(nodes, c, nodes[c].children@, depth + 1);
            let rest = walk_list(nodes, parent, cs.drop_last(), depth);
            let subw = if depth < MAX_SCAN_DEPTH && is_meaningful(nodes, c) {
                walk_list(nodes, c, nodes[c].children@, depth + 1)
            } else {
                Seq::empty()
            };
            let w = walk_list(nodes, parent, cs, depth);
            assert(w =~= rest + seq![(c, depth)] + subw);
            assert forall|k: int| 0 <= k < w.len() implies #[trigger] w[k].1 >= depth by {
                if k < rest.len() {
                    assert(w[k] == rest[k]);
                } else if k > rest.len() {
                    assert(w[k] == subw[k - rest.len() - 1]);
                }
            }
        }
    }
}

proof fn lemma_top_total_sum(nodes: Seq<crate::tree::DomNode>, parent: int, cs: Seq<usize>)
    ensures
        top_total(nodes, parent, cs) == depth0_sum(nodes, walk_list(nodes, parent, cs, 0)),
    decreases cs.len(),
{
    if cs.len() > 0 {
        let c = cs.last() as int;
        lemma_top_total_sum(nodes, parent, cs.drop_last());
        let rest = walk_list(nodes, parent, cs.drop_last(), 0);
        if 0 <= parent < c < nodes.len() && is_candidate(nodes, c) {
            let subw = if 0 < MAX_SCAN_DEPTH && is_meaningful(nodes, c) {
                walk_list(nodes, c, nodes[c].children@, 1)
            } else {
                Seq::empty()
            };
            lemma_walk_depth(nodes, c, nodes[c].children@, 1);
            lemma_deep_walk_sums_zero(nodes, subw);
            lemma_depth0_sum_concat(nodes, rest + seq![(c, 0nat)], subw);
            lemma_depth0_sum_concat(nodes, rest, seq![(c, 0nat)]);
            assert(depth0_sum(nodes, seq![(c, 0nat)]) == if is_meaningful(nodes, c) { text_len_of(nodes, c) } else { 0 }) by {
                let one = seq![(c, 0nat)];
                assert(one.drop_last() =~= Seq::<(int, nat)>::empty());
                assert(one.last() == (c, 0nat));
                assert(depth0_sum(nodes, Seq::<(int, nat)>::empty()) == 0);
            }
        }
    }
}

proof fn lemma_term_le_sum(nodes: Seq<crate::tree::DomNode>, w: Seq<(int, nat)>, k: int)
    requires
        0 <= k < w.len(),
        w[k].1 == 0,
        is_meaningful(nodes, w[k].0),
    ensures
        text_len_of(nodes, w[k].0) <= depth0_sum(nodes, w),
    decreases w.len(),
{
    if k < w.len() - 1 {
        lemma_term_le_sum(nodes, w.drop_last(), k);
    }
}

/// The page total is exactly the summed text length of the body's depth-0
/// meaningful elements; where that sum fits a `usize`, each of those
/// elements' text length is at most the total, so its share of the page lies
/// between 0 and 1.
pub proof fn lemma_total_is_top_level_sum(nodes: Seq<crate::tree::DomNode>)
    ensures
        body_total(nodes) == sat(depth0_sum(nodes, body_walk(nodes))),
        depth0_sum(nodes, body_walk(nodes)) <= usize::MAX ==> forall|k: int|
            0 <= k < body_walk(nodes).len() && body_walk(nodes)[k].1 == 0 && is_meaningful(nodes, body_walk(nodes)[k].0)
                ==> #[trigger] text_len_of(nodes, body_walk(nodes)[k].0) <= body_total(nodes),
{
    match first_tag(nodes, order_of(nodes, 0), "body"@) {
        Some(b) => {
            lemma_top_total_sum(nodes, b, nodes[b].children@);
        },
        None => {},
    }
    let w = body_walk(nodes);
    if depth0_sum(nodes, w) <= usize::MAX {
        assert forall|k: int|
            0 <= k < w.len() && w[k].1 == 0 && is_meaningful(nodes, w[k].0) implies #[trigger] text_len_of(nodes, w[k].0) <= body_total(nodes) by {
            lemma_term_le_sum(nodes, w, k);
        }
    }
}

proof fn lemma_walk_first_some(s: Seq<PageElement>, n: int)
    requires
        0 < n <= s.len(),
    ensures
        walk_first_upto(s, n) is Some,
    decreases n,
{
    if n > 1 {
        lemma_walk_first_some(s, n - 1);
    }
}

/// The elements of an analysis come out ordered by text length, longest
/// first, as many as went in.
pub proof fn lemma_elements_by_length(s: Seq<PageElement>)
    ensures
        ranked_elements(s).len() == s.len(),
        forall|i: int, j: int| 0 <= i < j < s.len() ==> #[trigger] ranked_elements(s)[i].text_len >= #[trigger] ranked_elements(s)[j].text_len,
{
    let keyed = s.map_values(|e: PageElement| (e.text_len, e));
    crate::rank::lemma_ranked_sorted(keyed);
    let r = ranked(keyed);
    assert forall|i: int, j: int| 0 <= i < j < s.len() implies #[trigger] ranked_elements(s)[i].text_len >= #[trigger] ranked_elements(s)[j].text_len by {
        assert(r[i].0 >= r[j].0);
        lemma_keyed_rank(s, i);
        lemma_keyed_rank(s, j);
    }
}

proof fn lemma_keyed_rank(s: Seq<PageElement>, i: int)
    requires
        0 <= i < s.len(),
    ensures
        ranked(s.map_values(|e: PageElement| (e.text_len, e)))[i].0 == ranked_elements(s)[i].text_len,
{
    let keyed = s.map_values(|e: PageElement| (e.text_len, e));
    crate::rank::lemma_ranked_sorted(keyed);
    lemma_ranked_keeps(keyed);
    let r = ranked(keyed);
    let j = choose|j: int| 0 <= j < keyed.len() && r[i] == keyed[j];
    assert(r[i].0 == r[i].1.text_len);
}

/// A page with at least one element always has a main-content choice.
pub proof fn lemma_best_content_exists(s: Seq<PageElement>)
    requires
        s.len() > 0,
    ensures
        best_choice(s) is Some,
{
    lemma_walk_first_some(s, s.len() as int);
}

} // verus!
