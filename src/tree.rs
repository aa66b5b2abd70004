//! A parsed document held as an arena of nodes. Children are referred to by
//! index, and always sit after their parent, so every walk goes forward.
use vstd::prelude::*;
use crate::truthy::same_text;
use crate::uri::byte_len;
use crate::text::{trim_text, trimmed};
use crate::segments::alnum_only;

verus! {

/// One node: an element (with a tag name) or a text node (without one).
#[derive(Debug, Clone)]
pub struct DomNode {
    pub tag: Option<String>,
    pub text: String,
    pub attrs: Vec<(String, String)>,
    pub children: Vec<usize>,
}

/// A document: node 0 is the root.
#[derive(Debug, Clone)]
pub struct DomTree {
    pub nodes: Vec<DomNode>,
}

/// Every child of a node comes after it in the arena.
pub open spec fn wf_nodes(nodes: Seq<DomNode>) -> bool {
    forall|i: int, k: int|
        0 <= i < nodes.len() && 0 <= k < nodes[i].children@.len() ==> i < #[trigger] nodes[i].children@[k]
            && nodes[i].children@[k] < nodes.len()
}

impl DomTree {
    pub open spec fn wf(&self) -> bool {
        wf_nodes(self.nodes@)
    }

    /// Whether every child of a node comes after it in the arena.
    pub fn is_well_formed(&self) -> (r: bool)
        ensures
            r == self.wf(),
    {
        let n = self.nodes.len();
        let mut i: usize = 0;
        while i < n
            invariant
                n == self.nodes@.len(),
                0 <= i <= n,
                forall|a: int, k: int|
                    0 <= a < i && 0 <= k < self.nodes@[a].children@.len() ==> a < #[trigger] self.nodes@[a].children@[k]
                        && self.nodes@[a].children@[k] < n,
            decreases n - i,
        {
            let cs = &self.nodes[i].children;
            let mut k: usize = 0;
            while k < cs.len()
                invariant
                    n == self.nodes@.len(),
                    i < n,
                    *cs == self.nodes@[i as int].children,
                    0 <= k <= cs@.len(),
                    forall|x: int| 0 <= x < k ==> i < #[trigger] cs@[x] && cs@[x] < n,
                decreases cs@.len() - k,
            {
                let c = cs[k];
                if c <= i || c >= n {
                    return false;
                }
                k = k + 1;
            }
            i = i + 1;
        }
        true
    }
}

pub open spec fn tag_is(nodes: Seq<DomNode>, i: int, name: Seq<char>) -> bool {
    0 <= i < nodes.len() && nodes[i].tag is Some && nodes[i].tag->0@ == name
}

pub open spec fn is_heading(nodes: Seq<DomNode>, i: int) -> bool {
    tag_is(nodes, i, "h1"@) || tag_is(nodes, i, "h2"@) || tag_is(nodes, i, "h3"@) || tag_is(nodes, i, "h4"@)
        || tag_is(nodes, i, "h5"@) || tag_is(nodes, i, "h6"@)
}

/// The text of a node: its own text for a text node, the text of its
/// children in order for an element.
pub open spec fn text_of(nodes: Seq<DomNode>, i: int) -> Seq<char>
    decreases nodes.len() - i, 1int, 0int,
{
    if 0 <= i < nodes.len() {
        if nodes[i].tag is None {
            nodes[i].text@
        } else {
            texts_of(nodes, i, nodes[i].children@)
        }
    } else {
        Seq::empty()
    }
}

pub open spec fn texts_of(nodes: Seq<DomNode>, parent: int, cs: Seq<usize>) -> Seq<char>
    decreases nodes.len() - parent, 0int, cs.len(),
{
    if cs.len() == 0 {
        Seq::empty()
    } else {
        let c = cs.last() as int;
        let rest = texts_of(nodes, parent, cs.drop_last());
        if 0 <= parent < c < nodes.len() {
            rest + text_of(nodes, c)
        } else {
            rest
        }
    }
}

/// Counts over the nodes below an element: links, links inside a list item,
/// paragraphs, headings, and the text length of the links.
pub type Tally = (nat, nat, nat, nat, nat);

pub open spec fn tally_add(a: Tally, b: Tally) -> Tally {
    (a.0 + b.0, a.1 + b.1, a.2 + b.2, a.3 + b.3, a.4 + b.4)
}

/// What one node adds to the counts of the element above it.
pub open spec fn own_tally(nodes: Seq<DomNode>, c: int, li_above: bool) -> Tally {
    let is_a = tag_is(nodes, c, "a"@);
    (
        if is_a { 1 } else { 0 },
        if is_a && li_above { 1 } else { 0 },
        if tag_is(nodes, c, "p"@) { 1 } else { 0 },
        if is_heading(nodes, c) { 1 } else { 0 },
        if is_a { byte_len(text_of(nodes, c)) } else { 0 },
    )
}

/// The counts over every node below `i`; `in_li` tells whether a list item
/// encloses `i` within the element being measured.
pub open spec fn tally_of(nodes: Seq<DomNode>, i: int, in_li: bool) -> Tally
    decreases nodes.len() - i, 1int, 0int,
{
    if 0 <= i < nodes.len() && nodes[i].tag is Some {
        tally_list(nodes, i, nodes[i].children@, in_li || tag_is(nodes, i, "li"@))
    } else {
        (0, 0, 0, 0, 0)
    }
}

pub open spec fn tally_list(nodes: Seq<DomNode>, parent: int, cs: Seq<usize>, li_above: bool) -> Tally
    decreases nodes.len() - parent, 0int, cs.len(),
{
    if cs.len() == 0 {
        (0, 0, 0, 0, 0)
    } else {
        let c = cs.last() as int;
        let rest = tally_list(nodes, parent, cs.drop_last(), li_above);
        if 0 <= parent < c < nodes.len() {
            tally_add(rest, tally_add(own_tally(nodes, c, li_above), tally_of(nodes, c, li_above)))
        } else {
            rest
        }
    }
}

/// The nodes under `i`, `i` first, in document order.
pub open spec fn order_of(nodes: Seq<DomNode>, i: int) -> Seq<int>
    decreases nodes.len() - i, 1int, 0int,
{
    if 0 <= i < nodes.len() {
        seq![i] + order_list(nodes, i, nodes[i].children@)
    } else {
        Seq::empty()
    }
}

pub open spec fn order_list(nodes: Seq<DomNode>, parent: int, cs: Seq<usize>) -> Seq<int>
    decreases nodes.len() - parent, 0int, cs.len(),
{
    if cs.len() == 0 {
        Seq::empty()
    } else {
        let c = cs.last() as int;
        let rest = order_list(nodes, parent, cs.drop_last());
        if 0 <= parent < c < nodes.len() {
            rest + order_of(nodes, c)
        } else {
            rest
        }
    }
}

/// The value of the first attribute of that name.
pub open spec fn attr_in(attrs: Seq<(String, String)>, name: Seq<char>) -> Option<Seq<char>>
    decreases attrs.len(),
{
    if attrs.len() == 0 {
        None
    } else if attrs[0].0@ == name {
        Some(attrs[0].1@)
    } else {
        attr_in(attrs.drop_first(), name)
    }
}

/// `x` held to the range of `usize`.
pub open spec fn sat(x: nat) -> usize {
    if x > usize::MAX {
        usize::MAX
    } else {
        x as usize
    }
}

pub struct Counts {
    pub links: usize,
    pub list_links: usize,
    pub paras: usize,
    pub headings: usize,
    pub link_text_len: usize,
}

impl Counts {
    /// The counts, each held to the range of `usize`.
    pub open spec fn holds(&self, t: Tally) -> bool {
        &&& self.links == sat(t.0)
        &&& self.list_links == sat(t.1)
        &&& self.paras == sat(t.2)
        &&& self.headings == sat(t.3)
        &&& self.link_text_len == sat(t.4)
    }
}

pub(crate) proof fn lemma_sat_add(a: nat, b: nat)
    ensures
        sat((sat(a) + sat(b)) as nat) == sat(a + b),
{
}

pub(crate) fn add_sat(a: usize, b: usize) -> (r: usize)
    ensures
        r == sat((a + b) as nat),
{
    a.saturating_add(b)
}

fn add_counts(a: &Counts, b: &Counts) -> (r: Counts)
    ensures
        forall|x: Tally, y: Tally| a.holds(x) && b.holds(y) ==> r.holds(#[trigger] tally_add(x, y)),
{
    let r = Counts {
        links: add_sat(a.links, b.links),
        list_links: add_sat(a.list_links, b.list_links),
        paras: add_sat(a.paras, b.paras),
        headings: add_sat(a.headings, b.headings),
        link_text_len: add_sat(a.link_text_len, b.link_text_len),
    };
    assert forall|x: Tally, y: Tally| a.holds(x) && b.holds(y) implies r.holds(#[trigger] tally_add(x, y)) by {
        lemma_sat_add(x.0, y.0);
        lemma_sat_add(x.1, y.1);
        lemma_sat_add(x.2, y.2);
        lemma_sat_add(x.3, y.3);
        lemma_sat_add(x.4, y.4);
    }
    r
}

/// Whether node `i` is an element with that tag name.
pub fn has_tag(tree: &DomTree, i: usize, name: &str) -> (r: bool)
    requires
        i < tree.nodes@.len(),
    ensures
        r == tag_is(tree.nodes@, i as int, name@),
{
    match &tree.nodes[i].tag {
        Some(t) => same_text(t.as_str(), name),
        None => false,
    }
}

fn is_heading_node(tree: &DomTree, i: usize) -> (r: bool)
    requires
        i < tree.nodes@.len(),
    ensures
        r == is_heading(tree.nodes@, i as int),
{
    has_tag(tree, i, "h1") || has_tag(tree, i, "h2") || has_tag(tree, i, "h3") || has_tag(tree, i, "h4")
        || has_tag(tree, i, "h5") || has_tag(tree, i, "h6")
}

/// Appends the text of node `i` to `out`.
pub fn append_text(tree: &DomTree, i: usize, out: &mut String)
    requires
        tree.wf(),
        i < tree.nodes@.len(),
    ensures
        final(out)@ == old(out)@ + text_of(tree.nodes@, i as int),
    decreases tree.nodes@.len() - i,
{
    let ghost nodes = tree.nodes@;
    let node = &tree.nodes[i];
    match &node.tag {
        None => {
            out.append(node.text.as_str());
        },
        Some(_) => {
            let ghost start = out@;
            let mut k: usize = 0;
            while k < node.children.len()
                invariant
                    tree.wf(),
                    nodes == tree.nodes@,
                    i < nodes.len(),
                    *node == nodes[i as int],
                    node.tag is Some,
                    0 <= k <= node.children@.len(),
                    out@ == start + texts_of(nodes, i as int, node.children@.subrange(0, k as int)),
                decreases node.children@.len() - k,
            {
                let c = node.children[k];
                assert(i < c && c < nodes.len());
                append_text(tree, c, out);
                proof {
                    let cs = node.children@.subrange(0, k + 1);
                    assert(cs.drop_last() =~= node.children@.subrange(0, k as int));
                    assert(cs.last() == c);
                    assert(start + texts_of(nodes, i as int, cs) =~= start + texts_of(nodes, i as int, node.children@.subrange(0, k as int)) + text_of(nodes, c as int));
                }
                k = k + 1;
            }
            assert(node.children@.subrange(0, node.children@.len() as int) =~= node.children@);
        },
    }
}

/// The text of node `i`.
pub fn node_text(tree: &DomTree, i: usize) -> (r: String)
    requires
        tree.wf(),
        i < tree.nodes@.len(),
    ensures
        r@ == text_of(tree.nodes@, i as int),
{
    let mut out = String::new();
    append_text(tree, i, &mut out);
    assert(out@ =~= text_of(tree.nodes@, i as int));
    out
}

/// The counts below node `i`.
pub fn tally_node(tree: &DomTree, i: usize, in_li: bool) -> (r: Counts)
    requires
        tree.wf(),
        i < tree.nodes@.len(),
    ensures
        r.holds(tally_of(tree.nodes@, i as int, in_li)),
    decreases tree.nodes@.len() - i,
{
    let ghost nodes = tree.nodes@;
    let node = &tree.nodes[i];
    let mut acc = Counts { links: 0, list_links: 0, paras: 0, headings: 0, link_text_len: 0 };
    if node.tag.is_none() {
        return acc;
    }
    let li_above = in_li || has_tag(tree, i, "li");
    let mut k: usize = 0;
    while k < node.children.len()
        invariant
            tree.wf(),
            nodes == tree.nodes@,
            i < nodes.len(),
            *node == nodes[i as int],
            node.tag is Some,
            li_above == (in_li || tag_is(nodes, i as int, "li"@)),
            0 <= k <= node.children@.len(),
            acc.holds(tally_list(nodes, i as int, node.children@.subrange(0, k as int), li_above)),
        decreases node.children@.len() - k,
    {
        let c = node.children[k];
        assert(i < c && c < nodes.len());
        let is_a = has_tag(tree, c, "a");
        let link_text_len: usize = if is_a { node_text(tree, c).as_str().as_bytes().len() } else { 0 };
        let own = Counts {
            links: if is_a { 1 } else { 0 },
            list_links: if is_a && li_above { 1 } else { 0 },
            paras: if has_tag(tree, c, "p") { 1 } else { 0 },
            headings: if is_heading_node(tree, c) { 1 } else { 0 },
            link_text_len,
        };
        let below = tally_node(tree, c, li_above);
        let step = add_counts(&own, &below);
        let next = add_counts(&acc, &step);
        proof {
            let o = own_tally(nodes, c as int, li_above);
            assert(own.holds(o));
            let cs = node.children@.subrange(0, k + 1);
            assert(cs.drop_last() =~= node.children@.subrange(0, k as int));
            assert(cs.last() == c);
        }
        acc = next;
        k = k + 1;
    }
    assert(node.children@.subrange(0, node.children@.len() as int) =~= node.children@);
    acc
}

/// Appends the nodes under `i`, `i` first, in document order.
pub fn append_order(tree: &DomTree, i: usize, out: &mut Vec<usize>)
    requires
        tree.wf(),
        i < tree.nodes@.len(),
    ensures
        final(out)@.map_values(|x: usize| x as int) == old(out)@.map_values(|x: usize| x as int) + order_of(tree.nodes@, i as int),
    decreases tree.nodes@.len() - i,
{
    let ghost nodes = tree.nodes@;
    let ghost start = out@.map_values(|x: usize| x as int);
    let node = &tree.nodes[i];
    out.push(i);
    proof {
        assert(out@.map_values(|x: usize| x as int) =~= start + seq![i as int]);
        assert(order_list(nodes, i as int, node.children@.subrange(0, 0)) =~= Seq::<int>::empty());
    }
    let mut k: usize = 0;
    while k < node.children.len()
        invariant
            tree.wf(),
            nodes == tree.nodes@,
            i < nodes.len(),
            *node == nodes[i as int],
            0 <= k <= node.children@.len(),
            out@.map_values(|x: usize| x as int) == start + seq![i as int] + order_list(nodes, i as int, node.children@.subrange(0, k as int)),
        decreases node.children@.len() - k,
    {
        let c = node.children[k];
        assert(i < c && c < nodes.len());
        append_order(tree, c, out);
        proof {
            let cs = node.children@.subrange(0, k + 1);
            assert(cs.drop_last() =~= node.children@.subrange(0, k as int));
            assert(cs.last() == c);
            assert(start + seq![i as int] + order_list(nodes, i as int, cs) =~= start + seq![i as int] + order_list(nodes, i as int, node.children@.subrange(0, k as int)) + order_of(nodes, c as int));
        }
        k = k + 1;
    }
    proof {
        assert(node.children@.subrange(0, node.children@.len() as int) =~= node.children@);
        assert(start + seq![i as int] + order_list(nodes, i as int, node.children@) =~= start + order_of(nodes, i as int));
    }
}

/// The value of the first attribute of that name on node `i`.
pub fn extract_element_attr(tree: &DomTree, i: usize, name: &str) -> (r: Option<String>)
    requires
        i < tree.nodes@.len(),
    ensures
        r matches Some(v) ==> attr_in(tree.nodes@[i as int].attrs@, name@) == Some(v@),
        r is None ==> attr_in(tree.nodes@[i as int].attrs@, name@) is None,
{
    let attrs = &tree.nodes[i].attrs;
    assert(attrs@.subrange(0, attrs@.len() as int) =~= attrs@);
    let mut k: usize = 0;
    while k < attrs.len()
        invariant
            i < tree.nodes@.len(),
            attrs@ == tree.nodes@[i as int].attrs@,
            0 <= k <= attrs@.len(),
            attr_in(attrs@, name@) == attr_in(attrs@.subrange(k as int, attrs@.len() as int), name@),
        decreases attrs@.len() - k,
    {
        let ghost rest = attrs@.subrange(k as int, attrs@.len() as int);
        let pair = &attrs[k];
        if same_text(pair.0.as_str(), name) {
            let v = pair.1.clone();
            assert(rest[0] == attrs@[k as int]);
            assert(attr_in(rest, name@) == Some(rest[0].1@));
            assert(v@ == rest[0].1@);
            return Some(v);
        }
        assert(rest.drop_first() =~= attrs@.subrange(k + 1, attrs@.len() as int));
        k = k + 1;
    }
    None
}


/// Node `c` is an element whose tag is one of `names`.
pub open spec fn tag_in(nodes: Seq<DomNode>, c: int, names: Seq<Seq<char>>) -> bool {
    exists|k: int| 0 <= k < names.len() && tag_is(nodes, c, #[trigger] names[k])
}

/// The children that stay once elements with the named tags are taken out.
pub open spec fn kept_children(nodes: Seq<DomNode>, cs: Seq<usize>, names: Seq<Seq<char>>) -> Seq<usize>
    decreases cs.len(),
{
    if cs.len() == 0 {
        Seq::empty()
    } else {
        let rest = kept_children(nodes, cs.drop_last(), names);
        if tag_in(nodes, cs.last() as int, names) {
            rest
        } else {
            rest.push(cs.last())
        }
    }
}

proof fn lemma_kept_from(nodes: Seq<DomNode>, cs: Seq<usize>, names: Seq<Seq<char>>)
    ensures
        forall|k: int| 0 <= k < kept_children(nodes, cs, names).len() ==> exists|j: int| 0 <= j < cs.len() && cs[j] == #[trigger] kept_children(nodes, cs, names)[k],
    decreases cs.len(),
{
    if cs.len() > 0 {
        lemma_kept_from(nodes, cs.drop_last(), names);
        let rest = kept_children(nodes, cs.drop_last(), names);
        let kc = kept_children(nodes, cs, names);
        assert forall|k: int| 0 <= k < kc.len() implies exists|j: int| 0 <= j < cs.len() && cs[j] == #[trigger] kc[k] by {
            if k < rest.len() {
                let j = choose|j: int| 0 <= j < cs.drop_last().len() && cs.drop_last()[j] == rest[k];
                assert(cs[j] == kc[k]);
            } else {
                assert(cs[cs.len() - 1] == kc[k]);
            }
        }
    }
}

/// Whether node `c` is an element with one of the named tags.
fn has_any_tag(tree: &DomTree, c: usize, names: &Vec<&str>) -> (r: bool)
    requires
        c < tree.nodes@.len(),
    ensures
        r == tag_in(tree.nodes@, c as int, names@.map_values(|w: &str| w@)),
{
    let ghost nv = names@.map_values(|w: &str| w@);
    let mut k: usize = 0;
    while k < names.len()
        invariant
            0 <= k <= names@.len(),
            c < tree.nodes@.len(),
            nv == names@.map_values(|w: &str| w@),
            forall|j: int| 0 <= j < k ==> !tag_is(tree.nodes@, c as int, #[trigger] nv[j]),
        decreases names@.len() - k,
    {
        if has_tag(tree, c, names[k]) {
            assert(tag_is(tree.nodes@, c as int, nv[k as int]));
            return true;
        }
        k = k + 1;
    }
    false
}

/// `after` is `before` with the elements of the named tags taken out:
/// the same nodes, each keeping its tag, text and attributes.
pub open spec fn tags_removed(before: Seq<DomNode>, after: Seq<DomNode>, names: Seq<Seq<char>>) -> bool {
    &&& after.len() == before.len()
    &&& forall|i: int| 0 <= i < before.len() ==> {
        &&& (#[trigger] after[i]).tag == before[i].tag
        &&& after[i].text == before[i].text
        &&& after[i].attrs == before[i].attrs
        &&& after[i].children@ == kept_children(before, before[i].children@, names)
    }
}

/// Takes every element with one of the named tags, and all below it, out of
/// the document: the nodes stay in the arena but are no longer reachable.
pub fn remove_tags(tree: &mut DomTree, names: &Vec<&str>)
    requires
        old(tree).wf(),
    ensures
        final(tree).wf(),
        tags_removed(old(tree).nodes@, final(tree).nodes@, names@.map_values(|w: &str| w@)),
{
    let ghost start = tree.nodes@;
    let ghost nv = names@.map_values(|w: &str| w@);
    let n = tree.nodes.len();
    let mut i: usize = 0;
    while i < n
        invariant
            n == start.len(),
            tree.nodes@.len() == n,
            wf_nodes(start),
            nv == names@.map_values(|w: &str| w@),
            0 <= i <= n,
            forall|j: int| 0 <= j < n ==> {
                &&& (#[trigger] tree.nodes@[j]).tag == start[j].tag
                &&& tree.nodes@[j].text == start[j].text
                &&& tree.nodes@[j].attrs == start[j].attrs
            },
            forall|j: int| i <= j < n ==> (#[trigger] tree.nodes@[j]).children == start[j].children,
            forall|j: int| 0 <= j < i ==> (#[trigger] tree.nodes@[j]).children@ == kept_children(start, start[j].children@, nv),
        decreases n - i,
    {
        let mut kept: Vec<usize> = Vec::new();
        let mut k: usize = 0;
        let ghost cs = start[i as int].children@;
        proof {
            assert(cs.subrange(0, 0) =~= Seq::<usize>::empty());
        }
        while k < tree.nodes[i].children.len()
            invariant
                n == start.len(),
                tree.nodes@.len() == n,
                wf_nodes(start),
                nv == names@.map_values(|w: &str| w@),
                i < n,
                cs == start[i as int].children@,
                tree.nodes@[i as int].children == start[i as int].children,
                forall|j: int| 0 <= j < n ==> (#[trigger] tree.nodes@[j]).tag == start[j].tag,
                0 <= k <= cs.len(),
                kept@ == kept_children(start, cs.subrange(0, k as int), nv),
            decreases cs.len() - k,
        {
            let c = tree.nodes[i].children[k];
            assert(c < n);
            let drop = has_any_tag(tree, c, names);
            proof {
                let sub = cs.subrange(0, k + 1);
                assert(sub.drop_last() =~= cs.subrange(0, k as int));
                assert(sub.last() == c);
                assert(forall|x: Seq<char>| tag_is(tree.nodes@, c as int, x) == tag_is(start, c as int, x));
                assert(drop == tag_in(start, c as int, nv));
            }
            if !drop {
                kept.push(c);
            }
            k = k + 1;
        }
        proof {
            assert(cs.subrange(0, cs.len() as int) =~= cs);
        }
        tree.nodes[i].children = kept;
        i = i + 1;
    }
    proof {
        assert forall|a: int, b: int| 0 <= a < tree.nodes@.len() && 0 <= b < tree.nodes@[a].children@.len() implies a < #[trigger] tree.nodes@[a].children@[b] && tree.nodes@[a].children@[b] < tree.nodes@.len() by {
            lemma_kept_from(start, start[a].children@, nv);
            let kc = kept_children(start, start[a].children@, nv);
            assert(kc[b] == tree.nodes@[a].children@[b]);
            let j = choose|j: int| 0 <= j < start[a].children@.len() && start[a].children@[j] == kc[b];
        }
    }
}


/// Relies on `StripCharacters::strip_non_alphanum`: the characters for
/// which `char::is_alphanumeric` holds, in order.
#[verifier::external_body]
fn strip_non_alphanum(s: &str) -> (r: String)
    ensures
        r@ == alnum_only(s@),
{
    simple_string_patterns::StripCharacters::strip_non_alphanum(&s)
}

/// How much a text node counts toward an element's inner text: its trimmed
/// length, or for a short text only its letters and digits.
pub open spec fn text_weight(t: Seq<char>) -> nat {
    if byte_len(trimmed(t)) < 16 {
        byte_len(alnum_only(trimmed(t)))
    } else {
        byte_len(trimmed(t))
    }
}

/// The inner text length of a node: the weights of the text nodes below it.
pub open spec fn inner_len(nodes: Seq<DomNode>, i: int) -> nat
    decreases nodes.len() - i, 1int, 0int,
{
    if 0 <= i < nodes.len() {
        if nodes[i].tag is None {
            text_weight(nodes[i].text@)
        } else {
            inner_list(nodes, i, nodes[i].children@)
        }
    } else {
        0
    }
}

pub open spec fn inner_list(nodes: Seq<DomNode>, parent: int, cs: Seq<usize>) -> nat
    decreases nodes.len() - parent, 0int, cs.len(),
{
    if cs.len() == 0 {
        0
    } else {
        let c = cs.last() as int;
        let rest = inner_list(nodes, parent, cs.drop_last());
        if 0 <= parent < c < nodes.len() {
            rest + inner_len(nodes, c)
        } else {
            rest
        }
    }
}

/// The weight of one text, as `text_weight` gives it.
pub fn text_weight_of(t: &str) -> (r: usize)
    ensures
        r as nat == text_weight(t@),
{
    let t = trim_text(t);
    let n = t.as_bytes().len();
    if n < 16 {
        strip_non_alphanum(t).as_str().as_bytes().len()
    } else {
        n
    }
}

/// The inner text length of node `i`, held to the range of `usize`.
pub fn extract_inner_text_length(tree: &DomTree, i: usize) -> (r: usize)
    requires
        tree.wf(),
        i < tree.nodes@.len(),
    ensures
        r == sat(inner_len(tree.nodes@, i as int)),
    decreases tree.nodes@.len() - i,
{
    let ghost nodes = tree.nodes@;
    let node = &tree.nodes[i];
    match &node.tag {
        None => text_weight_of(node.text.as_str()),
        Some(_) => {
            let mut acc: usize = 0;
            let mut k: usize = 0;
            while k < node.children.len()
                invariant
                    tree.wf(),
                    nodes == tree.nodes@,
                    i < nodes.len(),
                    *node == nodes[i as int],
                    node.tag is Some,
                    0 <= k <= node.children@.len(),
                    acc == sat(inner_list(nodes, i as int, node.children@.subrange(0, k as int))),
                decreases node.children@.len() - k,
            {
                let c = node.children[k];
                assert(i < c && c < nodes.len());
                let below = extract_inner_text_length(tree, c);
                proof {
                    let cs = node.children@.subrange(0, k + 1);
                    assert(cs.drop_last() =~= node.children@.subrange(0, k as int));
                    assert(cs.last() == c);
                    lemma_sat_add(inner_list(nodes, i as int, node.children@.subrange(0, k as int)), inner_len(nodes, c as int));
                }
                acc = add_sat(acc, below);
                k = k + 1;
            }
            assert(node.children@.subrange(0, node.children@.len() as int) =~= node.children@);
            acc
        },
    }
}

/// The children that stay once the marked nodes are taken out.
pub open spec fn unmarked(cs: Seq<usize>, mask: Seq<bool>) -> Seq<usize>
    decreases cs.len(),
{
    if cs.len() == 0 {
        Seq::empty()
    } else {
        let rest = unmarked(cs.drop_last(), mask);
        let c = cs.last() as int;
        if 0 <= c < mask.len() && mask[c] {
            rest
        } else {
            rest.push(cs.last())
        }
    }
}

proof fn lemma_unmarked_from(cs: Seq<usize>, mask: Seq<bool>)
    ensures
        forall|k: int| 0 <= k < unmarked(cs, mask).len() ==> exists|j: int| 0 <= j < cs.len() && cs[j] == #[trigger] unmarked(cs, mask)[k],
    decreases cs.len(),
{
    if cs.len() > 0 {
        lemma_unmarked_from(cs.drop_last(), mask);
        let rest = unmarked(cs.drop_last(), mask);
        let kc = unmarked(cs, mask);
        assert forall|k: int| 0 <= k < kc.len() implies exists|j: int| 0 <= j < cs.len() && cs[j] == #[trigger] kc[k] by {
            if k < rest.len() {
                let j = choose|j: int| 0 <= j < cs.drop_last().len() && cs.drop_last()[j] == rest[k];
                assert(cs[j] == kc[k]);
            } else {
                assert(cs[cs.len() - 1] == kc[k]);
            }
        }
    }
}

/// Takes the marked nodes, and all below them, out of the document.
pub fn remove_marked(tree: &mut DomTree, mask: &Vec<bool>)
    requires
        old(tree).wf(),
    ensures
        final(tree).wf(),
        final(tree).nodes@.len() == old(tree).nodes@.len(),
        forall|i: int| 0 <= i < old(tree).nodes@.len() ==> {
            &&& (#[trigger] final(tree).nodes@[i]).tag == old(tree).nodes@[i].tag
            &&& final(tree).nodes@[i].text == old(tree).nodes@[i].text
            &&& final(tree).nodes@[i].attrs == old(tree).nodes@[i].attrs
            &&& final(tree).nodes@[i].children@ == unmarked(old(tree).nodes@[i].children@, mask@)
        },
{
    let ghost start = tree.nodes@;
    let n = tree.nodes.len();
    let mut i: usize = 0;
    while i < n
        invariant
            n == start.len(),
            tree.nodes@.len() == n,
            wf_nodes(start),
            0 <= i <= n,
            forall|j: int| 0 <= j < n ==> {
                &&& (#[trigger] tree.nodes@[j]).tag == start[j].tag
                &&& tree.nodes@[j].text == start[j].text
                &&& tree.nodes@[j].attrs == start[j].attrs
            },
            forall|j: int| i <= j < n ==> (#[trigger] tree.nodes@[j]).children == start[j].children,
            forall|j: int| 0 <= j < i ==> (#[trigger] tree.nodes@[j]).children@ == unmarked(start[j].children@, mask@),
        decreases n - i,
    {
        let mut kept: Vec<usize> = Vec::new();
        let mut k: usize = 0;
        let ghost cs = start[i as int].children@;
        proof {
            assert(cs.subrange(0, 0) =~= Seq::<usize>::empty());
        }
        while k < tree.nodes[i].children.len()
            invariant
                n == start.len(),
                tree.nodes@.len() == n,
                i < n,
                cs == start[i as int].children@,
                tree.nodes@[i as int].children == start[i as int].children,
                0 <= k <= cs.len(),
                kept@ == unmarked(cs.subrange(0, k as int), mask@),
            decreases cs.len() - k,
        {
            let c = tree.nodes[i].children[k];
            let drop = c < mask.len() && mask[c];
            proof {
                let sub = cs.subrange(0, k + 1);
                assert(sub.drop_last() =~= cs.subrange(0, k as int));
                assert(sub.last() == c);
            }
            if !drop {
                kept.push(c);
            }
            k = k + 1;
        }
        proof {
            assert(cs.subrange(0, cs.len() as int) =~= cs);
        }
        tree.nodes[i].children = kept;
        i = i + 1;
    }
    proof {
        assert forall|a: int, b: int| 0 <= a < tree.nodes@.len() && 0 <= b < tree.nodes@[a].children@.len() implies a < #[trigger] tree.nodes@[a].children@[b] && tree.nodes@[a].children@[b] < tree.nodes@.len() by {
            lemma_unmarked_from(start[a].children@, mask@);
            let kc = unmarked(start[a].children@, mask@);
            assert(kc[b] == tree.nodes@[a].children@[b]);
            let j = choose|j: int| 0 <= j < start[a].children@.len() && start[a].children@[j] == kc[b];
        }
    }
}

/// Media tags taken out by the extra strip.
pub open spec fn media_tags() -> Seq<Seq<char>> {
    seq!["img"@, "video"@, "audio"@, "object"@, "figure"@, "iframe"@, "svg"@, "path"@]
}

/// Containers taken out by the extra strip when they hold no text.
pub open spec fn container_tags() -> Seq<Seq<char>> {
    seq!["div"@, "span"@, "a"@]
}

/// A container without inner text.
pub open spec fn empty_container(nodes: Seq<DomNode>, c: int) -> bool {
    tag_in(nodes, c, container_tags()) && inner_len(nodes, c) == 0
}

/// `mid` is `before` without its media elements, and `after` is `mid`
/// without its empty containers.
pub open spec fn extra_stripped(before: Seq<DomNode>, mid: Seq<DomNode>, after: Seq<DomNode>) -> bool {
    &&& mid.len() == before.len()
    &&& after.len() == mid.len()
    &&& tags_removed(before, mid, media_tags())
    &&& forall|i: int| 0 <= i < mid.len() ==> {
        &&& (#[trigger] after[i]).tag == mid[i].tag
        &&& after[i].text == mid[i].text
        &&& after[i].attrs == mid[i].attrs
        &&& after[i].children@ == unmarked(mid[i].children@, Seq::new(mid.len(), |c: int| empty_container(mid, c)))
    }
}

/// The extra strip for compact output: media elements first, then every
/// `div`, `span` or `a` whose inner text length is zero.
pub fn strip_extra_tags(tree: &mut DomTree)
    requires
        old(tree).wf(),
    ensures
        final(tree).wf(),
        final(tree).nodes@.len() == old(tree).nodes@.len(),
        exists|mid: Seq<DomNode>| #[trigger] extra_stripped(old(tree).nodes@, mid, final(tree).nodes@),
{
    let media = vec!["img", "video", "audio", "object", "figure", "iframe", "svg", "path"];
    proof {
        assert(media@.map_values(|w: &str| w@) =~= media_tags());
    }
    remove_tags(tree, &media);
    let ghost mid = tree.nodes@;
    let containers = vec!["div", "span", "a"];
    proof {
        assert(containers@.map_values(|w: &str| w@) =~= container_tags());
    }
    let n = tree.nodes.len();
    let mut mask: Vec<bool> = Vec::new();
    let mut c: usize = 0;
    while c < n
        invariant
            tree.wf(),
            tree.nodes@ == mid,
            n == mid.len(),
            containers@.map_values(|w: &str| w@) == container_tags(),
            0 <= c <= n,
            mask@.len() == c,
            forall|j: int| 0 <= j < c ==> #[trigger] mask@[j] == empty_container(mid, j),
        decreases n - c,
    {
        let empty = has_any_tag(tree, c, &containers) && extract_inner_text_length(tree, c) == 0;
        mask.push(empty);
        c = c + 1;
    }
    proof {
        assert(mask@ =~= Seq::new(mid.len(), |j: int| empty_container(mid, j)));
    }
    remove_marked(tree, &mask);
    assert(extra_stripped(old(tree).nodes@, mid, tree.nodes@));
}


/// The nodes reached from the root, in document order.
pub fn document_order(tree: &DomTree) -> (r: Vec<usize>)
    requires
        tree.wf(),
    ensures
        r@.map_values(|x: usize| x as int) == order_of(tree.nodes@, 0),
{
    let mut ord: Vec<usize> = Vec::new();
    if tree.nodes.len() > 0 {
        append_order(tree, 0, &mut ord);
    }
    proof {
        if tree.nodes@.len() == 0 {
            assert(order_of(tree.nodes@, 0) =~= Seq::<int>::empty());
        }
        assert(ord@.map_values(|x: usize| x as int) =~= order_of(tree.nodes@, 0));
    }
    ord
}

/// The nodes no longer reached from the root.
pub open spec fn detached_nodes(nodes: Seq<DomNode>) -> Seq<bool> {
    Seq::new(nodes.len(), |i: int| !order_of(nodes, 0).contains(i))
}

/// Marks the nodes that the root no longer reaches.
pub fn unreached_mask(tree: &DomTree) -> (r: Vec<bool>)
    requires
        tree.wf(),
    ensures
        r@ == detached_nodes(tree.nodes@),
{
    let reached = reachable_nodes(tree);
    let mut out: Vec<bool> = Vec::new();
    let mut i: usize = 0;
    while i < reached.len()
        invariant
            reached@.len() == tree.nodes@.len(),
            forall|j: int| 0 <= j < reached@.len() ==> #[trigger] reached@[j] == order_of(tree.nodes@, 0).contains(j),
            0 <= i <= reached@.len(),
            out@.len() == i,
            forall|j: int| 0 <= j < i ==> #[trigger] out@[j] == !order_of(tree.nodes@, 0).contains(j),
        decreases reached@.len() - i,
    {
        out.push(!reached[i]);
        i = i + 1;
    }
    assert(out@ =~= detached_nodes(tree.nodes@));
    out
}

/// Which nodes are still part of the document: those reached from the root.
pub fn reachable_nodes(tree: &DomTree) -> (r: Vec<bool>)
    requires
        tree.wf(),
    ensures
        r@.len() == tree.nodes@.len(),
        forall|i: int| 0 <= i < r@.len() ==> #[trigger] r@[i] == order_of(tree.nodes@, 0).contains(i),
{
    let n = tree.nodes.len();
    let ord = document_order(tree);
    let ghost ov = ord@.map_values(|x: usize| x as int);
    let mut mask: Vec<bool> = Vec::new();
    let mut i: usize = 0;
    while i < n
        invariant
            n == tree.nodes@.len(),
            0 <= i <= n,
            mask@.len() == i,
            forall|j: int| 0 <= j < i ==> mask@[j] == false,
        decreases n - i,
    {
        mask.push(false);
        i = i + 1;
    }
    let mut k: usize = 0;
    while k < ord.len()
        invariant
            n == tree.nodes@.len(),
            mask@.len() == n,
            ov == ord@.map_values(|x: usize| x as int),
            0 <= k <= ord@.len(),
            forall|j: int| 0 <= j < n ==> #[trigger] mask@[j] == ov.subrange(0, k as int).contains(j),
        decreases ord@.len() - k,
    {
        let x = ord[k];
        let ghost before = mask@;
        if x < n {
            mask.set(x, true);
        }
        proof {
            let sub = ov.subrange(0, k + 1);
            assert(sub =~= ov.subrange(0, k as int).push(x as int));
            assert forall|j: int| 0 <= j < n implies #[trigger] mask@[j] == sub.contains(j) by {
                if j == x as int {
                    assert(sub[k as int] == j);
                } else {
                    if sub.contains(j) {
                        let t = choose|t: int| 0 <= t < sub.len() && sub[t] == j;
                        assert(ov.subrange(0, k as int)[t] == j);
                    }
                }
            }
        }
        k = k + 1;
    }
    proof {
        assert(ov.subrange(0, ov.len() as int) =~= ov);
    }
    mask
}

} // verus!
