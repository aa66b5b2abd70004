//! Caller-defined snippets: matched fragments, filtered by pattern and cast
//! to typed values.
use vstd::prelude::*;
use crate::expand_path::{expand_css_path, expanded_path};
use crate::pattern::{build_regex, flagged, regex_compiles, regex_finds, replaced_once, text_replace, CompiledPattern};
use crate::stats::{opt_view, PageOverviewResult};
use crate::truthy::{truthy_value, IsTruthy};

verus! {

/// What `to_first_number::<i64>` of the alphanumeric crate (through
/// simple_string_patterns) returns: the first number in the text that reads
/// as an `i64`.
pub uninterp spec fn first_integer_of(s: Seq<char>) -> Option<i64>;

/// What `to_numeric_strings` of the alphanumeric crate returns: the numbers
/// found in the text, as normalised numerals.
pub uninterp spec fn numeric_strings_of(s: Seq<char>) -> Seq<Seq<char>>;

/// Relies on `StripCharacters::to_first_number::<i64>`.
#[verifier::external_body]
fn first_integer(s: &str) -> (r: Option<i64>)
    ensures
        r == first_integer_of(s@),
{
    simple_string_patterns::StripCharacters::to_first_number::<i64>(&s)
}

/// Relies on `StripCharacters::to_numeric_strings`.
#[verifier::external_body]
fn numeric_strings(s: &str) -> (r: Vec<String>)
    ensures
        r@.map_values(|x: String| x@) == numeric_strings_of(s@),
{
    simple_string_patterns::StripCharacters::to_numeric_strings(&s)
}

/// What a caller asks a target to be.
#[derive(Debug, Clone, Copy, PartialEq, Eq, Structural)]
pub enum TargetKind {
    MainText,
    Summaries,
    DomainLinks,
    ExternalLinks,
    AllLinks,
    Info,
    Data,
    Float,
    Integer,
    Boolean,
}

/// A caller's rule: which paths to resolve, how to filter the matches and
/// how to cast them.
#[derive(Debug, Clone)]
pub struct TargetConfig {
    pub kind: Option<TargetKind>,
    pub path: Option<String>,
    pub paths: Option<Vec<String>>,
    pub key: Option<String>,
    pub multiple: Option<bool>,
    pub pattern: Option<String>,
    pub plain: Option<bool>,
    pub numeric: Option<bool>,
}

/// A matched value: a yes/no answer (or none), an integer, a decimal
/// numeral, or text.
#[derive(Debug, Clone)]
pub enum TypedValue {
    Flag(Option<bool>),
    Integer(i64),
    Decimal(String),
    Text(String),
}

/// One resolved snippet: a single value, or all matched values.
#[derive(Debug)]
pub struct Snippet {
    pub content: Option<TypedValue>,
    pub key: Option<String>,
    pub kind: Option<TargetKind>,
    pub path: String,
    pub matches: Vec<TypedValue>,
}

/// The analysis summary and the snippets of one page.
#[derive(Debug)]
pub struct ContentResultSet {
    pub stats: Option<PageOverviewResult>,
    pub contents: Vec<Snippet>,
    pub cached: bool,
    pub valid: bool,
}

pub open spec fn is_text(v: TypedValue, t: Seq<char>) -> bool {
    v matches TypedValue::Text(s) && s@ == t
}

/// `v` is the text `t` cast as `kind` asks: yes/no for Boolean, the first
/// integer for Integer, the first numeral for Float, the text itself
/// otherwise or when no number is found.
pub open spec fn cast_of(kind: Option<TargetKind>, t: Seq<char>, v: TypedValue) -> bool {
    match kind {
        Some(TargetKind::Boolean) => v == TypedValue::Flag(truthy_value(t)),
        Some(TargetKind::Integer) => match first_integer_of(t) {
            Some(n) => v == TypedValue::Integer(n),
            None => is_text(v, t),
        },
        Some(TargetKind::Float) => if numeric_strings_of(t).len() > 0 {
            v matches TypedValue::Decimal(d) && d@ == numeric_strings_of(t)[0]
        } else {
            is_text(v, t)
        },
        _ => is_text(v, t),
    }
}

/// Casts a matched text as `kind` asks.
pub fn cast_value(kind: Option<TargetKind>, t: &str) -> (r: TypedValue)
    ensures
        cast_of(kind, t@, r),
{
    match kind {
        Some(TargetKind::Boolean) => TypedValue::Flag(t.is_truthy()),
        Some(TargetKind::Integer) => match first_integer(t) {
            Some(n) => TypedValue::Integer(n),
            None => TypedValue::Text(t.to_owned()),
        },
        Some(TargetKind::Float) => {
            let nums = numeric_strings(t);
            if nums.len() > 0 {
                proof {
                    assert(nums@.map_values(|x: String| x@)[0] == nums@[0]@);
                }
                TypedValue::Decimal(nums[0].clone())
            } else {
                TypedValue::Text(t.to_owned())
            }
        },
        _ => TypedValue::Text(t.to_owned()),
    }
}

/// `sn` is the snippet built from `texts` under `path`, `key`, `multiple`
/// and `kind`.
pub open spec fn item_snippet(sn: Snippet, texts: Seq<Seq<char>>, path: Seq<char>, key: Seq<char>, multiple: bool, kind: Option<TargetKind>) -> bool {
    &&& sn.path@ == path
    &&& sn.kind == kind
    &&& opt_view(sn.key) == if key.len() > 0 { Some(key) } else { None::<Seq<char>> }
    &&& if multiple {
        &&& sn.content is None
        &&& sn.matches@.len() == texts.len()
        &&& forall|k: int| 0 <= k < texts.len() ==> cast_of(kind, texts[k], #[trigger] sn.matches@[k])
    } else {
        &&& sn.matches@.len() == 0
        &&& (texts.len() == 0 ==> sn.content is None)
        &&& (texts.len() > 0 ==> (sn.content matches Some(v) && cast_of(kind, texts[0], v)))
    }
}

impl Snippet {
    /// The snippet of a plain target: the matched markup, if any.
    pub fn new(source_text: &str, path: &str) -> (r: Snippet)
        ensures
            r.path@ == path@,
            r.key is None,
            r.kind is None,
            r.matches@.len() == 0,
            source_text@.len() > 0 ==> (r.content matches Some(v) && is_text(v, source_text@)),
            source_text@.len() == 0 ==> r.content is None,
    {
        let content = if !source_text.is_empty() {
            Some(TypedValue::Text(source_text.to_owned()))
        } else {
            None
        };
        Snippet { content, key: None, kind: None, path: path.to_owned(), matches: Vec::new() }
    }

    /// The snippet of a rule: every text cast as `kind` asks, kept all when
    /// `multiple`, else only the first.
    pub fn new_item(source_texts: &[String], path: &str, key_str: &str, multiple: bool, kind: Option<TargetKind>) -> (r: Snippet)
        ensures
            item_snippet(r, source_texts@.map_values(|x: String| x@), path@, key_str@, multiple, kind),
    {
        let ghost tv = source_texts@.map_values(|x: String| x@);
        let mut values: Vec<TypedValue> = Vec::new();
        let mut k: usize = 0;
        while k < source_texts.len()
            invariant
                0 <= k <= source_texts@.len(),
                tv == source_texts@.map_values(|x: String| x@),
                values@.len() == k,
                forall|j: int| 0 <= j < k ==> cast_of(kind, tv[j], #[trigger] values@[j]),
            decreases source_texts@.len() - k,
        {
            let v = cast_value(kind, source_texts[k].as_str());
            values.push(v);
            k = k + 1;
        }
        let key = if !key_str.is_empty() { Some(key_str.to_owned()) } else { None };
        if multiple {
            Snippet { content: None, key, kind, path: path.to_owned(), matches: values }
        } else {
            let mut values = values;
            let content = if values.len() > 0 {
                let first = values.remove(0);
                Some(first)
            } else {
                None
            };
            Snippet { content, key, kind, path: path.to_owned(), matches: Vec::new() }
        }
    }

    pub open spec fn has_content_spec(&self) -> bool {
        self.content is Some || self.matches@.len() > 0
    }

    pub fn has_content(&self) -> (r: bool)
        ensures
            r == self.has_content_spec(),
    {
        self.content.is_some() || self.matches.len() > 0
    }
}

impl ContentResultSet {
    /// The result set; valid when some snippet holds content.
    pub fn new(stats: Option<PageOverviewResult>, snippets: Vec<Snippet>, cached: bool) -> (r: ContentResultSet)
        ensures
            r.contents@ == snippets@,
            r.cached == cached,
            r.valid == exists|k: int| 0 <= k < snippets@.len() && (#[trigger] snippets@[k]).has_content_spec(),
    {
        let mut valid = false;
        let mut k: usize = 0;
        while k < snippets.len()
            invariant
                0 <= k <= snippets@.len(),
                valid == exists|j: int| 0 <= j < k && (#[trigger] snippets@[j]).has_content_spec(),
            decreases snippets@.len() - k,
        {
            if snippets[k].has_content() {
                valid = true;
            }
            k = k + 1;
        }
        ContentResultSet { stats, contents: snippets, cached, valid }
    }
}

/// The pattern that strips tags from a match before it is tested.
pub open spec fn strip_tag_pattern() -> Seq<char> {
    r#"</?\w+[^>]*?>"#@
}

pub open spec fn plain_of(t: Seq<char>) -> Seq<char> {
    replaced_once(t, strip_tag_pattern(), ""@, true)
}

/// The matches whose plain text the pattern finds, as plain text or as
/// markup.
pub open spec fn kept_matches(texts: Seq<Seq<char>>, pattern: Seq<char>, plain: bool) -> Seq<Seq<char>>
    decreases texts.len(),
{
    if texts.len() == 0 {
        Seq::empty()
    } else {
        let rest = kept_matches(texts.drop_last(), pattern, plain);
        let t = texts.last();
        if regex_finds(pattern, plain_of(t)) {
            rest.push(if plain { plain_of(t) } else { t })
        } else {
            rest
        }
    }
}

/// Keeps the matches whose tag-free text the compiled pattern finds.
pub fn filter_matches(texts: &Vec<String>, re: &CompiledPattern, plain: bool) -> (r: Vec<String>)
    ensures
        r@.map_values(|x: String| x@) == kept_matches(texts@.map_values(|x: String| x@), re@, plain),
{
    let ghost tv = texts@.map_values(|x: String| x@);
    let mut out: Vec<String> = Vec::new();
    let mut k: usize = 0;
    proof {
        assert(tv.subrange(0, 0) =~= Seq::<Seq<char>>::empty());
        assert(out@.map_values(|x: String| x@) =~= Seq::<Seq<char>>::empty());
    }
    while k < texts.len()
        invariant
            0 <= k <= texts@.len(),
            tv == texts@.map_values(|x: String| x@),
            out@.map_values(|x: String| x@) == kept_matches(tv.subrange(0, k as int), re@, plain),
        decreases texts@.len() - k,
    {
        let plain_text = text_replace(texts[k].as_str(), r#"</?\w+[^>]*?>"#, "", true);
        let found = crate::pattern::pattern_is_match(re, plain_text.as_str());
        proof {
            let sub = tv.subrange(0, k + 1);
            assert(sub.drop_last() =~= tv.subrange(0, k as int));
            assert(sub.last() == texts@[k as int]@);
        }
        if found {
            let ghost before = out@;
            let kept = if plain { plain_text } else { texts[k].clone() };
            let ghost kv = kept@;
            out.push(kept);
            proof {
                assert(out@.map_values(|x: String| x@) =~= before.map_values(|x: String| x@).push(kv));
            }
        }
        k = k + 1;
    }
    proof {
        assert(tv.subrange(0, tv.len() as int) =~= tv);
    }
    out
}


pub open spec fn paths_of(item: TargetConfig) -> Seq<Seq<char>> {
    match item.paths {
        Some(v) => v@.map_values(|x: String| x@),
        None => Seq::empty(),
    }
}

/// The markup matched by path `j` of rule `i`; nothing where none was given.
pub open spec fn texts_at(ms: Seq<Vec<Vec<String>>>, i: int, j: int) -> Seq<Seq<char>> {
    if 0 <= i < ms.len() && 0 <= j < ms[i]@.len() {
        ms[i]@[j]@.map_values(|x: String| x@)
    } else {
        Seq::empty()
    }
}

/// A rule's pattern does not compile: the rule yields nothing.
pub open spec fn rule_rejected(item: TargetConfig) -> bool {
    item.pattern matches Some(p) && !regex_compiles(flagged(p@, true))
}

/// The matches a rule keeps for one path.
pub open spec fn kept_for(item: TargetConfig, texts: Seq<Seq<char>>) -> Seq<Seq<char>> {
    match item.pattern {
        Some(p) => kept_matches(texts, flagged(p@, true), item.plain == Some(true)),
        None => texts,
    }
}

/// The snippets planned for rule `i` over its first `n` paths: kept texts,
/// path, rule.
pub open spec fn rule_plan(item: TargetConfig, i: int, ms: Seq<Vec<Vec<String>>>, n: int) -> Seq<(Seq<Seq<char>>, Seq<char>, int)>
    decreases n,
{
    if n <= 0 || rule_rejected(item) {
        Seq::empty()
    } else {
        let rest = rule_plan(item, i, ms, n - 1);
        let kept = kept_for(item, texts_at(ms, i, n - 1));
        if kept.len() > 0 {
            rest.push((kept, paths_of(item)[n - 1], i))
        } else {
            rest
        }
    }
}

/// The snippets planned for the first `n` rules.
pub open spec fn plan(items: Seq<TargetConfig>, ms: Seq<Vec<Vec<String>>>, n: int) -> Seq<(Seq<Seq<char>>, Seq<char>, int)>
    decreases n,
{
    if n <= 0 {
        Seq::empty()
    } else {
        plan(items, ms, n - 1) + rule_plan(items[n - 1], n - 1, ms, paths_of(items[n - 1]).len() as int)
    }
}

pub open spec fn key_of(item: TargetConfig) -> Seq<char> {
    match item.key {
        Some(k) => k@,
        None => Seq::empty(),
    }
}

fn key_text(item: &TargetConfig) -> (r: String)
    ensures
        r@ == key_of(*item),
{
    match &item.key {
        Some(k) => k.clone(),
        None => String::new(),
    }
}

fn matches_at(ms: &Vec<Vec<Vec<String>>>, i: usize, j: usize) -> (r: Vec<String>)
    ensures
        r@.map_values(|x: String| x@) == texts_at(ms@, i as int, j as int),
{
    if i < ms.len() && j < ms[i].len() {
        let src = &ms[i][j];
        let mut out: Vec<String> = Vec::new();
        let mut k: usize = 0;
        while k < src.len()
            invariant
                0 <= k <= src@.len(),
                out@.len() == k,
                forall|x: int| 0 <= x < k ==> #[trigger] out@[x]@ == src@[x]@,
            decreases src@.len() - k,
        {
            out.push(src[k].clone());
            k = k + 1;
        }
        assert(out@.map_values(|x: String| x@) =~= src@.map_values(|x: String| x@));
        out
    } else {
        let out: Vec<String> = Vec::new();
        assert(out@.map_values(|x: String| x@) =~= Seq::<Seq<char>>::empty());
        out
    }
}

/// The snippets at `out[start..]` follow the plan `p`.
pub open spec fn follows_plan(out: Seq<Snippet>, start: int, p: Seq<(Seq<Seq<char>>, Seq<char>, int)>, items: Seq<TargetConfig>) -> bool {
    &&& out.len() == start + p.len()
    &&& forall|k: int| 0 <= k < p.len() ==> item_snippet(
        #[trigger] out[start + k],
        p[k].0,
        p[k].1,
        key_of(items[p[k].2]),
        items[p[k].2].multiple == Some(true),
        items[p[k].2].kind,
    )
}

fn resolve_rule(item: &TargetConfig, i: usize, ms: &Vec<Vec<Vec<String>>>, items: &Vec<TargetConfig>, out: &mut Vec<Snippet>)
    requires
        i < items@.len(),
        items@[i as int] == *item,
    ensures
        forall|k: int| 0 <= k < old(out)@.len() ==> final(out)@[k] == old(out)@[k],
        follows_plan(final(out)@, old(out)@.len() as int, rule_plan(*item, i as int, ms@, paths_of(*item).len() as int), items@),
{
    let ghost start = out@;
    let plain = match item.plain {
        Some(b) => b,
        None => false,
    };
    let multiple = match item.multiple {
        Some(b) => b,
        None => false,
    };
    let key = key_text(item);
    let re: Option<CompiledPattern> = match &item.pattern {
        Some(p) => match build_regex(p.as_str(), true) {
            Some(c) => Some(c),
            None => {
                proof {
                    assert(rule_rejected(*item));
                    assert(rule_plan(*item, i as int, ms@, paths_of(*item).len() as int) =~= Seq::empty());
                }
                return;
            },
        },
        None => None,
    };
    proof {
        assert(!rule_rejected(*item));
        assert(rule_plan(*item, i as int, ms@, 0) =~= Seq::empty());
    }
    match &item.paths {
        None => {},
        Some(paths) => {
            let mut j: usize = 0;
            while j < paths.len()
                invariant
                    i < items@.len(),
                    items@[i as int] == *item,
                    item.paths == Some(*paths),
                    !rule_rejected(*item),
                    plain == (item.plain == Some(true)),
                    multiple == (item.multiple == Some(true)),
                    key@ == key_of(*item),
                    item.pattern matches Some(p) ==> (re matches Some(c) && c@ == flagged(p@, true)),
                    item.pattern is None ==> re is None,
                    0 <= j <= paths@.len(),
                    forall|k: int| 0 <= k < start.len() ==> out@[k] == start[k],
                    follows_plan(out@, start.len() as int, rule_plan(*item, i as int, ms@, j as int), items@),
                decreases paths@.len() - j,
            {
                let texts = matches_at(ms, i, j);
                let kept = match &re {
                    Some(c) => filter_matches(&texts, c, plain),
                    None => texts,
                };
                let ghost before = out@;
                let ghost rp = rule_plan(*item, i as int, ms@, j as int);
                proof {
                    assert(kept@.map_values(|x: String| x@) == kept_for(*item, texts_at(ms@, i as int, j as int)));
                    assert(paths_of(*item)[j as int] == paths@[j as int]@);
                }
                if kept.len() > 0 {
                    let sn = Snippet::new_item(kept.as_slice(), paths[j].as_str(), key.as_str(), multiple, item.kind);
                    out.push(sn);
                    proof {
                        let np = rule_plan(*item, i as int, ms@, j + 1);
                        assert(np == rp.push((kept@.map_values(|x: String| x@), paths@[j as int]@, i as int)));
                        assert forall|k: int| 0 <= k < np.len() implies item_snippet(
                            #[trigger] out@[start.len() + k],
                            np[k].0,
                            np[k].1,
                            key_of(items@[np[k].2]),
                            items@[np[k].2].multiple == Some(true),
                            items@[np[k].2].kind,
                        ) by {
                            if k < rp.len() {
                                assert(out@[start.len() + k] == before[start.len() + k]);
                            }
                        }
                    }
                } else {
                    proof {
                        assert(kept@.map_values(|x: String| x@).len() == 0);
                        assert(rule_plan(*item, i as int, ms@, j + 1) == rp);
                    }
                }
                j = j + 1;
            }
        },
    }
}

/// Resolves the caller's plain targets and rules into snippets. `target_matches`
/// holds, for each target, the path as written and the markup its expanded
/// form matched, joined by newlines; `item_matches[i][j]` holds the markup
/// matched by path `j` of rule `i`. A rule whose pattern does not compile
/// yields nothing; a path whose kept matches are empty yields nothing.
pub fn build_page_content_items(
    target_matches: &Vec<(String, String)>,
    items: &Vec<TargetConfig>,
    item_matches: &Vec<Vec<Vec<String>>>,
    stats: Option<PageOverviewResult>,
    cached: bool,
) -> (r: ContentResultSet)
    ensures
        r.cached == cached,
        r.contents@.len() == target_matches@.len() + plan(items@, item_matches@, items@.len() as int).len(),
        forall|k: int| 0 <= k < target_matches@.len() ==> {
            let sn = #[trigger] r.contents@[k];
            &&& sn.path@ == expanded_path(target_matches@[k].0@)
            &&& sn.matches@.len() == 0
            &&& (target_matches@[k].1@.len() > 0 ==> (sn.content matches Some(v) && is_text(v, target_matches@[k].1@)))
            &&& (target_matches@[k].1@.len() == 0 ==> sn.content is None)
        },
        follows_plan(r.contents@, target_matches@.len() as int, plan(items@, item_matches@, items@.len() as int), items@),
        r.valid == exists|k: int| 0 <= k < r.contents@.len() && (#[trigger] r.contents@[k]).has_content_spec(),
{
    let mut snippets: Vec<Snippet> = Vec::new();
    let mut k: usize = 0;
    while k < target_matches.len()
        invariant
            0 <= k <= target_matches@.len(),
            snippets@.len() == k,
            forall|x: int| 0 <= x < k ==> {
                let sn = #[trigger] snippets@[x];
                &&& sn.path@ == expanded_path(target_matches@[x].0@)
                &&& sn.matches@.len() == 0
                &&& (target_matches@[x].1@.len() > 0 ==> (sn.content matches Some(v) && is_text(v, target_matches@[x].1@)))
                &&& (target_matches@[x].1@.len() == 0 ==> sn.content is None)
            },
        decreases target_matches@.len() - k,
    {
        let pair = &target_matches[k];
        let label = expand_css_path(pair.0.as_str());
        snippets.push(Snippet::new(pair.1.as_str(), label.as_str()));
        k = k + 1;
    }
    let ghost n0 = snippets@.len();
    let ghost heads = snippets@;
    let mut i: usize = 0;
    while i < items.len()
        invariant
            n0 == target_matches@.len(),
            0 <= i <= items@.len(),
            forall|x: int| 0 <= x < n0 ==> snippets@[x] == heads[x],
            forall|x: int| 0 <= x < n0 ==> {
                let sn = #[trigger] heads[x];
                &&& sn.path@ == expanded_path(target_matches@[x].0@)
                &&& sn.matches@.len() == 0
                &&& (target_matches@[x].1@.len() > 0 ==> (sn.content matches Some(v) && is_text(v, target_matches@[x].1@)))
                &&& (target_matches@[x].1@.len() == 0 ==> sn.content is None)
            },
            follows_plan(snippets@, n0 as int, plan(items@, item_matches@, i as int), items@),
        decreases items@.len() - i,
    {
        let ghost before = snippets@;
        let ghost pb = plan(items@, item_matches@, i as int);
        resolve_rule(&items[i], i, item_matches, items, &mut snippets);
        proof {
            let rp = rule_plan(items@[i as int], i as int, item_matches@, paths_of(items@[i as int]).len() as int);
            let np = plan(items@, item_matches@, i + 1);
            assert(np == pb + rp);
            assert forall|x: int| 0 <= x < np.len() implies item_snippet(
                #[trigger] snippets@[n0 + x],
                np[x].0,
                np[x].1,
                key_of(items@[np[x].2]),
                items@[np[x].2].multiple == Some(true),
                items@[np[x].2].kind,
            ) by {
                if x < pb.len() {
                    assert(snippets@[n0 + x] == before[n0 + x]);
                } else {
                    assert(np[x] == rp[x - pb.len()]);
                    assert(snippets@[n0 + x] == snippets@[before.len() + (x - pb.len())]);
                }
            }
            assert forall|x: int| 0 <= x < n0 implies snippets@[x] == heads[x] by {
                assert(snippets@[x] == before[x]);
            }
        }
        i = i + 1;
    }
    let r = ContentResultSet::new(stats, snippets, cached);
    proof {
        assert forall|x: int| 0 <= x < target_matches@.len() implies {
            let sn = #[trigger] r.contents@[x];
            &&& sn.path@ == expanded_path(target_matches@[x].0@)
            &&& sn.matches@.len() == 0
            &&& (target_matches@[x].1@.len() > 0 ==> (sn.content matches Some(v) && is_text(v, target_matches@[x].1@)))
            &&& (target_matches@[x].1@.len() == 0 ==> sn.content is None)
        } by {
            assert(r.contents@[x] == heads[x]);
        }
    }
    r
}

} // verus!
