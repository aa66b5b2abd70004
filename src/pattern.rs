//! Regular-expression matching and replacement, through the `regex` crate.
use vstd::prelude::*;

verus! {

/// Whether `regex::Regex::new` accepts the pattern.
pub uninterp spec fn regex_compiles(pattern: Seq<char>) -> bool;

/// What `regex::Regex::is_match` answers for a compiled pattern and a haystack.
pub uninterp spec fn regex_finds(pattern: Seq<char>, haystack: Seq<char>) -> bool;

/// What `regex::Regex::replace_all` returns for a compiled pattern, a haystack
/// and a replacement template.
pub uninterp spec fn regex_replaced(pattern: Seq<char>, haystack: Seq<char>, replacement: Seq<char>) -> Seq<char>;

#[verifier::external_type_specification]
#[verifier::external_body]
pub struct ExRegex(regex::Regex);

/// A compiled regular expression together with the source it was built from.
pub struct CompiledPattern {
    re: regex::Regex,
    source: Ghost<Seq<char>>,
}

impl View for CompiledPattern {
    type V = Seq<char>;

    /// The pattern source the expression was compiled from.
    closed spec fn view(&self) -> Seq<char> {
        self.source@
    }
}

/// Relies on `regex::Regex::new`: compiles the pattern, or fails when the
/// pattern is not valid syntax.
#[verifier::external_body]
fn compile_regex(pattern: &str) -> (r: Option<CompiledPattern>)
    ensures
        r is Some <==> regex_compiles(pattern@),
        r matches Some(c) ==> c@ == pattern@,
{
    match regex::Regex::new(pattern) {
        Ok(re) => Some(CompiledPattern { re, source: Ghost(pattern@) }),
        Err(_) => None,
    }
}

/// Relies on `regex::Regex::is_match`: whether the pattern matches anywhere in
/// the haystack.
#[verifier::external_body]
fn regex_is_match(c: &CompiledPattern, haystack: &str) -> (r: bool)
    ensures
        r == regex_finds(c@, haystack@),
{
    c.re.is_match(haystack)
}

/// Relies on `regex::Regex::replace_all`: every non-overlapping match replaced
/// by the expanded template.
#[verifier::external_body]
fn regex_replace_all(c: &CompiledPattern, haystack: &str, replacement: &str) -> (r: String)
    ensures
        r@ == regex_replaced(c@, haystack@, replacement@),
{
    c.re.replace_all(haystack, replacement).into_owned()
}

/// Whether a compiled pattern matches anywhere in the haystack.
pub fn pattern_is_match(c: &CompiledPattern, haystack: &str) -> (r: bool)
    ensures
        r == regex_finds(c@, haystack@),
{
    regex_is_match(c, haystack)
}

/// The pattern as compiled: prefixed with the case-insensitive flag when asked.
pub open spec fn flagged(pattern: Seq<char>, case_insensitive: bool) -> Seq<char> {
    if case_insensitive {
        "(?i)"@ + pattern
    } else {
        pattern
    }
}

/// The pattern compiles and matches somewhere in `text`.
pub open spec fn pattern_matches(text: Seq<char>, pattern: Seq<char>, case_insensitive: bool) -> bool {
    regex_compiles(flagged(pattern, case_insensitive)) && regex_finds(
        flagged(pattern, case_insensitive),
        text,
    )
}

/// `text` with every match replaced, or unchanged when the pattern does not compile.
pub open spec fn replaced_once(
    text: Seq<char>,
    pattern: Seq<char>,
    replacement: Seq<char>,
    case_insensitive: bool,
) -> Seq<char> {
    if regex_compiles(flagged(pattern, case_insensitive)) {
        regex_replaced(flagged(pattern, case_insensitive), text, replacement)
    } else {
        text
    }
}

/// A replacement rule seen as values: pattern, replacement, case-insensitivity.
pub type RuleView = (Seq<char>, Seq<char>, bool);

pub open spec fn rule_view(r: (&str, &str, bool)) -> RuleView {
    (r.0@, r.1@, r.2)
}

pub open spec fn pair_view(r: (&str, &str)) -> RuleView {
    (r.0@, r.1@, false)
}

/// The rules applied one after the other, from the first to the last.
pub open spec fn replaced_in_turn(text: Seq<char>, rules: Seq<RuleView>) -> Seq<char>
    decreases rules.len(),
{
    if rules.len() == 0 {
        text
    } else {
        let r = rules.last();
        replaced_once(replaced_in_turn(text, rules.drop_last()), r.0, r.1, r.2)
    }
}

/// Compiles `pattern`, with the case-insensitive flag in front when asked.
pub fn build_regex(pattern: &str, case_insensitive: bool) -> (r: Option<CompiledPattern>)
    ensures
        r is Some <==> regex_compiles(flagged(pattern@, case_insensitive)),
        r matches Some(c) ==> c@ == flagged(pattern@, case_insensitive),
{
    if case_insensitive {
        let mut full: String = "(?i)".to_owned();
        full.append(pattern);
        compile_regex(full.as_str())
    } else {
        compile_regex(pattern)
    }
}

/// Whether the pattern compiles and matches `text`; false when it does not compile.
pub fn text_matches(text: &str, pattern: &str, case_insensitive: bool) -> (r: bool)
    ensures
        r == pattern_matches(text@, pattern@, case_insensitive),
{
    match build_regex(pattern, case_insensitive) {
        Some(c) => regex_is_match(&c, text),
        None => false,
    }
}

/// Replaces every match of the pattern; `None` when the pattern does not compile.
pub fn text_replace_opt(text: &str, pattern: &str, replacement: &str, case_insensitive: bool) -> (r: Option<String>)
    ensures
        r is Some <==> regex_compiles(flagged(pattern@, case_insensitive)),
        r matches Some(s) ==> s@ == replaced_once(text@, pattern@, replacement@, case_insensitive),
{
    match build_regex(pattern, case_insensitive) {
        Some(c) => Some(regex_replace_all(&c, text, replacement)),
        None => None,
    }
}

/// Replaces every match of the pattern, leaving the text as it is when the
/// pattern does not compile.
pub fn text_replace(text: &str, pattern: &str, replacement: &str, case_insensitive: bool) -> (r: String)
    ensures
        r@ == replaced_once(text@, pattern@, replacement@, case_insensitive),
{
    match text_replace_opt(text, pattern, replacement, case_insensitive) {
        Some(s) => s,
        None => text.to_owned(),
    }
}

/// Applies each rule in turn, skipping rules whose pattern does not compile.
pub fn text_replace_sets(text: &str, sets: &[(&str, &str, bool)]) -> (r: String)
    ensures
        r@ == replaced_in_turn(text@, sets@.map_values(|t: (&str, &str, bool)| rule_view(t))),
{
    let ghost rules = sets@.map_values(|t: (&str, &str, bool)| rule_view(t));
    let mut out: String = text.to_owned();
    let mut i: usize = 0;
    while i < sets.len()
        invariant
            0 <= i <= sets@.len(),
            rules == sets@.map_values(|t: (&str, &str, bool)| rule_view(t)),
            out@ == replaced_in_turn(text@, rules.subrange(0, i as int)),
        decreases sets@.len() - i,
    {
        let (p, rep, ci) = sets[i];
        let next = text_replace(out.as_str(), p, rep, ci);
        proof {
            assert(rules.subrange(0, i + 1).drop_last() =~= rules.subrange(0, i as int));
        }
        out = next;
        i = i + 1;
    }
    proof {
        assert(rules.subrange(0, sets@.len() as int) =~= rules);
    }
    out
}

/// Applies each (pattern, replacement) pair in turn, case-sensitively.
pub fn text_replace_pairs(text: &str, pairs: &[(&str, &str)]) -> (r: String)
    ensures
        r@ == replaced_in_turn(text@, pairs@.map_values(|t: (&str, &str)| pair_view(t))),
{
    let ghost rules = pairs@.map_values(|t: (&str, &str)| pair_view(t));
    let mut out: String = text.to_owned();
    let mut i: usize = 0;
    while i < pairs.len()
        invariant
            0 <= i <= pairs@.len(),
            rules == pairs@.map_values(|t: (&str, &str)| pair_view(t)),
            out@ == replaced_in_turn(text@, rules.subrange(0, i as int)),
        decreases pairs@.len() - i,
    {
        let (p, rep) = pairs[i];
        let next = text_replace(out.as_str(), p, rep, false);
        proof {
            assert(rules.subrange(0, i + 1).drop_last() =~= rules.subrange(0, i as int));
        }
        out = next;
        i = i + 1;
    }
    proof {
        assert(rules.subrange(0, pairs@.len() as int) =~= rules);
    }
    out
}


/// Regex matching and replacement on a string or on a list of strings.
pub trait PatternMatch: Sized {
    /// The value matches the pattern (a list: one of its strings does).
    spec fn matched_by(&self, pattern: Seq<char>, case_insensitive: bool) -> bool;

    /// `out` is the value with the rules applied in turn (a list: to each string).
    spec fn replaced_by(&self, rules: Seq<RuleView>, out: &Self) -> bool;

    fn pattern_match_opt(&self, pattern: &str, case_insensitive: bool) -> (r: Option<bool>)
        ensures
            r is Some <==> regex_compiles(flagged(pattern@, case_insensitive)),
            r matches Some(b) ==> b == self.matched_by(pattern@, case_insensitive),
    ;

    fn pattern_match(&self, pattern: &str, case_insensitive: bool) -> (r: bool)
        ensures
            r == self.matched_by(pattern@, case_insensitive),
    ;

    fn pattern_replace_opt(&self, pattern: &str, replacement: &str, case_insensitive: bool) -> (r: Option<Self>)
        ensures
            r is Some <==> regex_compiles(flagged(pattern@, case_insensitive)),
            r matches Some(v) ==> self.replaced_by(seq![(pattern@, replacement@, case_insensitive)], &v),
    ;

    fn pattern_replace(&self, pattern: &str, replacement: &str, case_insensitive: bool) -> (r: Self)
        ensures
            self.replaced_by(seq![(pattern@, replacement@, case_insensitive)], &r),
    ;
}

/// Matching against several patterns at once, and several replacements in turn.
pub trait PatternMatchMany: PatternMatch {
    fn pattern_match_many(&self, patterns: &[&str], case_insensitive: bool) -> (r: bool)
        ensures
            r == (forall|i: int| 0 <= i < patterns@.len() ==> self.matched_by(patterns@[i]@, case_insensitive)),
    ;

    fn pattern_match_many_insensitive(&self, patterns: &[&str]) -> (r: bool)
        ensures
            r == (forall|i: int| 0 <= i < patterns@.len() ==> self.matched_by(patterns@[i]@, true)),
    ;

    fn pattern_match_many_sensitive(&self, patterns: &[&str]) -> (r: bool)
        ensures
            r == (forall|i: int| 0 <= i < patterns@.len() ==> self.matched_by(patterns@[i]@, false)),
    ;

    fn pattern_match_many_mixed(&self, pattern_sets: &[(&str, bool)]) -> (r: bool)
        ensures
            r == (forall|i: int| 0 <= i < pattern_sets@.len() ==> self.matched_by(pattern_sets@[i].0@, pattern_sets@[i].1)),
    ;

    /// Every pattern matches, or fails to match, as its leading flag asks.
    fn pattern_match_many_conditional(&self, pattern_sets: &[(bool, &str, bool)]) -> (r: bool)
        ensures
            r == (forall|i: int| 0 <= i < pattern_sets@.len() ==> self.matched_by(pattern_sets@[i].1@, pattern_sets@[i].2) == pattern_sets@[i].0),
    ;

    fn pattern_replace_pairs(&self, replacement_pairs: &[(&str, &str)]) -> (r: Self)
        ensures
            self.replaced_by(replacement_pairs@.map_values(|t: (&str, &str)| pair_view(t)), &r),
    ;

    fn pattern_replace_sets(&self, replacement_sets: &[(&str, &str, bool)]) -> (r: Self)
        ensures
            self.replaced_by(replacement_sets@.map_values(|t: (&str, &str, bool)| rule_view(t)), &r),
    ;
}

proof fn lemma_single_rule(text: Seq<char>, r: RuleView)
    ensures
        replaced_in_turn(text, seq![r]) == replaced_once(text, r.0, r.1, r.2),
{
    assert(seq![r].drop_last() =~= Seq::<RuleView>::empty());
    assert(seq![r].last() == r);
    assert(replaced_in_turn(text, Seq::<RuleView>::empty()) == text);
    reveal_with_fuel(replaced_in_turn, 2);
}

impl PatternMatch for String {
    open spec fn matched_by(&self, pattern: Seq<char>, case_insensitive: bool) -> bool {
        pattern_matches(self@, pattern, case_insensitive)
    }

    open spec fn replaced_by(&self, rules: Seq<RuleView>, out: &Self) -> bool {
        out@ == replaced_in_turn(self@, rules)
    }

    fn pattern_match_opt(&self, pattern: &str, case_insensitive: bool) -> (r: Option<bool>) {
        match build_regex(pattern, case_insensitive) {
            Some(c) => Some(regex_is_match(&c, self.as_str())),
            None => None,
        }
    }

    fn pattern_match(&self, pattern: &str, case_insensitive: bool) -> (r: bool) {
        text_matches(self.as_str(), pattern, case_insensitive)
    }

    fn pattern_replace_opt(&self, pattern: &str, replacement: &str, case_insensitive: bool) -> (r: Option<String>) {
        proof {
            lemma_single_rule(self@, (pattern@, replacement@, case_insensitive));
        }
        text_replace_opt(self.as_str(), pattern, replacement, case_insensitive)
    }

    fn pattern_replace(&self, pattern: &str, replacement: &str, case_insensitive: bool) -> (r: String) {
        proof {
            lemma_single_rule(self@, (pattern@, replacement@, case_insensitive));
        }
        text_replace(self.as_str(), pattern, replacement, case_insensitive)
    }
}

impl PatternMatch for Vec<String> {
    open spec fn matched_by(&self, pattern: Seq<char>, case_insensitive: bool) -> bool {
        exists|i: int| 0 <= i < self@.len() && pattern_matches(#[trigger] self@[i]@, pattern, case_insensitive)
    }

    open spec fn replaced_by(&self, rules: Seq<RuleView>, out: &Self) -> bool {
        &&& out@.len() == self@.len()
        &&& forall|i: int| 0 <= i < self@.len() ==> #[trigger] out@[i]@ == replaced_in_turn(self@[i]@, rules)
    }

    fn pattern_match_opt(&self, pattern: &str, case_insensitive: bool) -> (r: Option<bool>) {
        match build_regex(pattern, case_insensitive) {
            Some(c) => {
                let mut i: usize = 0;
                let mut found = false;
                while i < self.len()
                    invariant
                        0 <= i <= self@.len(),
                        c@ == flagged(pattern@, case_insensitive),
                        regex_compiles(flagged(pattern@, case_insensitive)),
                        found == (exists|j: int| 0 <= j < i && pattern_matches(#[trigger] self@[j]@, pattern@, case_insensitive)),
                    decreases self@.len() - i,
                {
                    if regex_is_match(&c, self[i].as_str()) {
                        found = true;
                    }
                    i = i + 1;
                }
                Some(found)
            },
            None => None,
        }
    }

    fn pattern_match(&self, pattern: &str, case_insensitive: bool) -> (r: bool) {
        match self.pattern_match_opt(pattern, case_insensitive) {
            Some(b) => b,
            None => false,
        }
    }

    fn pattern_replace_opt(&self, pattern: &str, replacement: &str, case_insensitive: bool) -> (r: Option<Vec<String>>) {
        let ghost rules = seq![(pattern@, replacement@, case_insensitive)];
        match build_regex(pattern, case_insensitive) {
            Some(c) => {
                let mut out: Vec<String> = Vec::new();
                let mut i: usize = 0;
                while i < self.len()
                    invariant
                        0 <= i <= self@.len(),
                        out@.len() == i,
                        rules == seq![(pattern@, replacement@, case_insensitive)],
                        c@ == flagged(pattern@, case_insensitive),
                        regex_compiles(flagged(pattern@, case_insensitive)),
                        forall|j: int| 0 <= j < i ==> #[trigger] out@[j]@ == replaced_in_turn(self@[j]@, rules),
                    decreases self@.len() - i,
                {
                    let s = regex_replace_all(&c, self[i].as_str(), replacement);
                    proof {
                        lemma_single_rule(self@[i as int]@, (pattern@, replacement@, case_insensitive));
                    }
                    out.push(s);
                    i = i + 1;
                }
                Some(out)
            },
            None => None,
        }
    }

    fn pattern_replace(&self, pattern: &str, replacement: &str, case_insensitive: bool) -> (r: Vec<String>) {
        let ghost rules = seq![(pattern@, replacement@, case_insensitive)];
        let mut out: Vec<String> = Vec::new();
        let mut i: usize = 0;
        while i < self.len()
            invariant
                0 <= i <= self@.len(),
                out@.len() == i,
                rules == seq![(pattern@, replacement@, case_insensitive)],
                forall|j: int| 0 <= j < i ==> #[trigger] out@[j]@ == replaced_in_turn(self@[j]@, rules),
            decreases self@.len() - i,
        {
            let s = text_replace(self[i].as_str(), pattern, replacement, case_insensitive);
            proof {
                lemma_single_rule(self@[i as int]@, (pattern@, replacement@, case_insensitive));
            }
            out.push(s);
            i = i + 1;
        }
        out
    }
}

fn all_patterns_match<T: PatternMatch>(v: &T, patterns: &[&str], case_insensitive: bool) -> (r: bool)
    ensures
        r == (forall|i: int| 0 <= i < patterns@.len() ==> v.matched_by(patterns@[i]@, case_insensitive)),
{
    let mut i: usize = 0;
    while i < patterns.len()
        invariant
            0 <= i <= patterns@.len(),
            forall|j: int| 0 <= j < i ==> v.matched_by(#[trigger] patterns@[j]@, case_insensitive),
        decreases patterns@.len() - i,
    {
        if !v.pattern_match(patterns[i], case_insensitive) {
            return false;
        }
        i = i + 1;
    }
    true
}

fn all_mixed_match<T: PatternMatch>(v: &T, pattern_sets: &[(&str, bool)]) -> (r: bool)
    ensures
        r == (forall|i: int| 0 <= i < pattern_sets@.len() ==> v.matched_by(pattern_sets@[i].0@, pattern_sets@[i].1)),
{
    let mut i: usize = 0;
    while i < pattern_sets.len()
        invariant
            0 <= i <= pattern_sets@.len(),
            forall|j: int| 0 <= j < i ==> v.matched_by(#[trigger] pattern_sets@[j].0@, pattern_sets@[j].1),
        decreases pattern_sets@.len() - i,
    {
        let (p, ci) = pattern_sets[i];
        if !v.pattern_match(p, ci) {
            return false;
        }
        i = i + 1;
    }
    true
}

fn all_conditions_match<T: PatternMatch>(v: &T, pattern_sets: &[(bool, &str, bool)]) -> (r: bool)
    ensures
        r == (forall|i: int| 0 <= i < pattern_sets@.len() ==> v.matched_by(pattern_sets@[i].1@, pattern_sets@[i].2) == pattern_sets@[i].0),
{
    let mut i: usize = 0;
    while i < pattern_sets.len()
        invariant
            0 <= i <= pattern_sets@.len(),
            forall|j: int| 0 <= j < i ==> v.matched_by(#[trigger] pattern_sets@[j].1@, pattern_sets@[j].2) == pattern_sets@[j].0,
        decreases pattern_sets@.len() - i,
    {
        let (positive, p, ci) = pattern_sets[i];
        if v.pattern_match(p, ci) != positive {
            return false;
        }
        i = i + 1;
    }
    true
}

impl PatternMatchMany for String {
    fn pattern_match_many(&self, patterns: &[&str], case_insensitive: bool) -> (r: bool) {
        all_patterns_match(self, patterns, case_insensitive)
    }

    fn pattern_match_many_insensitive(&self, patterns: &[&str]) -> (r: bool) {
        self.pattern_match_many(patterns, true)
    }

    fn pattern_match_many_sensitive(&self, patterns: &[&str]) -> (r: bool) {
        self.pattern_match_many(patterns, false)
    }

    fn pattern_match_many_mixed(&self, pattern_sets: &[(&str, bool)]) -> (r: bool) {
        all_mixed_match(self, pattern_sets)
    }

    fn pattern_match_many_conditional(&self, pattern_sets: &[(bool, &str, bool)]) -> (r: bool) {
        all_conditions_match(self, pattern_sets)
    }

    fn pattern_replace_pairs(&self, replacement_pairs: &[(&str, &str)]) -> (r: String) {
        text_replace_pairs(self.as_str(), replacement_pairs)
    }

    fn pattern_replace_sets(&self, replacement_sets: &[(&str, &str, bool)]) -> (r: String) {
        text_replace_sets(self.as_str(), replacement_sets)
    }
}


impl PatternMatchMany for Vec<String> {
    fn pattern_match_many(&self, patterns: &[&str], case_insensitive: bool) -> (r: bool) {
        all_patterns_match(self, patterns, case_insensitive)
    }

    fn pattern_match_many_insensitive(&self, patterns: &[&str]) -> (r: bool) {
        self.pattern_match_many(patterns, true)
    }

    fn pattern_match_many_sensitive(&self, patterns: &[&str]) -> (r: bool) {
        self.pattern_match_many(patterns, false)
    }

    fn pattern_match_many_mixed(&self, pattern_sets: &[(&str, bool)]) -> (r: bool) {
        all_mixed_match(self, pattern_sets)
    }

    fn pattern_match_many_conditional(&self, pattern_sets: &[(bool, &str, bool)]) -> (r: bool) {
        all_conditions_match(self, pattern_sets)
    }

    fn pattern_replace_pairs(&self, replacement_pairs: &[(&str, &str)]) -> (r: Vec<String>) {
        let ghost rules = replacement_pairs@.map_values(|t: (&str, &str)| pair_view(t));
        let mut out: Vec<String> = Vec::new();
        let mut i: usize = 0;
        while i < self.len()
            invariant
                0 <= i <= self@.len(),
                out@.len() == i,
                rules == replacement_pairs@.map_values(|t: (&str, &str)| pair_view(t)),
                forall|j: int| 0 <= j < i ==> #[trigger] out@[j]@ == replaced_in_turn(self@[j]@, rules),
            decreases self@.len() - i,
        {
            out.push(text_replace_pairs(self[i].as_str(), replacement_pairs));
            i = i + 1;
        }
        out
    }

    fn pattern_replace_sets(&self, replacement_sets: &[(&str, &str, bool)]) -> (r: Vec<String>) {
        let ghost rules = replacement_sets@.map_values(|t: (&str, &str, bool)| rule_view(t));
        let mut out: Vec<String> = Vec::new();
        let mut i: usize = 0;
        while i < self.len()
            invariant
                0 <= i <= self@.len(),
                out@.len() == i,
                rules == replacement_sets@.map_values(|t: (&str, &str, bool)| rule_view(t)),
                forall|j: int| 0 <= j < i ==> #[trigger] out@[j]@ == replaced_in_turn(self@[j]@, rules),
            decreases self@.len() - i,
        {
            out.push(text_replace_sets(self[i].as_str(), replacement_sets));
            i = i + 1;
        }
        out
    }
}

} // verus!
