//! Markup normalisation: whitespace, comments and inline styles removed,
//! tags stripped to plain text.
use vstd::prelude::*;
use crate::pattern::{
    replaced_in_turn, replaced_once, text_replace, text_replace_pairs,
    pair_view, RuleView,
};

verus! {

/// What `str::trim` returns: leading and trailing white space removed.
pub uninterp spec fn trimmed(s: Seq<char>) -> Seq<char>;

/// What `str::to_lowercase` returns.
pub uninterp spec fn lowercased(s: Seq<char>) -> Seq<char>;

/// Relies on `str::trim`: the same text without leading and trailing white space.
#[verifier::external_body]
pub(crate) fn trim_text(s: &str) -> (r: &str)
    ensures
        r@ == trimmed(s@),
        r@.len() <= s@.len(),
{
    s.trim()
}

/// Relies on `str::to_lowercase`: the lower-case form of each character.
#[verifier::external_body]
pub(crate) fn lower_text(s: &str) -> (r: String)
    ensures
        r@ == lowercased(s@),
{
    s.to_lowercase()
}

/// The normalisation rules, applied in this order: runs of white space to
/// one space, blank-line indentation, line breaks, comments, inline styles in
/// double and in single quotes.
pub open spec fn clean_rules() -> Seq<RuleView> {
    seq![
        (r#"\s\s+"#@, " "@, false),
        (r#"^\s+"#@, ""@, false),
        (r#"\n"#@, ""@, false),
        (r#"<\!--.*?-->"#@, ""@, false),
        (r#"\s+style="[^"]*?""#@, ""@, false),
        (r#"\s+style='[^']*?'"#@, ""@, false),
    ]
}

/// The pattern of an opening or closing tag.
pub open spec fn tag_pattern() -> Seq<char> {
    r"</?\w[^>]*?>"@
}

/// Normalises raw markup before any analysis.
pub fn clean_raw_html(html: &str) -> (r: String)
    ensures
        r@ == replaced_in_turn(html@, clean_rules()),
{
    let pairs = vec![
        (r#"\s\s+"#, " "),
        (r#"^\s+"#, ""),
        (r#"\n"#, ""),
        (r#"<\!--.*?-->"#, ""),
        (r#"\s+style="[^"]*?""#, ""),
        (r#"\s+style='[^']*?'"#, ""),
    ];
    let r = text_replace_pairs(html, pairs.as_slice());
    proof {
        assert(pairs@.map_values(|t: (&str, &str)| pair_view(t)) =~= clean_rules());
    }
    r
}

/// The text with every tag removed, then trimmed.
pub fn strip_literal_tags(text: &str) -> (r: String)
    ensures
        r@ == trimmed(replaced_once(text@, tag_pattern(), ""@, true)),
{
    let stripped = text_replace(text, r"</?\w[^>]*?>", "", true);
    trim_text(stripped.as_str()).to_owned()
}

} // verus!
