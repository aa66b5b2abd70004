//! Shorthand in caller path expressions: `tag:(N)` and `tag (N)` become
//! `tag:nth-child(N)`.
use vstd::prelude::*;
use crate::pattern::{replaced_once, text_replace};

verus! {

/// The shorthand with its parts captured, the separator in any of its forms.
pub open spec fn shorthand_pattern() -> Seq<char> {
    r#"(\w+)(:(nth-child)?|\s+)?\((\d+)\)"#@
}

pub open spec fn nth_child_template() -> Seq<char> {
    "$1:nth-child($4)"@
}

/// The path with every shorthand segment rewritten; a path without one
/// matches nowhere and stays as it is.
pub open spec fn expanded_path(path: Seq<char>) -> Seq<char> {
    replaced_once(path, shorthand_pattern(), nth_child_template(), false)
}

/// Rewrites the `tag:(N)` / `tag (N)` shorthand of a path to `tag:nth-child(N)`.
pub fn expand_css_path(path: &str) -> (r: String)
    ensures
        r@ == expanded_path(path@),
{
    text_replace(path, r#"(\w+)(:(nth-child)?|\s+)?\((\d+)\)"#, "$1:nth-child($4)", false)
}

} // verus!
