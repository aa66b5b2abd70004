//! Page addresses: the base of an address, joining relative links, and the
//! same-site test for links.
use vstd::prelude::*;
use crate::pattern::{pattern_matches, text_matches};

verus! {

/// What `ToSegments::to_segments` returns: the non-empty parts between
/// separators, with runs of separators kept on the part that follows them.
pub uninterp spec fn segments_of(s: Seq<char>, separator: Seq<char>) -> Seq<Seq<char>>;

/// What `ToSegments::to_tail` returns: the segments after the first, joined
/// again by the separator.
pub uninterp spec fn tail_of(s: Seq<char>, separator: Seq<char>) -> Seq<char>;

/// Relies on `to_segments::ToSegments::to_segments`.
#[verifier::external_body]
fn split_segments(s: &str, separator: &str) -> (r: Vec<String>)
    ensures
        r@.map_values(|x: String| x@) == segments_of(s@, separator@),
{
    to_segments::ToSegments::to_segments(&s, separator)
}

/// Relies on `to_segments::ToSegments::to_tail`.
#[verifier::external_body]
fn segments_tail(s: &str, separator: &str) -> (r: String)
    ensures
        r@ == tail_of(s@, separator@),
{
    to_segments::ToSegments::to_tail(&s, separator)
}

pub open spec fn byte_len(s: Seq<char>) -> nat {
    vstd::utf8::encode_utf8(s).len()
}

pub open spec fn starts_with(s: Seq<char>, prefix: Seq<char>) -> bool {
    prefix.len() <= s.len() && s.subrange(0, prefix.len() as int) == prefix
}

pub open spec fn occurs_at(s: Seq<char>, p: Seq<char>, i: int) -> bool {
    0 <= i && i + p.len() <= s.len() && s.subrange(i, i + p.len()) == p
}

/// The first place at or after `i` where `p` occurs in `s`.
pub open spec fn find_from(s: Seq<char>, p: Seq<char>, i: int) -> Option<int>
    decreases s.len() + 1 - i,
{
    if i < 0 || i + p.len() > s.len() {
        None
    } else if s.subrange(i, i + p.len()) == p {
        Some(i)
    } else {
        find_from(s, p, i + 1)
    }
}

/// Scheme, `://` and host of an address; the address itself when it has no
/// path after the host.
pub open spec fn base_of(uri: Seq<char>) -> Seq<char> {
    match find_from(uri, "://"@, 0) {
        Some(i) => match find_from(uri.subrange(i + 3, uri.len() as int), "/"@, 0) {
            Some(j) => uri.subrange(0, i + 3 + j),
            None => uri,
        },
        None => uri,
    }
}

pub open spec fn has_protocol(uri: Seq<char>) -> bool {
    starts_with(uri, "http://"@) || starts_with(uri, "https://"@)
}

/// The front of the pattern for a same-site address: a protocol and at most
/// one subdomain label.
pub open spec fn site_prefix_pattern() -> Seq<char> {
    r"^https?://([a-z0-9_-]+\.)?"@
}

/// Whether the base host may carry subdomains: more than three dotted parts,
/// a `www` first label, or more than two parts ending in a two-letter code.
pub open spec fn may_have_subdomains(parts: Seq<Seq<char>>) -> bool {
    let n = parts.len();
    ||| n > 3
    ||| tail_of(parts[0], "//"@) == "www"@
    ||| (n > 2 && byte_len(parts[n - 1]) == 2)
}

/// The same-site test of a link against the base address of its page.
pub open spec fn local_uri(uri: Seq<char>, base: Seq<char>) -> bool {
    if starts_with(uri, "/"@) || starts_with(uri, "../"@) {
        true
    } else if has_protocol(uri) {
        if starts_with(uri, base) {
            true
        } else {
            let parts = segments_of(base, "."@);
            if parts.len() > 1 {
                let host = tail_of(base, if may_have_subdomains(parts) { "."@ } else { "://"@ });
                pattern_matches(uri, site_prefix_pattern() + host, true)
            } else {
                false
            }
        }
    } else {
        false
    }
}

/// Whether `p` occurs in `s` at `i`.
fn text_at(s: &str, p: &str, i: usize) -> (r: bool)
    ensures
        r == occurs_at(s@, p@, i as int),
{
    let n = s.unicode_len();
    let m = p.unicode_len();
    if m > n || i > n - m {
        return false;
    }
    let mut j: usize = 0;
    while j < m
        invariant
            n == s@.len(),
            m == p@.len(),
            i + m <= n,
            0 <= j <= m,
            forall|k: int| 0 <= k < j ==> s@[i + k] == p@[k],
        decreases m - j,
    {
        if s.get_char(i + j) != p.get_char(j) {
            return false;
        }
        j = j + 1;
    }
    assert(s@.subrange(i as int, i + m) =~= p@);
    true
}

/// Whether `s` begins with `prefix`.
pub fn has_prefix(s: &str, prefix: &str) -> (r: bool)
    ensures
        r == starts_with(s@, prefix@),
{
    text_at(s, prefix, 0)
}

proof fn lemma_find_from_skip(s: Seq<char>, p: Seq<char>, i: int, k: int)
    requires
        0 <= i <= k,
        forall|t: int| i <= t < k ==> !occurs_at(s, p, t),
    ensures
        find_from(s, p, i) == find_from(s, p, k),
    decreases k - i,
{
    if i < k {
        assert(!occurs_at(s, p, i));
        if i + p.len() > s.len() {
            assert(find_from(s, p, k) is None);
            assert(find_from(s, p, i) is None);
        } else {
            assert(s.subrange(i, i + p.len()) != p);
            assert(find_from(s, p, i) == find_from(s, p, i + 1));
            lemma_find_from_skip(s, p, i + 1, k);
        }
    }
}

/// The first place where `p` occurs in `s`.
fn find_text(s: &str, p: &str) -> (r: Option<usize>)
    ensures
        r matches Some(i) ==> find_from(s@, p@, 0) == Some(i as int) && occurs_at(s@, p@, i as int),
        r is None ==> find_from(s@, p@, 0) is None,
{
    let n = s.unicode_len();
    let m = p.unicode_len();
    if m > n {
        return None;
    }
    let mut i: usize = 0;
    while i <= n - m
        invariant
            n == s@.len(),
            m == p@.len(),
            m <= n,
            0 <= i <= n - m + 1,
            find_from(s@, p@, 0) == find_from(s@, p@, i as int),
        decreases n - m + 1 - i,
    {
        if text_at(s, p, i) {
            return Some(i);
        }
        proof {
            lemma_find_from_skip(s@, p@, i as int, i + 1);
        }
        if i == n - m {
            return None;
        }
        i = i + 1;
    }
    None
}

/// Scheme and host of an address, without its path.
pub fn extract_base_uri(uri: &str) -> (r: String)
    ensures
        r@ == base_of(uri@),
{
    let n = uri.unicode_len();
    match find_text(uri, "://") {
        Some(i) => {
            proof {
                reveal_strlit("://");
            }
            let rest = uri.substring_char(i + 3, n);
            match find_text(rest, "/") {
                Some(j) => uri.substring_char(0, i + 3 + j).to_owned(),
                None => uri.to_owned(),
            }
        },
        None => uri.to_owned(),
    }
}

/// A link made absolute: kept when it has a protocol, else appended to the base.
pub fn concat_full_uri(uri: &str, base_uri: &str) -> (r: String)
    ensures
        r@ == if has_protocol(uri@) { uri@ } else { base_uri@ + uri@ },
{
    if has_prefix(uri, "http://") || has_prefix(uri, "https://") {
        uri.to_owned()
    } else {
        let mut full: String = base_uri.to_owned();
        full.append(uri);
        full
    }
}

/// Whether a link points into the same site as `base_uri`.
pub fn is_local_uri(uri: &str, base_uri: &str) -> (r: bool)
    ensures
        r == local_uri(uri@, base_uri@),
{
    if has_prefix(uri, "/") || has_prefix(uri, "../") {
        true
    } else if has_prefix(uri, "http://") || has_prefix(uri, "https://") {
        if has_prefix(uri, base_uri) {
            true
        } else {
            let parts = split_segments(base_uri, ".");
            let n = parts.len();
            proof {
                assert(parts@.map_values(|x: String| x@).len() == n);
            }
            if n > 1 {
                let ghost pv = parts@.map_values(|x: String| x@);
                let first = segments_tail(parts[0].as_str(), "//");
                let last_is_code = parts[n - 1].as_str().as_bytes().len() == 2;
                let subs = n > 3 || same_str(first.as_str(), "www") || (n > 2 && last_is_code);
                proof {
                    assert(pv[0] == parts@[0]@);
                    assert(pv[n - 1] == parts@[n - 1]@);
                    assert(subs == may_have_subdomains(pv));
                }
                let separator = if subs { "." } else { "://" };
                let host = segments_tail(base_uri, separator);
                let mut pattern: String = r"^https?://([a-z0-9_-]+\.)?".to_owned();
                pattern.append(host.as_str());
                text_matches(uri, pattern.as_str(), true)
            } else {
                false
            }
        }
    } else {
        false
    }
}

fn same_str(a: &str, b: &str) -> (r: bool)
    ensures
        r == (a@ == b@),
{
    crate::truthy::same_text(a, b)
}

/// A title or link that still holds a template placeholder (`{` and `}`).
pub open spec fn placeholder_text(t: Seq<char>) -> bool {
    pattern_matches(t, r"\{"@, true) && pattern_matches(t, r"\}"@, true)
}

/// Whether a link's title or address looks like a script template rather
/// than a real link.
pub fn is_javascript_link(title: &str, uri: &str) -> (r: bool)
    ensures
        r == (placeholder_text(title@) || placeholder_text(uri@)),
{
    let title_suspect = text_matches(title, r"\{", true) && text_matches(title, r"\}", true);
    if !title_suspect {
        text_matches(uri, r"\{", true) && text_matches(uri, r"\}", true)
    } else {
        title_suspect
    }
}

} // verus!
