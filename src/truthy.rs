//! Reading a yes/no answer out of free text.
use vstd::prelude::*;
use crate::text::{lower_text, lowercased, trim_text, trimmed};

verus! {

pub open spec fn is_digit(c: char) -> bool {
    '0' <= c && c <= '9'
}

/// The shape that `is_numeric` accepts: not empty, digits, a minus sign only
/// in front, at most one decimal point and not at the end.
pub open spec fn numeric_text(s: Seq<char>) -> bool {
    &&& s.len() >= 1
    &&& forall|i: int|
        0 <= i < s.len() ==> {
            ||| is_digit(#[trigger] s[i])
            ||| (s[i] == '-' && i == 0)
            ||| (s[i] == '.' && i < s.len() - 1 && forall|j: int| 0 <= j < i ==> s[j] != '.')
        }
}

/// A numeral of that shape stands for a value above zero: no minus sign, and
/// a digit other than zero somewhere.
pub open spec fn numeral_positive(s: Seq<char>) -> bool {
    &&& s.len() >= 1
    &&& s[0] != '-'
    &&& exists|i: int| 0 <= i < s.len() && is_digit(#[trigger] s[i]) && s[i] != '0'
}

pub open spec fn has_digit(s: Seq<char>) -> bool {
    exists|i: int| 0 <= i < s.len() && is_digit(#[trigger] s[i])
}

/// What `starts_with_ci_alphanum` answers: the letters and digits of `s`,
/// case folded, begin with those of `prefix`.
pub uninterp spec fn alnum_ci_prefix(s: Seq<char>, prefix: Seq<char>) -> bool;

/// Relies on `IsNumeric::is_numeric` (re-exported by simple_string_patterns):
/// true exactly for the shape described by `numeric_text`.
#[verifier::external_body]
fn is_numeric_text(s: &str) -> (r: bool)
    ensures
        r == numeric_text(s@),
{
    simple_string_patterns::IsNumeric::is_numeric(&s)
}

/// Relies on `SimpleMatch::starts_with_ci_alphanum` of simple_string_patterns.
#[verifier::external_body]
fn starts_with_alnum_ci(s: &str, prefix: &str) -> (r: bool)
    ensures
        r == alnum_ci_prefix(s@, prefix@),
{
    simple_string_patterns::SimpleMatch::starts_with_ci_alphanum(&s, prefix)
}

pub open spec fn false_words() -> Seq<Seq<char>> {
    seq!["0"@, "-1"@, "false"@, "no"@, "not"@, "none"@, "n"@, "f"@, ""@]
}

pub open spec fn true_words() -> Seq<Seq<char>> {
    seq!["1"@, "2"@, "ok"@, "okay"@, "y"@, "yes"@, "true"@, "t"@]
}

/// The answer read from `s`: `None` where it is indeterminate.
pub open spec fn truthy_value(s: Seq<char>) -> Option<bool> {
    let t = lowercased(trimmed(s));
    if false_words().contains(t) {
        Some(false)
    } else if true_words().contains(t) {
        Some(true)
    } else if numeric_text(t) {
        if has_digit(t) {
            Some(numeral_positive(t))
        } else {
            None
        }
    } else if alnum_ci_prefix(t, "tru"@) {
        Some(true)
    } else if alnum_ci_prefix(t, "fals"@) {
        Some(false)
    } else {
        None
    }
}

/// Whether two texts hold the same characters.
pub fn same_text(a: &str, b: &str) -> (r: bool)
    ensures
        r == (a@ == b@),
{
    let n = a.unicode_len();
    if n != b.unicode_len() {
        return false;
    }
    let mut i: usize = 0;
    while i < n
        invariant
            n == a@.len() == b@.len(),
            0 <= i <= n,
            forall|j: int| 0 <= j < i ==> a@[j] == b@[j],
        decreases n - i,
    {
        if a.get_char(i) != b.get_char(i) {
            return false;
        }
        i = i + 1;
    }
    assert(a@ =~= b@);
    true
}

fn one_of(t: &str, words: &Vec<&str>) -> (r: bool)
    ensures
        r == words@.map_values(|w: &str| w@).contains(t@),
{
    let ghost ws = words@.map_values(|w: &str| w@);
    let mut i: usize = 0;
    while i < words.len()
        invariant
            0 <= i <= words@.len(),
            ws == words@.map_values(|w: &str| w@),
            forall|j: int| 0 <= j < i ==> #[trigger] ws[j] != t@,
        decreases words@.len() - i,
    {
        if same_text(t, words[i]) {
            assert(ws[i as int] == t@);
            return true;
        }
        i = i + 1;
    }
    false
}

/// Decides the sign of a numeral of the `numeric_text` shape; `None` when it
/// holds no digit.
fn numeral_sign(t: &str) -> (r: Option<bool>)
    requires
        numeric_text(t@),
    ensures
        r is Some <==> has_digit(t@),
        r matches Some(b) ==> b == numeral_positive(t@),
{
    let n = t.unicode_len();
    let mut i: usize = 0;
    let mut any_digit = false;
    let mut nonzero = false;
    while i < n
        invariant
            n == t@.len(),
            0 <= i <= n,
            any_digit == (exists|j: int| 0 <= j < i && is_digit(#[trigger] t@[j])),
            nonzero == (exists|j: int| 0 <= j < i && is_digit(#[trigger] t@[j]) && t@[j] != '0'),
        decreases n - i,
    {
        let c = t.get_char(i);
        if '0' <= c && c <= '9' {
            any_digit = true;
            if c != '0' {
                nonzero = true;
            }
        }
        i = i + 1;
    }
    if !any_digit {
        None
    } else {
        Some(t.get_char(0) != '-' && nonzero)
    }
}

/// Reading of yes/no answers from text.
pub trait IsTruthy {
    spec fn text_view(&self) -> Seq<char>;

    /// `Some(true)` / `Some(false)` for a recognised answer, `None` otherwise.
    fn is_truthy(&self) -> (r: Option<bool>)
        ensures
            r == truthy_value(self.text_view()),
    ;

    /// The answer, or `default_value` where the text is indeterminate.
    fn smart_cast_bool(&self, default_value: bool) -> (r: bool)
        ensures
            r == match truthy_value(self.text_view()) {
                Some(b) => b,
                None => default_value,
            },
    ;
}

impl IsTruthy for str {
    open spec fn text_view(&self) -> Seq<char> {
        self@
    }

    fn is_truthy(&self) -> (r: Option<bool>) {
        let lowered = lower_text(trim_text(self));
        let t = lowered.as_str();
        let false_set = vec!["0", "-1", "false", "no", "not", "none", "n", "f", ""];
        let true_set = vec!["1", "2", "ok", "okay", "y", "yes", "true", "t"];
        proof {
            assert(false_set@.map_values(|w: &str| w@) =~= false_words());
            assert(true_set@.map_values(|w: &str| w@) =~= true_words());
        }
        if one_of(t, &false_set) {
            Some(false)
        } else if one_of(t, &true_set) {
            Some(true)
        } else if is_numeric_text(t) {
            numeral_sign(t)
        } else if starts_with_alnum_ci(t, "tru") {
            Some(true)
        } else if starts_with_alnum_ci(t, "fals") {
            Some(false)
        } else {
            None
        }
    }

    fn smart_cast_bool(&self, default_value: bool) -> (r: bool) {
        match self.is_truthy() {
            Some(b) => b,
            None => default_value,
        }
    }
}

} // verus!
