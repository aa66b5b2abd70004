//! Splitting text on separators, and pulling numerals out of free text.
use vstd::prelude::*;
use crate::truthy::{has_digit, is_digit};

verus! {

/// What `str::split` yields for a string separator, each piece as text.
pub uninterp spec fn split_of(s: Seq<char>, separator: Seq<char>) -> Seq<Seq<char>>;

/// What `char::is_alphanumeric` answers.
pub uninterp spec fn alnum_char(c: char) -> bool;

/// What `char::is_alphabetic` answers.
pub uninterp spec fn alpha_char(c: char) -> bool;

/// Relies on `str::split` with a string separator.
#[verifier::external_body]
pub(crate) fn split_pieces(s: &str, separator: &str) -> (r: Vec<String>)
    ensures
        r@.map_values(|x: String| x@) == split_of(s@, separator@),
{
    s.split(separator).map(|p| p.to_string()).collect()
}

/// Relies on `char::is_alphanumeric`.
#[verifier::external_body]
fn is_alnum(c: char) -> (r: bool)
    ensures
        r == alnum_char(c),
{
    c.is_alphanumeric()
}

/// Relies on `char::is_alphabetic`.
#[verifier::external_body]
fn is_alpha(c: char) -> (r: bool)
    ensures
        r == alpha_char(c),
{
    c.is_alphabetic()
}

/// Relies on collecting characters into a `String`: the same characters in order.
#[verifier::external_body]
fn string_of_chars(v: &Vec<char>) -> (r: String)
    ensures
        r@ == v@,
{
    v.iter().collect()
}

/// The characters of a text.
fn chars_of(s: &str) -> (r: Vec<char>)
    ensures
        r@ == s@,
{
    let n = s.unicode_len();
    let mut out: Vec<char> = Vec::new();
    let mut i: usize = 0;
    while i < n
        invariant
            n == s@.len(),
            0 <= i <= n,
            out@ == s@.subrange(0, i as int),
        decreases n - i,
    {
        out.push(s.get_char(i));
        proof {
            assert(out@ =~= s@.subrange(0, i + 1));
        }
        i = i + 1;
    }
    assert(out@ =~= s@);
    out
}

/// The parts joined again, with the separator between each two.
pub open spec fn join_with(parts: Seq<Seq<char>>, separator: Seq<char>) -> Seq<char>
    decreases parts.len(),
{
    if parts.len() == 0 {
        Seq::empty()
    } else if parts.len() == 1 {
        parts[0]
    } else {
        join_with(parts.drop_last(), separator) + separator + parts.last()
    }
}

pub(crate) fn join_parts(parts: &Vec<String>, from: usize, to: usize, separator: &str) -> (r: String)
    requires
        from <= to <= parts@.len(),
    ensures
        r@ == join_with(parts@.map_values(|x: String| x@).subrange(from as int, to as int), separator@),
{
    let ghost pv = parts@.map_values(|x: String| x@);
    let mut out = String::new();
    let mut k: usize = from;
    proof {
        assert(pv.subrange(from as int, from as int) =~= Seq::<Seq<char>>::empty());
    }
    while k < to
        invariant
            from <= k <= to <= parts@.len(),
            pv == parts@.map_values(|x: String| x@),
            out@ == join_with(pv.subrange(from as int, k as int), separator@),
        decreases to - k,
    {
        if k > from {
            out.append(separator);
        }
        out.append(parts[k].as_str());
        proof {
            let sub = pv.subrange(from as int, k + 1);
            assert(sub.drop_last() =~= pv.subrange(from as int, k as int));
            assert(sub.last() == parts@[k as int]@);
            if k == from {
                assert(sub.len() == 1);
            }
        }
        k = k + 1;
    }
    out
}

/// Where a signed index points among `n` parts: from the front when it is
/// not negative, from the back when it is.
pub open spec fn target_index(n: int, index: i32) -> int {
    if index >= 0 { index as int } else { n + index }
}

pub open spec fn segment_at(s: Seq<char>, separator: Seq<char>, index: i32) -> Option<Seq<char>> {
    let parts = split_of(s, separator);
    let t = target_index(parts.len() as int, index);
    if 0 <= t < parts.len() { Some(parts[t]) } else { None }
}

/// The segment found by applying each (separator, index) in turn to what the
/// previous one found, while that is not empty.
pub open spec fn inner_scan(s: Seq<char>, groups: Seq<(Seq<char>, i32)>) -> (Option<Seq<char>>, Seq<char>)
    decreases groups.len(),
{
    if groups.len() == 0 {
        (None, s)
    } else {
        let prev = inner_scan(s, groups.drop_last());
        let g = groups.last();
        if prev.1.len() > 0 {
            let m = segment_at(prev.1, g.0, g.1);
            (m, match m { Some(x) => x, None => Seq::empty() })
        } else {
            prev
        }
    }
}

pub open spec fn group_view(g: (&str, i32)) -> (Seq<char>, i32) {
    (g.0@, g.1)
}

/// Ways of writing the decimal point and digit grouping in numerals.
#[derive(Debug, Clone, Copy, PartialEq, Eq, Structural)]
pub enum NumericSeparatorSet {
    Point,
    CommaPoint,
    Comma,
    PointComma,
    CommaSpacePoint,
    PointSpaceComma,
}

pub open spec fn decimal_chars(s: NumericSeparatorSet) -> Seq<char> {
    match s {
        NumericSeparatorSet::Comma | NumericSeparatorSet::PointComma | NumericSeparatorSet::PointSpaceComma => seq![','],
        _ => seq!['.', '‧'],
    }
}

pub open spec fn group_chars(s: NumericSeparatorSet) -> Seq<char> {
    match s {
        NumericSeparatorSet::PointComma => seq!['.', '‧'],
        NumericSeparatorSet::CommaSpacePoint => seq![',', ' ', '_'],
        NumericSeparatorSet::PointSpaceComma => seq!['.', '‧', '_'],
        NumericSeparatorSet::CommaPoint => seq![','],
        _ => Seq::empty(),
    }
}

impl NumericSeparatorSet {
    pub fn decimal(&self) -> (r: Vec<char>)
        ensures
            r@ == decimal_chars(*self),
    {
        let r = match *self {
            NumericSeparatorSet::Comma | NumericSeparatorSet::PointComma | NumericSeparatorSet::PointSpaceComma => vec![','],
            _ => vec!['.', '‧'],
        };
        assert(r@ =~= decimal_chars(*self));
        r
    }

    pub fn group(&self) -> (r: Vec<char>)
        ensures
            r@ == group_chars(*self),
    {
        let r = match *self {
            NumericSeparatorSet::PointComma => vec!['.', '‧'],
            NumericSeparatorSet::CommaSpacePoint => vec![',', ' ', '_'],
            NumericSeparatorSet::PointSpaceComma => vec!['.', '‧', '_'],
            NumericSeparatorSet::CommaPoint => vec![','],
            _ => Vec::new(),
        };
        assert(r@ =~= group_chars(*self));
        r
    }

    /// The group separators and the decimal separators.
    pub fn char_set(&self) -> (r: (Vec<char>, Vec<char>))
        ensures
            r.0@ == group_chars(*self),
            r.1@ == decimal_chars(*self),
    {
        (self.group(), self.decimal())
    }
}

/// A numeral as kept: a trailing point dropped, a leading point given a zero.
pub open spec fn finish_segment(cur: Seq<char>) -> Seq<char> {
    let a = if cur.len() > 0 && cur.last() == '.' { cur.drop_last() } else { cur };
    if a.len() > 0 && a[0] == '.' { seq!['0'] + a } else { a }
}

/// The numerals found so far, the numeral being read, the last character.
pub type NumScan = (Seq<Seq<char>>, Seq<char>, char);

pub open spec fn scan_step(st: NumScan, c: char, group: Seq<char>, dec: Seq<char>) -> NumScan {
    if is_digit(c) {
        let lead = if st.1.len() == 0 && st.2 == '.' { seq!['0', '.'] } else { Seq::empty() };
        (st.0, st.1 + lead + seq![c], c)
    } else if dec.contains(c) {
        (st.0, st.1.push('.'), c)
    } else if group.len() == 0 || !group.contains(c) {
        (if has_digit(st.1) { st.0.push(finish_segment(st.1)) } else { st.0 }, Seq::empty(), c)
    } else {
        (st.0, st.1, c)
    }
}

pub open spec fn scan_upto(s: Seq<char>, n: int, group: Seq<char>, dec: Seq<char>) -> NumScan
    decreases n,
{
    if n <= 0 || n > s.len() {
        (Seq::empty(), Seq::empty(), ' ')
    } else {
        scan_step(scan_upto(s, n - 1, group, dec), s[n - 1], group, dec)
    }
}

/// The numerals of a text, decimal separators written as points and group
/// separators left out.
pub open spec fn numeric_segments(s: Seq<char>, group: Seq<char>, dec: Seq<char>) -> Seq<Seq<char>> {
    let st = scan_upto(s, s.len() as int, group, dec);
    if has_digit(st.1) { st.0.push(finish_segment(st.1)) } else { st.0 }
}

pub open spec fn alnum_only(s: Seq<char>) -> Seq<char>
    decreases s.len(),
{
    if s.len() == 0 {
        Seq::empty()
    } else if alnum_char(s.last()) {
        alnum_only(s.drop_last()).push(s.last())
    } else {
        alnum_only(s.drop_last())
    }
}

/// A plain letter, or letters, for an accented one; `None` for any other character.
pub open spec fn ascii_fold(c: char) -> Option<Seq<char>> {
    if c == 'å' || c == 'á' || c == 'à' || c == 'ä' || c == 'ã' || c == 'â' {
        Some("a"@)
    } else if c == 'é' || c == 'è' || c == 'ë' || c == 'ê' {
        Some("e"@)
    } else if c == 'í' || c == 'ì' || c == 'ï' || c == 'î' {
        Some("i"@)
    } else if c == 'ó' || c == 'ò' || c == 'ö' || c == 'ô' || c == 'õ' {
        Some("o"@)
    } else if c == 'ú' || c == 'ù' || c == 'ü' {
        Some("u"@)
    } else if c == 'ñ' {
        Some("n"@)
    } else if c == 'ß' {
        Some("ss"@)
    } else if c == '∂' {
        Some("d"@)
    } else if c == 'ϴ' {
        Some("th"@)
    } else {
        None
    }
}

pub fn replace_non_ascii_letter(c: char) -> (r: Option<&'static str>)
    ensures
        r matches Some(x) ==> ascii_fold(c) == Some(x@),
        r is None ==> ascii_fold(c) is None,
{
    match c {
        'å' | 'á' | 'à' | 'ä' | 'ã' | 'â' => Some("a"),
        'é' | 'è' | 'ë' | 'ê' => Some("e"),
        'í' | 'ì' | 'ï' | 'î' => Some("i"),
        'ó' | 'ò' | 'ö' | 'ô' | 'õ' => Some("o"),
        'ú' | 'ù' | 'ü' => Some("u"),
        'ñ' => Some("n"),
        'ß' => Some("ss"),
        '∂' => Some("d"),
        'ϴ' => Some("th"),
        _ => None,
    }
}

fn contains_char(v: &Vec<char>, c: char) -> (r: bool)
    ensures
        r == v@.contains(c),
{
    let mut k: usize = 0;
    while k < v.len()
        invariant
            0 <= k <= v@.len(),
            forall|j: int| 0 <= j < k ==> v@[j] != c,
        decreases v@.len() - k,
    {
        if v[k] == c {
            assert(v@[k as int] == c);
            return true;
        }
        k = k + 1;
    }
    false
}

fn chars_have_digit(v: &Vec<char>) -> (r: bool)
    ensures
        r == has_digit(v@),
{
    let mut k: usize = 0;
    while k < v.len()
        invariant
            0 <= k <= v@.len(),
            forall|j: int| 0 <= j < k ==> !is_digit(#[trigger] v@[j]),
        decreases v@.len() - k,
    {
        if '0' <= v[k] && v[k] <= '9' {
            assert(is_digit(v@[k as int]));
            return true;
        }
        k = k + 1;
    }
    false
}

fn finish_chars(cur: &Vec<char>) -> (r: String)
    ensures
        r@ == finish_segment(cur@),
{
    let mut a: Vec<char> = Vec::new();
    let n = cur.len();
    let end = if n > 0 && cur[n - 1] == '.' { n - 1 } else { n };
    if end > 0 && cur[0] == '.' {
        a.push('0');
    }
    let ghost lead = a@;
    let mut k: usize = 0;
    while k < end
        invariant
            end <= n == cur@.len(),
            0 <= k <= end,
            a@ == lead + cur@.subrange(0, k as int),
        decreases end - k,
    {
        a.push(cur[k]);
        proof {
            assert(a@ =~= lead + cur@.subrange(0, k + 1));
        }
        k = k + 1;
    }
    proof {
        let b = if n > 0 && cur@.last() == '.' { cur@.drop_last() } else { cur@ };
        assert(cur@.subrange(0, end as int) =~= b);
        if end > 0 && cur@[0] == '.' {
            assert(a@ =~= seq!['0'] + b);
        } else {
            assert(a@ =~= b);
        }
    }
    string_of_chars(&a)
}

/// Text that can be split on separators and searched for numerals.
pub trait ExtractSegments: Sized {
    spec fn text(&self) -> Seq<char>;

    fn extract_segments(&self, separator: &str) -> (r: Vec<Self>)
        ensures
            r@.len() == split_of(self.text(), separator@).len(),
            forall|k: int| 0 <= k < r@.len() ==> (#[trigger] r@[k]).text() == split_of(self.text(), separator@)[k],
    ;

    /// The part before the first separator; the whole text without one.
    fn extract_head(&self, separator: &str) -> (r: Self)
        ensures
            r.text() == if split_of(self.text(), separator@).len() > 1 {
                split_of(self.text(), separator@)[0]
            } else {
                self.text()
            },
    ;

    /// The segment at a signed index, counted from the back when negative.
    fn extract_segment(&self, separator: &str, index: i32) -> (r: Option<Self>)
        ensures
            r matches Some(x) ==> segment_at(self.text(), separator@, index) == Some(x.text()),
            r is None ==> segment_at(self.text(), separator@, index) is None,
    ;

    /// The segment reached by applying each (separator, index) in turn.
    fn extract_inner_segment(&self, groups: &[(&str, i32)]) -> (r: Option<Self>)
        ensures
            groups@.len() == 0 ==> r is None,
            groups@.len() > 0 ==> {
                let m = inner_scan(self.text(), groups@.map_values(|g: (&str, i32)| group_view(g))).0;
                &&& r is Some <==> m is Some
                &&& r matches Some(x) ==> m == Some(x.text())
            },
    ;

    /// The part after the last separator; the whole text without parts.
    fn extract_tail(&self, separator: &str) -> (r: Self)
        ensures
            r.text() == if split_of(self.text(), separator@).len() > 0 {
                split_of(self.text(), separator@).last()
            } else {
                self.text()
            },
    ;

    /// The parts before and after the first separator; without one, an
    /// empty head and the whole text.
    fn extract_head_pair(&self, separator: &str) -> (r: (Self, Self))
        ensures
            ({
                let parts = split_of(self.text(), separator@);
                if parts.len() > 1 {
                    r.0.text() == parts[0] && r.1.text() == join_with(parts.subrange(1, parts.len() as int), separator@)
                } else {
                    r.0.text() == Seq::<char>::empty() && r.1.text() == self.text()
                }
            }),
    ;

    /// The last part, and the parts before it joined again.
    fn extract_tail_pair(&self, separator: &str) -> (r: (Self, Self))
        ensures
            ({
                let parts = split_of(self.text(), separator@);
                if parts.len() > 0 {
                    r.0.text() == parts.last() && r.1.text() == join_with(parts.drop_last(), separator@)
                } else {
                    r.0.text() == self.text() && r.1.text() == Seq::<char>::empty()
                }
            }),
    ;

    /// The numerals of the text, read with the given separators.
    fn extract_numeric_segments(&self, separators: NumericSeparatorSet) -> (r: Vec<Self>)
        ensures
            r@.len() == numeric_segments(self.text(), group_chars(separators), decimal_chars(separators)).len(),
            forall|k: int| 0 <= k < r@.len() ==> (#[trigger] r@[k]).text() == numeric_segments(self.text(), group_chars(separators), decimal_chars(separators))[k],
    ;
}

impl ExtractSegments for String {
    open spec fn text(&self) -> Seq<char> {
        self@
    }

    fn extract_segments(&self, separator: &str) -> (r: Vec<String>) {
        let r = split_pieces(self.as_str(), separator);
        proof {
            assert forall|k: int| 0 <= k < r@.len() implies (#[trigger] r@[k])@ == split_of(self@, separator@)[k] by {
                assert(r@.map_values(|x: String| x@)[k] == r@[k]@);
            }
        }
        r
    }

    fn extract_head(&self, separator: &str) -> (r: String) {
        let parts = self.extract_segments(separator);
        if parts.len() > 1 {
            parts[0].clone()
        } else {
            self.clone()
        }
    }

    fn extract_segment(&self, separator: &str, index: i32) -> (r: Option<String>) {
        let parts = self.extract_segments(separator);
        let n = parts.len();
        let t: i128 = if index >= 0 { index as i128 } else { n as i128 + index as i128 };
        if 0 <= t && t < n as i128 {
            Some(parts[t as usize].clone())
        } else {
            None
        }
    }

    fn extract_inner_segment(&self, groups: &[(&str, i32)]) -> (r: Option<String>) {
        if groups.len() == 0 {
            return None;
        }
        let ghost gv = groups@.map_values(|g: (&str, i32)| group_view(g));
        let mut matched: Option<String> = None;
        let mut current: String = self.clone();
        let mut k: usize = 0;
        proof {
            assert(gv.subrange(0, 0) =~= Seq::<(Seq<char>, i32)>::empty());
        }
        while k < groups.len()
            invariant
                0 <= k <= groups@.len(),
                gv == groups@.map_values(|g: (&str, i32)| group_view(g)),
                current@ == inner_scan(self@, gv.subrange(0, k as int)).1,
                match matched {
                    Some(x) => inner_scan(self@, gv.subrange(0, k as int)).0 == Some(x@),
                    None => inner_scan(self@, gv.subrange(0, k as int)).0 is None,
                },
            decreases groups@.len() - k,
        {
            let (separator, index) = groups[k];
            proof {
                let sub = gv.subrange(0, k + 1);
                assert(sub.drop_last() =~= gv.subrange(0, k as int));
                assert(sub.last() == (separator@, index));
            }
            if !current.as_str().is_empty() {
                matched = current.extract_segment(separator, index);
                current = match &matched {
                    Some(x) => x.clone(),
                    None => String::new(),
                };
            }
            k = k + 1;
        }
        proof {
            assert(gv.subrange(0, groups@.len() as int) =~= gv);
        }
        matched
    }

    fn extract_tail(&self, separator: &str) -> (r: String) {
        let parts = self.extract_segments(separator);
        let n = parts.len();
        if n > 0 {
            parts[n - 1].clone()
        } else {
            self.clone()
        }
    }

    fn extract_head_pair(&self, separator: &str) -> (r: (String, String)) {
        let parts = self.extract_segments(separator);
        let n = parts.len();
        proof {
            assert(parts@.map_values(|x: String| x@) =~= split_of(self@, separator@));
        }
        if n > 1 {
            (parts[0].clone(), join_parts(&parts, 1, n, separator))
        } else {
            (String::new(), self.clone())
        }
    }

    fn extract_tail_pair(&self, separator: &str) -> (r: (String, String)) {
        let parts = self.extract_segments(separator);
        let n = parts.len();
        proof {
            assert(parts@.map_values(|x: String| x@) =~= split_of(self@, separator@));
        }
        if n > 0 {
            let tail = parts[n - 1].clone();
            let head = if n > 1 { join_parts(&parts, 0, n - 1, separator) } else { String::new() };
            proof {
                let pv = split_of(self@, separator@);
                assert(pv.subrange(0, n - 1) =~= pv.drop_last());
                if n == 1 {
                    assert(pv.drop_last() =~= Seq::<Seq<char>>::empty());
                }
            }
            (tail, head)
        } else {
            (self.clone(), String::new())
        }
    }

    fn extract_numeric_segments(&self, separators: NumericSeparatorSet) -> (r: Vec<String>) {
        let (group, decimal) = separators.char_set();
        let has_group = group.len() > 0;
        let s = chars_of(self.as_str());
        let ghost gs = group_chars(separators);
        let ghost ds = decimal_chars(separators);
        let mut segments: Vec<String> = Vec::new();
        let mut current: Vec<char> = Vec::new();
        let mut prev: char = ' ';
        let mut k: usize = 0;
        while k < s.len()
            invariant
                s@ == self@,
                group@ == gs,
                decimal@ == ds,
                has_group == (gs.len() > 0),
                0 <= k <= s@.len(),
                segments@.map_values(|x: String| x@) == scan_upto(s@, k as int, gs, ds).0,
                current@ == scan_upto(s@, k as int, gs, ds).1,
                prev == scan_upto(s@, k as int, gs, ds).2,
            decreases s@.len() - k,
        {
            let c = s[k];
            if '0' <= c && c <= '9' {
                if current.len() == 0 && prev == '.' {
                    current.push('0');
                    current.push('.');
                }
                current.push(c);
            } else if contains_char(&decimal, c) {
                current.push('.');
            } else if !has_group || !contains_char(&group, c) {
                if chars_have_digit(&current) {
                    let ghost before = segments@;
                    let seg = finish_chars(&current);
                    let ghost sv = seg@;
                    segments.push(seg);
                    proof {
                        assert(segments@.map_values(|x: String| x@) =~= before.map_values(|x: String| x@).push(sv));
                    }
                }
                current = Vec::new();
            }
            proof {
                let st = scan_upto(s@, k as int, gs, ds);
                assert(scan_upto(s@, k + 1, gs, ds) == scan_step(st, c, gs, ds));
                if is_digit(c) {
                    let lead = if st.1.len() == 0 && st.2 == '.' { seq!['0', '.'] } else { Seq::empty() };
                    assert(current@ =~= st.1 + lead + seq![c]);
                }
            }
            prev = c;
            k = k + 1;
        }
        if chars_have_digit(&current) {
            let ghost before = segments@;
            let seg = finish_chars(&current);
            let ghost sv = seg@;
            segments.push(seg);
            proof {
                assert(segments@.map_values(|x: String| x@) =~= before.map_values(|x: String| x@).push(sv));
            }
        }
        proof {
            let expect = numeric_segments(self@, gs, ds);
            assert(segments@.map_values(|x: String| x@) == expect);
            assert forall|j: int| 0 <= j < segments@.len() implies (#[trigger] segments@[j])@ == expect[j] by {
                assert(segments@.map_values(|x: String| x@)[j] == segments@[j]@);
            }
        }
        segments
    }
}

/// Character classes present in a text.
pub trait CharGroupMatch {
    spec fn chars(&self) -> Seq<char>;

    fn has_digits(&self) -> (r: bool)
        ensures
            r == has_digit(self.chars()),
    ;

    fn has_alphanumeric(&self) -> (r: bool)
        ensures
            r == exists|i: int| 0 <= i < self.chars().len() && alnum_char(#[trigger] self.chars()[i]),
    ;

    fn has_alphabetic(&self) -> (r: bool)
        ensures
            r == exists|i: int| 0 <= i < self.chars().len() && alpha_char(#[trigger] self.chars()[i]),
    ;
}

impl CharGroupMatch for String {
    open spec fn chars(&self) -> Seq<char> {
        self@
    }

    fn has_digits(&self) -> (r: bool) {
        chars_have_digit(&chars_of(self.as_str()))
    }

    fn has_alphanumeric(&self) -> (r: bool) {
        let s = chars_of(self.as_str());
        let mut k: usize = 0;
        while k < s.len()
            invariant
                s@ == self@,
                0 <= k <= s@.len(),
                forall|j: int| 0 <= j < k ==> !alnum_char(#[trigger] s@[j]),
            decreases s@.len() - k,
        {
            if is_alnum(s[k]) {
                assert(alnum_char(self.chars()[k as int]));
                return true;
            }
            k = k + 1;
        }
        false
    }

    fn has_alphabetic(&self) -> (r: bool) {
        let s = chars_of(self.as_str());
        let mut k: usize = 0;
        while k < s.len()
            invariant
                s@ == self@,
                0 <= k <= s@.len(),
                forall|j: int| 0 <= j < k ==> !alpha_char(#[trigger] s@[j]),
            decreases s@.len() - k,
        {
            if is_alpha(s[k]) {
                assert(alpha_char(self.chars()[k as int]));
                return true;
            }
            k = k + 1;
        }
        false
    }
}

/// The letters and digits of a text, in order.
pub fn strip_non_chars(text: &str) -> (r: String)
    ensures
        r@ == alnum_only(text@),
{
    let s = chars_of(text);
    let mut kept: Vec<char> = Vec::new();
    let mut k: usize = 0;
    while k < s.len()
        invariant
            s@ == text@,
            0 <= k <= s@.len(),
            kept@ == alnum_only(s@.subrange(0, k as int)),
        decreases s@.len() - k,
    {
        let c = s[k];
        proof {
            let sub = s@.subrange(0, k + 1);
            assert(sub.drop_last() =~= s@.subrange(0, k as int));
            assert(sub.last() == c);
        }
        if is_alnum(c) {
            kept.push(c);
        }
        k = k + 1;
    }
    proof {
        assert(s@.subrange(0, s@.len() as int) =~= s@);
    }
    string_of_chars(&kept)
}

} // verus!
