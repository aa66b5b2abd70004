//! Cached page records and the freshness rules that decide whether a stored
//! record may stand in for a new fetch.
use vstd::prelude::*;
use crate::text::{trim_text, trimmed};

verus! {

/// Default freshness window, in minutes.
pub const MAX_PAGE_AGE_MINS_DEFAULT: i64 = 1440;

/// Window used when the caller asks to skip the cache: a near miss rather
/// than a bypass of the store.
pub const SKIP_CACHE_AGE_MINS: i64 = 1;

/// What `base64::engine::general_purpose::URL_SAFE_NO_PAD.encode` returns for
/// the text's bytes.
pub uninterp spec fn base64_url_of(s: Seq<char>) -> Seq<char>;

/// A character of the URL-safe base64 alphabet.
pub open spec fn url_safe_char(c: char) -> bool {
    ('A' <= c && c <= 'Z') || ('a' <= c && c <= 'z') || ('0' <= c && c <= '9') || c == '-' || c == '_'
}

/// The value of a run of decimal digits.
pub open spec fn digits_value(s: Seq<char>) -> nat
    decreases s.len(),
{
    if s.len() == 0 {
        0
    } else {
        digits_value(s.drop_last()) * 10 + ((s.last() as u32 - '0' as u32) as nat)
    }
}

/// What `str::parse::<u16>` returns: an optional `+`, then one or more
/// decimal digits whose value is at most 65535.
pub open spec fn u16_parsed(s: Seq<char>) -> Option<u16> {
    let d = if s.len() > 0 && s[0] == '+' { s.drop_first() } else { s };
    if d.len() > 0 && (forall|i: int| 0 <= i < d.len() ==> '0' <= #[trigger] d[i] && d[i] <= '9')
        && digits_value(d) <= 65535 {
        Some(digits_value(d) as u16)
    } else {
        None
    }
}

/// Relies on `chrono::Local::now` and `DateTime::timestamp`: the current time
/// in seconds since the epoch. Nothing is promised of the value.
#[verifier::external_body]
pub fn get_timestamp() -> (r: i64) {
    chrono::Local::now().timestamp()
}

/// Relies on base64's `URL_SAFE_NO_PAD` engine: the store key of an address,
/// an unpadded, reversible encoding of its bytes in the URL-safe alphabet.
#[verifier::external_body]
pub fn to_page_key(uri: &str) -> (r: String)
    ensures
        r@ == base64_url_of(uri@),
        forall|i: int| 0 <= i < r@.len() ==> url_safe_char(#[trigger] r@[i]),
{
    base64::Engine::encode(&base64::engine::general_purpose::URL_SAFE_NO_PAD, uri)
}

/// Relies on `str::parse::<u16>`.
#[verifier::external_body]
fn parse_u16(s: &str) -> (r: Option<u16>)
    ensures
        r == u16_parsed(s@),
{
    s.parse::<u16>().ok()
}

/// `x` held to the range of `i64`.
pub open spec fn clamp_i64(x: int) -> i64 {
    if x > i64::MAX {
        i64::MAX
    } else if x < i64::MIN {
        i64::MIN
    } else {
        x as i64
    }
}

/// Seconds from `ts` to `now`, held to the range of `i64`.
pub open spec fn elapsed(now: i64, ts: i64) -> i64 {
    clamp_i64(now - ts)
}

/// A window of `minutes`, in seconds, held to the range of `i64`.
pub open spec fn window_seconds(minutes: i64) -> i64 {
    clamp_i64(minutes * 60)
}

/// One page as stored: its address, its raw markup, when it was fetched,
/// whether this copy came from the store, and whether it was rendered by a
/// headless browser.
#[derive(Debug, Clone)]
pub struct FlatPage {
    pub uri: String,
    pub content: String,
    pub ts: i64,
    pub cached: bool,
    pub full_browser: bool,
}

/// The record that a write at time `ts` stores.
pub open spec fn written_record(uri: Seq<char>, content: Seq<char>, full_browser: bool, ts: i64) -> (Seq<char>, Seq<char>, i64, bool, bool) {
    (uri, content, ts, false, full_browser)
}

/// The record as values: address, markup, time, cached flag, browser flag.
pub open spec fn page_view(p: FlatPage) -> (Seq<char>, Seq<char>, i64, bool, bool) {
    (p.uri@, p.content@, p.ts, p.cached, p.full_browser)
}

/// Whether a record written at `ts` is still fresh at `now`.
pub open spec fn is_fresh(ts: i64, now: i64, max_age_minutes: i64) -> bool {
    elapsed(now, ts) < window_seconds(max_age_minutes)
}

/// What a read at `now` returns for a stored record: the record marked as
/// cached while it is fresh, a miss once it is not.
pub open spec fn read_result(rec: (Seq<char>, Seq<char>, i64, bool, bool), now: i64, max_age_minutes: i64) -> Option<(Seq<char>, Seq<char>, i64, bool, bool)> {
    if is_fresh(rec.2, now, max_age_minutes) {
        Some((rec.0, rec.1, rec.2, true, rec.4))
    } else {
        None
    }
}

/// Seconds from `ts` to `now`, saturating at the bounds of `i64`.
pub fn seconds_between(now: i64, ts: i64) -> (r: i64)
    ensures
        r == elapsed(now, ts),
{
    match now.checked_sub(ts) {
        Some(d) => d,
        None => {
            if ts > now {
                i64::MIN
            } else {
                i64::MAX
            }
        },
    }
}

/// Seconds since `ts`, by the clock.
pub fn seconds_ago(ts: i64) -> (r: i64)
    ensures
        exists|now: i64| r == elapsed(now, ts),
{
    let now = get_timestamp();
    seconds_between(now, ts)
}

/// A window of minutes in seconds, saturating at the bounds of `i64`.
pub fn minutes_to_seconds(minutes: i64) -> (r: i64)
    ensures
        r == window_seconds(minutes),
{
    match minutes.checked_mul(60) {
        Some(s) => s,
        None => {
            if minutes > 0 {
                i64::MAX
            } else {
                i64::MIN
            }
        },
    }
}

impl FlatPage {
    /// A record fetched at time `ts`.
    pub fn new_at(uri: &str, content: &str, full_browser: bool, ts: i64) -> (r: FlatPage)
        ensures
            page_view(r) == written_record(uri@, content@, full_browser, ts),
    {
        FlatPage { uri: uri.to_owned(), content: content.to_owned(), ts, cached: false, full_browser }
    }

    /// A record fetched now.
    pub fn new(uri: &str, content: &str, full_browser: bool) -> (r: FlatPage)
        ensures
            r.uri@ == uri@,
            r.content@ == content@,
            !r.cached,
            r.full_browser == full_browser,
    {
        FlatPage::new_at(uri, content, full_browser, get_timestamp())
    }

    /// The record that stands for "nothing": no address, no markup, time zero.
    pub fn empty() -> (r: FlatPage)
        ensures
            r.uri@.len() == 0,
            r.content@.len() == 0,
            r.ts == 0,
            !r.cached,
            !r.full_browser,
    {
        FlatPage { uri: String::new(), content: String::new(), ts: 0, cached: false, full_browser: false }
    }

    /// Whether the markup holds nothing but white space.
    pub fn is_empty(&self) -> (r: bool)
        ensures
            r == (trimmed(self.content@).len() == 0),
    {
        trim_text(self.content.as_str()).is_empty()
    }

    /// Seconds from the fetch to `now`.
    pub fn age_at(&self, now: i64) -> (r: i64)
        ensures
            r == elapsed(now, self.ts),
    {
        seconds_between(now, self.ts)
    }

    /// Seconds since the fetch, by the clock.
    pub fn retrieved_age(&self) -> (r: i64)
        ensures
            exists|now: i64| r == elapsed(now, self.ts),
    {
        self.age_at(get_timestamp())
    }

    /// Marks the record as read from the store.
    pub fn set_cached(&mut self)
        ensures
            final(self).cached,
            final(self).uri == old(self).uri,
            final(self).content == old(self).content,
            final(self).ts == old(self).ts,
            final(self).full_browser == old(self).full_browser,
    {
        self.cached = true;
    }
}

/// The freshness window of a read: about a minute when the caller skips the
/// cache, the configured window otherwise.
pub fn cache_window_minutes(skip_cache: bool, configured_minutes: i64) -> (r: i64)
    ensures
        r == if skip_cache { SKIP_CACHE_AGE_MINS } else { configured_minutes },
{
    if skip_cache {
        SKIP_CACHE_AGE_MINS
    } else {
        configured_minutes
    }
}

/// The configured freshness window: the setting when it reads as a `u16`,
/// the default otherwise.
pub fn get_max_page_age_minutes(setting: Option<&str>) -> (r: i64)
    ensures
        r == match setting {
            Some(s) => match u16_parsed(s@) {
                Some(m) => m as i64,
                None => MAX_PAGE_AGE_MINS_DEFAULT,
            },
            None => MAX_PAGE_AGE_MINS_DEFAULT,
        },
{
    match setting {
        Some(s) => match parse_u16(s) {
            Some(m) => m as i64,
            None => MAX_PAGE_AGE_MINS_DEFAULT,
        },
        None => MAX_PAGE_AGE_MINS_DEFAULT,
    }
}

/// A read from the store at `now`: the stored record marked as cached while
/// it is fresh, `None` once its age reaches the window. Stale records are not
/// removed; they are only passed over.
pub fn read_fresh(stored: FlatPage, now: i64, max_age_minutes: i64) -> (r: Option<FlatPage>)
    ensures
        r matches Some(p) ==> read_result(page_view(stored), now, max_age_minutes) == Some(page_view(p)),
        r is None ==> read_result(page_view(stored), now, max_age_minutes) is None,
{
    let mut page = stored;
    let age = page.age_at(now);
    if age < minutes_to_seconds(max_age_minutes) {
        page.set_cached();
        Some(page)
    } else {
        None
    }
}

/// Whether a fresh stored record may answer a request. Browser-rendered and
/// plainly fetched records are kept apart: each kind of request takes only
/// records of its own kind.
pub fn serves_request(stored: &FlatPage, wants_browser: bool) -> (r: bool)
    ensures
        r == (stored.full_browser == wants_browser),
{
    stored.full_browser == wants_browser
}

/// A record written at `written_at` and read at `read_at` within the window
/// comes back with the same address, markup and time, marked as cached; read
/// once the window has passed, it is a miss.
pub proof fn lemma_cache_round_trip(
    uri: Seq<char>,
    content: Seq<char>,
    full_browser: bool,
    written_at: i64,
    read_at: i64,
    max_age_minutes: i64,
)
    requires
        i64::MIN <= read_at - written_at <= i64::MAX,
        i64::MIN <= max_age_minutes * 60 <= i64::MAX,
    ensures
        read_at - written_at < max_age_minutes * 60 ==> read_result(
            written_record(uri, content, full_browser, written_at),
            read_at,
            max_age_minutes,
        ) == Some((uri, content, written_at, true, full_browser)),
        read_at - written_at >= max_age_minutes * 60 ==> read_result(
            written_record(uri, content, full_browser, written_at),
            read_at,
            max_age_minutes,
        ) is None,
{
}

} // verus!
