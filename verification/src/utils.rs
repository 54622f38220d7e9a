//! Helpers on strings and URLs.

use vstd::prelude::*;
use vstd::string::StrSliceExecFns;

use crate::updater::Timestamp;

verus! {

/// The scheme prefix by which an absolute URL is recognised.
pub const ABSOLUTE_PREFIX: &'static str = "http";

/// The error of a URL that cannot be resolved.
#[derive(Debug, Clone, Copy, PartialEq, Eq, Structural)]
pub struct InvalidUrl;

impl InvalidUrl {
    /// The reason, for a person to read.
    pub fn message(&self) -> (text: String)
        ensures
            text@ == "Invalid URL"@,
    {
        "Invalid URL".to_owned()
    }
}

/// Tells whether `text` begins with `prefix`.
pub fn starts_with(text: &str, prefix: &str) -> (yes: bool)
    ensures
        yes == prefix@.is_prefix_of(text@),
{
    let n: usize = prefix.unicode_len();
    let m: usize = text.unicode_len();
    if m < n {
        return false;
    }
    let mut i: usize = 0;
    while i < n
        invariant
            i <= n,
            n == prefix@.len(),
            m == text@.len(),
            n <= m,
            forall|j: int| 0 <= j < i ==> text@[j] == prefix@[j],
        decreases n - i,
    {
        if text.get_char(i) != prefix.get_char(i) {
            assert(text@.subrange(0, n as int)[i as int] != prefix@[i as int]);
            return false;
        }
        i += 1;
    }
    assert(text@.subrange(0, n as int) =~= prefix@);
    true
}

/// Tells whether two strings hold the same text.
pub fn same_text(a: &str, b: &str) -> (yes: bool)
    ensures
        yes == (a@ == b@),
{
    if a.unicode_len() != b.unicode_len() {
        return false;
    }
    let yes = starts_with(a, b);
    assert(a@.subrange(0, a@.len() as int) =~= a@);
    yes
}

/// Tells whether `pattern` occurs at the position `at` of `text`.
pub open spec fn occurs_at(text: Seq<char>, pattern: Seq<char>, at: int) -> bool {
    0 <= at && at + pattern.len() <= text.len() && text.subrange(at, at + pattern.len())
        == pattern
}

/// Tells whether `pattern` occurs in `text`.
pub open spec fn occurs_in(text: Seq<char>, pattern: Seq<char>) -> bool {
    exists|at: int| #[trigger] occurs_at(text, pattern, at)
}

/// The characters of a text.
pub fn characters(text: &str) -> (chars: Vec<char>)
    ensures
        chars@ == text@,
{
    let n: usize = text.unicode_len();
    let mut chars: Vec<char> = Vec::new();
    let mut i: usize = 0;
    while i < n
        invariant
            i <= n,
            n == text@.len(),
            chars@ == text@.take(i as int),
        decreases n - i,
    {
        chars.push(text.get_char(i));
        assert(chars@ =~= text@.take(i as int + 1));
        i += 1;
    }
    assert(text@.take(n as int) =~= text@);
    chars
}

/// Tells whether `pattern` occurs at the position `at` of `text`.
fn matches_at(text: &Vec<char>, pattern: &Vec<char>, at: usize) -> (yes: bool)
    requires
        at + pattern.len() <= text.len(),
    ensures
        yes == occurs_at(text@, pattern@, at as int),
{
    let mut k: usize = 0;
    while k < pattern.len()
        invariant
            k <= pattern.len(),
            at + pattern.len() <= text.len(),
            forall|j: int| 0 <= j < k ==> text@[at + j] == pattern@[j],
        decreases pattern.len() - k,
    {
        if text[at + k] != pattern[k] {
            assert(text@.subrange(at as int, at + pattern.len())[k as int] != pattern@[k as int]);
            return false;
        }
        k += 1;
    }
    assert(text@.subrange(at as int, at + pattern.len()) =~= pattern@);
    true
}

/// Tells whether `pattern` occurs in `text`.
pub fn contains_text(text: &str, pattern: &str) -> (yes: bool)
    ensures
        yes == occurs_in(text@, pattern@),
{
    let chars = characters(text);
    let wanted = characters(pattern);
    if wanted.len() == 0 {
        assert(text@.subrange(0, 0) =~= pattern@);
        assert(occurs_at(text@, pattern@, 0));
        return true;
    }
    if wanted.len() > chars.len() {
        assert forall|at: int| !#[trigger] occurs_at(text@, pattern@, at) by {}
        return false;
    }
    let positions: usize = chars.len() - wanted.len() + 1;
    let mut at: usize = 0;
    while at < positions
        invariant
            at <= positions,
            positions == chars.len() - wanted.len() + 1,
            0 < wanted.len() <= chars.len(),
            chars@ == text@,
            wanted@ == pattern@,
            forall|k: int| 0 <= k < at ==> !#[trigger] occurs_at(text@, pattern@, k),
        decreases positions - at,
    {
        if matches_at(&chars, &wanted, at) {
            return true;
        }
        at += 1;
    }
    assert forall|k: int| !#[trigger] occurs_at(text@, pattern@, k) by {}
    false
}

/// Reads the clock: `chrono::Utc::now`, as microseconds since the epoch
/// (`DateTime::timestamp_micros`). Nothing is claimed of the instant.
#[verifier::external_body]
pub(crate) fn now() -> Timestamp {
    chrono::Utc::now().timestamp_micros()
}

/// The serialisation of the URL that `reference` denotes relative to `base`,
/// or `None` where `base` is no absolute URL or the reference cannot be
/// resolved against it.
pub uninterp spec fn url_join(base: Seq<char>, reference: Seq<char>) -> Option<Seq<char>>;

/// Calls `reqwest::Url::parse` on `base` and `Url::join` on what it gives,
/// and serialises the URL that comes out. The contract names that result
/// and claims nothing more of it than that it depends on the two strings
/// alone.
#[verifier::external_body]
fn join_url(base: &str, reference: &str) -> (joined: Option<String>)
    ensures
        joined.deep_view() == url_join(base@, reference@),
{
    match reqwest::Url::parse(base) {
        Ok(parsed) => match parsed.join(reference) {
            Ok(joined) => Some(joined.to_string()),
            Err(_) => None,
        },
        Err(_) => None,
    }
}

/// What `make_url_absolute` returns for `url` and `base`.
pub open spec fn absolute_url(url: Seq<char>, base: Seq<char>) -> Result<Seq<char>, InvalidUrl> {
    if ABSOLUTE_PREFIX@.is_prefix_of(url) {
        Ok(url)
    } else {
        match url_join(base, url) {
            Some(joined) => Ok(joined),
            None => Err(InvalidUrl),
        }
    }
}

/// Chooses between a URL and its resolution, given what joining it to the
/// base gave.
pub fn absolute_or_joined(url: &str, joined: Option<String>) -> (r: Result<String, InvalidUrl>)
    ensures
        ABSOLUTE_PREFIX@.is_prefix_of(url@) ==> r is Ok && r->Ok_0@ == url@,
        !ABSOLUTE_PREFIX@.is_prefix_of(url@) ==> match joined {
            Some(j) => r is Ok && r->Ok_0@ == j@,
            None => r == Err::<String, InvalidUrl>(InvalidUrl),
        },
{
    if starts_with(url, ABSOLUTE_PREFIX) {
        Ok(url.to_owned())
    } else {
        match joined {
            Some(j) => Ok(j),
            None => Err(InvalidUrl),
        }
    }
}

/// Ensures that `url` is absolute: one that begins with `http` is kept as it
/// is, any other is joined to `base`.
pub fn make_url_absolute(url: &str, base: &str) -> (r: Result<String, InvalidUrl>)
    ensures
        match absolute_url(url@, base@) {
            Ok(s) => r is Ok && r->Ok_0@ == s,
            Err(e) => r == Err::<String, InvalidUrl>(e),
        },
{
    let joined = if starts_with(url, ABSOLUTE_PREFIX) {
        None
    } else {
        join_url(base, url)
    };
    absolute_or_joined(url, joined)
}

} // verus!
