//! Identifier resolution: recognize a canonical 11-character video identifier
//! either directly or embedded in one of the recognized URL shapes.

use vstd::prelude::*;

use crate::Error;
use crate::scan::has_prefix_at;
use crate::scan::starts_with_at;

verus! {

/// The identifier alphabet: ASCII letters, digits, underscore and hyphen.
pub open spec fn is_id_char(c: char) -> bool {
    ||| 'a' <= c && c <= 'z'
    ||| 'A' <= c && c <= 'Z'
    ||| '0' <= c && c <= '9'
    ||| c == '_'
    ||| c == '-'
}

/// A canonical video identifier: exactly 11 characters, all from the alphabet.
pub open spec fn is_video_id(s: Seq<char>) -> bool {
    s.len() == 11 && (forall|i: int| 0 <= i < s.len() ==> is_id_char(s[i]))
}

/// Length of the optional scheme prefix at `i`: `https://`, `http://`, or none.
pub open spec fn scheme_len_at(s: Seq<char>, i: int) -> int {
    if has_prefix_at(s, i, "https://"@) {
        "https://"@.len() as int
    } else if has_prefix_at(s, i, "http://"@) {
        "http://"@.len() as int
    } else {
        0
    }
}

/// Length of the optional `www.` prefix at `j`.
pub open spec fn www_len_at(s: Seq<char>, j: int) -> int {
    if has_prefix_at(s, j, "www."@) {
        "www."@.len() as int
    } else {
        0
    }
}

/// If one of the two recognized host shapes stands at `k`, the index right
/// after it, where the captured identifier would begin.
pub open spec fn host_id_start(s: Seq<char>, k: int) -> Option<int> {
    if has_prefix_at(s, k, "youtube.com/watch?v="@) {
        Some(k + "youtube.com/watch?v="@.len())
    } else if has_prefix_at(s, k, "youtu.be/"@) {
        Some(k + "youtu.be/"@.len())
    } else {
        None
    }
}

/// A full URL-shaped match starting at `i`: optional scheme, optional `www.`,
/// one of the two hosts, then exactly 11 identifier characters. Returns the
/// index where those 11 characters begin. Anything after them is ignored.
pub open spec fn url_id_start_at(s: Seq<char>, i: int) -> Option<int> {
    let j = i + scheme_len_at(s, i);
    let k = j + www_len_at(s, j);
    match host_id_start(s, k) {
        Some(p) => if p + 11 <= s.len() && (forall|t: int| p <= t < p + 11 ==> is_id_char(s[t])) {
            Some(p)
        } else {
            None
        },
        None => None,
    }
}

/// The identifier captured by the leftmost URL-shaped match at or after `i`.
pub open spec fn first_url_id(s: Seq<char>, i: int) -> Option<Seq<char>>
    decreases s.len() - i,
{
    if i < 0 || i >= s.len() {
        None
    } else {
        match url_id_start_at(s, i) {
            Some(p) => Some(s.subrange(p, p + 11)),
            None => first_url_id(s, i + 1),
        }
    }
}

/// Full resolution: a direct identifier wins; otherwise the leftmost
/// URL-shaped match; otherwise nothing.
pub open spec fn resolved_id(s: Seq<char>) -> Option<Seq<char>> {
    if is_video_id(s) {
        Some(s)
    } else {
        first_url_id(s, 0)
    }
}

/// When no URL-shaped match starts before `j`, the search from `i` and from
/// `j` agree.
proof fn lemma_first_url_id_step(s: Seq<char>, i: int, j: int)
    requires
        0 <= i <= j,
        forall|k: int| i <= k < j ==> url_id_start_at(s, k) is None,
    ensures
        first_url_id(s, i) == first_url_id(s, j),
    decreases j - i,
{
    if i < j {
        if i >= s.len() {
            assert(j >= s.len());
        } else {
            lemma_first_url_id_step(s, i + 1, j);
        }
    }
}

/// Law: whatever resolution returns is itself a valid 11-character identifier.
pub proof fn lemma_resolved_is_valid(s: Seq<char>)
    ensures
        resolved_id(s) matches Some(id) ==> is_video_id(id),
{
    if !is_video_id(s) {
        lemma_first_url_id_valid(s, 0);
    }
}

proof fn lemma_first_url_id_valid(s: Seq<char>, i: int)
    ensures
        first_url_id(s, i) matches Some(id) ==> is_video_id(id),
    decreases s.len() - i,
{
    if 0 <= i < s.len() {
        match url_id_start_at(s, i) {
            Some(p) => {
                assert forall|t: int| 0 <= t < 11 implies is_id_char(
                    #[trigger] s.subrange(p, p + 11)[t],
                ) by {
                    assert(s.subrange(p, p + 11)[t] == s[p + t]);
                }
            },
            None => {
                lemma_first_url_id_valid(s, i + 1);
            },
        }
    }
}

/// Law: a string of exactly 11 alphabet characters resolves to itself,
/// unchanged.
pub proof fn lemma_direct_id_resolves(s: Seq<char>)
    requires
        is_video_id(s),
    ensures
        resolved_id(s) == Some(s),
{
}

/// Law: an input that is not a direct identifier and embeds no recognized
/// URL shape anywhere is rejected, never guessed at.
pub proof fn lemma_unrecognized_fails(s: Seq<char>)
    requires
        !is_video_id(s),
        forall|i: int| 0 <= i < s.len() ==> url_id_start_at(s, i) is None,
    ensures
        resolved_id(s) is None,
{
    lemma_first_url_id_step(s, 0, s.len() as int);
    assert(first_url_id(s, s.len() as int) is None);
}

/// The pattern `p` cannot stand at `i` when some character disagrees.
proof fn lemma_prefix_differs(s: Seq<char>, i: int, p: Seq<char>, t: int, c: char)
    requires
        0 <= i,
        0 <= t < p.len(),
        i + t < s.len(),
        s[i + t] == c,
        p[t] != c,
    ensures
        !has_prefix_at(s, i, p),
{
    if has_prefix_at(s, i, p) {
        assert(s.subrange(i, i + p.len())[t] == s[i + t]);
    }
}

/// The pattern `p` stands at `i` when every character agrees.
proof fn lemma_prefix_holds(s: Seq<char>, i: int, p: Seq<char>)
    requires
        0 <= i,
        i + p.len() <= s.len(),
        forall|t: int| 0 <= t < p.len() ==> s[i + t] == #[trigger] p[t],
    ensures
        has_prefix_at(s, i, p),
{
    assert(s.subrange(i, i + p.len()) =~= p);
}

/// Law: every recognized URL shape — scheme optional, `www.` optional, either
/// host — embedding a valid identifier resolves to exactly that identifier,
/// whatever trails it (query parameters, further path segments).
pub proof fn lemma_url_shape_resolves(
    scheme: Seq<char>,
    www: Seq<char>,
    host: Seq<char>,
    id: Seq<char>,
    tail: Seq<char>,
)
    requires
        scheme == Seq::<char>::empty() || scheme == "http://"@ || scheme == "https://"@,
        www == Seq::<char>::empty() || www == "www."@,
        host == "youtube.com/watch?v="@ || host == "youtu.be/"@,
        is_video_id(id),
    ensures
        resolved_id(scheme + www + host + id + tail) == Some(id),
{
    reveal_strlit("http://");
    reveal_strlit("https://");
    reveal_strlit("www.");
    reveal_strlit("youtube.com/watch?v=");
    reveal_strlit("youtu.be/");
    let s = scheme + www + host + id + tail;
    let sl = scheme.len() as int;
    let wl = www.len() as int;
    let hl = host.len() as int;
    let k = sl + wl;
    let p = k + hl;
    assert(s.len() == sl + wl + hl + 11 + tail.len());
    assert forall|t: int| 0 <= t < sl implies s[t] == scheme[t] by {}
    assert forall|t: int| 0 <= t < wl implies s[sl + t] == www[t] by {}
    assert forall|t: int| 0 <= t < hl implies s[k + t] == host[t] by {}
    assert forall|t: int| 0 <= t < 11 implies s[p + t] == id[t] by {}
    // the scheme part
    if scheme == "https://"@ {
        lemma_prefix_holds(s, 0, "https://"@);
    } else if scheme == "http://"@ {
        lemma_prefix_differs(s, 0, "https://"@, 4, ':');
        lemma_prefix_holds(s, 0, "http://"@);
    } else {
        let c0: char = if wl > 0 { 'w' } else { 'y' };
        assert(s[0] == c0);
        lemma_prefix_differs(s, 0, "https://"@, 0, c0);
        lemma_prefix_differs(s, 0, "http://"@, 0, c0);
    }
    assert(scheme_len_at(s, 0) == sl);
    // the www part
    if www == "www."@ {
        lemma_prefix_holds(s, sl, "www."@);
    } else {
        assert(s[sl] == 'y');
        lemma_prefix_differs(s, sl, "www."@, 0, 'y');
    }
    assert(www_len_at(s, sl) == wl);
    // the host part
    if host == "youtube.com/watch?v="@ {
        lemma_prefix_holds(s, k, "youtube.com/watch?v="@);
    } else {
        assert(s[k + 5] == '.');
        lemma_prefix_differs(s, k, "youtube.com/watch?v="@, 5, '.');
        lemma_prefix_holds(s, k, "youtu.be/"@);
    }
    assert(host_id_start(s, k) == Some(p));
    // the identifier part
    assert forall|t: int| p <= t < p + 11 implies is_id_char(s[t]) by {
        assert(s[t] == id[t - p]);
    }
    assert(url_id_start_at(s, 0) == Some(p));
    assert(s.subrange(p, p + 11) =~= id);
    assert(first_url_id(s, 0) == Some(id));
    assert(!is_video_id(s));
}

/// Is `c` in the identifier alphabet?
fn id_char(c: char) -> (r: bool)
    ensures
        r == is_id_char(c),
{
    (c >= 'a' && c <= 'z') || (c >= 'A' && c <= 'Z') || (c >= '0' && c <= '9') || c == '_' || c
        == '-'
}

/// Are all of `s`'s characters in `[from, to)` identifier characters?
fn all_id_chars(s: &str, from: usize, to: usize) -> (r: bool)
    requires
        from <= to <= s@.len(),
    ensures
        r == forall|t: int| from <= t < to ==> is_id_char(s@[t]),
{
    let mut i = from;
    while i < to
        invariant
            from <= i <= to <= s@.len(),
            forall|t: int| from <= t < i ==> is_id_char(s@[t]),
        decreases to - i,
    {
        if !id_char(s.get_char(i)) {
            return false;
        }
        i += 1;
    }
    true
}

/// Try the full URL shape at position `i`; on success return the index where
/// the captured 11-character identifier begins.
fn try_url_at(s: &str, i: usize, n: usize) -> (r: Option<usize>)
    requires
        n == s@.len(),
        i < n,
    ensures
        match r {
            Some(p) => url_id_start_at(s@, i as int) == Some(p as int) && p + 11 <= n,
            None => url_id_start_at(s@, i as int) is None,
        },
{
    let https = "https://";
    let http = "http://";
    let www = "www.";
    let host_watch = "youtube.com/watch?v=";
    let host_short = "youtu.be/";
    let j = if starts_with_at(s, i, https, n, https.unicode_len()) {
        i + https.unicode_len()
    } else if starts_with_at(s, i, http, n, http.unicode_len()) {
        i + http.unicode_len()
    } else {
        i
    };
    let k = if starts_with_at(s, j, www, n, www.unicode_len()) {
        j + www.unicode_len()
    } else {
        j
    };
    let p = if starts_with_at(s, k, host_watch, n, host_watch.unicode_len()) {
        k + host_watch.unicode_len()
    } else if starts_with_at(s, k, host_short, n, host_short.unicode_len()) {
        k + host_short.unicode_len()
    } else {
        return None;
    };
    if n - p >= 11 && all_id_chars(s, p, p + 11) {
        Some(p)
    } else {
        None
    }
}

/// Resolve a raw input into the canonical 11-character video identifier.
///
/// A direct identifier is returned unchanged; otherwise the identifier is
/// captured from the leftmost recognized URL shape; otherwise the input is
/// rejected, never guessed at or truncated.
pub fn parse_id<'a>(input: &'a str) -> (r: Result<&'a str, Error>)
    ensures
        match r {
            Ok(id) => resolved_id(input@) == Some(id@) && is_video_id(id@),
            Err(e) => e == Error::InvalidIdentifier && resolved_id(input@) is None,
        },
{
    let n = input.unicode_len();
    if n == 11 && all_id_chars(input, 0, 11) {
        return Ok(input);
    }
    let mut i: usize = 0;
    while i < n
        invariant
            n == input@.len(),
            0 <= i <= n,
            !is_video_id(input@),
            forall|k: int| 0 <= k < i ==> url_id_start_at(input@, k) is None,
        decreases n - i,
    {
        match try_url_at(input, i, n) {
            Some(p) => {
                let id = input.substring_char(p, p + 11);
                proof {
                    lemma_first_url_id_step(input@, 0, i as int);
                    lemma_resolved_is_valid(input@);
                }
                return Ok(id);
            },
            None => {
                i += 1;
            },
        }
    }
    proof {
        lemma_first_url_id_step(input@, 0, n as int);
    }
    Err(Error::InvalidIdentifier)
}

} // verus!
