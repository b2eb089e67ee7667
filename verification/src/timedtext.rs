//! Timed-text decoding: scan a document for `<text start=".." dur="..">..</text>`
//! elements and turn them, in document order, into caption records with
//! entity-decoded, single-line text.

use vstd::prelude::*;

use crate::Error;
use crate::scan::find_from;
use crate::scan::find_sub;
use crate::scan::has_prefix_at;
use crate::scan::lemma_find_from_found;
use crate::scan::lemma_find_from_none;
use crate::scan::starts_with_at;

verus! {

/// One caption record: the textual decimal start time and duration exactly as
/// the document gives them, and the decoded single-line text.
#[derive(Debug)]
pub struct Caption {
    pub start: String,
    pub dur: String,
    pub text: String,
}

/// The mathematical shadow of a `Caption`.
pub struct CaptionView {
    pub start: Seq<char>,
    pub dur: Seq<char>,
    pub text: Seq<char>,
}

impl View for Caption {
    type V = CaptionView;

    open spec fn view(&self) -> CaptionView {
        CaptionView { start: self.start@, dur: self.dur@, text: self.text@ }
    }
}

pub open spec fn captions_view(cs: Seq<Caption>) -> Seq<CaptionView> {
    cs.map_values(|c: Caption| c@)
}

pub open spec fn is_digit(c: char) -> bool {
    '0' <= c && c <= '9'
}

pub open spec fn is_digit_or_dot(c: char) -> bool {
    is_digit(c) || c == '.'
}

/// A well-formed decimal seconds field: non-empty, only digits and dots, at
/// least one digit, and at most one dot. These are exactly the digit-and-dot
/// strings that parse as a decimal number.
pub open spec fn is_seconds(s: Seq<char>) -> bool {
    &&& s.len() > 0
    &&& forall|i: int| 0 <= i < s.len() ==> is_digit_or_dot(#[trigger] s[i])
    &&& exists|i: int| 0 <= i < s.len() && is_digit(#[trigger] s[i])
    &&& forall|i: int, j: int| 0 <= i < j < s.len() ==> !(#[trigger] s[i] == '.' && #[trigger] s[j] == '.')
}

/// End of the maximal run of digits and dots starting at `i`.
pub open spec fn run_end(s: Seq<char>, i: int) -> int
    decreases s.len() - i,
{
    if 0 <= i < s.len() && is_digit_or_dot(s[i]) {
        run_end(s, i + 1)
    } else {
        i
    }
}

/// A raw timed-text element: the two captured numeric fields, the raw inner
/// text, and the index just past the closing tag.
pub struct RawElement {
    pub start: Seq<char>,
    pub dur: Seq<char>,
    pub inner: Seq<char>,
    pub next: int,
}

/// Match one element exactly at position `i`: the literal opening `<text
/// start="`, a non-empty digit-and-dot run, `" dur="`, another run, the
/// closing quote, then anything up to the first `>`, and inner text up to the
/// first `</text>`. Further attributes before the `>` are tolerated and
/// ignored; the inner text may span lines.
pub open spec fn element_at(s: Seq<char>, i: int) -> Option<RawElement> {
    if !has_prefix_at(s, i, "<text start=\""@) {
        None
    } else {
        let a = i + "<text start=\""@.len();
        let a2 = run_end(s, a);
        if a2 == a || !has_prefix_at(s, a2, "\" dur=\""@) {
            None
        } else {
            let b = a2 + "\" dur=\""@.len();
            let b2 = run_end(s, b);
            if b2 == b || !has_prefix_at(s, b2, "\""@) {
                None
            } else {
                match find_from(s, b2 + 1, ">"@) {
                    None => None,
                    Some(g) => match find_from(s, g + 1, "</text>"@) {
                        None => None,
                        Some(c) => Some(
                            RawElement {
                                start: s.subrange(a, a2),
                                dur: s.subrange(b, b2),
                                inner: s.subrange(g + 1, c),
                                next: c + "</text>"@.len(),
                            },
                        ),
                    },
                }
            }
        }
    }
}

/// The leftmost element match at or after `i`; elements never overlap because
/// the next scan resumes past the closing tag.
pub open spec fn next_element(s: Seq<char>, i: int) -> Option<RawElement>
    decreases s.len() - i,
{
    if i < 0 || i >= s.len() {
        None
    } else {
        match element_at(s, i) {
            Some(e) => Some(e),
            None => next_element(s, i + 1),
        }
    }
}

/// The run of digits and dots stays inside the text.
proof fn lemma_run_end_bounds(s: Seq<char>, i: int)
    requires
        0 <= i <= s.len(),
    ensures
        i <= run_end(s, i) <= s.len(),
    decreases s.len() - i,
{
    if 0 <= i < s.len() && is_digit_or_dot(s[i]) {
        lemma_run_end_bounds(s, i + 1);
    }
}

/// A matched element ends after it begins and inside the text.
proof fn lemma_element_at_bounds(s: Seq<char>, i: int)
    requires
        0 <= i,
    ensures
        element_at(s, i) matches Some(e) ==> i < e.next <= s.len(),
{
    if has_prefix_at(s, i, "<text start=\""@) {
        let a = i + "<text start=\""@.len();
        lemma_run_end_bounds(s, a);
        let a2 = run_end(s, a);
        if a2 != a && has_prefix_at(s, a2, "\" dur=\""@) {
            let b = a2 + "\" dur=\""@.len();
            lemma_run_end_bounds(s, b);
            let b2 = run_end(s, b);
            if b2 != b && has_prefix_at(s, b2, "\""@) {
                lemma_find_from_found(s, b2 + 1, ">"@);
                match find_from(s, b2 + 1, ">"@) {
                    None => {},
                    Some(g) => {
                        lemma_find_from_found(s, g + 1, "</text>"@);
                    },
                }
            }
        }
    }
}

/// The leftmost element match, wherever found, ends after `i`.
pub proof fn lemma_next_element_bounds(s: Seq<char>, i: int)
    requires
        0 <= i,
    ensures
        next_element(s, i) matches Some(e) ==> i < e.next <= s.len(),
    decreases s.len() - i,
{
    if i < s.len() {
        lemma_element_at_bounds(s, i);
        if element_at(s, i) is None {
            lemma_next_element_bounds(s, i + 1);
        }
    }
}

/// When no element match starts before `j`, the scan from `i` and from `j` agree.
proof fn lemma_next_element_step(s: Seq<char>, i: int, j: int)
    requires
        0 <= i <= j,
        forall|k: int| i <= k < j ==> element_at(s, k) is None,
    ensures
        next_element(s, i) == next_element(s, j),
    decreases j - i,
{
    if i < j {
        if i >= s.len() {
            assert(j >= s.len());
        } else {
            lemma_next_element_step(s, i + 1, j);
        }
    }
}

/// What an outside entity decoder returns for a given text; the decoding
/// depends on the characters alone.
pub uninterp spec fn html_decoded(s: Seq<char>) -> Seq<char>;

/// Relies on `html_escape::decode_html_entities`: decodes exact named and
/// numeric character references ending in `;`; a pure function of the text,
/// named by `html_decoded`.
#[verifier::external_body]
fn decode_entities(s: &str) -> (r: String)
    ensures
        r@ == html_decoded(s@),
{
    html_escape::decode_html_entities(s).into_owned()
}

/// Every newline of the decoded text becomes a single space.
pub open spec fn spec_replace_newlines(s: Seq<char>) -> Seq<char> {
    s.map_values(|c: char| if c == '\n' { ' ' } else { c })
}

/// A second, literal pass: each remaining `&#39;` becomes an apostrophe. Kept
/// apart from entity decoding on purpose, to catch double-encoded apostrophes.
pub open spec fn spec_replace_apos(s: Seq<char>) -> Seq<char>
    decreases s.len(),
    via spec_replace_apos_decreases
{
    match find_from(s, 0, "&#39;"@) {
        None => s,
        Some(j) => s.subrange(0, j) + "'"@ + spec_replace_apos(
            s.subrange(j + "&#39;"@.len(), s.len() as int),
        ),
    }
}

#[via_fn]
proof fn spec_replace_apos_decreases(s: Seq<char>) {
    lemma_find_from_found(s, 0, "&#39;"@);
    proof_nonempty_apos();
}

/// The apostrophe escape is five characters long.
proof fn proof_nonempty_apos()
    ensures
        "&#39;"@.len() == 5,
{
    reveal_strlit("&#39;");
}

/// The decoded text of one element: entity decoding, then newline removal,
/// then the literal apostrophe pass, in that order.
pub open spec fn spec_unescaped(inner: Seq<char>) -> Seq<char> {
    spec_replace_apos(spec_replace_newlines(html_decoded(inner)))
}

/// Decode every element from position `i` on, in document order. A malformed
/// numeric field fails the whole decode; a document with no elements left
/// yields the empty sequence.
pub open spec fn spec_decode_from(s: Seq<char>, i: int) -> Result<Seq<CaptionView>, Error>
    decreases s.len() - i,
    via spec_decode_from_decreases
{
    if i < 0 {
        Ok(Seq::empty())
    } else {
        match next_element(s, i) {
            None => Ok(Seq::empty()),
            Some(e) => {
                if !is_seconds(e.start) || !is_seconds(e.dur) {
                    Err(Error::TimedTextParseFailure)
                } else {
                    match spec_decode_from(s, e.next) {
                        Ok(rest) => Ok(
                            seq![
                                CaptionView {
                                    start: e.start,
                                    dur: e.dur,
                                    text: spec_unescaped(e.inner),
                                },
                            ] + rest,
                        ),
                        Err(er) => Err(er),
                    }
                }
            },
        }
    }
}

#[via_fn]
proof fn spec_decode_from_decreases(s: Seq<char>, i: int) {
    if i >= 0 {
        lemma_next_element_bounds(s, i);
    }
}

/// The whole document decoded from its start.
pub open spec fn spec_captions(s: Seq<char>) -> Result<Seq<CaptionView>, Error> {
    spec_decode_from(s, 0)
}

/// Law: a document in which no element matches anywhere — the empty document
/// above all — decodes to the empty sequence, not an error.
pub proof fn lemma_no_elements_empty(doc: Seq<char>)
    requires
        forall|k: int| 0 <= k < doc.len() ==> element_at(doc, k) is None,
    ensures
        spec_captions(doc) == Ok::<Seq<CaptionView>, Error>(Seq::empty()),
{
    lemma_next_element_step(doc, 0, doc.len() as int);
    assert(next_element(doc, doc.len() as int) is None);
}

/// No character of a decoded caption text is a newline.
proof fn lemma_replace_apos_no_newline(s: Seq<char>)
    requires
        forall|t: int| 0 <= t < s.len() ==> s[t] != '\n',
    ensures
        forall|t: int| 0 <= t < spec_replace_apos(s).len() ==> spec_replace_apos(s)[t] != '\n',
    decreases s.len(),
{
    reveal_strlit("'");
    proof_nonempty_apos();
    match find_from(s, 0, "&#39;"@) {
        None => {},
        Some(j) => {
            lemma_find_from_found(s, 0, "&#39;"@);
            let rest = s.subrange(j + 5, s.len() as int);
            assert(forall|t: int| 0 <= t < rest.len() ==> #[trigger] rest[t] != '\n');
            lemma_replace_apos_no_newline(rest);
            let r = s.subrange(0, j) + "'"@ + spec_replace_apos(rest);
            assert forall|t: int| 0 <= t < r.len() implies r[t] != '\n' by {
                if t < j {
                    assert(r[t] == s.subrange(0, j)[t]);
                } else if t == j {
                    assert(r[t] == "'"@[0]);
                } else {
                    assert(r[t] == spec_replace_apos(rest)[t - j - 1]);
                }
            }
        },
    }
}

/// Law: the decoded text of one element never holds a newline: every
/// embedded newline has become a single space.
pub proof fn lemma_unescaped_single_line(inner: Seq<char>)
    ensures
        forall|t: int| 0 <= t < spec_unescaped(inner).len() ==> spec_unescaped(inner)[t] != '\n',
{
    let d = spec_replace_newlines(html_decoded(inner));
    assert(forall|t: int| 0 <= t < d.len() ==> #[trigger] d[t] != '\n');
    lemma_replace_apos_no_newline(d);
}

/// Law: no caption a successful decode produces has a newline in its text.
pub proof fn lemma_captions_single_line(doc: Seq<char>)
    ensures
        spec_captions(doc) matches Ok(cs) ==> forall|k: int, t: int|
            0 <= k < cs.len() && 0 <= t < cs[k].text.len() ==> #[trigger] cs[k].text[t] != '\n',
{
    lemma_decode_from_single_line(doc, 0);
}

proof fn lemma_decode_from_single_line(s: Seq<char>, i: int)
    ensures
        spec_decode_from(s, i) matches Ok(cs) ==> forall|k: int, t: int|
            0 <= k < cs.len() && 0 <= t < cs[k].text.len() ==> #[trigger] cs[k].text[t] != '\n',
    decreases s.len() - i,
{
    if i >= 0 {
        match next_element(s, i) {
            None => {},
            Some(e) => {
                if is_seconds(e.start) && is_seconds(e.dur) {
                    lemma_next_element_bounds(s, i);
                    lemma_decode_from_single_line(s, e.next);
                    lemma_unescaped_single_line(e.inner);
                    match spec_decode_from(s, e.next) {
                        Ok(rest) => {
                            let cv = CaptionView {
                                start: e.start,
                                dur: e.dur,
                                text: spec_unescaped(e.inner),
                            };
                            let cs = seq![cv] + rest;
                            assert forall|k: int, t: int|
                                0 <= k < cs.len() && 0 <= t < cs[k].text.len() implies #[trigger] cs[k].text[t]
                                != '\n' by {
                                if k == 0 {
                                    assert(cs[k].text == spec_unescaped(e.inner));
                                } else {
                                    assert(cs[k] == rest[k - 1]);
                                }
                            }
                        },
                        Err(_) => {},
                    }
                }
            },
        }
    }
}

/// Is `c` a digit or a dot?
fn digit_or_dot(c: char) -> (r: bool)
    ensures
        r == is_digit_or_dot(c),
{
    (c >= '0' && c <= '9') || c == '.'
}

/// End of the maximal digit-and-dot run starting at `i`.
fn scan_run(s: &str, i: usize, n: usize) -> (r: usize)
    requires
        n == s@.len(),
        i <= n,
    ensures
        i <= r <= n,
        r as int == run_end(s@, i as int),
    decreases n - i,
{
    if i < n {
        let c = s.get_char(i);
        if digit_or_dot(c) {
            return scan_run(s, i + 1, n);
        }
    }
    i
}

/// Is `s` a well-formed decimal seconds field?
fn check_seconds(s: &str) -> (r: bool)
    ensures
        r == is_seconds(s@),
{
    let n = s.unicode_len();
    if n == 0 {
        return false;
    }
    let mut i: usize = 0;
    let mut seen_dot = false;
    let mut seen_digit = false;
    while i < n
        invariant
            n == s@.len(),
            0 <= i <= n,
            seen_dot == exists|k: int| 0 <= k < i && #[trigger] s@[k] == '.',
            seen_digit == exists|k: int| 0 <= k < i && is_digit(#[trigger] s@[k]),
            forall|k: int| 0 <= k < i ==> is_digit_or_dot(#[trigger] s@[k]),
            forall|a: int, b: int|
                0 <= a < b < i ==> !(#[trigger] s@[a] == '.' && #[trigger] s@[b] == '.'),
        decreases n - i,
    {
        let c = s.get_char(i);
        if c == '.' {
            if seen_dot {
                proof {
                    let k = choose|k: int| 0 <= k < i && s@[k] == '.';
                    assert(s@[k] == '.' && s@[i as int] == '.');
                }
                return false;
            }
            seen_dot = true;
        } else if c >= '0' && c <= '9' {
            seen_digit = true;
        } else {
            return false;
        }
        i += 1;
    }
    seen_digit
}

/// The index spans of one matched element inside the document.
struct ElementSpan {
    start_lo: usize,
    start_hi: usize,
    dur_lo: usize,
    dur_hi: usize,
    inner_lo: usize,
    inner_hi: usize,
    next: usize,
}

/// The element a span stands for.
spec fn span_element(s: Seq<char>, el: ElementSpan) -> RawElement {
    RawElement {
        start: s.subrange(el.start_lo as int, el.start_hi as int),
        dur: s.subrange(el.dur_lo as int, el.dur_hi as int),
        inner: s.subrange(el.inner_lo as int, el.inner_hi as int),
        next: el.next as int,
    }
}

/// Find the leftmost element match at or after `from`.
fn find_element(s: &str, from: usize, n: usize) -> (r: Option<ElementSpan>)
    requires
        n == s@.len(),
        from <= n,
    ensures
        match r {
            Some(el) => {
                &&& next_element(s@, from as int) == Some(span_element(s@, el))
                &&& el.start_lo <= el.start_hi <= n
                &&& el.dur_lo <= el.dur_hi <= n
                &&& el.inner_lo <= el.inner_hi <= n
                &&& from < el.next <= n
            },
            None => next_element(s@, from as int) is None,
        },
{
    let mut i = from;
    loop
        invariant
            n == s@.len(),
            from <= i <= n,
            forall|k: int| from <= k < i ==> element_at(s@, k) is None,
        decreases n - i,
    {
        let open_tag = "<text start=\"";
        let dur_tag = "\" dur=\"";
        let quote = "\"";
        let gt = ">";
        let close_tag = "</text>";
        let j = match find_sub(s, i, open_tag) {
            None => {
                proof {
                    reveal_strlit("<text start=\"");
                    lemma_find_from_none(s@, i as int, open_tag@);
                    lemma_next_element_step(s@, from as int, i as int);
                    lemma_next_element_step(s@, i as int, s@.len() as int);
                }
                return None;
            },
            Some(j) => j,
        };
        proof {
            lemma_find_from_found(s@, i as int, open_tag@);
        }
        let a = j + open_tag.unicode_len();
        let a2 = scan_run(s, a, n);
        if a2 > a && starts_with_at(s, a2, dur_tag, n, dur_tag.unicode_len()) {
            let b = a2 + dur_tag.unicode_len();
            let b2 = scan_run(s, b, n);
            if b2 > b && starts_with_at(s, b2, quote, n, quote.unicode_len()) {
                proof {
                    reveal_strlit("\"");
                }
                if let Some(g) = find_sub(s, b2 + 1, gt) {
                    proof {
                        lemma_find_from_found(s@, b2 + 1, gt@);
                        reveal_strlit(">");
                    }
                    if let Some(c) = find_sub(s, g + 1, close_tag) {
                        proof {
                            lemma_find_from_found(s@, g + 1, close_tag@);
                            reveal_strlit("</text>");
                        }
                        let el = ElementSpan {
                            start_lo: a,
                            start_hi: a2,
                            dur_lo: b,
                            dur_hi: b2,
                            inner_lo: g + 1,
                            inner_hi: c,
                            next: c + close_tag.unicode_len(),
                        };
                        proof {
                            assert(element_at(s@, j as int) == Some(span_element(s@, el)));
                            lemma_next_element_step(s@, from as int, j as int);
                        }
                        return Some(el);
                    }
                }
            }
        }
        proof {
            assert(element_at(s@, j as int) is None);
        }
        i = j + 1;
    }
}

/// Replace every newline with a single space.
fn replace_newlines(s: &str) -> (r: String)
    ensures
        r@ == spec_replace_newlines(s@),
{
    let n = s.unicode_len();
    let mut r = String::new();
    let mut i: usize = 0;
    while i < n
        invariant
            n == s@.len(),
            0 <= i <= n,
            r@ == spec_replace_newlines(s@.take(i as int)),
        decreases n - i,
    {
        let c = s.get_char(i);
        if c == '\n' {
            r.append(" ");
            proof {
                reveal_strlit(" ");
            }
        } else {
            let piece = s.substring_char(i, i + 1);
            r.append(piece);
        }
        proof {
            assert(r@ =~= spec_replace_newlines(s@.take(i + 1)));
        }
        i += 1;
    }
    proof {
        assert(s@.take(n as int) =~= s@);
    }
    r
}

/// Replace each remaining literal `&#39;` with an apostrophe, left to right.
fn replace_apos(s: &str) -> (r: String)
    ensures
        r@ == spec_replace_apos(s@),
    decreases s@.len(),
{
    let apos = "&#39;";
    let n = s.unicode_len();
    match find_sub(s, 0, apos) {
        None => s.to_owned(),
        Some(j) => {
            proof {
                lemma_find_from_found(s@, 0, apos@);
                proof_nonempty_apos();
            }
            let head = s.substring_char(0, j);
            let tail = s.substring_char(j + 5, n);
            let rest = replace_apos(tail);
            let r = String::from_str(head).concat("'").concat(rest.as_str());
            proof {
                assert(r@ =~= spec_replace_apos(s@));
            }
            r
        },
    }
}

/// Decode a timed-text document into its ordered sequence of captions.
///
/// An element with a malformed numeric field fails the whole decode; a
/// document with no elements yields an empty sequence, not an error.
pub fn parse_captions(transcript: &str) -> (r: Result<Vec<Caption>, Error>)
    ensures
        match r {
            Ok(cs) => spec_captions(transcript@) == Ok::<Seq<CaptionView>, Error>(
                captions_view(cs@),
            ),
            Err(e) => spec_captions(transcript@) == Err::<Seq<CaptionView>, Error>(e),
        },
{
    let n = transcript.unicode_len();
    let mut result: Vec<Caption> = Vec::new();
    let mut i: usize = 0;
    proof {
        assert(captions_view(result@) =~= Seq::<CaptionView>::empty());
    }
    loop
        invariant
            n == transcript@.len(),
            0 <= i <= n,
            (match spec_decode_from(transcript@, i as int) {
                Ok(rest) => spec_captions(transcript@) == Ok::<Seq<CaptionView>, Error>(
                    captions_view(result@) + rest,
                ),
                Err(e) => spec_captions(transcript@) == Err::<Seq<CaptionView>, Error>(e),
            }),
        decreases n - i,
    {
        let el = match find_element(transcript, i, n) {
            None => {
                proof {
                    assert(captions_view(result@) + Seq::<CaptionView>::empty() =~= captions_view(
                        result@,
                    ));
                }
                return Ok(result);
            },
            Some(el) => el,
        };
        let start_str = transcript.substring_char(el.start_lo, el.start_hi);
        let dur_str = transcript.substring_char(el.dur_lo, el.dur_hi);
        if !check_seconds(start_str) || !check_seconds(dur_str) {
            return Err(Error::TimedTextParseFailure);
        }
        let inner = transcript.substring_char(el.inner_lo, el.inner_hi);
        let decoded = decode_entities(inner);
        let single_line = replace_newlines(decoded.as_str());
        let text = replace_apos(single_line.as_str());
        let cap = Caption { start: start_str.to_owned(), dur: dur_str.to_owned(), text };
        proof {
            let ghost e = span_element(transcript@, el);
            let ghost prev = captions_view(result@);
            assert(captions_view(result@.push(cap)) =~= prev.push(cap@));
            match spec_decode_from(transcript@, e.next) {
                Ok(rest2) => {
                    assert(prev.push(cap@) + rest2 =~= prev + (seq![cap@] + rest2));
                },
                Err(_) => {},
            }
        }
        result.push(cap);
        i = el.next;
    }
}

} // verus!

