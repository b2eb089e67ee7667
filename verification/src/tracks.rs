//! Caption-track extraction and selection: locate the embedded track manifest
//! in a fetched page, parse it, and pick the track whose language-variant tag
//! ends with the requested language.

use vstd::prelude::*;

use crate::Error;
use crate::scan::ends_with;
use crate::scan::find_from;
use crate::scan::find_sub;
use crate::scan::lemma_find_from_found;
use crate::scan::str_ends_with;

verus! {

/// One caption track as the manifest describes it: a language-variant tag and
/// the URL of its timed-text document, either of which the manifest may omit.
#[derive(Debug)]
pub struct CaptionTrack {
    pub vss_id: Option<String>,
    pub base_url: Option<String>,
}

/// The mathematical shadow of a `CaptionTrack`.
pub struct TrackView {
    pub vss_id: Option<Seq<char>>,
    pub base_url: Option<Seq<char>>,
}

impl View for CaptionTrack {
    type V = TrackView;

    open spec fn view(&self) -> TrackView {
        TrackView {
            vss_id: match self.vss_id {
                Some(v) => Some(v@),
                None => None,
            },
            base_url: match self.base_url {
                Some(u) => Some(u@),
                None => None,
            },
        }
    }
}

pub open spec fn tracks_view(ts: Seq<CaptionTrack>) -> Seq<TrackView> {
    ts.map_values(|t: CaptionTrack| t@)
}

/// What the outside JSON parser extracts from a wrapped manifest object: the
/// track list in array order, or nothing when the text is not well-formed.
/// The outcome depends on the text alone.
pub uninterp spec fn manifest_tracks(s: Seq<char>) -> Option<Seq<TrackView>>;

/// Relies on `serde_json::from_str` and the `Value` accessors `get`,
/// `as_array` and `as_str`: parses the wrapped manifest object and hands out,
/// in array order, each track's "vssId" and "baseUrl" string fields; its
/// outcome is named by `manifest_tracks`.
#[verifier::external_body]
fn parse_tracks_json(s: &str) -> (r: Option<Vec<CaptionTrack>>)
    ensures
        r is Some <==> manifest_tracks(s@) is Some,
        r matches Some(ts) ==> manifest_tracks(s@) == Some(tracks_view(ts@)),
{
    let root: serde_json::Value = match serde_json::from_str(s) {
        Ok(v) => v,
        Err(_) => return None,
    };
    let arr = root.get("captionTracks")?.as_array()?;
    Some(arr.iter().map(|t| CaptionTrack {
        vss_id: t.get("vssId").and_then(|v| v.as_str()).map(|v| v.to_owned()),
        base_url: t.get("baseUrl").and_then(|v| v.as_str()).map(|v| v.to_owned()),
    }).collect())
}

/// The raw JSON array captured from the page: everything from the bracket
/// after the leftmost `"captionTracks":` key up to the first closing bracket.
/// Lazily bounded on purpose: the page embeds the manifest in a larger script
/// blob that is not well-formed JSON on its own, and the page's shape is
/// dictated from outside; a nested array inside a track record can mis-bound
/// this capture, which is a known limit of the heuristic, not repaired here.
pub open spec fn spec_captured_array(page: Seq<char>) -> Option<Seq<char>> {
    match find_from(page, 0, "\"captionTracks\":["@) {
        None => None,
        Some(j) => {
            let b = j + "\"captionTracks\":"@.len();
            match find_from(page, b + 1, "]"@) {
                None => None,
                Some(c) => Some(page.subrange(b, c + 1)),
            }
        },
    }
}

/// The captured array rebuilt into a minimal well-formed JSON object.
pub open spec fn spec_wrapped(arr: Seq<char>) -> Seq<char> {
    "{\"captionTracks\":"@ + arr + "}"@
}

/// The track list the page carries, if capture and parse both succeed.
pub open spec fn spec_tracks_of_page(page: Seq<char>) -> Option<Seq<TrackView>> {
    match spec_captured_array(page) {
        Some(arr) => manifest_tracks(spec_wrapped(arr)),
        None => None,
    }
}

/// Does a track's language-variant tag end with the requested language?
/// A track without a tag never matches; it is not an error on its own.
pub open spec fn track_matches(t: TrackView, lang: Seq<char>) -> bool {
    match t.vss_id {
        Some(v) => ends_with(v, lang),
        None => false,
    }
}

/// Index of the first matching track at or after `i`, in input order.
pub open spec fn first_matching(ts: Seq<TrackView>, lang: Seq<char>, i: int) -> Option<int>
    decreases ts.len() - i,
{
    if i < 0 || i >= ts.len() {
        None
    } else if track_matches(ts[i], lang) {
        Some(i)
    } else {
        first_matching(ts, lang, i + 1)
    }
}

/// Law: selection is stable and strict: a chosen track matches the requested
/// language, and no earlier track in input order does.
pub proof fn lemma_first_matching_sound(ts: Seq<TrackView>, lang: Seq<char>, i: int)
    requires
        0 <= i,
    ensures
        first_matching(ts, lang, i) matches Some(j) ==> {
            &&& i <= j < ts.len()
            &&& track_matches(ts[j], lang)
            &&& forall|k: int| i <= k < j ==> !track_matches(ts[k], lang)
        },
    decreases ts.len() - i,
{
    if i < ts.len() && !track_matches(ts[i], lang) {
        lemma_first_matching_sound(ts, lang, i + 1);
    }
}

/// Law: a page without the marker fails as captions-unavailable, before any
/// track-pattern matching is attempted.
pub proof fn lemma_no_marker_unavailable(page: Seq<char>, lang: Seq<char>)
    requires
        find_from(page, 0, "captionTracks"@) is None,
    ensures
        spec_select_base_url(page, lang) == Err::<Seq<char>, Error>(Error::CaptionsUnavailable),
{
}

/// Capture and parse the caption-track manifest out of a fetched page body.
pub fn parse_caption_tracks(page: &str) -> (r: Result<Vec<CaptionTrack>, Error>)
    ensures
        match r {
            Ok(ts) => spec_tracks_of_page(page@) == Some(tracks_view(ts@)),
            Err(e) => e == Error::ManifestParseFailure && spec_tracks_of_page(page@) is None,
        },
{
    let key = "\"captionTracks\":";
    let pattern = "\"captionTracks\":[";
    let n = page.unicode_len();
    let j = match find_sub(page, 0, pattern) {
        None => {
            return Err(Error::ManifestParseFailure);
        },
        Some(j) => j,
    };
    proof {
        lemma_find_from_found(page@, 0, pattern@);
        reveal_strlit("\"captionTracks\":");
        reveal_strlit("\"captionTracks\":[");
    }
    let b = j + key.unicode_len();
    let c = match find_sub(page, b + 1, "]") {
        None => {
            return Err(Error::ManifestParseFailure);
        },
        Some(c) => c,
    };
    proof {
        lemma_find_from_found(page@, b + 1, "]"@);
        reveal_strlit("]");
    }
    let captured = page.substring_char(b, c + 1);
    let wrapped = String::from_str("{\"captionTracks\":").concat(captured).concat("}");
    proof {
        assert(wrapped@ =~= spec_wrapped(captured@));
    }
    match parse_tracks_json(wrapped.as_str()) {
        Some(ts) => Ok(ts),
        None => Err(Error::ManifestParseFailure),
    }
}

/// Pick the first track, in input order, whose tag ends with `lang`.
pub fn find_subtitle_track<'a>(tracks: &'a Vec<CaptionTrack>, lang: &str) -> (r: Result<
    &'a CaptionTrack,
    Error,
>)
    ensures
        match r {
            Ok(t) => first_matching(tracks_view(tracks@), lang@, 0) matches Some(i) && 0 <= i
                < tracks@.len() && *t == tracks@[i],
            Err(e) => e == Error::LanguageUnavailable && first_matching(
                tracks_view(tracks@),
                lang@,
                0,
            ) is None,
        },
{
    let n = tracks.len();
    let mut i: usize = 0;
    while i < n
        invariant
            n == tracks@.len(),
            0 <= i <= n,
            forall|k: int| 0 <= k < i ==> !track_matches(tracks_view(tracks@)[k], lang@),
        decreases n - i,
    {
        let t = &tracks[i];
        let hit = match &t.vss_id {
            Some(v) => str_ends_with(v.as_str(), lang),
            None => false,
        };
        if hit {
            proof {
                lemma_first_matching_step(tracks_view(tracks@), lang@, 0, i as int);
            }
            return Ok(t);
        }
        i += 1;
    }
    proof {
        lemma_first_matching_step(tracks_view(tracks@), lang@, 0, n as int);
    }
    Err(Error::LanguageUnavailable)
}

/// When no track before `j` matches, the search from `i` and from `j` agree.
proof fn lemma_first_matching_step(ts: Seq<TrackView>, lang: Seq<char>, i: int, j: int)
    requires
        0 <= i <= j,
        forall|k: int| i <= k < j ==> !track_matches(ts[k], lang),
    ensures
        first_matching(ts, lang, i) == first_matching(ts, lang, j),
    decreases j - i,
{
    if i < j {
        if i >= ts.len() {
            assert(j >= ts.len());
        } else {
            lemma_first_matching_step(ts, lang, i + 1, j);
        }
    }
}

/// What one whole page-to-track-URL step returns: which error each failure
/// surfaces, and which URL success hands back.
pub open spec fn spec_select_base_url(page: Seq<char>, lang: Seq<char>) -> Result<
    Seq<char>,
    Error,
> {
    if find_from(page, 0, "captionTracks"@) is None {
        Err(Error::CaptionsUnavailable)
    } else {
        match spec_tracks_of_page(page) {
            None => Err(Error::ManifestParseFailure),
            Some(ts) => match first_matching(ts, lang, 0) {
                None => Err(Error::LanguageUnavailable),
                Some(i) => match ts[i].base_url {
                    None => Err(Error::ManifestParseFailure),
                    Some(u) => Ok(u),
                },
            },
        }
    }
}

/// From a fetched page body to the URL of the requested language's timed-text
/// document. Fails fast: no marker, then no parse, then no matching track,
/// then a matching track without a URL.
pub fn select_base_url(page: &str, lang: &str) -> (r: Result<String, Error>)
    ensures
        match r {
            Ok(u) => spec_select_base_url(page@, lang@) == Ok::<Seq<char>, Error>(u@),
            Err(e) => spec_select_base_url(page@, lang@) == Err::<Seq<char>, Error>(e),
        },
{
    if find_sub(page, 0, "captionTracks").is_none() {
        return Err(Error::CaptionsUnavailable);
    }
    let tracks = match parse_caption_tracks(page) {
        Ok(ts) => ts,
        Err(e) => {
            return Err(e);
        },
    };
    let track = match find_subtitle_track(&tracks, lang) {
        Ok(t) => t,
        Err(e) => {
            return Err(e);
        },
    };
    match &track.base_url {
        Some(u) => Ok(u.clone()),
        None => Err(Error::ManifestParseFailure),
    }
}

} // verus!
