use vstd::prelude::*;

pub mod parse_id;
pub mod scan;
pub mod timedtext;
pub mod tracks;

pub use parse_id::parse_id;

verus! {

/// The failure kinds a pipeline run can surface. Each step of the pipeline
/// reports exactly one of these, so a caller can tell which step failed
/// without re-running it.
#[derive(Debug, Clone, Copy, PartialEq, Eq, Structural)]
pub enum Error {
    /// The input matched neither a direct identifier nor a recognized URL shape.
    InvalidIdentifier,
    /// The underlying fetch of a page or track document failed.
    TransportFailure,
    /// The fetched page carries no caption-track marker at all.
    CaptionsUnavailable,
    /// The marker is present but the track list could not be extracted or parsed.
    ManifestParseFailure,
    /// No track's language-variant tag ends with the requested language.
    LanguageUnavailable,
    /// A timed-text element carries a malformed numeric field.
    TimedTextParseFailure,
}

/// The metadata-page URL for a resolved identifier.
pub fn watch_url(video_id: &str) -> (r: String)
    ensures
        r@ == "https://youtube.com/watch?v="@ + video_id@,
{
    String::from_str("https://youtube.com/watch?v=").concat(video_id)
}

/// The primary subtag of a locale tag: everything before the first region
/// separator, or the whole tag when it has none (`en-US` gives `en`).
pub fn primary_subtag(locale: &str) -> (r: String)
    ensures
        match scan::find_from(locale@, 0, "-"@) {
            Some(j) => r@ == locale@.subrange(0, j),
            None => r@ == locale@,
        },
{
    match scan::find_sub(locale, 0, "-") {
        Some(j) => {
            proof {
                scan::lemma_find_from_found(locale@, 0, "-"@);
            }
            locale.substring_char(0, j).to_owned()
        },
        None => locale.to_owned(),
    }
}

} // verus!
