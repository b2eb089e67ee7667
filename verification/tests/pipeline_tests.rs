use yt_text::timedtext::parse_captions;
use yt_text::tracks::{find_subtitle_track, parse_caption_tracks, select_base_url};
use yt_text::{watch_url, Error};

#[test]
fn test_watch_url() {
    assert_eq!(
        watch_url("xpUtDk79dww"),
        "https://youtube.com/watch?v=xpUtDk79dww"
    );
}

#[test]
fn test_select_track_by_language_suffix() {
    let page = r#"prefix "captionTracks":[{"vssId":"a.en","baseUrl":"X"},{"vssId":"a.fr","baseUrl":"Y"}] suffix"#;
    assert_eq!(select_base_url(page, "en").unwrap(), "X");
    assert_eq!(
        select_base_url(page, "de").unwrap_err(),
        Error::LanguageUnavailable
    );
}

#[test]
fn test_select_track_skips_untagged() {
    // A track without a tag never matches, but is no hard error either.
    let page = r#""captionTracks":[{"baseUrl":"X"},{"vssId":"b.en","baseUrl":"Y"}]"#;
    assert_eq!(select_base_url(page, "en").unwrap(), "Y");
}

#[test]
fn test_select_track_missing_base_url() {
    let page = r#""captionTracks":[{"vssId":"a.en"}]"#;
    assert_eq!(
        select_base_url(page, "en").unwrap_err(),
        Error::ManifestParseFailure
    );
}

#[test]
fn test_no_marker_is_captions_unavailable() {
    let page = "<html>no captions here</html>";
    assert_eq!(
        select_base_url(page, "en").unwrap_err(),
        Error::CaptionsUnavailable
    );
}

#[test]
fn test_marker_without_track_pattern() {
    // The marker is present, but the key-and-bracket pattern is not.
    let page = "something captionTracks something";
    assert_eq!(
        select_base_url(page, "en").unwrap_err(),
        Error::ManifestParseFailure
    );
}

#[test]
fn test_captured_array_invalid_json() {
    let page = r#""captionTracks":[}]"#;
    assert_eq!(
        parse_caption_tracks(page).unwrap_err(),
        Error::ManifestParseFailure
    );
}

#[test]
fn test_find_subtitle_track_first_wins() {
    let page = r#""captionTracks":[{"vssId":".en","baseUrl":"first"},{"vssId":"a.en","baseUrl":"second"}]"#;
    let tracks = parse_caption_tracks(page).unwrap();
    let track = find_subtitle_track(&tracks, "en").unwrap();
    assert_eq!(track.base_url.as_deref(), Some("first"));
}

#[test]
fn test_decode_single_element() {
    let doc = r#"<text start="1.5" dur="2.0">Hello&#39;s&amp;world</text>"#;
    let captions = parse_captions(doc).unwrap();
    assert_eq!(captions.len(), 1);
    assert_eq!(captions[0].start, "1.5");
    assert_eq!(captions[0].dur, "2.0");
    assert_eq!(captions[0].start.parse::<f64>().unwrap(), 1.5);
    assert_eq!(captions[0].dur.parse::<f64>().unwrap(), 2.0);
    assert_eq!(captions[0].text, "Hello's&world");
}

#[test]
fn test_decode_newline_becomes_space() {
    let doc = "<text start=\"0.5\" dur=\"1\">one\ntwo</text>";
    let captions = parse_captions(doc).unwrap();
    assert_eq!(captions.len(), 1);
    assert_eq!(captions[0].text, "one two");
    assert!(!captions[0].text.contains('\n'));
}

#[test]
fn test_decode_encoded_newline_becomes_space() {
    // A newline that only appears after entity decoding is replaced too.
    let doc = r#"<text start="0" dur="1">one&#10;two</text>"#;
    let captions = parse_captions(doc).unwrap();
    assert_eq!(captions[0].text, "one two");
}

#[test]
fn test_decode_empty_document() {
    assert_eq!(parse_captions("").unwrap().len(), 0);
    assert_eq!(parse_captions("<transcript></transcript>").unwrap().len(), 0);
}

#[test]
fn test_decode_malformed_number_fails() {
    let doc = r#"<text start="1.2.3" dur="2.0">x</text>"#;
    assert_eq!(
        parse_captions(doc).unwrap_err(),
        Error::TimedTextParseFailure
    );
    let doc2 = r#"<text start="." dur="2.0">x</text>"#;
    assert_eq!(
        parse_captions(doc2).unwrap_err(),
        Error::TimedTextParseFailure
    );
}

#[test]
fn test_decode_document_order_and_attrs() {
    let doc = "<transcript><text start=\"0.0\" dur=\"1.0\" w:st=\"x\">first</text>\n<text start=\"1.0\" dur=\"2.5\">second &amp; last</text></transcript>";
    let captions = parse_captions(doc).unwrap();
    assert_eq!(captions.len(), 2);
    assert_eq!(captions[0].text, "first");
    assert_eq!(captions[1].start, "1.0");
    assert_eq!(captions[1].text, "second & last");
}

#[test]
fn test_decode_double_encoded_apostrophe() {
    // The literal pass runs after entity decoding: a double-encoded
    // apostrophe escape still becomes an apostrophe.
    let doc = r#"<text start="0" dur="1">it&amp;#39;s</text>"#;
    let captions = parse_captions(doc).unwrap();
    assert_eq!(captions[0].text, "it's");
}

#[test]
fn test_decode_empty_inner_text() {
    let doc = r#"<text start="3" dur="0.01"></text>"#;
    let captions = parse_captions(doc).unwrap();
    assert_eq!(captions.len(), 1);
    assert_eq!(captions[0].text, "");
}

#[test]
fn test_primary_subtag() {
    assert_eq!(yt_text::primary_subtag("en-US"), "en");
    assert_eq!(yt_text::primary_subtag("de"), "de");
    assert_eq!(yt_text::primary_subtag("pt-BR-x-abc"), "pt");
    assert_eq!(yt_text::primary_subtag(""), "");
}
