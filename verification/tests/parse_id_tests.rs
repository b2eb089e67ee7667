use yt_text::parse_id;

#[test]
fn test_parse_id() {
    let test_cases = vec![
        ("https://www.youtube.com/watch?v=xpUtDk79dww", "xpUtDk79dww"),
        ("http://www.youtube.com/watch?v=xpUtDk79dww", "xpUtDk79dww"),
        ("https://youtube.com/watch?v=xpUtDk79dww", "xpUtDk79dww"),
        ("http://youtube.com/watch?v=xpUtDk79dww", "xpUtDk79dww"),
        ("https://youtu.be/xpUtDk79dww", "xpUtDk79dww"),
        ("http://youtu.be/xpUtDk79dww", "xpUtDk79dww"),
        (
            "https://www.youtube.com/watch?v=xpUtDk79dww&feature=share",
            "xpUtDk79dww",
        ),
        (
            "https://youtu.be/xpUtDk79dww?si=9FP8TtAI2kYzpdrC",
            "xpUtDk79dww",
        ),
        ("xpUtDk79dww", "xpUtDk79dww"), // Direct video ID
    ];

    for (input, expected) in test_cases {
        let result = parse_id(input)
            .unwrap_or_else(|_| panic!("Failed to parse ID from input: {input}"));
        assert_eq!(result, expected, "Mismatch for input: {input}");
    }
}

#[test]
fn test_parse_id_invalid_input() {
    let invalid_inputs = vec![
        "https://www.example.com",
        "https://youtube.com",
        "https://youtu.be",
        "xpUtDk79dw",   // Too short
        "xpUtDk79dwww", // Too long
        "xpUtDk79dw!",  // Invalid character
    ];

    for input in invalid_inputs {
        assert!(
            parse_id(input).is_err(),
            "Expected error for input: {input}"
        );
    }
}

#[test]
fn test_parse_id_direct_alphabet_edges() {
    // Underscore and hyphen belong to the identifier alphabet.
    assert_eq!(parse_id("abc-DEF_012").unwrap(), "abc-DEF_012");
    assert_eq!(parse_id("AAAAAAAAAAA").unwrap(), "AAAAAAAAAAA");
}

#[test]
fn test_parse_id_rejects_direct_mismatch() {
    assert_eq!(parse_id("").unwrap_err(), yt_text::Error::InvalidIdentifier);
    assert_eq!(
        parse_id("xpUtDk79dw!").unwrap_err(),
        yt_text::Error::InvalidIdentifier
    );
}

#[test]
fn test_parse_id_embedded_url() {
    // The URL shape may stand anywhere in the input; the leftmost match wins.
    assert_eq!(
        parse_id("see youtu.be/xpUtDk79dww and youtu.be/AAAAAAAAAAA").unwrap(),
        "xpUtDk79dww"
    );
    // Without a scheme and without www.
    assert_eq!(parse_id("youtube.com/watch?v=xpUtDk79dww").unwrap(), "xpUtDk79dww");
    assert_eq!(parse_id("www.youtu.be/xpUtDk79dww").unwrap(), "xpUtDk79dww");
}

#[test]
fn test_parse_id_url_id_too_short() {
    // The captured group re-validates the length on its own.
    assert!(parse_id("https://youtu.be/shortid").is_err());
}
