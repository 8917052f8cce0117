use evtap::tokens::{describe_text_token, rendered_text_token, TextTokenContext};

#[test]
fn text_descriptions_cover_whitespace_unicode_and_sequences() {
    let tab = describe_text_token("\t", TextTokenContext::ProducedText);
    assert_eq!(tab.visible, "Tab");
    assert_eq!(tab.escaped, "\"\\t\"");
    assert_eq!(tab.code_points, "U+0009");
    assert!(tab.accessible_label.contains("Produced text: Tab"));

    let nbsp = describe_text_token("\u{00A0}", TextTokenContext::ProducedText);
    assert_eq!(nbsp.visible, "Non-breaking space");
    assert_eq!(nbsp.code_points, "U+00A0");
    assert_eq!(nbsp.unicode_names, "NO-BREAK SPACE");

    let sequence = describe_text_token("e\u{301}", TextTokenContext::PhysicalKey);
    assert_eq!(sequence.visible, "e\u{301}");
    assert_eq!(sequence.code_points, "U+0065 U+0301");
    assert_eq!(sequence.unicode_names, "LATIN SMALL LETTER E + COMBINING ACUTE ACCENT");
    assert!(sequence.accessible_label.starts_with("Physical key identity:"));
}

#[test]
fn unsupported_printable_glyphs_use_code_point_fallback() {
    let description = describe_text_token("🜁", TextTokenContext::ProducedText);
    assert_eq!(rendered_text_token(&description, true), "🜁");
    assert_eq!(rendered_text_token(&description, false), "U+1F701");

    let whitespace = describe_text_token(" ", TextTokenContext::ProducedText);
    assert_eq!(rendered_text_token(&whitespace, false), "Space");
}

#[test]
fn escapes_match_escape_default() {
    for value in ["a\"b", "\\", "'", "\r\n", "\u{7f}", "🜁", "é", "~ "] {
        let expected = format!("\"{}\"", value.chars().flat_map(char::escape_default).collect::<String>());
        assert_eq!(describe_text_token(value, TextTokenContext::ProducedText).escaped, expected);
    }
}

#[test]
fn empty_and_control_texts_are_not_printable() {
    let empty = describe_text_token("", TextTokenContext::ProducedText);
    assert_eq!(empty.code_points, "(empty)");
    assert_eq!(empty.unicode_names, "(none)");
    assert_eq!(empty.visible, "Empty text");
    assert!(!empty.printable);
    assert_eq!(empty.accessible_label, "Produced text: Empty text");

    let bell = describe_text_token("\u{7}", TextTokenContext::ProducedText);
    assert!(!bell.printable);
    assert_eq!(bell.visible, "U+0007");
    assert_eq!(bell.escaped, "\"\\u{7}\"");
    assert_eq!(bell.accessible_label, "Produced text: U+0007");

    let letter = describe_text_token("a", TextTokenContext::ProducedText);
    assert!(letter.printable);
    assert_eq!(letter.accessible_label, "Produced text: a. LATIN SMALL LETTER A");
    assert_eq!(letter.context_label, "Produced text");
}
