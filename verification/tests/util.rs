use svg_toolkit::util::{
    decode_html_entities, decode_html_entity, is_absolute_url, is_keyword_token, normalize_html_ws,
    normalize_ws, page_url, resolve_url, tag_open_end,
};

#[test]
fn decode_html_entities_handles_named_and_numeric() {
    assert_eq!(decode_html_entities("a&lt;b&gt;c").as_ref(), "a<b>c");
    assert_eq!(decode_html_entities("&amp;&quot;").as_ref(), "&\"");
    assert_eq!(decode_html_entities("x&#65;y").as_ref(), "xAy");
    assert_eq!(decode_html_entities("x&#x41;y").as_ref(), "xAy");
    assert_eq!(decode_html_entities("x&#39;y").as_ref(), "x'y");
    assert_eq!(decode_html_entities("plain text").as_ref(), "plain text");
    assert_eq!(decode_html_entities("a&bogus;b").as_ref(), "a&bogus;b");
}

#[test]
fn text_without_ampersand_comes_back_borrowed() {
    assert!(matches!(decode_html_entities("plain text"), std::borrow::Cow::Borrowed("plain text")));
    assert!(matches!(decode_html_entities("a&bogus;b"), std::borrow::Cow::Owned(_)));
}

#[test]
fn normalize_html_ws_decodes_then_collapses() {
    assert_eq!(
        normalize_html_ws(" auto | &lt;length&gt;\n"),
        "auto | <length>"
    );
}

#[test]
fn normalize_ws_collapses_unicode_whitespace_runs() {
    assert_eq!(normalize_ws("  a \t\n b\u{a0}\u{2003}c  "), "a b c");
    assert_eq!(normalize_ws(""), "");
    assert_eq!(normalize_ws(" \n "), "");
    assert_eq!(normalize_ws("word"), "word");
}

#[test]
fn entity_edge_cases() {
    assert_eq!(decode_html_entity("nbsp"), Some('\u{a0}'));
    assert_eq!(decode_html_entity("apos"), Some('\''));
    assert_eq!(decode_html_entity("#X1F600"), Some('\u{1F600}'));
    assert_eq!(decode_html_entity("#+65"), Some('A'));
    assert_eq!(decode_html_entity("#xD800"), None);
    assert_eq!(decode_html_entity("#4294967296"), None);
    assert_eq!(decode_html_entity("#"), None);
    assert_eq!(decode_html_entity("#x"), None);
    assert_eq!(decode_html_entity("#1a"), None);
    assert_eq!(decode_html_entities("a & b; &amp"), "a & b; &amp");
    assert_eq!(decode_html_entities("&&lt;"), "&<");
}

#[test]
fn urls_resolve_against_their_base() {
    assert!(is_absolute_url("https://example.org/"));
    assert!(is_absolute_url("http://x"));
    assert!(!is_absolute_url("shapes.html#x"));
    assert_eq!(
        resolve_url("https://w3.org/TR/SVG2/", "shapes.html#x"),
        "https://w3.org/TR/SVG2/shapes.html#x"
    );
    assert_eq!(resolve_url("https://a/", "http://b/c"), "http://b/c");
    assert_eq!(page_url("https://a/b.html#frag#x"), "https://a/b.html");
    assert_eq!(page_url("https://a/b.html"), "https://a/b.html");
}

#[test]
fn keyword_tokens_are_bare_identifiers() {
    assert!(is_keyword_token("inline-block"));
    assert!(is_keyword_token("h1"));
    assert!(!is_keyword_token(""));
    assert!(!is_keyword_token("<length>"));
    assert!(!is_keyword_token("a b"));
}

#[test]
fn tag_open_end_skips_quoted_brackets() {
    let html = r#"<a title="x>y" href='>'>text"#;
    assert_eq!(tag_open_end(html, 0), Some(24));
    assert_eq!(tag_open_end("<a", 0), None);
    assert_eq!(tag_open_end("é<b>", 2), Some(5));
}

#[test]
fn normalize_ws_joins_the_whitespace_separated_words() {
    for text in ["  a \t\n b\u{a0}\u{2003}c  ", "", " \n ", "word", "x  y\u{3000}z\n"] {
        let out = normalize_ws(text);
        assert_eq!(out, text.split_whitespace().collect::<Vec<_>>().join(" "));
        assert_eq!(normalize_ws(&out), out);
        assert!(!out.starts_with(' ') && !out.ends_with(' ') && !out.contains("  "));
    }
}
