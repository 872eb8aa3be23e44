use svg_toolkit::plain_text::to_plain_text;

#[test]
fn plain_text_drops_markdown_syntax_but_keeps_the_words() {
    assert_eq!(
        to_plain_text("**Baseline** `stroke-width` is fine"),
        "Baseline stroke-width is fine"
    );
}

#[test]
fn plain_text_keeps_a_link_and_where_it_goes() {
    assert_eq!(
        to_plain_text("See [the spec](https://www.w3.org/TR/SVG2/) for more"),
        "See the spec (https://www.w3.org/TR/SVG2/) for more"
    );
}

#[test]
fn plain_text_reduces_an_image_to_what_it_describes() {
    assert_eq!(
        to_plain_text("![Baseline Widely available](https://example.invalid/b.svg)"),
        "Baseline Widely available"
    );
}

#[test]
fn plain_text_drops_italics_and_strikethrough() {
    assert_eq!(
        to_plain_text("![Baseline icon](data:x) _Widely Available since 2018_"),
        "Baseline icon Widely Available since 2018"
    );
    assert_eq!(
        to_plain_text("~~Use `stroke-width` instead~~"),
        "Use stroke-width instead"
    );
}

#[test]
fn plain_text_never_renames_a_css_identifier() {
    assert_eq!(
        to_plain_text("`--_accent` is defined here"),
        "--_accent is defined here"
    );
    assert_eq!(
        to_plain_text("Defined as:\n```css\n._icon { fill: red }\n```\n"),
        "Defined as:\n._icon { fill: red }\n"
    );
    assert_eq!(
        to_plain_text("`.trailing_` and `._leading`"),
        ".trailing_ and ._leading"
    );
    assert_eq!(to_plain_text("`a **b** _c_ ~~d~~`"), "a **b** _c_ ~~d~~");
}

#[test]
fn plain_text_unwraps_markdown_escapes() {
    assert_eq!(
        to_plain_text("Chrome 1\\. See note\\_1\\."),
        "Chrome 1. See note_1."
    );
}

#[test]
fn an_escaped_delimiter_neither_opens_nor_closes() {
    assert_eq!(to_plain_text(r"_foo\_bar_"), "foo_bar");
    assert_eq!(to_plain_text(r"\_notemphasis\_"), "_notemphasis_");
    assert_eq!(to_plain_text(r"\*not bold\*"), "*not bold*");
}

#[test]
fn plain_text_keeps_words_that_contain_underscores() {
    assert_eq!(
        to_plain_text("A media_query_list value"),
        "A media_query_list value"
    );
    assert_eq!(
        to_plain_text("_emphasis_ around media_query_list text"),
        "emphasis around media_query_list text"
    );
    assert_eq!(
        to_plain_text("media_query_list and _real_ emphasis"),
        "media_query_list and real emphasis"
    );
}

#[test]
fn plain_text_drops_the_blockquote_marker() {
    assert_eq!(
        to_plain_text("> \u{2713} `rect` — safe to use"),
        "\u{2713} rect — safe to use"
    );
    assert_eq!(to_plain_text("a > b"), "a > b");
}

#[test]
fn a_code_span_is_closed_by_a_run_of_its_own_length() {
    assert_eq!(to_plain_text("value ```x``` and more"), "value x and more");
    assert_eq!(to_plain_text("plain `code` here"), "plain code here");
}

#[test]
fn plain_text_stays_linear_against_hostile_delimiters() {
    for hostile in [
        "`".repeat(200_000),
        "_".repeat(200_000),
        format!("{}tail", "_ ".repeat(100_000)),
        format!("`{}", "x".repeat(200_000)),
    ] {
        let started = std::time::Instant::now();
        let _ = to_plain_text(&hostile);
        assert!(
            started.elapsed() < std::time::Duration::from_secs(2),
            "conversion should stay linear, took {:?}",
            started.elapsed()
        );
    }
}

#[test]
fn plain_text_keeps_an_underscore_that_is_part_of_a_word() {
    assert_eq!(
        to_plain_text("`--brand_accent` is defined here"),
        "--brand_accent is defined here"
    );
}

#[test]
fn plain_text_unwraps_a_fenced_block_without_leaving_its_language() {
    assert_eq!(
        to_plain_text("Defined as:\n```css\n.a { fill: red }\n```\n"),
        "Defined as:\n.a { fill: red }\n"
    );
}

#[test]
fn plain_text_does_not_rescan_for_every_unclosed_bracket() {
    let hostile = "[".repeat(200_000);
    let started = std::time::Instant::now();
    let out = to_plain_text(&hostile);
    assert_eq!(out, hostile, "unpaired brackets are just characters");
    assert!(
        started.elapsed() < std::time::Duration::from_secs(2),
        "conversion should stay linear, took {:?}",
        started.elapsed()
    );
}

#[test]
fn plain_text_counts_parentheses_inside_a_target() {
    assert_eq!(
        to_plain_text("[swatch](data:image/svg+xml,%3Csvg%20fill%3Drgb(1,2,3)%3E)"),
        "swatch (data:image/svg+xml,%3Csvg%20fill%3Drgb(1,2,3)%3E)"
    );
}

#[test]
fn plain_text_leaves_unpaired_brackets_alone() {
    assert_eq!(to_plain_text("an [unclosed link"), "an [unclosed link");
    assert_eq!(to_plain_text("array[0] of them"), "array[0] of them");
}

#[test]
fn plain_text_passes_multi_byte_characters_through() {
    assert_eq!(to_plain_text("**élan** — `stroke` ✓"), "élan — stroke ✓");
}

#[test]
fn plain_text_leaves_markup_free_text_alone() {
    let text = "Specifies the XML version used by the document declaration.";
    assert_eq!(to_plain_text(text), text);
}

#[test]
fn plain_text_turns_an_autolink_into_its_url() {
    assert_eq!(
        to_plain_text("<https://example.com/_draft_>"),
        "https://example.com/_draft_"
    );
    assert_eq!(to_plain_text("a < b and c > d"), "a < b and c > d");
    assert_eq!(to_plain_text("<not a url>"), "<not a url>");
    assert_eq!(to_plain_text("<https://unclosed"), "<https://unclosed");
}

#[test]
fn plain_text_drops_a_thematic_break_and_its_blank_line() {
    assert_eq!(to_plain_text("a\n\n---\n\nb"), "a\n\nb");
}
