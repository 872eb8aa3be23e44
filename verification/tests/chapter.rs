use svg_toolkit::chapter::{decode_entities, extract_property_definitions, value_keywords};
use svg_toolkit::chapter::{Chapter, MacroIndex};
use svg_toolkit::chapter_page::extract_chapter;

#[test]
fn value_keywords_keeps_only_bare_keywords() {
    assert_eq!(
        value_keywords("start | middle | end"),
        ["start", "middle", "end"]
    );
    assert_eq!(value_keywords("auto | <length-percentage>"), ["auto"]);
    assert_eq!(value_keywords("<paint>"), Vec::<String>::new());
    assert_eq!(value_keywords("nonzero | evenodd"), ["nonzero", "evenodd"]);
}

#[test]
fn decode_entities_handles_named_and_numeric() {
    assert_eq!(decode_entities("a&lt;b&gt;c"), "a<b>c");
    assert_eq!(decode_entities("&amp;&quot;"), "&\"");
    assert_eq!(decode_entities("x&#65;y"), "xAy");
    assert_eq!(decode_entities("x&#x41;y"), "xAy");
    assert_eq!(decode_entities("plain text"), "plain text");
    // Unrecognized entity body is left verbatim.
    assert_eq!(decode_entities("a&bogus;b"), "a&bogus;b");
}

#[test]
fn extracts_bikeshed_propdef_tables_with_optional_cell_closures() {
    let html = r#"
<table class="data"><tr><th>Other<td>ignored</table>
<table class="def propdef" data-link-for-hint="clip-rule">
  <tbody>
    <tr>
      <th>Name:
      <td><dfn class="css" id="propdef-clip-rule">clip-rule</dfn>
    <tr class="value">
      <th>Value:
      <td class="prod">nonzero | evenodd
    <tr>
      <th>Animation type:
      <td>discrete
  </table>"#;
    let properties = extract_property_definitions(html);

    assert_eq!(properties.len(), 1);
    let prop = &properties[0];
    assert_eq!(prop.name, "clip-rule");
    assert_eq!(prop.id.as_deref(), Some("propdef-clip-rule"));
    assert_eq!(prop.value.as_deref(), Some("nonzero | evenodd"));
    assert_eq!(prop.keywords, ["nonzero", "evenodd"]);
    assert_eq!(prop.animation_type.as_deref(), Some("discrete"));
}

#[test]
fn extracts_css2_propinfo_blocks() {
    let html = r#"
<div class="propdef">
<dl><dt>
<span class="index-def" title="'display'"><a name="propdef-display" class="propdef-title"><strong>'display'</strong></a></span>
<dd>
<table class="propinfo" cellspacing=0 cellpadding=0>
<tr valign=baseline><td><em>Value:</em>&nbsp;&nbsp;<td>inline | block | list-item | inline-block |
table | inline-table | table-row-group | table-header-group |
table-footer-group | table-row | table-column-group | table-column |
table-cell | table-caption | none | <a href="cascade.html#value-def-inherit" class="noxref"><span class="value-inst-inherit">inherit</span></a>
<tr valign=baseline><td><em>Initial:</em>&nbsp;&nbsp;<td>inline
<tr valign=baseline><td><em>Inherited:</em>&nbsp;&nbsp;<td>no
</table>
</dl>
</div>"#;
    let properties = extract_property_definitions(html);

    assert_eq!(properties.len(), 1);
    let prop = &properties[0];
    assert_eq!(prop.name, "display");
    assert_eq!(prop.id.as_deref(), Some("propdef-display"));
    assert!(prop.keywords.contains(&"inline-block".to_owned()));
    assert!(prop.keywords.contains(&"inherit".to_owned()));
    assert!(!prop.keywords.contains(&"run-in".to_owned()));
    assert_eq!(prop.initial.as_deref(), Some("inline"));
    assert_eq!(prop.inherited.as_deref(), Some("no"));
}

#[test]
fn a_propdef_table_without_a_name_row_is_skipped() {
    let html = r#"<table class="propdef"><tr><th>Value:<td>a | b</table>
<table class="PROPDEF"><tr><th>name:<td>fill<tr><th>Initial:<td>black</table>"#;
    let properties = extract_property_definitions(html);
    assert_eq!(properties.len(), 1);
    assert_eq!(properties[0].name, "fill");
    assert_eq!(properties[0].id, None);
    assert_eq!(properties[0].value, None);
    assert!(properties[0].keywords.is_empty());
    assert_eq!(properties[0].initial.as_deref(), Some("black"));
}

const PAGE: &str = r#"<h2 id="Shapes">Basic <span>Shapes</span></h2>
<p>Shapes are graphical elements.</p>
<dl class="definitions">
  <dt><dfn id="term-shape" data-dfn-type="dfn">shape</dfn></dt>
  <dd>A graphics element with a defined outline.</dd>
</dl>
<table class="propdef def">
  <tr><th>Name:</th><td><dfn id="TextAnchor" data-dfn-type="property">text-anchor</dfn></td></tr>
  <tr><th>Value:</th><td>start | middle | end</td></tr>
  <tr><th>Initial:</th><td>start</td></tr>
  <tr><th>Inherited:</th><td>yes</td></tr>
</table>
<p>The <a>'text-anchor'</a> property aligns text.</p>
<dl class="attrdef-list">
  <dt><table><tr><td><dfn id="DemoAttribute">demo</dfn></td></tr></table></dt>
  <dd>The demo attribute controls demo behavior.</dd>
</dl>
<dl class="attrdef-list-svg2">
  <dt id="DirectAttribute"><span class="adef">direct</span></dt>
  <dd><p>The direct attribute uses its dt id.</p><dl><dt>Value</dt><dd>number</dd></dl></dd>
</dl>
<edit:example href='images/x.svg' image='no'/>"#;

fn no_macros() -> MacroIndex {
    MacroIndex { element_categories: vec![], attribute_categories: vec![] }
}

fn described<'a>(ch: &'a Chapter, id: &str) -> Option<&'a str> {
    ch.anchor_descriptions
        .iter()
        .rev()
        .find(|d| d.id == id)
        .map(|d| d.description.as_str())
}

#[test]
fn extracts_chapter_entities() {
    let ch = extract_chapter("shapes", PAGE, &no_macros()).expect("parsed");
    let shapes = ch.anchors.iter().find(|a| a.id == "Shapes").expect("no Shapes anchor");
    assert_eq!(shapes.tag, "h2");
    assert_eq!(shapes.text.as_deref(), Some("Basic Shapes"));

    assert_eq!(ch.examples.len(), 1);
    assert_eq!(ch.examples[0].href.as_deref(), Some("images/x.svg"));
    assert_eq!(ch.examples[0].image.as_deref(), Some("no"));

    assert_eq!(ch.properties.len(), 1);
    let prop = &ch.properties[0];
    assert_eq!(prop.name, "text-anchor");
    assert_eq!(prop.id.as_deref(), Some("TextAnchor"));
    assert_eq!(prop.value.as_deref(), Some("start | middle | end"));
    assert_eq!(prop.keywords, ["start", "middle", "end"]);
    assert_eq!(prop.initial.as_deref(), Some("start"));
    assert_eq!(prop.inherited.as_deref(), Some("yes"));

    assert_eq!(ch.term_definitions.len(), 1);
    let term = &ch.term_definitions[0];
    assert_eq!(term.term, "shape");
    assert_eq!(term.id.as_deref(), Some("term-shape"));
    assert_eq!(term.kind.as_deref(), Some("dfn"));
    assert_eq!(term.description, "A graphics element with a defined outline.");

    assert_eq!(described(&ch, "Shapes"), Some("Shapes are graphical elements."));
    assert_eq!(described(&ch, "TextAnchor"), Some("The 'text-anchor' property aligns text."));
    assert_eq!(
        described(&ch, "DemoAttribute"),
        Some("The demo attribute controls demo behavior.")
    );
    assert_eq!(described(&ch, "DirectAttribute"), Some("The direct attribute uses its dt id."));
}

#[test]
fn property_descriptions_skip_value_explanation_boilerplate() {
    let html = r#"<h3 id="DashSection">Dash section</h3>
<table class="propdef">
  <tr><th>Name:</th><td><dfn id="DashProperty">stroke-dasharray</dfn></td></tr>
  <tr><th>Value:</th><td>none | &lt;dasharray&gt;</td></tr>
</table>
<p>where:</p>
<p class="definition prod">&lt;dasharray&gt; = [ &lt;number&gt;+ ]#</p>
<p>The 'stroke-dasharray' property controls the pattern of dashes and gaps.</p>
<h3 id="AnchorSection">Anchor section</h3>
<p>The 'text-anchor' property aligns text relative to a point.</p>
<table class="propdef">
  <tr><th>Name:</th><td><dfn id="AnchorProperty">text-anchor</dfn></td></tr>
  <tr><th>Value:</th><td>start | middle | end</td></tr>
</table>
<p>Values have the following meanings:</p>"#;
    let ch = extract_chapter("text", html, &no_macros()).expect("parsed");
    assert_eq!(
        described(&ch, "DashProperty"),
        Some("The 'stroke-dasharray' property controls the pattern of dashes and gaps.")
    );
    assert_eq!(
        described(&ch, "AnchorProperty"),
        Some("The 'text-anchor' property aligns text relative to a point.")
    );
}

#[test]
fn decodes_entities_in_value_grammar() {
    let html = r#"<table class="propdef">
  <tr><th>Name:</th><td><dfn id="P">inline-size</dfn></td></tr>
  <tr><th>Value:</th><td>auto | <a>&lt;length-percentage&gt;</a></td></tr>
</table>"#;
    let ch = extract_chapter("text", html, &no_macros()).expect("parsed");
    assert_eq!(ch.properties.len(), 1);
    assert_eq!(ch.properties[0].value.as_deref(), Some("auto | <length-percentage>"));
    assert_eq!(ch.properties[0].keywords, ["auto"]);
}

#[test]
fn extracts_legacy_css_propdef_tables_with_td_labels() {
    let html = r#"<table class="propdef">
  <tr><td>Name:</td><td><dfn id="propdef-font-style">font-style</dfn></td></tr>
  <tr><td>Value:</td><td>normal | italic | oblique</td></tr>
  <tr><td>Animation type:</td><td>no</td></tr>
</table>"#;
    let ch = extract_chapter("css-fonts-3", html, &no_macros()).expect("parsed");
    assert_eq!(ch.properties.len(), 1);
    let prop = &ch.properties[0];
    assert_eq!(prop.name, "font-style");
    assert_eq!(prop.id.as_deref(), Some("propdef-font-style"));
    assert_eq!(prop.value.as_deref(), Some("normal | italic | oblique"));
    assert_eq!(prop.keywords, ["normal", "italic", "oblique"]);
    assert_eq!(prop.animation_type.as_deref(), Some("no"));
}

#[test]
fn expands_category_macro_in_description() {
    let html = r"<dl class='definitions'>
  <dt><dfn id='c' data-dfn-type='dfn'>container element</dfn></dt>
  <dd>An element. Specifically: <edit:elementcategory name='container'/>.</dd>
</dl>";
    let macros = MacroIndex {
        element_categories: vec![(
            "container".to_owned(),
            vec!["svg".to_owned(), "g".to_owned(), "defs".to_owned()],
        )],
        attribute_categories: vec![],
    };
    let ch = extract_chapter("struct", html, &macros).expect("parsed");
    assert_eq!(ch.term_definitions.len(), 1);
    assert_eq!(ch.term_definitions[0].description, "An element. Specifically: svg, g, defs.");
}

#[test]
fn dfn_terms_and_heading_anchors_are_recorded() {
    let html = r#"<h3 id="A">Alpha &amp; beta</h3><p>Intro.</p><dfn id="d1" data-dfn-type="element">rect</dfn>
<edit:elementsummary/><p>Not attached.</p>"#;
    let ch = extract_chapter("x", html, &no_macros()).expect("parsed");
    assert_eq!(ch.name, "x");
    assert_eq!(ch.anchors[0].text.as_deref(), Some("Alpha & beta"));
    assert_eq!(ch.anchors[1].id, "d1");
    assert_eq!(ch.anchors[1].tag, "dfn");
    assert!(ch.anchors[1].text.is_none());
    assert_eq!(ch.dfns.len(), 1);
    assert_eq!(ch.dfns[0].term, "rect");
    assert_eq!(ch.dfns[0].kind.as_deref(), Some("element"));
    assert_eq!(described(&ch, "A"), Some("Intro."));
    assert_eq!(ch.anchor_descriptions.len(), 1);
}
