use svg_toolkit::chapter::MacroIndex;
use svg_toolkit::chapter_page::chapter_from_nodes;
use svg_toolkit::html::{HtmlNode, HtmlTag};
use svg_toolkit::lifecycle_prose::{extract_from_nodes, overview_from_nodes};

fn tag(name: &str, attributes: &[(&str, &str)], children: Vec<u32>) -> HtmlNode {
    HtmlNode::Tag(HtmlTag {
        name: name.to_owned(),
        attributes: attributes.iter().map(|(k, v)| ((*k).to_owned(), Some((*v).to_owned()))).collect(),
        bounds: (0, 0),
        children,
    })
}

#[test]
fn overview_nodes_give_linked_chapter_pages_in_name_order() {
    let nodes = vec![
        tag("a", &[("href", "shapes.html#intro")], vec![]),
        tag("a", &[("href", "paths.html")], vec![]),
        tag("a", &[("href", "https://example.test/x.html")], vec![]),
    ];
    let pages = overview_from_nodes(&nodes, "base/").ok().expect("pages");
    assert_eq!(pages, vec!["paths.html".to_owned(), "shapes.html".to_owned()]);
    match overview_from_nodes(&Vec::new(), "base/") {
        Err(e) => assert_eq!(e.message, "base/: no chapters discovered for lifecycle extraction"),
        Ok(_) => panic!("error expected"),
    }
}

#[test]
fn a_page_without_declarations_gives_none() {
    let nodes = vec![tag("div", &[], vec![1]), HtmlNode::Raw("text".to_owned())];
    assert!(extract_from_nodes(&nodes, "page.html").ok().expect("declarations").is_empty());
}

#[test]
fn chapter_nodes_record_anchors_with_heading_text() {
    let nodes = vec![
        tag("h2", &[("id", "intro")], vec![1]),
        HtmlNode::Raw("  Intro\n text ".to_owned()),
        tag("span", &[("id", "x")], vec![]),
    ];
    let macros = MacroIndex { element_categories: Vec::new(), attribute_categories: Vec::new() };
    let chapter = chapter_from_nodes("shapes", &nodes, &macros);
    assert_eq!(chapter.name, "shapes");
    assert_eq!(chapter.anchors.len(), 2);
    assert_eq!(chapter.anchors[0].id, "intro");
    assert_eq!(chapter.anchors[0].tag, "h2");
    assert_eq!(chapter.anchors[0].text.as_deref(), Some("Intro text"));
    assert_eq!(chapter.anchors[1].id, "x");
    assert_eq!(chapter.anchors[1].text, None);
}
