use svg_toolkit::closing_tags::{closing_context, completion, open_tags_before, ClosingContext, SyntaxKind, SyntaxNode};

fn node(kind: SyntaxKind, depth: usize, start: usize, end: usize, name: Option<&str>) -> SyntaxNode {
    SyntaxNode { kind, depth, start, end, explicit_close: true, name: name.map(str::to_owned) }
}

/// `<svg><g></g><rect></` as a tree: the document, an element holding the
/// others, and its tags in order.
fn document() -> (Vec<u8>, Vec<SyntaxNode>) {
    let source = b"<svg><g></g><rect></".to_vec();
    let nodes = vec![
        node(SyntaxKind::Other, 0, 0, 20, None),
        node(SyntaxKind::Other, 1, 0, 20, None),
        node(SyntaxKind::StartTag, 2, 0, 5, Some("svg")),
        node(SyntaxKind::Other, 2, 5, 12, None),
        node(SyntaxKind::StartTag, 3, 5, 8, Some("g")),
        node(SyntaxKind::EndTag, 3, 8, 12, Some("g")),
        node(SyntaxKind::StartTag, 2, 12, 18, Some("rect")),
        node(SyntaxKind::Other, 2, 18, 20, None),
    ];
    (source, nodes)
}

#[test]
fn reads_the_closing_tag_being_typed() {
    assert_eq!(
        closing_context(b"<a></", 5),
        ClosingContext::Name { start: 3, name_start: 5, name_end: 5, has_bracket: false }
    );
    assert_eq!(
        closing_context(b"<a></a >", 5),
        ClosingContext::Name { start: 3, name_start: 5, name_end: 6, has_bracket: true }
    );
    assert_eq!(closing_context(b"<a></a x", 8), ClosingContext::Suppressed);
    assert_eq!(closing_context(b"<a></a>x", 8), ClosingContext::NotClosing);
    assert_eq!(closing_context(b"<a>", 3), ClosingContext::NotClosing);
    assert_eq!(closing_context(b"<a", 9), ClosingContext::NotClosing);
}

#[test]
fn open_tags_skip_closed_elements() {
    let (_, nodes) = document();
    assert_eq!(open_tags_before(&nodes, 18), Some(vec![2, 6]));
    assert_eq!(open_tags_before(&nodes, 10), None);
    let mut stray = nodes;
    stray[7] = node(SyntaxKind::OpenDelimiter, 2, 18, 19, None);
    assert_eq!(open_tags_before(&stray, 20), None);
}

#[test]
fn suggests_the_innermost_open_element() {
    let (source, nodes) = document();
    let edits = completion(&source, 20, true, &nodes, true).expect("a closing context");
    assert_eq!(edits.len(), 1);
    assert_eq!(edits[0].label, "rect");
    assert_eq!((edits[0].name_start, edits[0].name_end), (20, 20));
    assert_eq!(edits[0].new_text, "rect>");
    assert!(completion(&source, 20, false, &nodes, true).expect("context").is_empty());
    assert!(completion(&source, 20, true, &nodes, false).expect("context").is_empty());
    assert!(completion(&source, 3, true, &nodes, true).is_none());
}
