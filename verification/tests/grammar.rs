use svg_toolkit::grammar::CatalogCssGrammarEdgeKind::{Contains, Next};
use svg_toolkit::grammar::CatalogCssGrammarNodeKind::{Function, Group, Keyword, Operator, Root, Type};
use svg_toolkit::grammar::{css_grammar_graph, CatalogCssGrammarEdgeKind, CatalogCssGrammarNodeKind};

#[test]
fn value_grammar_becomes_a_graph_of_tokens() {
    let graph = css_grammar_graph("<number> | auto [ a || b ]# rgb( 1, 2 ) && x");
    let nodes: Vec<(u16, CatalogCssGrammarNodeKind, Option<&str>)> = graph
        .nodes
        .iter()
        .map(|n| (n.id, n.kind, n.text.as_deref()))
        .collect();
    assert_eq!(
        nodes,
        vec![
            (0, Root, None),
            (1, Type, Some("<number>")),
            (2, Operator, Some("|")),
            (3, Keyword, Some("auto")),
            (4, Group, None),
            (5, Keyword, Some("a")),
            (6, Operator, Some("||")),
            (7, Keyword, Some("b")),
            (8, Operator, Some("#")),
            (9, Function, Some("rgb")),
            (10, Operator, Some("&&")),
            (11, Keyword, Some("x")),
        ]
    );
    let edges: Vec<(u16, u16, CatalogCssGrammarEdgeKind)> =
        graph.edges.iter().map(|e| (e.from, e.to, e.kind)).collect();
    assert!(edges.contains(&(0, 4, Contains)));
    assert!(edges.contains(&(4, 5, Contains)));
    assert!(edges.contains(&(5, 6, Next)));
    assert!(edges.contains(&(4, 8, Next)));
    assert!(edges.contains(&(0, 8, Contains)));
    assert!(!edges.contains(&(4, 8, Contains)));
    for edge in &graph.edges {
        assert!(edge.from < edge.to);
    }
}

#[test]
fn an_unclosed_type_stops_the_scan() {
    let graph = css_grammar_graph("a <b");
    assert_eq!(graph.nodes.len(), 2);
    assert_eq!(graph.root, 0);
}
