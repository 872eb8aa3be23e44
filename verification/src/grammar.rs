//! The value-grammar graph of a CSS/SVG attribute value expression: type
//! references, keywords, functions, combinators and multipliers as nodes,
//! with containment and sequence edges.

use vstd::prelude::*;
use crate::text::{alnum, ascii_ws, chars_of, index_of, index_of_spec, is_alnum, is_ascii_ws, sub_vec, string_of};

verus! {

#[derive(Debug, Clone, Copy, PartialEq, Eq, Structural)]
pub enum CatalogCssGrammarNodeKind {
    Root,
    Type,
    Keyword,
    Function,
    Operator,
    Group,
}

#[derive(Debug, Clone, Copy, PartialEq, Eq, Structural)]
pub enum CatalogCssGrammarEdgeKind {
    /// The source node contains the target node.
    Contains,
    /// The target node follows the source node within the same container.
    Next,
}

#[derive(Debug, Clone)]
pub struct CatalogCssGrammarNode {
    pub id: u16,
    pub kind: CatalogCssGrammarNodeKind,
    pub text: Option<String>,
}

#[derive(Debug, Clone, Copy, PartialEq, Eq, Structural)]
pub struct CatalogCssGrammarEdge {
    pub from: u16,
    pub to: u16,
    pub kind: CatalogCssGrammarEdgeKind,
}

#[derive(Debug, Clone)]
pub struct CatalogCssGrammarGraph {
    pub root: u16,
    pub nodes: Vec<CatalogCssGrammarNode>,
    pub edges: Vec<CatalogCssGrammarEdge>,
}

/// A node as plain values.
pub struct NodeView {
    pub id: u16,
    pub kind: CatalogCssGrammarNodeKind,
    pub text: Option<Seq<char>>,
}

pub open spec fn node_view(n: CatalogCssGrammarNode) -> NodeView {
    NodeView {
        id: n.id,
        kind: n.kind,
        text: match n.text {
            Some(t) => Some(t@),
            None => None,
        },
    }
}

pub open spec fn node_views(v: Seq<CatalogCssGrammarNode>) -> Seq<NodeView> {
    v.map_values(|n: CatalogCssGrammarNode| node_view(n))
}

/// The container a token is being added to, and the last node added to it.
#[derive(Clone, Copy)]
pub struct Context {
    pub node_id: u16,
    pub last_child: Option<u16>,
}

/// The graph under construction.
pub struct GraphState {
    pub nodes: Seq<NodeView>,
    pub edges: Seq<CatalogCssGrammarEdge>,
    pub contexts: Seq<Context>,
}

pub open spec fn initial_state() -> GraphState {
    GraphState {
        nodes: seq![NodeView { id: 0, kind: CatalogCssGrammarNodeKind::Root, text: None }],
        edges: Seq::empty(),
        contexts: seq![Context { node_id: 0, last_child: None }],
    }
}

/// Add a node to the innermost container: it is contained by the container
/// and follows the container's previous child. Past `u16::MAX` nodes nothing
/// is added.
pub open spec fn push_node(
    st: GraphState,
    kind: CatalogCssGrammarNodeKind,
    text: Option<Seq<char>>,
) -> (GraphState, u16) {
    if st.nodes.len() > u16::MAX {
        (st, u16::MAX)
    } else {
        let id = st.nodes.len() as u16;
        let nodes = st.nodes.push(NodeView { id, kind, text });
        if st.contexts.len() == 0 {
            (GraphState { nodes, edges: st.edges, contexts: st.contexts }, id)
        } else {
            let current = st.contexts.last();
            let contains = CatalogCssGrammarEdge {
                from: current.node_id,
                to: id,
                kind: CatalogCssGrammarEdgeKind::Contains,
            };
            let edges = match current.last_child {
                Some(previous) => st.edges.push(contains).push(
                    CatalogCssGrammarEdge { from: previous, to: id, kind: CatalogCssGrammarEdgeKind::Next },
                ),
                None => st.edges.push(contains),
            };
            let contexts = st.contexts.update(
                st.contexts.len() - 1,
                Context { node_id: current.node_id, last_child: Some(id) },
            );
            (GraphState { nodes, edges, contexts }, id)
        }
    }
}

pub open spec fn is_operator_char(c: char) -> bool {
    c == '|' || c == ',' || c == '?' || c == '*' || c == '+' || c == '#' || c == '!'
}

pub open spec fn is_word_char(c: char) -> bool {
    is_alnum(c) || c == '-'
}

/// The end of the word starting at `i`.
pub open spec fn word_end(v: Seq<char>, i: int) -> int
    decreases v.len() - i,
{
    if i < 0 || i >= v.len() || !is_word_char(v[i]) {
        i
    } else {
        word_end(v, i + 1)
    }
}

/// Tokenize `v` from position `i` into the graph.
pub open spec fn scan(v: Seq<char>, i: int, st: GraphState) -> GraphState
    decreases v.len() - i,
{
    if i < 0 || i >= v.len() {
        st
    } else {
        let c = v[i];
        if is_ascii_ws(c) {
            scan(v, i + 1, st)
        } else if c == '<' {
            let e = index_of_spec(v, i, '>');
            if e < v.len() && e >= i {
                scan(
                    v,
                    e + 1,
                    push_node(st, CatalogCssGrammarNodeKind::Type, Some(v.subrange(i, e + 1))).0,
                )
            } else {
                st
            }
        } else if c == '[' {
            let (s1, id) = push_node(st, CatalogCssGrammarNodeKind::Group, None);
            scan(
                v,
                i + 1,
                GraphState {
                    nodes: s1.nodes,
                    edges: s1.edges,
                    contexts: s1.contexts.push(Context { node_id: id, last_child: None }),
                },
            )
        } else if c == ']' {
            scan(
                v,
                i + 1,
                if st.contexts.len() > 1 {
                    GraphState { nodes: st.nodes, edges: st.edges, contexts: st.contexts.drop_last() }
                } else {
                    st
                },
            )
        } else if c == '|' && i + 1 < v.len() && v[i + 1] == '|' {
            scan(v, i + 2, push_node(st, CatalogCssGrammarNodeKind::Operator, Some("||"@)).0)
        } else if c == '&' && i + 1 < v.len() && v[i + 1] == '&' {
            scan(v, i + 2, push_node(st, CatalogCssGrammarNodeKind::Operator, Some("&&"@)).0)
        } else if is_operator_char(c) {
            scan(v, i + 1, push_node(st, CatalogCssGrammarNodeKind::Operator, Some(seq![c])).0)
        } else if is_word_char(c) {
            let j = word_end(v, i);
            let text = v.subrange(i, j);
            if i < j && j < v.len() && v[j] == '(' {
                let k = index_of_spec(v, j, ')');
                let next = if k < v.len() {
                    k + 1
                } else {
                    v.len() as int
                };
                if next > i {
                    scan(v, next, push_node(st, CatalogCssGrammarNodeKind::Function, Some(text)).0)
                } else {
                    st
                }
            } else if i < j <= v.len() {
                scan(v, j, push_node(st, CatalogCssGrammarNodeKind::Keyword, Some(text)).0)
            } else {
                st
            }
        } else {
            scan(v, i + 1, st)
        }
    }
}

/// The grammar graph of a value expression.
pub open spec fn grammar_graph_spec(value: Seq<char>) -> GraphState {
    scan(value, 0, initial_state())
}

/// Node ids are positions, every edge runs from an earlier node to a later
/// one, and every open container and its last child are existing nodes.
pub open spec fn well_formed(st: GraphState) -> bool {
    &&& st.nodes.len() >= 1
    &&& forall|i: int| 0 <= i < st.nodes.len() && i <= u16::MAX ==> (#[trigger] st.nodes[i]).id == i
    &&& forall|i: int|
        0 <= i < st.edges.len() ==> (#[trigger] st.edges[i]).from < st.edges[i].to
            && st.edges[i].to < st.nodes.len()
    &&& forall|i: int|
        0 <= i < st.contexts.len() ==> (#[trigger] st.contexts[i]).node_id < st.nodes.len()
            && match st.contexts[i].last_child {
            Some(c) => st.contexts[i].node_id < c && c < st.nodes.len(),
            None => true,
        }
}

proof fn lemma_push_node(st: GraphState, kind: CatalogCssGrammarNodeKind, text: Option<Seq<char>>)
    requires
        well_formed(st),
    ensures
        well_formed(push_node(st, kind, text).0),
        push_node(st, kind, text).0.contexts.len() == st.contexts.len(),
        st.nodes.len() <= u16::MAX ==> push_node(st, kind, text).1 == st.nodes.len() && push_node(
            st,
            kind,
            text,
        ).0.nodes.len() == st.nodes.len() + 1,
{
    let r = push_node(st, kind, text).0;
    if st.nodes.len() <= u16::MAX && st.contexts.len() > 0 {
        let id = st.nodes.len();
        assert forall|i: int| 0 <= i < r.contexts.len() implies (#[trigger] r.contexts[i]).node_id
            < r.nodes.len() && match r.contexts[i].last_child {
            Some(c) => r.contexts[i].node_id < c && c < r.nodes.len(),
            None => true,
        } by {
            if i == st.contexts.len() - 1 {
                assert(st.contexts[i].node_id < id);
            } else {
                assert(r.contexts[i] == st.contexts[i]);
            }
        }
        assert forall|i: int| 0 <= i < r.edges.len() implies (#[trigger] r.edges[i]).from
            < r.edges[i].to && r.edges[i].to < r.nodes.len() by {
            if i >= st.edges.len() {
                let current = st.contexts.last();
                assert(st.contexts[st.contexts.len() - 1] == current);
            } else {
                assert(r.edges[i] == st.edges[i]);
            }
        }
        assert forall|i: int| 0 <= i < r.nodes.len() && i <= u16::MAX implies (
        #[trigger] r.nodes[i]).id == i by {
            if i < st.nodes.len() {
                assert(r.nodes[i] == st.nodes[i]);
            }
        }
    }
}

proof fn lemma_scan_well_formed(v: Seq<char>, i: int, st: GraphState)
    requires
        well_formed(st),
        st.contexts.len() >= 1,
    ensures
        well_formed(scan(v, i, st)),
    decreases v.len() - i,
{
    if 0 <= i < v.len() {
        let c = v[i];
        if is_ascii_ws(c) {
            lemma_scan_well_formed(v, i + 1, st);
        } else if c == '<' {
            let e = index_of_spec(v, i, '>');
            if e < v.len() && e >= i {
                let t = Some(v.subrange(i, e + 1));
                lemma_push_node(st, CatalogCssGrammarNodeKind::Type, t);
                lemma_scan_well_formed(v, e + 1, push_node(st, CatalogCssGrammarNodeKind::Type, t).0);
            }
        } else if c == '[' {
            lemma_push_node(st, CatalogCssGrammarNodeKind::Group, None);
            let (s1, id) = push_node(st, CatalogCssGrammarNodeKind::Group, None);
            let s2 = GraphState {
                nodes: s1.nodes,
                edges: s1.edges,
                contexts: s1.contexts.push(Context { node_id: id, last_child: None }),
            };
            if st.nodes.len() <= u16::MAX {
                assert forall|k: int| 0 <= k < s2.contexts.len() implies (
                #[trigger] s2.contexts[k]).node_id < s2.nodes.len() && match s2.contexts[k].last_child {
                    Some(x) => s2.contexts[k].node_id < x && x < s2.nodes.len(),
                    None => true,
                } by {
                    if k < s1.contexts.len() {
                        assert(s2.contexts[k] == s1.contexts[k]);
                    }
                }
                lemma_scan_well_formed(v, i + 1, s2);
            } else {
                assert(well_formed(s1));
                assert(id == u16::MAX);
                assert(s1.nodes.len() > u16::MAX);
                assert forall|k: int| 0 <= k < s2.contexts.len() implies (
                #[trigger] s2.contexts[k]).node_id < s2.nodes.len() && match s2.contexts[k].last_child {
                    Some(x) => s2.contexts[k].node_id < x && x < s2.nodes.len(),
                    None => true,
                } by {
                    if k < s1.contexts.len() {
                        assert(s2.contexts[k] == s1.contexts[k]);
                    }
                }
                lemma_scan_well_formed(v, i + 1, s2);
            }
        } else if c == ']' {
            let s1 = if st.contexts.len() > 1 {
                GraphState { nodes: st.nodes, edges: st.edges, contexts: st.contexts.drop_last() }
            } else {
                st
            };
            assert forall|k: int| 0 <= k < s1.contexts.len() implies (
            #[trigger] s1.contexts[k]).node_id < s1.nodes.len() && match s1.contexts[k].last_child {
                Some(x) => s1.contexts[k].node_id < x && x < s1.nodes.len(),
                None => true,
            } by {
                assert(s1.contexts[k] == st.contexts[k]);
            }
            lemma_scan_well_formed(v, i + 1, s1);
        } else if c == '|' && i + 1 < v.len() && v[i + 1] == '|' {
            lemma_push_node(st, CatalogCssGrammarNodeKind::Operator, Some("||"@));
            lemma_scan_well_formed(
                v,
                i + 2,
                push_node(st, CatalogCssGrammarNodeKind::Operator, Some("||"@)).0,
            );
        } else if c == '&' && i + 1 < v.len() && v[i + 1] == '&' {
            lemma_push_node(st, CatalogCssGrammarNodeKind::Operator, Some("&&"@));
            lemma_scan_well_formed(
                v,
                i + 2,
                push_node(st, CatalogCssGrammarNodeKind::Operator, Some("&&"@)).0,
            );
        } else if is_operator_char(c) {
            lemma_push_node(st, CatalogCssGrammarNodeKind::Operator, Some(seq![c]));
            lemma_scan_well_formed(
                v,
                i + 1,
                push_node(st, CatalogCssGrammarNodeKind::Operator, Some(seq![c])).0,
            );
        } else if is_word_char(c) {
            let j = word_end(v, i);
            let text = Some(v.subrange(i, j));
            if i < j && j < v.len() && v[j] == '(' {
                let k = index_of_spec(v, j, ')');
                let next = if k < v.len() {
                    k + 1
                } else {
                    v.len() as int
                };
                if next > i {
                    lemma_push_node(st, CatalogCssGrammarNodeKind::Function, text);
                    lemma_scan_well_formed(
                        v,
                        next,
                        push_node(st, CatalogCssGrammarNodeKind::Function, text).0,
                    );
                }
            } else if i < j <= v.len() {
                lemma_push_node(st, CatalogCssGrammarNodeKind::Keyword, text);
                lemma_scan_well_formed(v, j, push_node(st, CatalogCssGrammarNodeKind::Keyword, text).0);
            }
        } else {
            lemma_scan_well_formed(v, i + 1, st);
        }
    }
}

/// The value grammar graph is well formed: node ids are positions and every
/// edge runs from an earlier node to a later one.
pub proof fn lemma_grammar_graph_well_formed(value: Seq<char>)
    ensures
        well_formed(grammar_graph_spec(value)),
{
    let st = initial_state();
    assert(st.nodes[0].id == 0);
    lemma_scan_well_formed(value, 0, st);
}

/// Text is absent exactly on the root and on groups; the root is the first
/// node and no other node is a root.
pub open spec fn texts_by_kind(st: GraphState) -> bool {
    &&& st.nodes.len() >= 1
    &&& st.nodes[0].kind == CatalogCssGrammarNodeKind::Root
    &&& forall|i: int|
        1 <= i < st.nodes.len() ==> (#[trigger] st.nodes[i]).kind != CatalogCssGrammarNodeKind::Root
    &&& forall|i: int|
        0 <= i < st.nodes.len() ==> ((#[trigger] st.nodes[i]).text is None <==> (st.nodes[i].kind
            == CatalogCssGrammarNodeKind::Root || st.nodes[i].kind == CatalogCssGrammarNodeKind::Group))
}

pub open spec fn contains_into(st: GraphState, i: int, j: int) -> bool {
    0 <= i < st.edges.len() && st.edges[i].kind == CatalogCssGrammarEdgeKind::Contains && st.edges[i].to == j
}

pub open spec fn has_container(st: GraphState, j: int) -> bool {
    exists|i: int| #[trigger] contains_into(st, i, j)
}

/// Every node but the root has exactly one containing edge, and nothing
/// contains the root.
pub open spec fn contained_once(st: GraphState) -> bool {
    &&& forall|i: int| #[trigger] contains_into(st, i, 0) ==> false
    &&& forall|j: int| 1 <= j < st.nodes.len() ==> #[trigger] has_container(st, j)
    &&& forall|i1: int, i2: int, j: int|
        #[trigger] contains_into(st, i1, j) && #[trigger] contains_into(st, i2, j) ==> i1 == i2
}

spec fn shaped(st: GraphState) -> bool {
    well_formed(st) && st.contexts.len() >= 1 && texts_by_kind(st) && contained_once(st)
}

proof fn lemma_push_shape(st: GraphState, kind: CatalogCssGrammarNodeKind, text: Option<Seq<char>>)
    requires
        shaped(st),
        kind != CatalogCssGrammarNodeKind::Root,
        text is None <==> kind == CatalogCssGrammarNodeKind::Group,
    ensures
        shaped(push_node(st, kind, text).0),
{
    lemma_push_node(st, kind, text);
    let r = push_node(st, kind, text).0;
    if st.nodes.len() <= u16::MAX {
        let id = st.nodes.len();
        let e = st.edges.len() as int;
        assert(r.nodes[0] == st.nodes[0]);
        assert forall|i: int| 1 <= i < r.nodes.len() implies (#[trigger] r.nodes[i]).kind
            != CatalogCssGrammarNodeKind::Root by {
            if i < id {
                assert(r.nodes[i] == st.nodes[i]);
            }
        }
        assert forall|i: int| 0 <= i < r.nodes.len() implies ((#[trigger] r.nodes[i]).text is None <==> (
        r.nodes[i].kind == CatalogCssGrammarNodeKind::Root || r.nodes[i].kind
            == CatalogCssGrammarNodeKind::Group)) by {
            if i < id {
                assert(r.nodes[i] == st.nodes[i]);
            }
        }
        assert(forall|i: int| 0 <= i < e ==> r.edges[i] == st.edges[i]);
        assert(contains_into(r, e, id as int));
        assert forall|i: int| #[trigger] contains_into(r, i, 0) implies false by {
            if i < e {
                assert(contains_into(st, i, 0));
            }
        }
        assert forall|j: int| 1 <= j < r.nodes.len() implies #[trigger] has_container(r, j) by {
            if j < id {
                assert(has_container(st, j));
                let w = choose|i: int| #[trigger] contains_into(st, i, j);
                assert(contains_into(r, w, j));
            } else {
                assert(contains_into(r, e, j));
            }
        }
        assert forall|i1: int, i2: int, j: int|
            #[trigger] contains_into(r, i1, j) && #[trigger] contains_into(r, i2, j) implies i1 == i2 by {
            if i1 < e && i2 < e {
                assert(contains_into(st, i1, j) && contains_into(st, i2, j));
            } else if i1 < e {
                assert(st.edges[i1].to < id);
            } else if i2 < e {
                assert(st.edges[i2].to < id);
            }
        }
    }
}

proof fn lemma_scan_shape(v: Seq<char>, i: int, st: GraphState)
    requires
        shaped(st),
    ensures
        texts_by_kind(scan(v, i, st)),
        contained_once(scan(v, i, st)),
    decreases v.len() - i,
{
    if 0 <= i < v.len() {
        let c = v[i];
        if is_ascii_ws(c) {
            lemma_scan_shape(v, i + 1, st);
        } else if c == '<' {
            let e = index_of_spec(v, i, '>');
            if e < v.len() && e >= i {
                let t = Some(v.subrange(i, e + 1));
                lemma_push_shape(st, CatalogCssGrammarNodeKind::Type, t);
                lemma_scan_shape(v, e + 1, push_node(st, CatalogCssGrammarNodeKind::Type, t).0);
            }
        } else if c == '[' {
            lemma_push_shape(st, CatalogCssGrammarNodeKind::Group, None);
            let (s1, id) = push_node(st, CatalogCssGrammarNodeKind::Group, None);
            let s2 = GraphState {
                nodes: s1.nodes,
                edges: s1.edges,
                contexts: s1.contexts.push(Context { node_id: id, last_child: None }),
            };
            if st.nodes.len() <= u16::MAX {
                assert forall|k: int| 0 <= k < s2.contexts.len() implies (
                #[trigger] s2.contexts[k]).node_id < s2.nodes.len() && match s2.contexts[k].last_child {
                    Some(x) => s2.contexts[k].node_id < x && x < s2.nodes.len(),
                    None => true,
                } by {
                    if k < s1.contexts.len() {
                        assert(s2.contexts[k] == s1.contexts[k]);
                    }
                }
            } else {
                assert forall|k: int| 0 <= k < s2.contexts.len() implies (
                #[trigger] s2.contexts[k]).node_id < s2.nodes.len() && match s2.contexts[k].last_child {
                    Some(x) => s2.contexts[k].node_id < x && x < s2.nodes.len(),
                    None => true,
                } by {
                    if k < s1.contexts.len() {
                        assert(s2.contexts[k] == s1.contexts[k]);
                    }
                }
            }
            assert(forall|a: int, b: int| contains_into(s2, a, b) == contains_into(s1, a, b));
            assert(forall|b: int| has_container(s2, b) == has_container(s1, b));
            lemma_scan_shape(v, i + 1, s2);
        } else if c == ']' {
            let s1 = if st.contexts.len() > 1 {
                GraphState { nodes: st.nodes, edges: st.edges, contexts: st.contexts.drop_last() }
            } else {
                st
            };
            assert forall|k: int| 0 <= k < s1.contexts.len() implies (
            #[trigger] s1.contexts[k]).node_id < s1.nodes.len() && match s1.contexts[k].last_child {
                Some(x) => s1.contexts[k].node_id < x && x < s1.nodes.len(),
                None => true,
            } by {
                assert(s1.contexts[k] == st.contexts[k]);
            }
            assert(forall|a: int, b: int| contains_into(s1, a, b) == contains_into(st, a, b));
            assert(forall|b: int| has_container(s1, b) == has_container(st, b));
            lemma_scan_shape(v, i + 1, s1);
        } else if c == '|' && i + 1 < v.len() && v[i + 1] == '|' {
            lemma_push_shape(st, CatalogCssGrammarNodeKind::Operator, Some("||"@));
            lemma_scan_shape(v, i + 2, push_node(st, CatalogCssGrammarNodeKind::Operator, Some("||"@)).0);
        } else if c == '&' && i + 1 < v.len() && v[i + 1] == '&' {
            lemma_push_shape(st, CatalogCssGrammarNodeKind::Operator, Some("&&"@));
            lemma_scan_shape(v, i + 2, push_node(st, CatalogCssGrammarNodeKind::Operator, Some("&&"@)).0);
        } else if is_operator_char(c) {
            lemma_push_shape(st, CatalogCssGrammarNodeKind::Operator, Some(seq![c]));
            lemma_scan_shape(v, i + 1, push_node(st, CatalogCssGrammarNodeKind::Operator, Some(seq![c])).0);
        } else if is_word_char(c) {
            let j = word_end(v, i);
            let text = Some(v.subrange(i, j));
            if i < j && j < v.len() && v[j] == '(' {
                let k = index_of_spec(v, j, ')');
                let next = if k < v.len() {
                    k + 1
                } else {
                    v.len() as int
                };
                if next > i {
                    lemma_push_shape(st, CatalogCssGrammarNodeKind::Function, text);
                    lemma_scan_shape(v, next, push_node(st, CatalogCssGrammarNodeKind::Function, text).0);
                }
            } else if i < j <= v.len() {
                lemma_push_shape(st, CatalogCssGrammarNodeKind::Keyword, text);
                lemma_scan_shape(v, j, push_node(st, CatalogCssGrammarNodeKind::Keyword, text).0);
            }
        } else {
            lemma_scan_shape(v, i + 1, st);
        }
    }
}

/// The grammar graph's shape: the root is the first node and the only
/// root, text is absent exactly on the root and on groups, and every other
/// node has exactly one containing edge while nothing contains the root.
pub proof fn lemma_grammar_graph_shape(value: Seq<char>)
    ensures
        texts_by_kind(grammar_graph_spec(value)),
        contained_once(grammar_graph_spec(value)),
{
    let st = initial_state();
    assert(st.nodes[0].id == 0);
    lemma_scan_shape(value, 0, st);
}

struct GraphBuilder {
    nodes: Vec<CatalogCssGrammarNode>,
    edges: Vec<CatalogCssGrammarEdge>,
    contexts: Vec<Context>,
}

impl GraphBuilder {
    spec fn state(&self) -> GraphState {
        GraphState { nodes: node_views(self.nodes@), edges: self.edges@, contexts: self.contexts@ }
    }
}

pub open spec fn text_view(t: Option<String>) -> Option<Seq<char>> {
    match t {
        Some(s) => Some(s@),
        None => None,
    }
}

fn push_grammar_node(
    b: &mut GraphBuilder,
    kind: CatalogCssGrammarNodeKind,
    text: Option<String>,
) -> (r: u16)
    ensures
        (final(b).state(), r) == push_node(old(b).state(), kind, text_view(text)),
{
    let n = b.nodes.len();
    if n > 0xffff {
        return 0xffff;
    }
    let id = n as u16;
    let ghost old_nodes = node_views(b.nodes@);
    let node = CatalogCssGrammarNode { id, kind, text };
    b.nodes.push(node);
    assert(node_views(b.nodes@) =~= old_nodes.push(NodeView { id, kind, text: text_view(text) }));
    let c = b.contexts.len();
    if c == 0 {
        return id;
    }
    let current = b.contexts[c - 1];
    b.edges.push(CatalogCssGrammarEdge { from: current.node_id, to: id, kind: CatalogCssGrammarEdgeKind::Contains });
    match current.last_child {
        Some(previous) => {
            b.edges.push(CatalogCssGrammarEdge { from: previous, to: id, kind: CatalogCssGrammarEdgeKind::Next });
        },
        None => {},
    }
    b.contexts.set(c - 1, Context { node_id: current.node_id, last_child: Some(id) });
    id
}

fn text_of(v: &Vec<char>, from: usize, to: usize) -> (r: Option<String>)
    requires
        from <= to <= v@.len(),
    ensures
        text_view(r) == Some(v@.subrange(from as int, to as int)),
{
    Some(crate::text::string_of_range(v, from, to))
}

/// Tokenize a value grammar into its graph of types, keywords, functions,
/// groups and operators.
pub fn css_grammar_graph(value: &str) -> (r: CatalogCssGrammarGraph)
    ensures
        r.root == 0,
        node_views(r.nodes@) == grammar_graph_spec(value@).nodes,
        r.edges@ == grammar_graph_spec(value@).edges,
        well_formed(grammar_graph_spec(value@)),
        texts_by_kind(grammar_graph_spec(value@)),
        contained_once(grammar_graph_spec(value@)),
{
    proof {
        lemma_grammar_graph_well_formed(value@);
        lemma_grammar_graph_shape(value@);
    }
    let v = chars_of(value);
    let mut b = GraphBuilder { nodes: Vec::new(), edges: Vec::new(), contexts: Vec::new() };
    b.nodes.push(CatalogCssGrammarNode { id: 0, kind: CatalogCssGrammarNodeKind::Root, text: None });
    b.contexts.push(Context { node_id: 0, last_child: None });
    assert(node_views(b.nodes@) =~= initial_state().nodes);
    assert(b.contexts@ =~= initial_state().contexts);
    assert(b.edges@ =~= initial_state().edges);
    let n = v.len();
    let mut index: usize = 0;
    while index < n
        invariant
            n == v@.len(),
            v@ == value@,
            index <= n,
            grammar_graph_spec(value@) == scan(v@, index as int, b.state()),
        ensures
            grammar_graph_spec(value@) == b.state(),
        decreases n - index,
    {
        let c = v[index];
        if ascii_ws(c) {
            index = index + 1;
        } else if c == '<' {
            let e = index_of(&v, index, '>');
            if e >= n {
                break;
            }
            let t = text_of(&v, index, e + 1);
            push_grammar_node(&mut b, CatalogCssGrammarNodeKind::Type, t);
            index = e + 1;
        } else if c == '[' {
            let id = push_grammar_node(&mut b, CatalogCssGrammarNodeKind::Group, None);
            b.contexts.push(Context { node_id: id, last_child: None });
            index = index + 1;
        } else if c == ']' {
            if b.contexts.len() > 1 {
                b.contexts.pop();
            }
            index = index + 1;
        } else if c == '|' && index + 1 < n && v[index + 1] == '|' {
            let t = Some("||".to_owned());
            push_grammar_node(&mut b, CatalogCssGrammarNodeKind::Operator, t);
            index = index + 2;
        } else if c == '&' && index + 1 < n && v[index + 1] == '&' {
            let t = Some("&&".to_owned());
            push_grammar_node(&mut b, CatalogCssGrammarNodeKind::Operator, t);
            index = index + 2;
        } else if c == '|' || c == ',' || c == '?' || c == '*' || c == '+' || c == '#' || c == '!' {
            let t = text_of(&v, index, index + 1);
            assert(v@.subrange(index as int, index + 1) =~= seq![c]);
            push_grammar_node(&mut b, CatalogCssGrammarNodeKind::Operator, t);
            index = index + 1;
        } else if alnum(c) || c == '-' {
            let start = index;
            let mut j = index;
            while j < n && (alnum(v[j]) || v[j] == '-')
                invariant
                    n == v@.len(),
                    start <= j <= n,
                    word_end(v@, start as int) == word_end(v@, j as int),
                decreases n - j,
            {
                j = j + 1;
            }
            let t = text_of(&v, start, j);
            if j < n && v[j] == '(' {
                let k = index_of(&v, j, ')');
                push_grammar_node(&mut b, CatalogCssGrammarNodeKind::Function, t);
                index = if k < n {
                    k + 1
                } else {
                    n
                };
            } else {
                push_grammar_node(&mut b, CatalogCssGrammarNodeKind::Keyword, t);
                index = j;
            }
        } else {
            index = index + 1;
        }
    }
    CatalogCssGrammarGraph { root: 0, nodes: b.nodes, edges: b.edges }
}

} // verus!
