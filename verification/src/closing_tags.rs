//! Closing-name recovery: which element a `</` being typed closes, read from
//! the document's bytes and from its syntax tree's nodes in document order.

use vstd::prelude::*;
use crate::text::str_eq;

verus! {

/// The kinds of syntax node the recovery tells apart.
#[derive(Debug, Clone, Copy, PartialEq, Eq, Structural)]
pub enum SyntaxKind {
    StartTag,
    EndTag,
    ErroneousEndTag,
    SelfClosingTag,
    /// An opening delimiter `<` outside a parsed tag.
    OpenDelimiter,
    Other,
}

/// One node of the syntax tree, in pre-order.
pub struct SyntaxNode {
    pub kind: SyntaxKind,
    /// Depth below the root (the root has depth 0).
    pub depth: usize,
    pub start: usize,
    pub end: usize,
    /// Whether the node's last child is a `>` written in the source (not
    /// one inserted by error recovery).
    pub explicit_close: bool,
    /// The text of the node's `name` field, when it has one.
    pub name: Option<String>,
}

pub open spec fn is_tag(k: SyntaxKind) -> bool {
    k == SyntaxKind::StartTag || k == SyntaxKind::EndTag || k == SyntaxKind::ErroneousEndTag || k
        == SyntaxKind::SelfClosingTag
}

pub struct NodeV {
    pub kind: SyntaxKind,
    pub depth: int,
    pub start: int,
    pub end: int,
    pub explicit_close: bool,
    pub name: Option<Seq<char>>,
}

pub open spec fn node_v(n: SyntaxNode) -> NodeV {
    NodeV {
        kind: n.kind,
        depth: n.depth as int,
        start: n.start as int,
        end: n.end as int,
        explicit_close: n.explicit_close,
        name: match n.name {
            Some(s) => Some(s@),
            None => None,
        },
    }
}

pub open spec fn nodes_v(v: Seq<SyntaxNode>) -> Seq<NodeV> {
    v.map_values(|n: SyntaxNode| node_v(n))
}

/// The walk's state: the open start tags (by position), the depth of the
/// tag whose descendants are being passed over, and how the walk ended.
pub struct Walk {
    pub open: Seq<int>,
    pub skip_below: Option<int>,
    /// `None` while walking; `Some(true)` when it stopped at the offset,
    /// `Some(false)` when it gave up.
    pub stopped: Option<bool>,
}

/// The last open tag named `name`.
pub open spec fn last_named(nodes: Seq<NodeV>, open: Seq<int>, name: Seq<char>) -> Option<int>
    decreases open.len(),
{
    if open.len() == 0 {
        None
    } else if 0 <= open.last() < nodes.len() && nodes[open.last()].name == Some(name) {
        Some(open.len() - 1)
    } else {
        last_named(nodes, open.drop_last(), name)
    }
}

/// Node `k` visited: descendants of a tag are passed over; the walk stops
/// at the first node starting at or after the offset and gives up at a
/// stray `<` or at a tag reaching past the offset. A tag closed by a
/// written `>` before the offset opens an element (a start tag) or closes
/// the last open element of its name and any left open inside it.
pub open spec fn walk_step(nodes: Seq<NodeV>, offset: int, w: Walk, k: int) -> Walk {
    let n = nodes[k];
    if w.stopped is Some {
        w
    } else if w.skip_below matches Some(d) && n.depth > d {
        w
    } else if n.start >= offset {
        Walk { open: w.open, skip_below: None, stopped: Some(true) }
    } else if n.kind == SyntaxKind::OpenDelimiter || (is_tag(n.kind) && n.end > offset) {
        Walk { open: w.open, skip_below: None, stopped: Some(false) }
    } else {
        let open = if is_tag(n.kind) && n.explicit_close {
            if n.kind == SyntaxKind::StartTag {
                w.open.push(k)
            } else {
                match n.name {
                    Some(name) => match last_named(nodes, w.open, name) {
                        Some(i) => w.open.take(i),
                        None => w.open,
                    },
                    None => w.open,
                }
            }
        } else {
            w.open
        };
        Walk {
            open,
            skip_below: if is_tag(n.kind) {
                Some(n.depth)
            } else {
                None
            },
            stopped: None,
        }
    }
}

pub open spec fn walk(nodes: Seq<NodeV>, offset: int, k: int) -> Walk
    decreases k,
{
    if k <= 0 {
        Walk { open: Seq::empty(), skip_below: None, stopped: None }
    } else {
        walk_step(nodes, offset, walk(nodes, offset, k - 1), k - 1)
    }
}

/// The open start tags before `offset`, outermost first; `None` when the
/// offset lies inside a tag or after a stray `<`.
pub open spec fn open_tags_spec(nodes: Seq<NodeV>, offset: int) -> Option<Seq<int>> {
    let w = walk(nodes, offset, nodes.len() as int);
    if w.stopped == Some(false) {
        None
    } else {
        Some(w.open)
    }
}

proof fn lemma_last_named(nodes: Seq<NodeV>, open: Seq<int>, name: Seq<char>)
    ensures
        match last_named(nodes, open, name) {
            Some(i) => 0 <= i < open.len() && 0 <= open[i] < nodes.len() && nodes[open[i]].name == Some(name)
                && forall|j: int|
                i < j < open.len() ==> !(0 <= #[trigger] open[j] < nodes.len() && nodes[open[j]].name == Some(name)),
            None => forall|j: int|
                0 <= j < open.len() ==> !(0 <= #[trigger] open[j] < nodes.len() && nodes[open[j]].name == Some(name)),
        },
    decreases open.len(),
{
    if open.len() > 0 {
        lemma_last_named(nodes, open.drop_last(), name);
        assert(open.last() == open[open.len() - 1]);
        assert(forall|j: int| 0 <= j < open.len() - 1 ==> open.drop_last()[j] == open[j]);
    }
}

proof fn lemma_walk_bounds(nodes: Seq<NodeV>, offset: int, k: int)
    requires
        0 <= k <= nodes.len(),
    ensures
        forall|j: int| 0 <= j < walk(nodes, offset, k).open.len() ==> 0 <= #[trigger] walk(nodes, offset, k).open[j] < k,
    decreases k,
{
    if k > 0 {
        lemma_walk_bounds(nodes, offset, k - 1);
        let w = walk(nodes, offset, k - 1);
        let r = walk(nodes, offset, k);
        let n = nodes[k - 1];
        if w.stopped is None && !(w.skip_below matches Some(d) && n.depth > d) && n.start < offset && !(n.kind
            == SyntaxKind::OpenDelimiter || (is_tag(n.kind) && n.end > offset)) && is_tag(n.kind) && n.explicit_close {
            if n.kind == SyntaxKind::StartTag {
                assert(r.open == w.open.push(k - 1));
                assert forall|j: int| 0 <= j < r.open.len() implies 0 <= #[trigger] r.open[j] < k by {
                    if j < w.open.len() {
                        assert(r.open[j] == w.open[j]);
                    }
                }
            } else if let Some(name) = n.name {
                lemma_last_named(nodes, w.open, name);
                if let Some(i) = last_named(nodes, w.open, name) {
                    assert(r.open == w.open.take(i));
                    assert forall|j: int| 0 <= j < r.open.len() implies 0 <= #[trigger] r.open[j] < k by {
                        assert(r.open[j] == w.open[j]);
                    }
                } else {
                    assert(r.open == w.open);
                }
            } else {
                assert(r.open == w.open);
            }
        } else {
            assert(r.open == w.open);
        }
    }
}

/// An end tag closes the last open element of its name and every element
/// left open inside it: the open elements afterwards are those before it,
/// cut off just before the last one of that name.
pub proof fn lemma_end_tag_closes_inner(nodes: Seq<NodeV>, offset: int, k: int, name: Seq<char>)
    requires
        0 <= k < nodes.len(),
        walk(nodes, offset, k).stopped is None,
        !(walk(nodes, offset, k).skip_below matches Some(d) && nodes[k].depth > d),
        nodes[k].start < offset,
        nodes[k].end <= offset,
        nodes[k].kind == SyntaxKind::EndTag || nodes[k].kind == SyntaxKind::ErroneousEndTag,
        nodes[k].explicit_close,
        nodes[k].name == Some(name),
        exists|j: int|
            0 <= j < walk(nodes, offset, k).open.len() && nodes[#[trigger] walk(nodes, offset, k).open[j]].name
                == Some(name),
    ensures
        ({
            let before = walk(nodes, offset, k).open;
            let after = walk(nodes, offset, k + 1).open;
            &&& after.len() < before.len()
            &&& forall|j: int| 0 <= j < after.len() ==> #[trigger] after[j] == before[j]
            &&& nodes[before[after.len() as int]].name == Some(name)
            &&& forall|j: int|
                after.len() < j < before.len() ==> nodes[#[trigger] before[j]].name != Some(name)
        }),
{
    let w = walk(nodes, offset, k);
    lemma_walk_bounds(nodes, offset, k);
    lemma_last_named(nodes, w.open, name);
    let j = choose|j: int| 0 <= j < w.open.len() && nodes[#[trigger] w.open[j]].name == Some(name);
    assert(0 <= w.open[j] < k);
    match last_named(nodes, w.open, name) {
        Some(i) => {
            assert(walk(nodes, offset, k + 1).open == w.open.take(i));
            assert forall|m: int| i < m < w.open.len() implies nodes[#[trigger] w.open[m]].name != Some(name) by {
                assert(0 <= w.open[m] < k);
            }
        },
        None => {
            assert(false);
        },
    }
}

/// A start tag closed before the offset opens an element: it is added
/// after the elements already open.
pub proof fn lemma_start_tag_opens(nodes: Seq<NodeV>, offset: int, k: int)
    requires
        0 <= k < nodes.len(),
        walk(nodes, offset, k).stopped is None,
        !(walk(nodes, offset, k).skip_below matches Some(d) && nodes[k].depth > d),
        nodes[k].start < offset,
        nodes[k].end <= offset,
        nodes[k].kind == SyntaxKind::StartTag,
        nodes[k].explicit_close,
    ensures
        walk(nodes, offset, k + 1).open == walk(nodes, offset, k).open.push(k),
{
}

fn find_last_named(nodes: &Vec<SyntaxNode>, open: &Vec<usize>, name: &str) -> (r: Option<usize>)
    requires
        forall|i: int| 0 <= i < open@.len() ==> open@[i] < nodes@.len(),
    ensures
        match last_named(nodes_v(nodes@), open@.map_values(|x: usize| x as int), name@) {
            Some(i) => r matches Some(j) && j as int == i,
            None => r is None,
        },
        r matches Some(j) ==> j < open@.len(),
{
    let ghost nv = nodes_v(nodes@);
    let ghost ov = open@.map_values(|x: usize| x as int);
    let mut i = open.len();
    assert(ov.take(i as int) =~= ov);
    while i > 0
        invariant
            i <= open@.len(),
            nv == nodes_v(nodes@),
            ov == open@.map_values(|x: usize| x as int),
            forall|k: int| 0 <= k < open@.len() ==> open@[k] < nodes@.len(),
            last_named(nv, ov, name@) == last_named(nv, ov.take(i as int), name@),
        decreases i,
    {
        let t = open[i - 1];
        let ghost pre = ov.take(i as int);
        assert(pre.last() == t as int);
        assert(pre.drop_last() =~= ov.take(i - 1));
        let here = match &nodes[t].name {
            Some(n) => str_eq(n.as_str(), name),
            None => false,
        };
        if here {
            return Some(i - 1);
        }
        i = i - 1;
    }
    None
}

/// The open start tags before `offset` (positions in `nodes`, outermost
/// first), or `None` when the offset lies inside a tag or after a stray `<`.
pub fn open_tags_before(nodes: &Vec<SyntaxNode>, offset: usize) -> (r: Option<Vec<usize>>)
    ensures
        match open_tags_spec(nodes_v(nodes@), offset as int) {
            Some(o) => r matches Some(v) && v@.map_values(|x: usize| x as int) == o,
            None => r is None,
        },
        r matches Some(v) ==> forall|i: int| 0 <= i < v@.len() ==> v@[i] < nodes@.len(),
{
    let ghost nv = nodes_v(nodes@);
    let mut open: Vec<usize> = Vec::new();
    let mut skip_below: Option<usize> = None;
    let mut k: usize = 0;
    let n = nodes.len();
    assert(open@.map_values(|x: usize| x as int) =~= Seq::<int>::empty());
    while k < n
        invariant_except_break
            walk(nv, offset as int, k as int) == (Walk {
                open: open@.map_values(|x: usize| x as int),
                skip_below: match skip_below {
                    Some(d) => Some(d as int),
                    None => None,
                },
                stopped: None,
            }),
        invariant
            k <= n,
            n == nodes@.len(),
            nv == nodes_v(nodes@),
            forall|i: int| 0 <= i < open@.len() ==> open@[i] < k,
        ensures
            match open_tags_spec(nv, offset as int) {
                Some(o) => open@.map_values(|x: usize| x as int) == o,
                None => false,
            },
            forall|i: int| 0 <= i < open@.len() ==> open@[i] < nodes@.len(),
        decreases n - k,
    {
        let node = &nodes[k];
        let ghost w = walk(nv, offset as int, k as int);
        assert(nv[k as int] == node_v(*node));
        let skipped = match skip_below {
            Some(d) => node.depth > d,
            None => false,
        };
        if skipped {
            k = k + 1;
            continue;
        }
        if node.start >= offset {
            proof {
                lemma_walk_stopped(nv, offset as int, k as int + 1, nv.len() as int);
            }
            break;
        }
        let tag = match node.kind {
            SyntaxKind::StartTag | SyntaxKind::EndTag | SyntaxKind::ErroneousEndTag | SyntaxKind::SelfClosingTag => true,
            _ => false,
        };
        if node.kind == SyntaxKind::OpenDelimiter || (tag && node.end > offset) {
            proof {
                lemma_walk_stopped(nv, offset as int, k as int + 1, nv.len() as int);
            }
            return None;
        }
        if tag && node.explicit_close {
            if node.kind == SyntaxKind::StartTag {
                let ghost o = open@;
                open.push(k);
                assert(open@.map_values(|x: usize| x as int) =~= o.map_values(|x: usize| x as int).push(k as int));
            } else if let Some(name) = &node.name {
                match find_last_named(nodes, &open, name.as_str()) {
                    Some(i) => {
                        let ghost o = open@;
                        open.truncate(i);
                        assert(open@.map_values(|x: usize| x as int) =~= o.map_values(|x: usize| x as int).take(
                            i as int,
                        ));
                    },
                    None => {},
                }
            }
        }
        skip_below = if tag {
            Some(node.depth)
        } else {
            None
        };
        k = k + 1;
    }
    Some(open)
}

proof fn lemma_walk_stopped(nodes: Seq<NodeV>, offset: int, j: int, k: int)
    requires
        0 < j <= k,
        walk(nodes, offset, j) .stopped is Some,
    ensures
        walk(nodes, offset, k) == walk(nodes, offset, j),
    decreases k - j,
{
    if k > j {
        lemma_walk_stopped(nodes, offset, j, k - 1);
    }
}

// ---------------------------------------------------------------------------
// The bytes around a `</`

pub open spec fn is_name_byte(b: u8) -> bool {
    (0x30 <= b <= 0x39) || (0x41 <= b <= 0x5a) || (0x61 <= b <= 0x7a) || b >= 0x80 || b == 0x5f || b == 0x3a
        || b == 0x2d || b == 0x2e
}

pub open spec fn is_ascii_ws_byte(b: u8) -> bool {
    b == 0x20 || b == 0x09 || b == 0x0a || b == 0x0c || b == 0x0d
}

/// The last `<` before `offset`.
pub open spec fn last_lt(s: Seq<u8>, offset: int) -> Option<int>
    decreases offset,
{
    if offset <= 0 {
        None
    } else if s[offset - 1] == 0x3c {
        Some(offset - 1)
    } else {
        last_lt(s, offset - 1)
    }
}

/// The end of the name starting at `i`.
pub open spec fn name_end_from(s: Seq<u8>, i: int) -> int
    decreases s.len() - i,
{
    if i < 0 || i >= s.len() || !is_name_byte(s[i]) {
        i
    } else {
        name_end_from(s, i + 1)
    }
}

/// The first byte from `i` on that is not ASCII whitespace.
pub open spec fn first_non_ws(s: Seq<u8>, i: int) -> Option<u8>
    decreases s.len() - i,
{
    if i < 0 || i >= s.len() {
        None
    } else if !is_ascii_ws_byte(s[i]) {
        Some(s[i])
    } else {
        first_non_ws(s, i + 1)
    }
}

/// What the bytes say about a closing tag being typed at `offset`.
#[derive(Debug, Clone, Copy, PartialEq, Eq, Structural)]
pub enum ClosingContext {
    /// No closing tag is being typed here.
    NotClosing,
    /// A closing tag whose name already ended before the offset: nothing to
    /// suggest, and no other completion either.
    Suppressed,
    /// A closing tag `</` at `start`, its name typed over
    /// `name_start..name_end`; `has_bracket` when a `>` follows it.
    Name { start: usize, name_start: usize, name_end: usize, has_bracket: bool },
}

pub open spec fn closing_context_spec(s: Seq<u8>, offset: int) -> ClosingContext {
    if offset > s.len() {
        ClosingContext::NotClosing
    } else {
        match last_lt(s, offset) {
            None => ClosingContext::NotClosing,
            Some(start) => {
                let name_start = start + 2;
                if name_start > s.len() || s[start + 1] != 0x2f || offset < name_start {
                    ClosingContext::NotClosing
                } else {
                    let name_end = name_end_from(s, name_start);
                    if offset > name_end {
                        if exists|i: int| name_end <= i < offset && s[i] == 0x3e {
                            ClosingContext::NotClosing
                        } else {
                            ClosingContext::Suppressed
                        }
                    } else {
                        ClosingContext::Name {
                            start: start as usize,
                            name_start: name_start as usize,
                            name_end: name_end as usize,
                            has_bracket: first_non_ws(s, name_end) == Some(0x3eu8),
                        }
                    }
                }
            }
        }
    }
}

fn name_byte(b: u8) -> (r: bool)
    ensures
        r == is_name_byte(b),
{
    (0x30 <= b && b <= 0x39) || (0x41 <= b && b <= 0x5a) || (0x61 <= b && b <= 0x7a) || b >= 0x80 || b == 0x5f
        || b == 0x3a || b == 0x2d || b == 0x2e
}

/// Read the closing tag, if any, being typed at `offset`.
pub fn closing_context(source: &[u8], offset: usize) -> (r: ClosingContext)
    ensures
        r == closing_context_spec(source@, offset as int),
{
    let len = source.len();
    if offset > len {
        return ClosingContext::NotClosing;
    }
    let mut i = offset;
    while i > 0 && source[i - 1] != 0x3c
        invariant
            i <= offset <= len,
            len == source@.len(),
            last_lt(source@, offset as int) == last_lt(source@, i as int),
        decreases i,
    {
        i = i - 1;
    }
    if i == 0 {
        return ClosingContext::NotClosing;
    }
    let start = i - 1;
    if start + 1 >= len {
        return ClosingContext::NotClosing;
    }
    let name_start = start + 2;
    if source[start + 1] != 0x2f || offset < name_start {
        return ClosingContext::NotClosing;
    }
    let mut name_end = name_start;
    while name_end < len && name_byte(source[name_end])
        invariant
            name_start <= name_end <= len,
            len == source@.len(),
            name_end_from(source@, name_start as int) == name_end_from(source@, name_end as int),
        decreases len - name_end,
    {
        name_end = name_end + 1;
    }
    if offset > name_end {
        let mut j = name_end;
        while j < offset
            invariant
                name_end <= j <= offset <= len,
                len == source@.len(),
                forall|x: int| name_end <= x < j ==> source@[x] != 0x3e,
                last_lt(source@, offset as int) == Some(start as int),
                name_start == start + 2,
                name_start <= len,
                source@[start + 1] == 0x2f,
                offset >= name_start,
                offset > name_end,
                name_end == name_end_from(source@, name_start as int),
            decreases offset - j,
        {
            if source[j] == 0x3e {
                assert(name_end <= j < offset && source@[j as int] == 0x3e);
                return ClosingContext::NotClosing;
            }
            j = j + 1;
        }
        return ClosingContext::Suppressed;
    }
    let mut j = name_end;
    while j < len && (source[j] == 0x20 || source[j] == 0x09 || source[j] == 0x0a || source[j] == 0x0c || source[j]
        == 0x0d)
        invariant
            name_end <= j <= len,
            len == source@.len(),
            first_non_ws(source@, name_end as int) == first_non_ws(source@, j as int),
        decreases len - j,
    {
        j = j + 1;
    }
    let has_bracket = j < len && source[j] == 0x3e;
    ClosingContext::Name { start, name_start, name_end, has_bracket }
}

/// The edit a closing-name suggestion makes: the name typed so far over
/// `name_start..name_end` becomes `new_text`.
pub struct ClosingEdit {
    pub label: String,
    pub name_start: usize,
    pub name_end: usize,
    pub new_text: String,
}

/// The suggestion for a closing tag being typed: `None` when no closing tag
/// is being typed; an empty list when one is but nothing can be suggested
/// (the name already ended, the `</` is not a real delimiter, the offset is
/// inside a tag, or the open element does not resolve to SVG); else the
/// name of the innermost open element, followed by `>` when none is typed.
/// `delimiter_ok` says whether the syntax tree has a `</` token starting at
/// the context's `start`; `svg_namespace` whether the open tags resolve to
/// the SVG namespace.
pub open spec fn completion_spec(
    s: Seq<u8>,
    offset: int,
    delimiter_ok: bool,
    nodes: Seq<NodeV>,
    svg_namespace: bool,
) -> Option<Seq<(Seq<char>, int, int, Seq<char>)>> {
    match closing_context_spec(s, offset) {
        ClosingContext::NotClosing => None,
        ClosingContext::Suppressed => Some(Seq::empty()),
        ClosingContext::Name { start, name_start, name_end, has_bracket } => if !delimiter_ok {
            Some(Seq::empty())
        } else {
            match open_tags_spec(nodes, start as int) {
                None => Some(Seq::empty()),
                Some(open) => if !svg_namespace {
                    Some(Seq::empty())
                } else if open.len() == 0 {
                    None
                } else {
                    match nodes[open.last()].name {
                        None => None,
                        Some(name) => Some(
                            seq![
                                (
                                    name,
                                    name_start as int,
                                    name_end as int,
                                    if has_bracket {
                                        name
                                    } else {
                                        name + seq!['>']
                                    },
                                ),
                            ],
                        ),
                    }
                },
            }
        },
    }
}

pub open spec fn edits_v(v: Seq<ClosingEdit>) -> Seq<(Seq<char>, int, int, Seq<char>)> {
    v.map_values(|e: ClosingEdit| (e.label@, e.name_start as int, e.name_end as int, e.new_text@))
}

/// The closing-name suggestion at `offset`, from the bytes, the syntax
/// tree's nodes and the two facts the tree gives (see `completion_spec`).
pub fn completion(
    source: &[u8],
    offset: usize,
    delimiter_ok: bool,
    nodes: &Vec<SyntaxNode>,
    svg_namespace: bool,
) -> (r: Option<Vec<ClosingEdit>>)
    ensures
        match completion_spec(source@, offset as int, delimiter_ok, nodes_v(nodes@), svg_namespace) {
            Some(e) => r matches Some(v) && edits_v(v@) == e,
            None => r is None,
        },
{
    match closing_context(source, offset) {
        ClosingContext::NotClosing => None,
        ClosingContext::Suppressed => {
            let v: Vec<ClosingEdit> = Vec::new();
            assert(edits_v(v@) =~= Seq::empty());
            Some(v)
        },
        ClosingContext::Name { start, name_start, name_end, has_bracket } => {
            let empty: Vec<ClosingEdit> = Vec::new();
            assert(edits_v(empty@) =~= Seq::empty());
            if !delimiter_ok {
                return Some(empty);
            }
            let open = match open_tags_before(nodes, start) {
                Some(o) => o,
                None => return Some(empty),
            };
            if !svg_namespace {
                return Some(empty);
            }
            if open.len() == 0 {
                return None;
            }
            let last = open[open.len() - 1];
            assert(open@.map_values(|x: usize| x as int).last() == last as int);
            if last >= nodes.len() {
                return None;
            }
            assert(nodes_v(nodes@)[last as int] == node_v(nodes@[last as int]));
            let name = match &nodes[last].name {
                Some(n) => n,
                None => return None,
            };
            let mut new_text = name.clone();
            if !has_bracket {
                crate::text::push_char(&mut new_text, '>');
                assert(new_text@ =~= name@ + seq!['>']);
            }
            let edit = ClosingEdit { label: name.clone(), name_start, name_end, new_text };
            let out = vec![edit];
            assert(edits_v(out@) =~= seq![(edit.label@, name_start as int, name_end as int, edit.new_text@)]);
            Some(out)
        },
    }
}

} // verus!
