//! A parsed HTML document as plain values: each node of the `tl` parse in
//! document order, with the tags' names, attributes, source boundaries and
//! inner text.

use vstd::prelude::*;
use crate::text::{ascii_ws, chars_of, is_ascii_ws, is_ws, prefix_at, has_prefix_at, push_str, str_eq, ws};

verus! {

/// One element of a parsed HTML document.
pub struct HtmlTag {
    /// The tag name as written.
    pub name: String,
    /// Every attribute with its value, if it has one.
    pub attributes: Vec<(String, Option<String>)>,
    /// Byte offsets of the tag's first and last character in the source.
    pub bounds: (usize, usize),
    /// The positions of the direct children in the node list.
    pub children: Vec<u32>,
}

/// One node of a parsed HTML document, in document order.
pub enum HtmlNode {
    Tag(HtmlTag),
    /// Text between tags, as written.
    Raw(String),
    Comment,
}

/// An element as its parse determines it: its name, the value of each
/// attribute that has one, its source boundaries and its children.
pub struct TagView {
    pub name: Seq<char>,
    pub values: Map<Seq<char>, Seq<char>>,
    pub bounds: (usize, usize),
    pub children: Seq<u32>,
}

pub enum NodeView {
    Tag(TagView),
    Raw(Seq<char>),
    Comment,
}

pub open spec fn tag_view(t: HtmlTag) -> TagView {
    TagView {
        name: t.name@,
        values: Map::new(
            |k: Seq<char>| attr_spec(t.attributes@, k) is Some,
            |k: Seq<char>| attr_spec(t.attributes@, k)->0,
        ),
        bounds: t.bounds,
        children: t.children@,
    }
}

pub open spec fn node_view(n: HtmlNode) -> NodeView {
    match n {
        HtmlNode::Tag(t) => NodeView::Tag(tag_view(t)),
        HtmlNode::Raw(s) => NodeView::Raw(s@),
        HtmlNode::Comment => NodeView::Comment,
    }
}

pub open spec fn views(nodes: Seq<HtmlNode>) -> Seq<NodeView> {
    nodes.map_values(|n: HtmlNode| node_view(n))
}

/// The nodes `tl` parses from a document, by their views; `None` when the
/// document is refused.
pub uninterp spec fn parsed_html(html: Seq<char>) -> Option<Seq<NodeView>>;

/// `tl::parse` with the default options, each node converted to plain values
/// (`tl::HTMLTag::name`, `Attributes::iter`, `boundaries`, `Children::top`;
/// `Bytes::as_utf8_str` for text). With two or fewer attributes `tl` stores
/// them inline, repeated names included; with more it keeps them in a hash
/// map, in that map's order. The name covers the nodes by their views, which
/// hold each attribute's value by name (the first entry of a repeated name,
/// as `tl`'s own lookup gives) and so do not depend on that order. Which inputs `tl`
/// refuses (those longer than `u32::MAX` bytes) is left unsaid.
#[verifier::external_body]
pub(crate) fn parse_html(html: &str) -> (r: Option<Vec<HtmlNode>>)
    ensures
        match r {
            Some(nodes) => parsed_html(html@) == Some(views(nodes@)),
            None => parsed_html(html@) is None,
        },
{
    let dom = tl::parse(html, Default::default()).ok()?;
    Some(dom.nodes().iter().map(|n| match n {
        tl::Node::Tag(t) => HtmlNode::Tag(HtmlTag {
            name: t.name().as_utf8_str().into(),
            attributes: t.attributes().iter().map(|(k, v)| (k.into(), v.map(Into::into))).collect(),
            bounds: t.boundaries(dom.parser()),
            children: t.children().top().iter().map(tl::NodeHandle::get_inner).collect(),
        }),
        tl::Node::Raw(r) => HtmlNode::Raw(r.as_utf8_str().into()),
        _ => HtmlNode::Comment,
    }).collect())
}

/// The node at position `i`, when it is a tag.
pub open spec fn tag_at(nodes: Seq<HtmlNode>, i: int) -> Option<HtmlTag> {
    if 0 <= i < nodes.len() {
        match nodes[i] {
            HtmlNode::Tag(t) => Some(t),
            _ => None,
        }
    } else {
        None
    }
}

/// The view of the node at position `i`, when it is a tag.
pub open spec fn tag_at_v(nodes: Seq<NodeView>, i: int) -> Option<TagView> {
    if 0 <= i < nodes.len() {
        match nodes[i] {
            NodeView::Tag(t) => Some(t),
            _ => None,
        }
    } else {
        None
    }
}

/// The value of attribute `key` of a tag, by its view.
pub open spec fn attr_v(t: TagView, key: Seq<char>) -> Option<Seq<char>> {
    if t.values.dom().contains(key) {
        Some(t.values[key])
    } else {
        None
    }
}

pub open spec fn has_class_v(t: TagView, cls: Seq<char>) -> bool {
    match attr_v(t, "class"@) {
        Some(v) => has_word(v, cls),
        None => false,
    }
}

/// Whether a tag is a member of class `cls` as `tl`'s class selectors test
/// it: one of the ASCII-whitespace-separated words of its `class` value.
pub open spec fn class_member_v(t: TagView, cls: Seq<char>) -> bool {
    match attr_v(t, "class"@) {
        Some(v) => has_word_by(v, cls, true),
        None => false,
    }
}

pub fn class_member(tag: &HtmlTag, cls: &str) -> (r: bool)
    ensures
        r == class_member_v(tag_view(*tag), cls@),
{
    proof {
        lemma_tag_view(*tag);
    }
    match attr(tag, "class") {
        Some(v) => {
            let s = chars_of(v.as_str());
            let c = chars_of(cls);
            word_in(&s, &c, true)
        },
        None => false,
    }
}

pub proof fn lemma_tag_view(t: HtmlTag)
    ensures
        forall|k: Seq<char>| #[trigger] attr_v(tag_view(t), k) == attr_spec(t.attributes@, k),
        forall|c: Seq<char>| #[trigger] has_class_v(tag_view(t), c) == has_class_spec(t, c),
{
}

pub fn tag_ref(nodes: &Vec<HtmlNode>, i: usize) -> (r: Option<&HtmlTag>)
    ensures
        match tag_at(nodes@, i as int) {
            Some(t) => r matches Some(x) && *x == t,
            None => r is None,
        },
        match tag_at_v(views(nodes@), i as int) {
            Some(t) => r matches Some(x) && tag_view(*x) == t,
            None => r is None,
        },
{
    if i < nodes.len() {
        match &nodes[i] {
            HtmlNode::Tag(t) => Some(t),
            _ => None,
        }
    } else {
        None
    }
}

// The two functions of `tl` below are short enough to state whole, and are
// computed here from the parsed nodes. `tl` registers a tag before its
// children, so a child always comes after its parent in the node list; a
// child position that does not, or that lies outside the list, is read as
// contributing nothing.

/// The text one child contributes to `tl::HTMLTag::inner_text`: a tag its
/// own inner text, raw text as written, a comment nothing.
pub open spec fn inner_piece(nodes: Seq<NodeView>, parent: int, k: int) -> Seq<char>
    decreases nodes.len() - parent, 0int,
{
    if parent < k < nodes.len() {
        match nodes[k] {
            NodeView::Tag(c) => inner_kids(nodes, k, c.children),
            NodeView::Raw(s) => s,
            NodeView::Comment => Seq::empty(),
        }
    } else {
        Seq::empty()
    }
}

pub open spec fn inner_kids(nodes: Seq<NodeView>, parent: int, kids: Seq<u32>) -> Seq<char>
    decreases nodes.len() - parent, kids.len() + 1,
{
    if kids.len() == 0 {
        Seq::empty()
    } else {
        inner_kids(nodes, parent, kids.drop_last()) + inner_piece(nodes, parent, kids.last() as int)
    }
}

/// `tl::HTMLTag::inner_text` of the tag at `i`: its children's text,
/// concatenated.
pub open spec fn inner_text_v(nodes: Seq<NodeView>, i: int) -> Seq<char> {
    match tag_at_v(nodes, i) {
        Some(t) => inner_kids(nodes, i, t.children),
        None => Seq::empty(),
    }
}

pub open spec fn inner_text(nodes: Seq<HtmlNode>, i: int) -> Seq<char> {
    inner_text_v(views(nodes), i)
}

fn push_inner(nodes: &Vec<HtmlNode>, i: usize, buffer: &mut String)
    requires
        tag_at(nodes@, i as int) is Some,
    ensures
        final(buffer)@ == old(buffer)@ + inner_text(nodes@, i as int),
    decreases nodes@.len() - i,
{
    let t = match &nodes[i] {
        HtmlNode::Tag(t) => t,
        _ => return,
    };
    let ghost nv = views(nodes@);
    let ghost b0 = old(buffer)@;
    let mut j: usize = 0;
    assert(t.children@.take(0) =~= Seq::<u32>::empty());
    assert(b0 + Seq::<char>::empty() =~= b0);
    assert(nv[i as int] == node_view(nodes@[i as int]));
    while j < t.children.len()
        invariant
            j <= t.children@.len(),
            nv == views(nodes@),
            tag_at_v(nv, i as int) == Some(tag_view(*t)),
            buffer@ == b0 + inner_kids(nv, i as int, t.children@.take(j as int)),
        decreases t.children@.len() - j,
    {
        let k = t.children[j] as usize;
        assert(t.children@.take(j + 1).drop_last() =~= t.children@.take(j as int));
        assert(t.children@.take(j + 1).last() == t.children@[j as int]);
        let ghost before = buffer@;
        if i < k && k < nodes.len() {
            assert(nv[k as int] == node_view(nodes@[k as int]));
            match &nodes[k] {
                HtmlNode::Tag(_) => push_inner(nodes, k, buffer),
                HtmlNode::Raw(s) => push_str(buffer, s.as_str()),
                HtmlNode::Comment => {},
            }
        }
        assert(buffer@ =~= before + inner_piece(nv, i as int, t.children@[j as int] as int));
        assert(buffer@ =~= b0 + inner_kids(nv, i as int, t.children@.take(j + 1)));
        j = j + 1;
    }
    assert(t.children@.take(t.children@.len() as int) =~= t.children@);
}

/// `tl::HTMLTag::inner_text` of the tag at `i` (empty when there is none).
pub fn inner_text_of(nodes: &Vec<HtmlNode>, i: usize) -> (r: String)
    ensures
        r@ == inner_text(nodes@, i as int),
{
    let mut s = String::new();
    if tag_ref(nodes, i).is_some() {
        push_inner(nodes, i, &mut s);
    }
    assert(s@ =~= inner_text(nodes@, i as int));
    s
}

/// The last node inside the tag at `i`, as `tl`'s `Children::end` finds it:
/// its last child, or, when that is a tag with children, the last node
/// inside that.
pub open spec fn last_inside(nodes: Seq<NodeView>, i: int) -> Option<int>
    decreases nodes.len() - i,
{
    match tag_at_v(nodes, i) {
        Some(t) => if t.children.len() == 0 {
            None
        } else {
            let c = t.children.last() as int;
            if i < c && tag_at_v(nodes, c) is Some {
                match last_inside(nodes, c) {
                    Some(x) => Some(x),
                    None => Some(c),
                }
            } else {
                Some(c)
            }
        },
        None => None,
    }
}

/// `tl`'s `Children::boundaries` of the tag at `i`: its first child and the
/// last node inside it, when it has children.
pub open spec fn inside_range(nodes: Seq<NodeView>, i: int) -> Option<(int, int)> {
    match tag_at_v(nodes, i) {
        Some(t) => if t.children.len() > 0 && last_inside(nodes, i) is Some {
            Some((t.children[0] as int, last_inside(nodes, i)->0))
        } else {
            None
        },
        None => None,
    }
}

fn last_inside_of(nodes: &Vec<HtmlNode>, i: usize) -> (r: Option<usize>)
    ensures
        match last_inside(views(nodes@), i as int) {
            Some(x) => r == Some(x as usize) && x == r->0 as int,
            None => r is None,
        },
    decreases nodes@.len() - i,
{
    let t = match tag_ref(nodes, i) {
        Some(t) => t,
        None => return None,
    };
    if t.children.len() == 0 {
        return None;
    }
    let c = t.children[t.children.len() - 1] as usize;
    if i < c && tag_ref(nodes, c).is_some() {
        match last_inside_of(nodes, c) {
            Some(x) => Some(x),
            None => Some(c),
        }
    } else {
        Some(c)
    }
}

pub fn inside_range_of(nodes: &Vec<HtmlNode>, i: usize) -> (r: Option<(usize, usize)>)
    ensures
        match inside_range(views(nodes@), i as int) {
            Some((a, b)) => r matches Some(x) && x.0 as int == a && x.1 as int == b,
            None => r is None,
        },
{
    let t = match tag_ref(nodes, i) {
        Some(t) => t,
        None => return None,
    };
    if t.children.len() == 0 {
        return None;
    }
    match last_inside_of(nodes, i) {
        Some(b) => Some((t.children[0] as usize, b)),
        None => None,
    }
}

pub open spec fn opt_chars(o: Option<String>) -> Option<Seq<char>> {
    match o {
        Some(s) => Some(s@),
        None => None,
    }
}

/// The value of the first attribute named `key` among `attrs`: `None` when
/// there is none or it has no value.
pub open spec fn attr_spec(attrs: Seq<(String, Option<String>)>, key: Seq<char>) -> Option<Seq<char>>
    decreases attrs.len(),
{
    if attrs.len() == 0 {
        None
    } else if attrs[0].0@ == key {
        opt_chars(attrs[0].1)
    } else {
        attr_spec(attrs.drop_first(), key)
    }
}

/// The value of attribute `key` of `tag`.
pub fn attr(tag: &HtmlTag, key: &str) -> (r: Option<String>)
    ensures
        opt_chars(r) == attr_spec(tag.attributes@, key@),
{
    let attrs = &tag.attributes;
    let mut i: usize = 0;
    assert(attrs@.skip(0) =~= attrs@);
    while i < attrs.len()
        invariant
            i <= attrs@.len(),
            attrs@ == tag.attributes@,
            attr_spec(attrs@, key@) == attr_spec(attrs@.skip(i as int), key@),
        decreases attrs@.len() - i,
    {
        assert(attrs@.skip(i as int)[0] == attrs@[i as int]);
        assert(attrs@.skip(i as int).drop_first() =~= attrs@.skip(i + 1));
        if str_eq(attrs[i].0.as_str(), key) {
            let r = match &attrs[i].1 {
                Some(v) => Some(v.clone()),
                None => None,
            };
            assert(opt_chars(r) == opt_chars(attrs@[i as int].1));
            assert(attrs@.skip(i as int).len() > 0);
            assert(attrs@.skip(i as int)[0].0@ == key@);
            assert(attr_spec(attrs@.skip(i as int), key@) == opt_chars(attrs@[i as int].1));
            return r;
        }
        i = i + 1;
    }
    None
}

/// A word separator: Unicode whitespace, or ASCII whitespace only.
pub open spec fn is_sep(c: char, ascii: bool) -> bool {
    if ascii {
        is_ascii_ws(c)
    } else {
        is_ws(c)
    }
}

/// Whether `cls` is one of the separated words of `s`: a non-empty run
/// without separators, bounded by separators or the ends.
pub open spec fn has_word_by(s: Seq<char>, cls: Seq<char>, ascii: bool) -> bool {
    &&& cls.len() > 0
    &&& forall|k: int| 0 <= k < cls.len() ==> !is_sep(#[trigger] cls[k], ascii)
    &&& exists|i: int| word_at(s, i, cls, ascii)
}

pub open spec fn word_at(s: Seq<char>, i: int, cls: Seq<char>, ascii: bool) -> bool {
    &&& has_prefix_at(s, i, cls)
    &&& (i == 0 || is_sep(s[i - 1], ascii))
    &&& (i + cls.len() == s.len() || is_sep(s[i + cls.len()], ascii))
}

/// Whether `cls` is one of the whitespace-separated words of `s`.
pub open spec fn has_word(s: Seq<char>, cls: Seq<char>) -> bool {
    has_word_by(s, cls, false)
}

fn sep(c: char, ascii: bool) -> (r: bool)
    ensures
        r == is_sep(c, ascii),
{
    if ascii {
        ascii_ws(c)
    } else {
        ws(c)
    }
}

fn word_in(s: &Vec<char>, cls: &Vec<char>, ascii: bool) -> (r: bool)
    ensures
        r == has_word_by(s@, cls@, ascii),
{
    if cls.len() == 0 {
        return false;
    }
    let mut k: usize = 0;
    while k < cls.len()
        invariant
            k <= cls@.len(),
            forall|j: int| 0 <= j < k ==> !is_sep(#[trigger] cls@[j], ascii),
        decreases cls@.len() - k,
    {
        if sep(cls[k], ascii) {
            return false;
        }
        k = k + 1;
    }
    let mut i: usize = 0;
    while i < s.len()
        invariant
            i <= s@.len(),
            cls@.len() > 0,
            forall|j: int| 0 <= j < cls@.len() ==> !is_sep(#[trigger] cls@[j], ascii),
            forall|j: int| 0 <= j < i ==> !word_at(s@, j, cls@, ascii),
        decreases s@.len() - i,
    {
        if prefix_at(s, i, cls) && (i == 0 || sep(s[i - 1], ascii)) && (i + cls.len() == s.len() || sep(
            s[i + cls.len()],
            ascii,
        )) {
            assert(word_at(s@, i as int, cls@, ascii));
            return true;
        }
        i = i + 1;
    }
    assert forall|j: int| !word_at(s@, j, cls@, ascii) by {
        if word_at(s@, j, cls@, ascii) {
            assert(0 <= j && j + cls@.len() <= s@.len());
        }
    }
    false
}

/// Whether `tag` lists `cls` among its classes.
pub open spec fn has_class_spec(tag: HtmlTag, cls: Seq<char>) -> bool {
    match attr_spec(tag.attributes@, "class"@) {
        Some(v) => has_word(v, cls),
        None => false,
    }
}

/// Whether `tag` lists `cls` among its classes.
pub fn has_class(tag: &HtmlTag, cls: &str) -> (r: bool)
    ensures
        r == has_class_spec(*tag, cls@),
{
    match attr(tag, "class") {
        Some(v) => {
            let s = chars_of(v.as_str());
            let c = chars_of(cls);
            word_in(&s, &c, false)
        },
        None => false,
    }
}

} // verus!
