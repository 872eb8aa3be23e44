//! XML namespace resolution for SVG documents: prefix bindings, default
//! namespaces, and whether a tag resolves to the SVG namespace.

use vstd::prelude::*;
use vstd::string::StrSliceExecFns;
use crate::compat::starts_with;
use crate::text::{chars_of, index_of, index_of_spec, str_eq};

verus! {

pub const SVG_NAMESPACE_URI: &'static str = "http://www.w3.org/2000/svg";

pub const XLINK_NAMESPACE_URI: &'static str = "http://www.w3.org/1999/xlink";

/// The namespace bindings in effect at an element.
#[derive(Clone, Debug, Default)]
pub struct NamespaceScope<'a> {
    pub default_namespace: Option<&'a str>,
    /// Prefix bindings in declaration order; a later binding shadows an
    /// earlier one of the same prefix.
    pub prefixes: Vec<(&'a str, &'a str)>,
}

pub open spec fn opt_view(o: Option<&str>) -> Option<Seq<char>> {
    match o {
        Some(s) => Some(s@),
        None => None,
    }
}

pub open spec fn binding_views(v: Seq<(&str, &str)>) -> Seq<(Seq<char>, Seq<char>)> {
    v.map_values(|b: (&str, &str)| (b.0@, b.1@))
}

/// The namespace most recently bound to `prefix`, if any.
pub open spec fn last_binding(ps: Seq<(Seq<char>, Seq<char>)>, prefix: Seq<char>) -> Option<
    Seq<char>,
>
    decreases ps.len(),
{
    if ps.len() == 0 {
        None
    } else if ps.last().0 == prefix {
        Some(ps.last().1)
    } else {
        last_binding(ps.drop_last(), prefix)
    }
}

/// A prefix resolves to its latest binding, unless that binding is empty
/// (an empty declaration undeclares the prefix).
pub open spec fn resolve_spec(ps: Seq<(Seq<char>, Seq<char>)>, prefix: Seq<char>) -> Option<
    Seq<char>,
> {
    match last_binding(ps, prefix) {
        Some(ns) => if ns.len() > 0 {
            Some(ns)
        } else {
            None
        },
        None => None,
    }
}

impl<'a> NamespaceScope<'a> {
    pub fn default_namespace(&self) -> (r: Option<&'a str>)
        ensures
            r == self.default_namespace,
    {
        self.default_namespace
    }

    pub fn set_default_namespace(&mut self, namespace_uri: Option<&'a str>)
        ensures
            final(self).default_namespace == namespace_uri,
            final(self).prefixes@ == old(self).prefixes@,
    {
        self.default_namespace = namespace_uri;
    }

    /// The namespace `prefix` is bound to.
    pub fn resolve_prefix(&self, prefix: &str) -> (r: Option<&'a str>)
        ensures
            opt_view(r) == resolve_spec(binding_views(self.prefixes@), prefix@),
    {
        let mut i = self.prefixes.len();
        let ghost ps = binding_views(self.prefixes@);
        assert(ps.take(i as int) =~= ps);
        while i > 0
            invariant
                i <= self.prefixes@.len(),
                ps == binding_views(self.prefixes@),
                last_binding(ps, prefix@) == last_binding(ps.take(i as int), prefix@),
            decreases i,
        {
            let (known, uri) = self.prefixes[i - 1];
            assert(ps.take(i as int).last() == (known@, uri@));
            if str_eq(known, prefix) {
                if uri.is_empty() {
                    return None;
                }
                return Some(uri);
            }
            assert(ps.take(i as int).drop_last() =~= ps.take(i - 1));
            i = i - 1;
        }
        None
    }
}

/// An element or attribute name with its prefix resolved.
#[derive(Clone, Copy, Debug, PartialEq, Eq)]
pub struct ExpandedName<'a> {
    pub namespace_uri: Option<&'a str>,
    pub local_name: &'a str,
}

/// `name` split at its first `:` into prefix and local name.
pub open spec fn split_spec(name: Seq<char>) -> (Option<Seq<char>>, Seq<char>) {
    let k = index_of_spec(name, 0, ':');
    if k < name.len() {
        (Some(name.take(k)), name.subrange(k + 1, name.len() as int))
    } else {
        (None, name)
    }
}

proof fn lemma_index_of_range(s: Seq<char>, from: int, c: char)
    requires
        0 <= from <= s.len(),
    ensures
        from <= index_of_spec(s, from, c) <= s.len(),
    decreases s.len() - from,
{
    if from < s.len() && s[from] != c {
        lemma_index_of_range(s, from + 1, c);
    }
}

/// Split a qualified name into its optional prefix and its local name.
pub fn split_qualified_name(raw_name: &str) -> (r: (Option<&str>, &str))
    ensures
        (opt_view(r.0), r.1@) == split_spec(raw_name@),
{
    let v = chars_of(raw_name);
    let k = index_of(&v, 0, ':');
    proof {
        lemma_index_of_range(v@, 0, ':');
    }
    let n = raw_name.unicode_len();
    if k < n {
        let prefix = raw_name.substring_char(0, k);
        let local = raw_name.substring_char(k + 1, n);
        assert(prefix@ =~= raw_name@.take(k as int));
        (Some(prefix), local)
    } else {
        (None, raw_name)
    }
}

/// The namespace an element name resolves to: its prefix's binding, or the
/// default namespace when it has no prefix.
pub open spec fn element_namespace(scope: NamespaceScope, name: Seq<char>) -> Option<Seq<char>> {
    match split_spec(name).0 {
        Some(prefix) => resolve_spec(binding_views(scope.prefixes@), prefix),
        None => opt_view(scope.default_namespace),
    }
}

/// The namespace an attribute name resolves to: only prefixed attributes
/// have one, and `xlink` falls back to the XLink namespace when unbound.
pub open spec fn attribute_namespace(scope: NamespaceScope, name: Seq<char>) -> Option<Seq<char>> {
    match split_spec(name).0 {
        Some(prefix) => if prefix == "xlink"@ {
            match resolve_spec(binding_views(scope.prefixes@), prefix) {
                Some(ns) => Some(ns),
                None => Some(XLINK_NAMESPACE_URI@),
            }
        } else {
            resolve_spec(binding_views(scope.prefixes@), prefix)
        },
        None => None,
    }
}

pub fn expand_element_name<'a>(raw_name: &'a str, scope: &NamespaceScope<'a>) -> (r: ExpandedName<
    'a,
>)
    ensures
        opt_view(r.namespace_uri) == element_namespace(*scope, raw_name@),
        r.local_name@ == split_spec(raw_name@).1,
{
    let (prefix, local_name) = split_qualified_name(raw_name);
    let namespace_uri = match prefix {
        Some(p) => scope.resolve_prefix(p),
        None => scope.default_namespace(),
    };
    ExpandedName { namespace_uri, local_name }
}

pub fn expand_attribute_name<'a>(raw_name: &'a str, scope: &NamespaceScope<'a>) -> (r:
    ExpandedName<'a>)
    ensures
        opt_view(r.namespace_uri) == attribute_namespace(*scope, raw_name@),
        r.local_name@ == split_spec(raw_name@).1,
{
    let (prefix, local_name) = split_qualified_name(raw_name);
    let namespace_uri = match prefix {
        Some(p) => {
            if str_eq(p, "xlink") {
                match scope.resolve_prefix("xlink") {
                    Some(ns) => Some(ns),
                    None => Some(XLINK_NAMESPACE_URI),
                }
            } else {
                scope.resolve_prefix(p)
            }
        },
        None => None,
    };
    ExpandedName { namespace_uri, local_name }
}

/// Characters trimmed from attribute values: quotes and ASCII whitespace.
pub open spec fn is_value_edge(c: char) -> bool {
    c == '"' || c == '\'' || crate::text::is_ascii_ws(c)
}

pub open spec fn edge_lead(s: Seq<char>) -> nat
    decreases s.len(),
{
    if s.len() > 0 && is_value_edge(s[0]) {
        1 + edge_lead(s.drop_first())
    } else {
        0
    }
}

pub open spec fn edge_trail(s: Seq<char>) -> nat
    decreases s.len(),
{
    if s.len() > 0 && is_value_edge(s.last()) {
        1 + edge_trail(s.drop_last())
    } else {
        0
    }
}

/// A raw attribute value without its surrounding quotes and whitespace.
pub open spec fn trim_value_spec(s: Seq<char>) -> Seq<char> {
    let a = edge_lead(s) as int;
    if a >= s.len() {
        Seq::empty()
    } else {
        s.subrange(a, s.len() - edge_trail(s))
    }
}

proof fn lemma_edge_lead(s: Seq<char>, i: int)
    requires
        0 <= i <= s.len(),
        forall|k: int| 0 <= k < i ==> is_value_edge(s[k]),
    ensures
        edge_lead(s) == i + edge_lead(s.subrange(i, s.len() as int)),
    decreases i,
{
    if i > 0 {
        assert(s.drop_first().subrange(i - 1, s.len() - 1) =~= s.subrange(i, s.len() as int));
        lemma_edge_lead(s.drop_first(), i - 1);
    } else {
        assert(s.subrange(0, s.len() as int) =~= s);
    }
}

proof fn lemma_edge_trail(s: Seq<char>, j: int)
    requires
        0 <= j <= s.len(),
        forall|k: int| j <= k < s.len() ==> is_value_edge(s[k]),
    ensures
        edge_trail(s) == (s.len() - j) + edge_trail(s.subrange(0, j)),
    decreases s.len() - j,
{
    if j < s.len() {
        assert(s.drop_last().subrange(0, j) =~= s.subrange(0, j));
        lemma_edge_trail(s.drop_last(), j);
    } else {
        assert(s.subrange(0, j) =~= s);
    }
}

fn value_edge(c: char) -> (r: bool)
    ensures
        r == is_value_edge(c),
{
    c == '"' || c == '\'' || crate::text::ascii_ws(c)
}

/// Trim quotes and ASCII whitespace from both ends of a raw attribute value.
pub fn trim_attr_value(raw_value: &str) -> (r: &str)
    ensures
        r@ == trim_value_spec(raw_value@),
{
    let v = chars_of(raw_value);
    let n = v.len();
    let mut a: usize = 0;
    while a < n && value_edge(v[a])
        invariant
            n == v@.len(),
            a <= n,
            forall|k: int| 0 <= k < a ==> is_value_edge(v@[k]),
        decreases n - a,
    {
        a = a + 1;
    }
    proof {
        lemma_edge_lead(v@, a as int);
    }
    if a == n {
        assert(edge_lead(v@.subrange(a as int, n as int)) == 0);
        return raw_value.substring_char(a, a);
    }
    assert(!is_value_edge(v@[a as int]));
    assert(v@.subrange(a as int, n as int)[0] == v@[a as int]);
    assert(edge_lead(v@.subrange(a as int, n as int)) == 0);
    let mut b: usize = n;
    while b > a && value_edge(v[b - 1])
        invariant
            n == v@.len(),
            a < n,
            !is_value_edge(v@[a as int]),
            a < b <= n,
            forall|k: int| b <= k < n ==> is_value_edge(v@[k]),
        decreases b,
    {
        b = b - 1;
    }
    proof {
        lemma_edge_trail(v@, b as int);
        let t = v@.subrange(0, b as int);
        assert(t.last() == v@[b - 1]);
        assert(edge_trail(t) == 0);
    }
    let r = raw_value.substring_char(a, b);
    r
}

/// One attribute of a tag: its name and, when it has one, its raw value.
pub open spec fn attr_views(v: Seq<(&str, Option<&str>)>) -> Seq<(Seq<char>, Option<Seq<char>>)> {
    v.map_values(|a: (&str, Option<&str>)| (a.0@, opt_view(a.1)))
}

/// A scope as character sequences.
pub struct ScopeView {
    pub default: Option<Seq<char>>,
    pub prefixes: Seq<(Seq<char>, Seq<char>)>,
}

pub open spec fn scope_view(s: NamespaceScope) -> ScopeView {
    ScopeView { default: opt_view(s.default_namespace), prefixes: binding_views(s.prefixes@) }
}

pub open spec fn non_empty(ns: Seq<char>) -> Option<Seq<char>> {
    if ns.len() > 0 {
        Some(ns)
    } else {
        None
    }
}

/// The effect of one attribute on the scope: `xmlns` sets (or, when empty,
/// clears) the default namespace and `xmlns:p` binds prefix `p`; attributes
/// without a value change nothing.
pub open spec fn apply_attr(sc: ScopeView, a: (Seq<char>, Option<Seq<char>>)) -> ScopeView {
    match a.1 {
        None => sc,
        Some(raw) => {
            let ns = trim_value_spec(raw);
            if a.0 == "xmlns"@ {
                ScopeView { default: non_empty(ns), prefixes: sc.prefixes }
            } else if starts_with(a.0, "xmlns:"@) {
                ScopeView {
                    default: sc.default,
                    prefixes: sc.prefixes.push((a.0.subrange(6, a.0.len() as int), ns)),
                }
            } else {
                sc
            }
        },
    }
}

pub open spec fn scope_after(sc: ScopeView, attrs: Seq<(Seq<char>, Option<Seq<char>>)>) -> ScopeView
    decreases attrs.len(),
{
    if attrs.len() == 0 {
        sc
    } else {
        apply_attr(scope_after(sc, attrs.drop_last()), attrs.last())
    }
}

fn prefixed_xmlns(name: &str) -> (r: Option<&str>)
    ensures
        match r {
            Some(p) => starts_with(name@, "xmlns:"@) && p@ == name@.subrange(6, name@.len() as int),
            None => !starts_with(name@, "xmlns:"@),
        },
{
    let v = chars_of(name);
    let lit = chars_of("xmlns:");
    proof {
        reveal_strlit("xmlns:");
    }
    assert(lit@.len() == 6);
    if v.len() >= 6 && crate::text::prefix_at(&v, 0, &lit) {
        let n = name.unicode_len();
        Some(name.substring_char(6, n))
    } else {
        None
    }
}

/// The scope of a tag: its parent's scope updated by the tag's namespace
/// declarations, in order.
pub fn scope_for_tag<'a>(
    attributes: &Vec<(&'a str, Option<&'a str>)>,
    parent: &NamespaceScope<'a>,
) -> (r: NamespaceScope<'a>)
    ensures
        scope_view(r) == scope_after(scope_view(*parent), attr_views(attributes@)),
{
    let mut prefixes: Vec<(&'a str, &'a str)> = Vec::new();
    let mut j: usize = 0;
    while j < parent.prefixes.len()
        invariant
            j <= parent.prefixes@.len(),
            prefixes@ == parent.prefixes@.take(j as int),
        decreases parent.prefixes@.len() - j,
    {
        prefixes.push(parent.prefixes[j]);
        j = j + 1;
        assert(prefixes@ =~= parent.prefixes@.take(j as int));
    }
    assert(parent.prefixes@.take(j as int) =~= parent.prefixes@);
    let mut scope = NamespaceScope { default_namespace: parent.default_namespace, prefixes };
    let ghost av = attr_views(attributes@);
    let mut i: usize = 0;
    assert(av.take(0) =~= Seq::<(Seq<char>, Option<Seq<char>>)>::empty());
    while i < attributes.len()
        invariant
            i <= attributes@.len(),
            av == attr_views(attributes@),
            scope_view(scope) == scope_after(scope_view(*parent), av.take(i as int)),
        decreases attributes@.len() - i,
    {
        let (name, value) = attributes[i];
        assert(av.take(i + 1).drop_last() =~= av.take(i as int));
        assert(av.take(i + 1).last() == (name@, opt_view(value)));
        match value {
            None => {},
            Some(raw) => {
                let ns = trim_attr_value(raw);
                if str_eq(name, "xmlns") {
                    scope.set_default_namespace(non_empty_namespace(ns));
                } else {
                    match prefixed_xmlns(name) {
                        Some(prefix) => {
                            let ghost before = scope.prefixes@;
                            scope.prefixes.push((prefix, ns));
                            assert(binding_views(scope.prefixes@) =~= binding_views(before).push(
                                (prefix@, ns@),
                            ));
                        },
                        None => {},
                    }
                }
            },
        }
        i = i + 1;
    }
    assert(av.take(av.len() as int) =~= av);
    scope
}

/// `Some(namespace_uri)` unless it is empty.
pub fn non_empty_namespace(namespace_uri: &str) -> (r: Option<&str>)
    ensures
        opt_view(r) == non_empty(namespace_uri@),
        r matches Some(x) ==> x == namespace_uri,
{
    if namespace_uri.is_empty() {
        None
    } else {
        Some(namespace_uri)
    }
}

/// Whether a tag declares a default namespace (an `xmlns` attribute, with or
/// without a value).
pub open spec fn declares_default(attrs: Seq<(Seq<char>, Option<Seq<char>>)>) -> bool {
    exists|i: int| 0 <= i < attrs.len() && (#[trigger] attrs[i]).0 == "xmlns"@
}

pub fn declares_default_namespace(attributes: &Vec<(&str, Option<&str>)>) -> (r: bool)
    ensures
        r == declares_default(attr_views(attributes@)),
{
    let ghost av = attr_views(attributes@);
    let mut i: usize = 0;
    while i < attributes.len()
        invariant
            i <= attributes@.len(),
            av == attr_views(attributes@),
            forall|k: int| 0 <= k < i ==> (#[trigger] av[k]).0 != "xmlns"@,
        decreases attributes@.len() - i,
    {
        let (name, _) = attributes[i];
        assert(av[i as int].0 == name@);
        if str_eq(name, "xmlns") {
            return true;
        }
        i = i + 1;
    }
    false
}

/// One tag on the way from the document root to an element: its raw name,
/// when it has one, and its attributes.
pub struct TagLink<'a> {
    pub name: Option<&'a str>,
    pub attributes: Vec<(&'a str, Option<&'a str>)>,
}

pub open spec fn element_ns_view(sc: ScopeView, name: Seq<char>) -> Option<Seq<char>> {
    match split_spec(name).0 {
        Some(prefix) => resolve_spec(sc.prefixes, prefix),
        None => sc.default,
    }
}

pub open spec fn is_unprefixed_svg(name: Option<&str>) -> bool {
    match name {
        Some(raw) => split_spec(raw@).0 is None && split_spec(raw@).1 == "svg"@,
        None => false,
    }
}

/// Whether a named tag is an SVG element whose children are foreign content.
pub open spec fn hosts_foreign(sc: ScopeView, name: Option<&str>, foreign: Seq<Seq<char>>) -> bool {
    match name {
        Some(raw) => element_ns_view(sc, raw@) == Some(SVG_NAMESPACE_URI@) && foreign.contains(
            split_spec(raw@).1,
        ),
        None => false,
    }
}

/// The scope after the tag at `index` of a chain whose last index is `last`:
/// its own declarations; an unprefixed `svg` root with no namespace at all
/// defaults to SVG; and an SVG element that hosts foreign content clears the
/// default namespace for what it contains.
pub open spec fn link_step(
    sc: ScopeView,
    link: TagLink,
    index: int,
    last: int,
    foreign: Seq<Seq<char>>,
) -> ScopeView {
    let s1 = scope_after(sc, attr_views(link.attributes@));
    let s2 = if index == 0 && s1.default is None && !declares_default(attr_views(link.attributes@))
        && is_unprefixed_svg(link.name) {
        ScopeView { default: Some(SVG_NAMESPACE_URI@), prefixes: s1.prefixes }
    } else {
        s1
    };
    if index < last && hosts_foreign(s2, link.name, foreign) {
        ScopeView { default: None, prefixes: s2.prefixes }
    } else {
        s2
    }
}

pub open spec fn chain_scope(chain: Seq<TagLink>, n: int, foreign: Seq<Seq<char>>) -> ScopeView
    decreases n,
{
    if n <= 0 {
        ScopeView { default: None, prefixes: Seq::empty() }
    } else {
        link_step(chain_scope(chain, n - 1, foreign), chain[n - 1], n - 1, chain.len() - 1, foreign)
    }
}

/// Whether the last tag of the chain resolves to the SVG namespace.
pub open spec fn resolves_to_svg_spec(chain: Seq<TagLink>, foreign: Seq<Seq<char>>) -> bool {
    chain.len() > 0 && match chain.last().name {
        Some(raw) => element_ns_view(chain_scope(chain, chain.len() as int, foreign), raw@) == Some(
            SVG_NAMESPACE_URI@,
        ),
        None => false,
    }
}

pub open spec fn str_views(v: Seq<&str>) -> Seq<Seq<char>> {
    v.map_values(|s: &str| s@)
}

fn contains_name(v: &Vec<&str>, x: &str) -> (r: bool)
    ensures
        r == str_views(v@).contains(x@),
{
    let mut i: usize = 0;
    while i < v.len()
        invariant
            i <= v@.len(),
            forall|k: int| 0 <= k < i ==> v@[k]@ != x@,
        decreases v@.len() - i,
    {
        if str_eq(v[i], x) {
            assert(str_views(v@)[i as int] == x@);
            return true;
        }
        i = i + 1;
    }
    assert forall|k: int| 0 <= k < str_views(v@).len() implies str_views(v@)[k] != x@ by {
        assert(str_views(v@)[k] == v@[k]@);
    }
    false
}

/// Whether the element at the end of `chain` (root first) resolves to the
/// SVG namespace, honouring prefix bindings and default-namespace overrides
/// declared anywhere above it; `foreign_hosts` names the SVG elements whose
/// children are foreign content.
pub fn resolves_to_svg_namespace(chain: &Vec<TagLink>, foreign_hosts: &Vec<&str>) -> (r: bool)
    ensures
        r == resolves_to_svg_spec(chain@, str_views(foreign_hosts@)),
{
    let n = chain.len();
    if n == 0 {
        return false;
    }
    let ghost foreign = str_views(foreign_hosts@);
    let last = n - 1;
    let mut scope = NamespaceScope { default_namespace: None, prefixes: Vec::new() };
    assert(binding_views(scope.prefixes@) =~= Seq::<(Seq<char>, Seq<char>)>::empty());
    assert(scope_view(scope) == chain_scope(chain@, 0, foreign));
    let mut index: usize = 0;
    while index < n
        invariant
            n == chain@.len(),
            last == n - 1,
            index <= n,
            foreign == str_views(foreign_hosts@),
            scope_view(scope) == chain_scope(chain@, index as int, foreign),
        decreases n - index,
    {
        let link = &chain[index];
        scope = scope_for_tag(&link.attributes, &scope);
        if index == 0 && scope.default_namespace.is_none() && !declares_default_namespace(
            &link.attributes,
        ) {
            match link.name {
                Some(raw) => {
                    let (prefix, local) = split_qualified_name(raw);
                    if prefix.is_none() && str_eq(local, "svg") {
                        scope.set_default_namespace(Some(SVG_NAMESPACE_URI));
                    }
                },
                None => {},
            }
        }
        if index < last {
            match link.name {
                Some(raw) => {
                    let host = expand_element_name(raw, &scope);
                    let is_svg = match host.namespace_uri {
                        Some(ns) => str_eq(ns, SVG_NAMESPACE_URI),
                        None => false,
                    };
                    if is_svg && contains_name(foreign_hosts, host.local_name) {
                        scope.set_default_namespace(None);
                    }
                },
                None => {},
            }
        }
        index = index + 1;
    }
    match chain[last].name {
        Some(raw) => match expand_element_name(raw, &scope).namespace_uri {
            Some(ns) => str_eq(ns, SVG_NAMESPACE_URI),
            None => false,
        },
        None => false,
    }
}

} // verus!
