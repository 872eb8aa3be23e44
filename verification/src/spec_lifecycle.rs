//! Explicit lifecycle declarations from specification prose, checked against
//! the cross-edition inventory and applied to a catalog snapshot.
//!
//! Membership remains a separate input: a declaration classifies a feature
//! only when the inventories know its subject.

use vstd::prelude::*;
use crate::compat::{chars_lt, seq_lt};
use crate::snapshot::{snapshot_name, SpecSnapshotId};
use crate::text::{chars_of, concat3, push_str, string_seqs, str_eq};

verus! {

#[derive(Debug, Clone, Copy, PartialEq, Eq, Structural)]
pub enum CatalogDeclaredStatus {
    Deprecated,
    Obsolete,
    Removed,
}

#[derive(Debug, Clone, Copy, PartialEq, Eq, Structural)]
pub enum CatalogLifecycleStatus {
    Stable,
    Experimental,
    Deprecated,
    Obsolete,
}

/// An explicit declaration and where the specification makes it.
#[derive(Debug, Clone, PartialEq, Eq)]
pub struct CatalogLifecycleDeclaration {
    pub status: CatalogDeclaredStatus,
    pub source: String,
}

/// The lifecycle of one element or attribute (with its bearer) in a snapshot.
#[derive(Debug, Clone, PartialEq, Eq)]
pub struct CatalogLifecycleEntry {
    pub name: String,
    pub owner: Option<String>,
    /// The catalog name when it differs from `name` (`href` for `xlink:href`).
    pub catalog_name: Option<String>,
    pub present: bool,
    pub lifecycle: CatalogLifecycleStatus,
    pub known_in: Vec<SpecSnapshotId>,
    pub declaration: Option<CatalogLifecycleDeclaration>,
}

#[derive(Debug, Clone, PartialEq, Eq)]
pub struct CatalogInventoryElement {
    pub name: String,
    pub attributes: Vec<String>,
}

/// The elements and attributes one edition defines.
#[derive(Debug, Clone, PartialEq, Eq)]
pub struct CatalogInventory {
    pub profile: SpecSnapshotId,
    pub sources: Vec<String>,
    pub elements: Vec<CatalogInventoryElement>,
    pub attributes: Vec<String>,
}

#[derive(Debug, Clone, PartialEq, Eq)]
pub struct CatalogSnapshotLifecycle {
    pub elements: Vec<CatalogLifecycleEntry>,
    pub attributes: Vec<CatalogLifecycleEntry>,
}

/// One edition's inventory and lifecycle.
#[derive(Debug, Clone, PartialEq, Eq)]
pub struct CatalogSnapshot {
    pub profile: SpecSnapshotId,
    pub inventory: CatalogInventory,
    pub lifecycle: CatalogSnapshotLifecycle,
}

/// An explicit lifecycle declaration about an element, or an attribute with
/// its bearer when the declaration is local to one element.
#[derive(Debug, Clone, PartialEq, Eq)]
pub struct Declaration {
    pub name: String,
    pub element: bool,
    pub owner: Option<String>,
    pub fact: CatalogLifecycleDeclaration,
}

/// Why a declaration could not be applied.
#[derive(Debug, Clone, PartialEq, Eq)]
pub enum LifecycleError {
    /// A bearer-scoped declaration whose bearer does not define the attribute.
    NoApplicableAttribute { profile: SpecSnapshotId, owner: String, name: String, source: String },
    /// A subject that no inventory knows.
    AbsentFromEveryInventory { profile: SpecSnapshotId, name: String, source: String },
    /// A retained (not removed) subject that this edition lacks.
    MissingFromEdition { profile: SpecSnapshotId, name: String, source: String },
    /// A retained alias whose canonical attribute this inventory lacks.
    NoDefinition { profile: SpecSnapshotId, name: String, source: String },
}

// ---------------------------------------------------------------------------
// Views

pub open spec fn opt_str(o: Option<String>) -> Option<Seq<char>> {
    match o {
        Some(s) => Some(s@),
        None => None,
    }
}

pub struct DeclView {
    pub name: Seq<char>,
    pub element: bool,
    pub owner: Option<Seq<char>>,
    pub status: CatalogDeclaredStatus,
    pub source: Seq<char>,
}

pub open spec fn decl_view(d: Declaration) -> DeclView {
    DeclView {
        name: d.name@,
        element: d.element,
        owner: opt_str(d.owner),
        status: d.fact.status,
        source: d.fact.source@,
    }
}

pub open spec fn decl_views(ds: Seq<Declaration>) -> Seq<DeclView> {
    ds.map_values(|d: Declaration| decl_view(d))
}

pub struct InvView {
    pub profile: SpecSnapshotId,
    pub elements: Seq<(Seq<char>, Seq<Seq<char>>)>,
    pub attributes: Seq<Seq<char>>,
}

pub open spec fn elem_view(e: CatalogInventoryElement) -> (Seq<char>, Seq<Seq<char>>) {
    (e.name@, string_seqs(e.attributes@))
}

pub open spec fn elem_views(v: Seq<CatalogInventoryElement>) -> Seq<(Seq<char>, Seq<Seq<char>>)> {
    v.map_values(|e: CatalogInventoryElement| elem_view(e))
}

pub open spec fn inv_view(i: CatalogInventory) -> InvView {
    InvView {
        profile: i.profile,
        elements: elem_views(i.elements@),
        attributes: string_seqs(i.attributes@),
    }
}

pub open spec fn inv_views(v: Seq<CatalogInventory>) -> Seq<InvView> {
    v.map_values(|i: CatalogInventory| inv_view(i))
}

pub struct EntryView {
    pub name: Seq<char>,
    pub owner: Option<Seq<char>>,
    pub catalog_name: Option<Seq<char>>,
    pub present: bool,
    pub lifecycle: CatalogLifecycleStatus,
    pub known_in: Seq<SpecSnapshotId>,
    pub declaration: Option<(CatalogDeclaredStatus, Seq<char>)>,
}

pub open spec fn entry_view(e: CatalogLifecycleEntry) -> EntryView {
    EntryView {
        name: e.name@,
        owner: opt_str(e.owner),
        catalog_name: opt_str(e.catalog_name),
        present: e.present,
        lifecycle: e.lifecycle,
        known_in: e.known_in@,
        declaration: match e.declaration {
            Some(d) => Some((d.status, d.source@)),
            None => None,
        },
    }
}

pub open spec fn entry_views(v: Seq<CatalogLifecycleEntry>) -> Seq<EntryView> {
    v.map_values(|e: CatalogLifecycleEntry| entry_view(e))
}

pub struct SnapView {
    pub profile: SpecSnapshotId,
    pub elements: Seq<EntryView>,
    pub attributes: Seq<EntryView>,
}

pub open spec fn snap_view(s: CatalogSnapshot) -> SnapView {
    SnapView {
        profile: s.profile,
        elements: entry_views(s.lifecycle.elements@),
        attributes: entry_views(s.lifecycle.attributes@),
    }
}

pub enum ErrView {
    NoApplicableAttribute(SpecSnapshotId, Seq<char>, Seq<char>, Seq<char>),
    AbsentFromEveryInventory(SpecSnapshotId, Seq<char>, Seq<char>),
    MissingFromEdition(SpecSnapshotId, Seq<char>, Seq<char>),
    NoDefinition(SpecSnapshotId, Seq<char>, Seq<char>),
}

pub open spec fn err_view(e: LifecycleError) -> ErrView {
    match e {
        LifecycleError::NoApplicableAttribute { profile, owner, name, source } => ErrView::NoApplicableAttribute(
            profile,
            owner@,
            name@,
            source@,
        ),
        LifecycleError::AbsentFromEveryInventory { profile, name, source } => ErrView::AbsentFromEveryInventory(
            profile,
            name@,
            source@,
        ),
        LifecycleError::MissingFromEdition { profile, name, source } => ErrView::MissingFromEdition(
            profile,
            name@,
            source@,
        ),
        LifecycleError::NoDefinition { profile, name, source } => ErrView::NoDefinition(
            profile,
            name@,
            source@,
        ),
    }
}

// ---------------------------------------------------------------------------
// Names

/// The catalog name of an attribute: the legacy `xlink:href` is catalogued as
/// `href`; every other name is its own.
pub open spec fn canonical_spec(name: Seq<char>) -> Seq<char> {
    if name == "xlink:href"@ {
        "href"@
    } else {
        name
    }
}

pub fn canonical_attribute_name(name: &str) -> (r: String)
    ensures
        r@ == canonical_spec(name@),
{
    if str_eq(name, "xlink:href") {
        "href".to_owned()
    } else {
        name.to_owned()
    }
}

// ---------------------------------------------------------------------------
// Applying declarations to a snapshot

/// Whether an inventory knows a declaration's subject: the element; the
/// attribute on its bearer; or the attribute at all.
pub open spec fn inventory_contains(inv: InvView, d: DeclView) -> bool {
    if d.element {
        exists|i: int| 0 <= i < inv.elements.len() && (#[trigger] inv.elements[i]).0 == d.name
    } else {
        match d.owner {
            Some(o) => exists|i: int|
                0 <= i < inv.elements.len() && (#[trigger] inv.elements[i]).0 == o
                    && inv.elements[i].1.contains(d.name),
            None => inv.attributes.contains(d.name),
        }
    }
}

/// The editions (in inventory order) that know a declaration's subject.
pub open spec fn known_in_spec(invs: Seq<InvView>, d: DeclView) -> Seq<SpecSnapshotId>
    decreases invs.len(),
{
    if invs.len() == 0 {
        Seq::empty()
    } else {
        known_in_spec(invs.drop_last(), d) + if inventory_contains(invs.last(), d) {
            seq![invs.last().profile]
        } else {
            Seq::empty()
        }
    }
}

/// Whether the snapshot's bearer defines the attribute (any bearer of that
/// name will do for a removal).
pub open spec fn owner_applicable(inv: InvView, owner: Seq<char>, d: DeclView) -> bool {
    exists|i: int|
        0 <= i < inv.elements.len() && (#[trigger] inv.elements[i]).0 == owner && (
        inv.elements[i].1.contains(d.name) || d.status == CatalogDeclaredStatus::Removed)
}

pub open spec fn status_lifecycle(s: CatalogDeclaredStatus) -> CatalogLifecycleStatus {
    match s {
        CatalogDeclaredStatus::Deprecated => CatalogLifecycleStatus::Deprecated,
        _ => CatalogLifecycleStatus::Obsolete,
    }
}

/// The first entry for `name` with bearer `owner`, or the length.
pub open spec fn entry_pos(es: Seq<EntryView>, name: Seq<char>, owner: Option<Seq<char>>, i: int) -> int
    decreases es.len() - i,
{
    if i < 0 || i >= es.len() {
        es.len() as int
    } else if es[i].name == name && es[i].owner == owner {
        i
    } else {
        entry_pos(es, name, owner, i + 1)
    }
}

/// A fresh entry for a declaration's subject.
pub open spec fn new_entry(d: DeclView, known: Seq<SpecSnapshotId>, profile: SpecSnapshotId) -> EntryView {
    EntryView {
        name: d.name,
        owner: d.owner,
        catalog_name: if canonical_spec(d.name) != d.name {
            Some(canonical_spec(d.name))
        } else {
            None
        },
        present: known.contains(profile),
        lifecycle: CatalogLifecycleStatus::Stable,
        known_in: known,
        declaration: None,
    }
}

/// Record a declaration on its subject's entry (created when missing): its
/// lifecycle follows the declaration, a removal makes it absent, and it
/// keeps the declaration.
pub open spec fn upsert(
    es: Seq<EntryView>,
    d: DeclView,
    known: Seq<SpecSnapshotId>,
    profile: SpecSnapshotId,
) -> Seq<EntryView> {
    let p = entry_pos(es, d.name, d.owner, 0);
    let base = if p < es.len() {
        es[p]
    } else {
        new_entry(d, known, profile)
    };
    let updated = EntryView {
        name: base.name,
        owner: base.owner,
        catalog_name: base.catalog_name,
        present: if d.status == CatalogDeclaredStatus::Removed {
            false
        } else {
            base.present
        },
        lifecycle: status_lifecycle(d.status),
        known_in: base.known_in,
        declaration: Some((d.status, d.source)),
    };
    if p < es.len() {
        es.update(p, updated)
    } else {
        es.push(updated)
    }
}

/// Apply one declaration: validate its subject, then record it.
pub open spec fn apply_decl(s: SnapView, inv: InvView, invs: Seq<InvView>, d: DeclView) -> Result<
    SnapView,
    ErrView,
> {
    let known = known_in_spec(invs, d);
    if d.owner is Some && !owner_applicable(inv, d.owner->0, d) {
        Err(ErrView::NoApplicableAttribute(s.profile, d.owner->0, d.name, d.source))
    } else if known.len() == 0 {
        Err(ErrView::AbsentFromEveryInventory(s.profile, d.name, d.source))
    } else if d.status != CatalogDeclaredStatus::Removed && !known.contains(s.profile) {
        Err(ErrView::MissingFromEdition(s.profile, d.name, d.source))
    } else if d.element {
        Ok(
            SnapView {
                profile: s.profile,
                elements: upsert(s.elements, d, known, s.profile),
                attributes: s.attributes,
            },
        )
    } else {
        Ok(
            SnapView {
                profile: s.profile,
                elements: s.elements,
                attributes: upsert(s.attributes, d, known, s.profile),
            },
        )
    }
}

/// Apply declarations in order, stopping at the first that fails.
pub open spec fn apply_all(s: SnapView, inv: InvView, invs: Seq<InvView>, ds: Seq<DeclView>) -> (
    SnapView,
    Option<ErrView>,
)
    decreases ds.len(),
{
    if ds.len() == 0 {
        (s, None)
    } else {
        let (prev, err) = apply_all(s, inv, invs, ds.drop_last());
        if err is Some {
            (prev, err)
        } else {
            match apply_decl(prev, inv, invs, ds.last()) {
                Ok(next) => (next, None),
                Err(e) => (prev, Some(e)),
            }
        }
    }
}

proof fn lemma_apply_all_stops(s: SnapView, inv: InvView, invs: Seq<InvView>, ds: Seq<DeclView>, j: int)
    requires
        0 <= j <= ds.len(),
        apply_all(s, inv, invs, ds.take(j)).1 is Some,
    ensures
        apply_all(s, inv, invs, ds) == apply_all(s, inv, invs, ds.take(j)),
    decreases ds.len() - j,
{
    if j == ds.len() {
        assert(ds.take(j) =~= ds);
    } else {
        let p = ds.drop_last();
        assert(p.take(j) =~= ds.take(j));
        lemma_apply_all_stops(s, inv, invs, p, j);
    }
}

// ---------------------------------------------------------------------------
// Sorting entries

/// Entry order: by name, and for attributes then by bearer (none first).
pub open spec fn entry_lt(a: EntryView, b: EntryView, by_owner: bool) -> bool {
    seq_lt(a.name, b.name) || (by_owner && a.name == b.name && match (a.owner, b.owner) {
        (None, Some(_)) => true,
        (Some(x), Some(y)) => seq_lt(x, y),
        _ => false,
    })
}

/// The first position at or after `j` whose entry sorts after `x`.
pub open spec fn first_after(s: Seq<EntryView>, x: EntryView, j: int, by_owner: bool) -> int
    decreases s.len() - j,
{
    if j < 0 || j >= s.len() {
        s.len() as int
    } else if entry_lt(x, s[j], by_owner) {
        j
    } else {
        first_after(s, x, j + 1, by_owner)
    }
}

/// `x` placed after every entry that does not sort after it.
pub open spec fn insert_entry(s: Seq<EntryView>, x: EntryView, by_owner: bool) -> Seq<EntryView> {
    let p = first_after(s, x, 0, by_owner);
    s.take(p).push(x) + s.skip(p)
}

/// The stable sort of the entries.
pub open spec fn sort_entries_spec(s: Seq<EntryView>, by_owner: bool) -> Seq<EntryView>
    decreases s.len(),
{
    if s.len() == 0 {
        s
    } else {
        insert_entry(sort_entries_spec(s.drop_last(), by_owner), s.last(), by_owner)
    }
}

/// The result of applying declarations: on success every declaration is
/// recorded and the entries are sorted; on failure the declarations before
/// the failing one stay recorded, unsorted, and the error is returned.
pub open spec fn apply_spec(s: SnapView, inv: InvView, invs: Seq<InvView>, ds: Seq<DeclView>) -> (
    SnapView,
    Option<ErrView>,
) {
    let (r, err) = apply_all(s, inv, invs, ds);
    match err {
        Some(e) => (r, Some(e)),
        None => (
            SnapView {
                profile: r.profile,
                elements: sort_entries_spec(r.elements, false),
                attributes: sort_entries_spec(r.attributes, true),
            },
            None,
        ),
    }
}

fn clone_str(s: &String) -> (r: String)
    ensures
        r@ == s@,
{
    s.clone()
}

fn clone_opt(o: &Option<String>) -> (r: Option<String>)
    ensures
        opt_str(r) == opt_str(*o),
{
    match o {
        Some(s) => Some(clone_str(s)),
        None => None,
    }
}

impl Declaration {
    /// A copy of the declaration.
    pub fn clone_declaration(&self) -> (r: Declaration)
        ensures
            decl_view(r) == decl_view(*self),
    {
        Declaration {
            name: clone_str(&self.name),
            element: self.element,
            owner: clone_opt(&self.owner),
            fact: CatalogLifecycleDeclaration { status: self.fact.status, source: clone_str(&self.fact.source) },
        }
    }
}

fn opt_eq(a: &Option<String>, b: &Option<String>) -> (r: bool)
    ensures
        r == (opt_str(*a) == opt_str(*b)),
{
    match (a, b) {
        (Some(x), Some(y)) => *x == *y,
        (None, None) => true,
        _ => false,
    }
}

fn contains_string(v: &Vec<String>, x: &String) -> (r: bool)
    ensures
        r == string_seqs(v@).contains(x@),
{
    let mut i: usize = 0;
    while i < v.len()
        invariant
            i <= v@.len(),
            forall|k: int| 0 <= k < i ==> v@[k]@ != x@,
        decreases v@.len() - i,
    {
        if v[i] == *x {
            assert(string_seqs(v@)[i as int] == x@);
            return true;
        }
        i = i + 1;
    }
    assert forall|k: int| 0 <= k < string_seqs(v@).len() implies string_seqs(v@)[k] != x@ by {
        assert(string_seqs(v@)[k] == v@[k]@);
    }
    false
}

fn inventory_has(inv: &CatalogInventory, d: &Declaration) -> (r: bool)
    ensures
        r == inventory_contains(inv_view(*inv), decl_view(*d)),
{
    let ghost iv = inv_view(*inv);
    let ghost dv = decl_view(*d);
    let mut i: usize = 0;
    while i < inv.elements.len()
        invariant
            i <= inv.elements@.len(),
            iv == inv_view(*inv),
            dv == decl_view(*d),
            forall|k: int| 0 <= k < i ==> !matches_subject(#[trigger] iv.elements[k], dv),
        decreases inv.elements@.len() - i,
    {
        let e = &inv.elements[i];
        assert(iv.elements[i as int] == elem_view(*e));
        let hit = if d.element {
            e.name == d.name
        } else {
            match &d.owner {
                Some(o) => e.name == *o && contains_string(&e.attributes, &d.name),
                None => false,
            }
        };
        if hit {
            assert(matches_subject(iv.elements[i as int], dv));
            return true;
        }
        i = i + 1;
    }
    if !d.element && d.owner.is_none() {
        return contains_string(&inv.attributes, &d.name);
    }
    false
}

pub open spec fn matches_subject(e: (Seq<char>, Seq<Seq<char>>), d: DeclView) -> bool {
    if d.element {
        e.0 == d.name
    } else {
        match d.owner {
            Some(o) => e.0 == o && e.1.contains(d.name),
            None => false,
        }
    }
}

fn known_in_for(inventories: &[CatalogInventory], d: &Declaration) -> (r: Vec<SpecSnapshotId>)
    ensures
        r@ == known_in_spec(inv_views(inventories@), decl_view(*d)),
{
    let ghost ivs = inv_views(inventories@);
    let mut known: Vec<SpecSnapshotId> = Vec::new();
    let mut i: usize = 0;
    assert(ivs.take(0) =~= Seq::<InvView>::empty());
    while i < inventories.len()
        invariant
            i <= inventories@.len(),
            ivs == inv_views(inventories@),
            known@ == known_in_spec(ivs.take(i as int), decl_view(*d)),
        decreases inventories@.len() - i,
    {
        assert(ivs.take(i + 1).drop_last() =~= ivs.take(i as int));
        assert(ivs.take(i + 1).last() == inv_view(inventories@[i as int]));
        if inventory_has(&inventories[i], d) {
            known.push(inventories[i].profile);
        }
        i = i + 1;
        assert(known@ =~= known_in_spec(ivs.take(i as int), decl_view(*d)));
    }
    assert(ivs.take(i as int) =~= ivs);
    known
}

fn owner_defines(inv: &CatalogInventory, owner: &String, d: &Declaration) -> (r: bool)
    ensures
        r == owner_applicable(inv_view(*inv), owner@, decl_view(*d)),
{
    let ghost iv = inv_view(*inv);
    let removed = d.fact.status == CatalogDeclaredStatus::Removed;
    let mut i: usize = 0;
    while i < inv.elements.len()
        invariant
            i <= inv.elements@.len(),
            iv == inv_view(*inv),
            removed == (d.fact.status == CatalogDeclaredStatus::Removed),
            forall|k: int|
                0 <= k < i ==> !((#[trigger] iv.elements[k]).0 == owner@ && (
                iv.elements[k].1.contains(d.name@) || removed)),
        decreases inv.elements@.len() - i,
    {
        let e = &inv.elements[i];
        assert(iv.elements[i as int] == elem_view(*e));
        if e.name == *owner && (removed || contains_string(&e.attributes, &d.name)) {
            return true;
        }
        i = i + 1;
    }
    false
}

fn contains_snapshot(v: &Vec<SpecSnapshotId>, x: SpecSnapshotId) -> (r: bool)
    ensures
        r == v@.contains(x),
{
    let mut i: usize = 0;
    while i < v.len()
        invariant
            i <= v@.len(),
            forall|k: int| 0 <= k < i ==> v@[k] != x,
        decreases v@.len() - i,
    {
        if v[i] == x {
            return true;
        }
        i = i + 1;
    }
    false
}

fn find_entry(es: &Vec<CatalogLifecycleEntry>, d: &Declaration) -> (r: usize)
    ensures
        r == entry_pos(entry_views(es@), d.name@, opt_str(d.owner), 0),
        r <= es@.len(),
{
    let ghost ev = entry_views(es@);
    let mut i: usize = 0;
    while i < es.len()
        invariant
            i <= es@.len(),
            ev == entry_views(es@),
            entry_pos(ev, d.name@, opt_str(d.owner), 0) == entry_pos(
                ev,
                d.name@,
                opt_str(d.owner),
                i as int,
            ),
        decreases es@.len() - i,
    {
        assert(ev[i as int] == entry_view(es@[i as int]));
        if es[i].name == d.name && opt_eq(&es[i].owner, &d.owner) {
            return i;
        }
        i = i + 1;
    }
    i
}

fn upsert_entry(
    es: &mut Vec<CatalogLifecycleEntry>,
    d: &Declaration,
    known: Vec<SpecSnapshotId>,
    profile: SpecSnapshotId,
)
    ensures
        entry_views(final(es)@) == upsert(entry_views(old(es)@), decl_view(*d), known@, profile),
{
    let ghost ev = entry_views(es@);
    let ghost dv = decl_view(*d);
    let p = find_entry(es, d);
    let mut entry = if p < es.len() {
        es.remove(p)
    } else {
        let canonical = canonical_attribute_name(d.name.as_str());
        let catalog_name = if canonical != d.name {
            Some(canonical)
        } else {
            None
        };
        let present = contains_snapshot(&known, profile);
        CatalogLifecycleEntry {
            name: clone_str(&d.name),
            owner: clone_opt(&d.owner),
            catalog_name,
            present,
            lifecycle: CatalogLifecycleStatus::Stable,
            known_in: known,
            declaration: None,
        }
    };
    entry.lifecycle = match d.fact.status {
        CatalogDeclaredStatus::Deprecated => CatalogLifecycleStatus::Deprecated,
        _ => CatalogLifecycleStatus::Obsolete,
    };
    if d.fact.status == CatalogDeclaredStatus::Removed {
        entry.present = false;
    }
    entry.declaration = Some(
        CatalogLifecycleDeclaration { status: d.fact.status, source: clone_str(&d.fact.source) },
    );
    let ghost ve = entry_view(entry);
    es.insert(p, entry);
    assert(entry_views(es@) =~= upsert(ev, dv, known@, profile));
}

/// Validate subjects against the cross-edition inventory, then record each
/// source declaration, whether or not this edition defines the feature.
pub fn apply(
    snapshot: &mut CatalogSnapshot,
    inventories: &[CatalogInventory],
    declarations: &[Declaration],
) -> (r: Result<(), LifecycleError>)
    ensures
        final(snapshot).profile == old(snapshot).profile,
        final(snapshot).inventory == old(snapshot).inventory,
        ({
            let (s, err) = apply_spec(
                snap_view(*old(snapshot)),
                inv_view(old(snapshot).inventory),
                inv_views(inventories@),
                decl_views(declarations@),
            );
            snap_view(*final(snapshot)) == s && match r {
                Ok(_) => err is None,
                Err(e) => err == Some(err_view(e)),
            }
        }),
{
    let ghost s0 = snap_view(*snapshot);
    let ghost inv0 = inv_view(snapshot.inventory);
    let ghost ivs = inv_views(inventories@);
    let ghost dvs = decl_views(declarations@);
    let mut i: usize = 0;
    assert(dvs.take(0) =~= Seq::<DeclView>::empty());
    while i < declarations.len()
        invariant
            i <= declarations@.len(),
            ivs == inv_views(inventories@),
            dvs == decl_views(declarations@),
            snapshot.profile == old(snapshot).profile,
            snapshot.inventory == old(snapshot).inventory,
            s0 == snap_view(*old(snapshot)),
            inv0 == inv_view(old(snapshot).inventory),
            apply_all(s0, inv0, ivs, dvs.take(i as int)) == (snap_view(*snapshot), None::<ErrView>),
        decreases declarations@.len() - i,
    {
        let d = &declarations[i];
        let ghost dv = decl_view(*d);
        assert(dvs.take(i + 1).drop_last() =~= dvs.take(i as int));
        assert(dvs.take(i + 1).last() == dv);
        let ghost before = snap_view(*snapshot);
        match &d.owner {
            Some(owner) => {
                if !owner_defines(&snapshot.inventory, owner, d) {
                    proof {
                        lemma_apply_all_stops(s0, inv0, ivs, dvs, i + 1);
                    }
                    return Err(
                        LifecycleError::NoApplicableAttribute {
                            profile: snapshot.profile,
                            owner: clone_str(owner),
                            name: clone_str(&d.name),
                            source: clone_str(&d.fact.source),
                        },
                    );
                }
            },
            None => {},
        }
        let known = known_in_for(inventories, d);
        if known.len() == 0 {
            proof {
                lemma_apply_all_stops(s0, inv0, ivs, dvs, i + 1);
            }
            return Err(
                LifecycleError::AbsentFromEveryInventory {
                    profile: snapshot.profile,
                    name: clone_str(&d.name),
                    source: clone_str(&d.fact.source),
                },
            );
        }
        if d.fact.status != CatalogDeclaredStatus::Removed && !contains_snapshot(
            &known,
            snapshot.profile,
        ) {
            proof {
                lemma_apply_all_stops(s0, inv0, ivs, dvs, i + 1);
            }
            return Err(
                LifecycleError::MissingFromEdition {
                    profile: snapshot.profile,
                    name: clone_str(&d.name),
                    source: clone_str(&d.fact.source),
                },
            );
        }
        let profile = snapshot.profile;
        if d.element {
            upsert_entry(&mut snapshot.lifecycle.elements, d, known, profile);
        } else {
            upsert_entry(&mut snapshot.lifecycle.attributes, d, known, profile);
        }
        i = i + 1;
        assert(apply_all(s0, inv0, ivs, dvs.take(i as int)) == (snap_view(*snapshot), None::<ErrView>));
    }
    assert(dvs.take(i as int) =~= dvs);
    let mut elements: Vec<CatalogLifecycleEntry> = Vec::new();
    std::mem::swap(&mut elements, &mut snapshot.lifecycle.elements);
    snapshot.lifecycle.elements = sort_entries(elements, false);
    let mut attributes: Vec<CatalogLifecycleEntry> = Vec::new();
    std::mem::swap(&mut attributes, &mut snapshot.lifecycle.attributes);
    snapshot.lifecycle.attributes = sort_entries(attributes, true);
    Ok(())
}

pub(crate) fn option_lt(a: &Option<String>, b: &Option<String>) -> (r: bool)
    ensures
        r == match (opt_str(*a), opt_str(*b)) {
            (None, Some(_)) => true,
            (Some(x), Some(y)) => seq_lt(x, y),
            _ => false,
        },
{
    match (a, b) {
        (None, Some(_)) => true,
        (Some(x), Some(y)) => {
            let xv = chars_of(x.as_str());
            let yv = chars_of(y.as_str());
            chars_lt(&xv, &yv)
        },
        _ => false,
    }
}

fn entry_before(a: &CatalogLifecycleEntry, b: &CatalogLifecycleEntry, by_owner: bool) -> (r: bool)
    ensures
        r == entry_lt(entry_view(*a), entry_view(*b), by_owner),
{
    let an = chars_of(a.name.as_str());
    let bn = chars_of(b.name.as_str());
    if chars_lt(&an, &bn) {
        return true;
    }
    by_owner && a.name == b.name && option_lt(&a.owner, &b.owner)
}

fn sort_entries(entries: Vec<CatalogLifecycleEntry>, by_owner: bool) -> (r: Vec<
    CatalogLifecycleEntry,
>)
    ensures
        entry_views(r@) == sort_entries_spec(entry_views(entries@), by_owner),
{
    let ghost all = entry_views(entries@);
    let mut rest = entries;
    let mut out: Vec<CatalogLifecycleEntry> = Vec::new();
    let mut k: usize = 0;
    let n = rest.len();
    assert(all.take(0) =~= Seq::<EntryView>::empty());
    while rest.len() > 0
        invariant
            k + rest@.len() == n,
            n == all.len(),
            entry_views(rest@) == all.skip(k as int),
            entry_views(out@) == sort_entries_spec(all.take(k as int), by_owner),
        decreases rest@.len(),
    {
        let ghost raw = rest@;
        let x = rest.remove(0);
        assert(entry_view(x) == all[k as int]) by {
            assert(all.skip(k as int)[0] == all[k as int]);
        }
        assert(rest@ =~= raw.subrange(1, raw.len() as int));
        assert forall|j: int| 0 <= j < rest@.len() implies #[trigger] entry_views(rest@)[j] == all.skip(k + 1)[j] by {
            assert(rest@[j] == raw[j + 1]);
            assert(entry_views(raw)[j + 1] == all.skip(k as int)[j + 1]);
        }
        assert(entry_views(rest@) =~= all.skip(k + 1));
        let ghost sorted = entry_views(out@);
        let mut p: usize = 0;
        while p < out.len() && !entry_before(&x, &out[p], by_owner)
            invariant
                p <= out@.len(),
                sorted == entry_views(out@),
                first_after(sorted, entry_view(x), 0, by_owner) == first_after(
                    sorted,
                    entry_view(x),
                    p as int,
                    by_owner,
                ),
            decreases out@.len() - p,
        {
            assert(sorted[p as int] == entry_view(out@[p as int]));
            p = p + 1;
        }
        if p < out.len() {
            assert(sorted[p as int] == entry_view(out@[p as int]));
        }
        assert(all.take(k + 1).drop_last() =~= all.take(k as int));
        assert(all.take(k + 1).last() == entry_view(x));
        out.insert(p, x);
        assert(entry_views(out@) =~= insert_entry(sorted, all[k as int], by_owner));
        k = k + 1;
    }
    assert(all.take(n as int) =~= all);
    out
}

// ---------------------------------------------------------------------------
// Reconciling an inventory

/// `s` without any occurrence of `x`.
pub open spec fn remove_all(s: Seq<Seq<char>>, x: Seq<char>) -> Seq<Seq<char>>
    decreases s.len(),
{
    if s.len() == 0 {
        s
    } else if s.last() == x {
        remove_all(s.drop_last(), x)
    } else {
        remove_all(s.drop_last(), x).push(s.last())
    }
}

/// The first position of a sorted list whose name sorts after `x`.
pub open spec fn first_name_after(s: Seq<Seq<char>>, x: Seq<char>, j: int) -> int
    decreases s.len() - j,
{
    if j < 0 || j >= s.len() {
        s.len() as int
    } else if seq_lt(x, s[j]) {
        j
    } else {
        first_name_after(s, x, j + 1)
    }
}

/// `x` added to a sorted list of distinct names.
pub open spec fn insert_name(s: Seq<Seq<char>>, x: Seq<char>) -> Seq<Seq<char>> {
    if s.contains(x) {
        s
    } else {
        let p = first_name_after(s, x, 0);
        s.take(p).push(x) + s.skip(p)
    }
}

/// The names of `s`, sorted, each once.
pub open spec fn sorted_names(s: Seq<Seq<char>>) -> Seq<Seq<char>>
    decreases s.len(),
{
    if s.len() == 0 {
        s
    } else {
        insert_name(sorted_names(s.drop_last()), s.last())
    }
}

pub open spec fn applies_to(owner: Option<Seq<char>>, element: Seq<char>) -> bool {
    match owner {
        Some(o) => o == element,
        None => true,
    }
}

pub open spec fn map_removal(
    es: Seq<(Seq<char>, Seq<Seq<char>>)>,
    d: DeclView,
) -> Seq<(Seq<char>, Seq<Seq<char>>)> {
    es.map_values(
        |e: (Seq<char>, Seq<Seq<char>>)|
            if applies_to(d.owner, e.0) {
                (e.0, remove_all(e.1, d.name))
            } else {
                e
            },
    )
}

pub open spec fn map_alias(
    es: Seq<(Seq<char>, Seq<Seq<char>>)>,
    d: DeclView,
    canonical: Seq<char>,
) -> Seq<(Seq<char>, Seq<Seq<char>>)> {
    es.map_values(
        |e: (Seq<char>, Seq<Seq<char>>)|
            if applies_to(d.owner, e.0) && e.1.contains(canonical) {
                (e.0, sorted_names(e.1.push(d.name)))
            } else {
                e
            },
    )
}

/// Elements other than `name`, in order.
pub open spec fn without_element(
    es: Seq<(Seq<char>, Seq<Seq<char>>)>,
    name: Seq<char>,
) -> Seq<(Seq<char>, Seq<Seq<char>>)>
    decreases es.len(),
{
    if es.len() == 0 {
        es
    } else if es.last().0 == name {
        without_element(es.drop_last(), name)
    } else {
        without_element(es.drop_last(), name).push(es.last())
    }
}

/// Reconcile one declaration: a removal drops the subject (an attribute from
/// its bearer, or everywhere when it has none); a retained attribute missing
/// from the inventory is restored as an alias of its canonical attribute,
/// on the elements that define that attribute.
pub open spec fn reconcile_decl(inv: InvView, d: DeclView) -> Result<InvView, ErrView> {
    if d.status == CatalogDeclaredStatus::Removed {
        if d.element {
            Ok(
                InvView {
                    profile: inv.profile,
                    elements: without_element(inv.elements, d.name),
                    attributes: inv.attributes,
                },
            )
        } else {
            Ok(
                InvView {
                    profile: inv.profile,
                    elements: map_removal(inv.elements, d),
                    attributes: if d.owner is None {
                        remove_all(inv.attributes, d.name)
                    } else {
                        inv.attributes
                    },
                },
            )
        }
    } else if !d.element && !inv.attributes.contains(d.name) {
        let canonical = canonical_spec(d.name);
        if canonical == d.name || !inv.attributes.contains(canonical) {
            Err(ErrView::NoDefinition(inv.profile, d.name, d.source))
        } else {
            Ok(
                InvView {
                    profile: inv.profile,
                    elements: map_alias(inv.elements, d, canonical),
                    attributes: inv.attributes.push(d.name),
                },
            )
        }
    } else {
        Ok(inv)
    }
}

pub open spec fn reconcile_all(inv: InvView, ds: Seq<DeclView>) -> (InvView, Option<ErrView>)
    decreases ds.len(),
{
    if ds.len() == 0 {
        (inv, None)
    } else {
        let (prev, err) = reconcile_all(inv, ds.drop_last());
        if err is Some {
            (prev, err)
        } else {
            match reconcile_decl(prev, ds.last()) {
                Ok(next) => (next, None),
                Err(e) => (prev, Some(e)),
            }
        }
    }
}

/// The reconciled inventory: every declaration applied, then the attribute
/// list sorted and deduplicated; on failure, the declarations before the
/// failing one applied and the error.
pub open spec fn reconcile_spec(inv: InvView, ds: Seq<DeclView>) -> (InvView, Option<ErrView>) {
    let (r, err) = reconcile_all(inv, ds);
    match err {
        Some(e) => (r, Some(e)),
        None => (
            InvView {
                profile: r.profile,
                elements: r.elements,
                attributes: sorted_names(r.attributes),
            },
            None,
        ),
    }
}

proof fn lemma_reconcile_all_stops(inv: InvView, ds: Seq<DeclView>, j: int)
    requires
        0 <= j <= ds.len(),
        reconcile_all(inv, ds.take(j)).1 is Some,
    ensures
        reconcile_all(inv, ds) == reconcile_all(inv, ds.take(j)),
    decreases ds.len() - j,
{
    if j == ds.len() {
        assert(ds.take(j) =~= ds);
    } else {
        let p = ds.drop_last();
        assert(p.take(j) =~= ds.take(j));
        lemma_reconcile_all_stops(inv, p, j);
    }
}

fn remove_all_strings(v: &mut Vec<String>, x: &String)
    ensures
        string_seqs(final(v)@) == remove_all(string_seqs(old(v)@), x@),
{
    let ghost all = string_seqs(v@);
    let mut rest: Vec<String> = Vec::new();
    std::mem::swap(&mut rest, v);
    let n = rest.len();
    let mut k: usize = 0;
    assert(all.take(0) =~= Seq::<Seq<char>>::empty());
    while rest.len() > 0
        invariant
            k + rest@.len() == n,
            n == all.len(),
            string_seqs(rest@) == all.skip(k as int),
            string_seqs(v@) == remove_all(all.take(k as int), x@),
        decreases rest@.len(),
    {
        let ghost raw = rest@;
        let y = rest.remove(0);
        assert(y@ == all[k as int]) by {
            assert(all.skip(k as int)[0] == all[k as int]);
        }
        assert(rest@ =~= raw.subrange(1, raw.len() as int));
        assert forall|j: int| 0 <= j < rest@.len() implies #[trigger] string_seqs(rest@)[j] == all.skip(k + 1)[j] by {
            assert(rest@[j] == raw[j + 1]);
            assert(string_seqs(raw)[j + 1] == all.skip(k as int)[j + 1]);
        }
        assert(string_seqs(rest@) =~= all.skip(k + 1));
        assert(all.take(k + 1).drop_last() =~= all.take(k as int));
        assert(all.take(k + 1).last() == y@);
        let ghost before = string_seqs(v@);
        if y != *x {
            v.push(y);
            assert(string_seqs(v@) =~= before.push(all[k as int]));
        }
        k = k + 1;
    }
    assert(all.take(n as int) =~= all);
}

pub(crate) fn insert_string(v: &mut Vec<String>, x: String)
    ensures
        string_seqs(final(v)@) == insert_name(string_seqs(old(v)@), x@),
{
    let ghost s = string_seqs(v@);
    if contains_string(v, &x) {
        return;
    }
    let xv = chars_of(x.as_str());
    let mut p: usize = 0;
    loop
        invariant
            p <= v@.len(),
            s == string_seqs(v@),
            xv@ == x@,
            first_name_after(s, x@, 0) == first_name_after(s, x@, p as int),
        ensures
            p <= v@.len(),
            s == string_seqs(v@),
            first_name_after(s, x@, 0) == p,
        decreases v@.len() - p,
    {
        if p >= v.len() {
            break;
        }
        let yv = chars_of(v[p].as_str());
        assert(s[p as int] == v@[p as int]@);
        if chars_lt(&xv, &yv) {
            break;
        }
        p = p + 1;
    }
    let ghost xs = x@;
    v.insert(p, x);
    assert(string_seqs(v@) =~= s.take(p as int).push(xs) + s.skip(p as int));
}

pub(crate) fn sort_names(v: Vec<String>) -> (r: Vec<String>)
    ensures
        string_seqs(r@) == sorted_names(string_seqs(v@)),
{
    let ghost all = string_seqs(v@);
    let mut rest = v;
    let mut out: Vec<String> = Vec::new();
    let n = rest.len();
    let mut k: usize = 0;
    assert(all.take(0) =~= Seq::<Seq<char>>::empty());
    while rest.len() > 0
        invariant
            k + rest@.len() == n,
            n == all.len(),
            string_seqs(rest@) == all.skip(k as int),
            string_seqs(out@) == sorted_names(all.take(k as int)),
        decreases rest@.len(),
    {
        let ghost raw = rest@;
        let y = rest.remove(0);
        assert(y@ == all[k as int]) by {
            assert(all.skip(k as int)[0] == all[k as int]);
        }
        assert(rest@ =~= raw.subrange(1, raw.len() as int));
        assert forall|j: int| 0 <= j < rest@.len() implies #[trigger] string_seqs(rest@)[j] == all.skip(k + 1)[j] by {
            assert(rest@[j] == raw[j + 1]);
            assert(string_seqs(raw)[j + 1] == all.skip(k as int)[j + 1]);
        }
        assert(string_seqs(rest@) =~= all.skip(k + 1));
        assert(all.take(k + 1).drop_last() =~= all.take(k as int));
        assert(all.take(k + 1).last() == y@);
        insert_string(&mut out, y);
        k = k + 1;
    }
    assert(all.take(n as int) =~= all);
    out
}

fn remove_element_named(es: &mut Vec<CatalogInventoryElement>, name: &String)
    ensures
        elem_views(final(es)@) == without_element(elem_views(old(es)@), name@),
{
    let ghost all = elem_views(es@);
    let mut rest: Vec<CatalogInventoryElement> = Vec::new();
    std::mem::swap(&mut rest, es);
    let n = rest.len();
    let mut k: usize = 0;
    assert(all.take(0) =~= Seq::<(Seq<char>, Seq<Seq<char>>)>::empty());
    while rest.len() > 0
        invariant
            k + rest@.len() == n,
            n == all.len(),
            elem_views(rest@) == all.skip(k as int),
            elem_views(es@) == without_element(all.take(k as int), name@),
        decreases rest@.len(),
    {
        let ghost raw = rest@;
        let y = rest.remove(0);
        assert(elem_view(y) == all[k as int]) by {
            assert(all.skip(k as int)[0] == all[k as int]);
        }
        assert(rest@ =~= raw.subrange(1, raw.len() as int));
        assert forall|j: int| 0 <= j < rest@.len() implies #[trigger] elem_views(rest@)[j] == all.skip(k + 1)[j] by {
            assert(rest@[j] == raw[j + 1]);
            assert(elem_views(raw)[j + 1] == all.skip(k as int)[j + 1]);
        }
        assert(elem_views(rest@) =~= all.skip(k + 1));
        assert(all.take(k + 1).drop_last() =~= all.take(k as int));
        assert(all.take(k + 1).last() == elem_view(y));
        let ghost before = elem_views(es@);
        if y.name != *name {
            es.push(y);
            assert(elem_views(es@) =~= before.push(all[k as int]));
        }
        k = k + 1;
    }
    assert(all.take(n as int) =~= all);
}

fn owner_applies(owner: &Option<String>, element: &String) -> (r: bool)
    ensures
        r == applies_to(opt_str(*owner), element@),
{
    match owner {
        Some(o) => *o == *element,
        None => true,
    }
}

fn reconcile_one(inventory: &mut CatalogInventory, d: &Declaration) -> (r: Result<(), LifecycleError>)
    ensures
        final(inventory).sources == old(inventory).sources,
        match reconcile_decl(inv_view(*old(inventory)), decl_view(*d)) {
            Ok(next) => r is Ok && inv_view(*final(inventory)) == next,
            Err(e) => r matches Err(x) && err_view(x) == e && *final(inventory) == *old(inventory),
        },
{
    let ghost iv = inv_view(*inventory);
    let ghost dv = decl_view(*d);
    if d.fact.status == CatalogDeclaredStatus::Removed {
        if d.element {
            remove_element_named(&mut inventory.elements, &d.name);
        } else {
            if d.owner.is_none() {
                remove_all_strings(&mut inventory.attributes, &d.name);
            }
            let mut i: usize = 0;
            let ghost es = iv.elements;
            while i < inventory.elements.len()
                invariant
                    i <= inventory.elements@.len(),
                    es.len() == inventory.elements@.len(),
                    inventory.sources == old(inventory).sources,
                    inventory.profile == old(inventory).profile,
                    string_seqs(inventory.attributes@) == if dv.owner is None {
                        remove_all(iv.attributes, dv.name)
                    } else {
                        iv.attributes
                    },
                    dv == decl_view(*d),
                    forall|k: int| 0 <= k < i ==> (#[trigger] elem_views(inventory.elements@)[k]) == map_removal(es, dv)[k],
                    forall|k: int| i <= k < es.len() ==> (#[trigger] elem_views(inventory.elements@)[k]) == es[k],
                decreases inventory.elements@.len() - i,
            {
                assert(elem_views(inventory.elements@)[i as int] == es[i as int]);
                let ghost before = inventory.elements@;
                if owner_applies(&d.owner, &inventory.elements[i].name) {
                    let mut element = inventory.elements.remove(i);
                    remove_all_strings(&mut element.attributes, &d.name);
                    let ghost ge = element;
                    inventory.elements.insert(i, element);
                    assert(inventory.elements@ =~= before.update(i as int, ge));
                    assert(elem_view(ge) == map_removal(es, dv)[i as int]);
                } else {
                    assert(map_removal(es, dv)[i as int] == es[i as int]);
                }
                assert forall|k: int| 0 <= k < es.len() && k != i implies #[trigger] elem_views(
                    inventory.elements@,
                )[k] == elem_views(before)[k] by {
                    assert(inventory.elements@[k] == before[k]);
                }
                i = i + 1;
            }
            assert(elem_views(inventory.elements@) =~= map_removal(es, dv));
        }
        return Ok(());
    }
    if !d.element && !contains_string(&inventory.attributes, &d.name) {
        let canonical = canonical_attribute_name(d.name.as_str());
        if canonical == d.name || !contains_string(&inventory.attributes, &canonical) {
            return Err(
                LifecycleError::NoDefinition {
                    profile: inventory.profile,
                    name: clone_str(&d.name),
                    source: clone_str(&d.fact.source),
                },
            );
        }
        let ghost before_attrs = string_seqs(inventory.attributes@);
        inventory.attributes.push(clone_str(&d.name));
        assert(string_seqs(inventory.attributes@) =~= before_attrs.push(d.name@));
        let mut i: usize = 0;
        let ghost es = iv.elements;
        while i < inventory.elements.len()
            invariant
                i <= inventory.elements@.len(),
                es.len() == inventory.elements@.len(),
                canonical@ == canonical_spec(d.name@),
                inventory.sources == old(inventory).sources,
                inventory.profile == old(inventory).profile,
                string_seqs(inventory.attributes@) == iv.attributes.push(d.name@),
                dv == decl_view(*d),
                forall|k: int| 0 <= k < i ==> (#[trigger] elem_views(inventory.elements@)[k]) == map_alias(es, dv, canonical@)[k],
                forall|k: int| i <= k < es.len() ==> (#[trigger] elem_views(inventory.elements@)[k]) == es[k],
            decreases inventory.elements@.len() - i,
        {
            assert(elem_views(inventory.elements@)[i as int] == es[i as int]);
            let ghost before = inventory.elements@;
            if owner_applies(&d.owner, &inventory.elements[i].name) && contains_string(
                &inventory.elements[i].attributes,
                &canonical,
            ) {
                let mut element = inventory.elements.remove(i);
                let ghost old_attrs = string_seqs(element.attributes@);
                let mut attrs: Vec<String> = Vec::new();
                std::mem::swap(&mut attrs, &mut element.attributes);
                attrs.push(clone_str(&d.name));
                assert(string_seqs(attrs@) =~= old_attrs.push(d.name@));
                element.attributes = sort_names(attrs);
                let ghost ge = element;
                inventory.elements.insert(i, element);
                assert(inventory.elements@ =~= before.update(i as int, ge));
                assert(elem_view(ge) == map_alias(es, dv, canonical@)[i as int]);
            } else {
                assert(map_alias(es, dv, canonical@)[i as int] == es[i as int]);
            }
            assert forall|k: int| 0 <= k < es.len() && k != i implies #[trigger] elem_views(
                inventory.elements@,
            )[k] == elem_views(before)[k] by {
                assert(inventory.elements@[k] == before[k]);
            }
            i = i + 1;
        }
        assert(elem_views(inventory.elements@) =~= map_alias(es, dv, canonical@));
    }
    Ok(())
}

/// Apply normative removals to an edition's inventory, and restore a
/// retained alias only where its canonical attribute is defined.
pub fn reconcile_inventory(inventory: &mut CatalogInventory, declarations: &[Declaration]) -> (r:
    Result<(), LifecycleError>)
    ensures
        final(inventory).sources == old(inventory).sources,
        ({
            let (s, err) = reconcile_spec(inv_view(*old(inventory)), decl_views(declarations@));
            inv_view(*final(inventory)) == s && match r {
                Ok(_) => err is None,
                Err(e) => err == Some(err_view(e)),
            }
        }),
{
    let ghost inv0 = inv_view(*inventory);
    let ghost dvs = decl_views(declarations@);
    let mut i: usize = 0;
    assert(dvs.take(0) =~= Seq::<DeclView>::empty());
    while i < declarations.len()
        invariant
            i <= declarations@.len(),
            dvs == decl_views(declarations@),
            inventory.sources == old(inventory).sources,
            inv0 == inv_view(*old(inventory)),
            reconcile_all(inv0, dvs.take(i as int)) == (inv_view(*inventory), None::<ErrView>),
        decreases declarations@.len() - i,
    {
        assert(dvs.take(i + 1).drop_last() =~= dvs.take(i as int));
        assert(dvs.take(i + 1).last() == decl_view(declarations@[i as int]));
        match reconcile_one(inventory, &declarations[i]) {
            Ok(()) => {},
            Err(e) => {
                proof {
                    lemma_reconcile_all_stops(inv0, dvs, i + 1);
                }
                return Err(e);
            },
        }
        i = i + 1;
    }
    assert(dvs.take(i as int) =~= dvs);
    let mut attributes: Vec<String> = Vec::new();
    std::mem::swap(&mut attributes, &mut inventory.attributes);
    inventory.attributes = sort_names(attributes);
    Ok(())
}

/// The text of an error, as the regeneration run reports it.
pub open spec fn error_message(e: ErrView) -> Seq<char> {
    match e {
        ErrView::NoApplicableAttribute(p, owner, name, source) => snapshot_name(p)
            + ": lifecycle declaration for "@ + owner + "/"@ + name + " at "@ + source
            + " has no applicable attribute definition"@,
        ErrView::AbsentFromEveryInventory(p, name, source) => snapshot_name(p)
            + ": lifecycle subject "@ + name + " from "@ + source
            + " is absent from every inventory"@,
        ErrView::MissingFromEdition(p, name, source) => snapshot_name(p) + ": retained feature "@
            + name + " at "@ + source + " is missing from this edition"@,
        ErrView::NoDefinition(p, name, source) => snapshot_name(p) + ": retained feature "@ + name
            + " at "@ + source + " has no definition/applicability in the inventory"@,
    }
}

impl LifecycleError {
    pub fn message(&self) -> (r: String)
        ensures
            r@ == error_message(err_view(*self)),
    {
        let mut out = String::new();
        match self {
            LifecycleError::NoApplicableAttribute { profile, owner, name, source } => {
                push_str(&mut out, profile.as_str());
                push_str(&mut out, ": lifecycle declaration for ");
                push_str(&mut out, owner.as_str());
                push_str(&mut out, "/");
                push_str(&mut out, name.as_str());
                push_str(&mut out, " at ");
                push_str(&mut out, source.as_str());
                push_str(&mut out, " has no applicable attribute definition");
            },
            LifecycleError::AbsentFromEveryInventory { profile, name, source } => {
                push_str(&mut out, profile.as_str());
                push_str(&mut out, ": lifecycle subject ");
                push_str(&mut out, name.as_str());
                push_str(&mut out, " from ");
                push_str(&mut out, source.as_str());
                push_str(&mut out, " is absent from every inventory");
            },
            LifecycleError::MissingFromEdition { profile, name, source } => {
                push_str(&mut out, profile.as_str());
                push_str(&mut out, ": retained feature ");
                push_str(&mut out, name.as_str());
                push_str(&mut out, " at ");
                push_str(&mut out, source.as_str());
                push_str(&mut out, " is missing from this edition");
            },
            LifecycleError::NoDefinition { profile, name, source } => {
                push_str(&mut out, profile.as_str());
                push_str(&mut out, ": retained feature ");
                push_str(&mut out, name.as_str());
                push_str(&mut out, " at ");
                push_str(&mut out, source.as_str());
                push_str(&mut out, " has no definition/applicability in the inventory");
            },
        }
        assert(out@ =~= error_message(err_view(*self)));
        out
    }
}

} // verus!
