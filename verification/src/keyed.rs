//! Entries kept in name order with each name once, as a sorted map keeps
//! them: binding a name replaces its entry or inserts one before the first
//! greater name.

use vstd::prelude::*;
use crate::compat::{chars_lt, lemma_seq_lt_total, lemma_seq_lt_trans, seq_lt};
use crate::text::{chars_of, seq_eq, str_eq};

verus! {

/// `acc` with `name` bound to `v`: replaced where the name stands, else
/// inserted before the first greater name.
pub open spec fn put_spec<V>(acc: Seq<(Seq<char>, V)>, name: Seq<char>, v: V) -> Seq<(Seq<char>, V)>
    decreases acc.len(),
{
    if acc.len() == 0 {
        seq![(name, v)]
    } else if acc[0].0 == name {
        seq![(name, v)] + acc.drop_first()
    } else if seq_lt(name, acc[0].0) {
        seq![(name, v)] + acc
    } else {
        seq![acc[0]] + put_spec(acc.drop_first(), name, v)
    }
}

/// Names strictly increasing: in name order, each once.
pub open spec fn names_sorted<V>(v: Seq<(Seq<char>, V)>) -> bool {
    forall|i: int, j: int| 0 <= i < j < v.len() ==> seq_lt(#[trigger] v[i].0, #[trigger] v[j].0)
}

/// The value bound to `name`: the first entry's.
pub open spec fn value_of<V>(acc: Seq<(Seq<char>, V)>, name: Seq<char>) -> Option<V>
    decreases acc.len(),
{
    if acc.len() == 0 {
        None
    } else if acc[0].0 == name {
        Some(acc[0].1)
    } else {
        value_of(acc.drop_first(), name)
    }
}

/// The position of the first entry for `name`.
pub open spec fn index_of_name<V>(acc: Seq<(Seq<char>, V)>, name: Seq<char>) -> Option<int>
    decreases acc.len(),
{
    if acc.len() == 0 {
        None
    } else if acc.last().0 == name && index_of_name(acc.drop_last(), name) is None {
        Some(acc.len() - 1)
    } else {
        index_of_name(acc.drop_last(), name)
    }
}

pub proof fn lemma_index_of_name<V>(acc: Seq<(Seq<char>, V)>, name: Seq<char>)
    ensures
        match index_of_name(acc, name) {
            Some(p) => 0 <= p < acc.len() && acc[p].0 == name && forall|j: int| 0 <= j < p ==> acc[j].0 != name,
            None => forall|j: int| 0 <= j < acc.len() ==> acc[j].0 != name,
        },
    decreases acc.len(),
{
    if acc.len() > 0 {
        let prev = acc.drop_last();
        lemma_index_of_name(prev, name);
        assert forall|j: int| 0 <= j < prev.len() implies acc[j] == prev[j] by {}
        assert(acc.last() == acc[acc.len() - 1]);
    }
}

/// Entries by their views.
pub open spec fn entries_view<V, W>(acc: Seq<(String, V)>, f: spec_fn(V) -> W) -> Seq<(Seq<char>, W)> {
    acc.map_values(|e: (String, V)| (e.0@, f(e.1)))
}

/// Reading a name after binding it gives the value bound; reading another
/// name gives what it gave before.
pub proof fn lemma_put_value<V>(acc: Seq<(Seq<char>, V)>, name: Seq<char>, v: V, k: Seq<char>)
    ensures
        value_of(put_spec(acc, name, v), k) == if k == name {
            Some(v)
        } else {
            value_of(acc, k)
        },
    decreases acc.len(),
{
    let r = put_spec(acc, name, v);
    if acc.len() == 0 {
        assert(r =~= seq![(name, v)]);
        if k != name {
            assert(r.drop_first() =~= Seq::<(Seq<char>, V)>::empty());
            assert(value_of(r, k) == value_of(r.drop_first(), k));
        }
    } else if acc[0].0 == name {
        assert(r =~= seq![(name, v)] + acc.drop_first());
        assert(r[0] == (name, v));
        assert(r.drop_first() =~= acc.drop_first());
        if k != name {
            assert(value_of(r, k) == value_of(r.drop_first(), k));
            assert(value_of(acc, k) == value_of(acc.drop_first(), k));
        }
    } else if seq_lt(name, acc[0].0) {
        assert(r =~= seq![(name, v)] + acc);
        assert(r[0] == (name, v));
        assert(r.drop_first() =~= acc);
        if k != name {
            assert(value_of(r, k) == value_of(r.drop_first(), k));
        }
    } else {
        lemma_put_value(acc.drop_first(), name, v, k);
        assert(r =~= seq![acc[0]] + put_spec(acc.drop_first(), name, v));
        assert(r[0] == acc[0]);
        assert(r.drop_first() =~= put_spec(acc.drop_first(), name, v));
        if acc[0].0 != k {
            assert(value_of(r, k) == value_of(r.drop_first(), k));
            assert(value_of(acc, k) == value_of(acc.drop_first(), k));
        }
    }
}

proof fn lemma_put_keys<V>(acc: Seq<(Seq<char>, V)>, name: Seq<char>, v: V)
    ensures
        forall|k: int|
            0 <= k < put_spec(acc, name, v).len() ==> (#[trigger] put_spec(acc, name, v)[k]).0 == name
                || exists|j: int| 0 <= j < acc.len() && acc[j].0 == put_spec(acc, name, v)[k].0,
    decreases acc.len(),
{
    if acc.len() > 0 && acc[0].0 != name && !seq_lt(name, acc[0].0) {
        let rest = acc.drop_first();
        lemma_put_keys(rest, name, v);
        let r = put_spec(acc, name, v);
        assert forall|k: int| 0 <= k < r.len() implies (#[trigger] r[k]).0 == name || exists|j: int|
            0 <= j < acc.len() && acc[j].0 == r[k].0 by {
            if k == 0 {
                assert(acc[0].0 == r[0].0);
            } else {
                assert(r[k] == put_spec(rest, name, v)[k - 1]);
                if r[k].0 != name {
                    let j = choose|j: int| 0 <= j < rest.len() && rest[j].0 == put_spec(rest, name, v)[k - 1].0;
                    assert(acc[j + 1].0 == r[k].0);
                }
            }
        }
    } else if acc.len() > 0 {
        let r = put_spec(acc, name, v);
        assert forall|k: int| 0 <= k < r.len() implies (#[trigger] r[k]).0 == name || exists|j: int|
            0 <= j < acc.len() && acc[j].0 == r[k].0 by {
            if k > 0 {
                if acc[0].0 == name {
                    assert(acc[k].0 == r[k].0);
                } else {
                    assert(acc[k - 1].0 == r[k].0);
                }
            }
        }
    }
}

/// Binding a name keeps the entries in name order, each name once.
pub proof fn lemma_put_sorted<V>(acc: Seq<(Seq<char>, V)>, name: Seq<char>, v: V)
    requires
        names_sorted(acc),
    ensures
        names_sorted(put_spec(acc, name, v)),
    decreases acc.len(),
{
    let r = put_spec(acc, name, v);
    if acc.len() == 0 {
    } else if acc[0].0 == name {
        assert forall|i: int, j: int| 0 <= i < j < r.len() implies seq_lt(#[trigger] r[i].0, #[trigger] r[j].0) by {
            assert(r[i].0 == acc[i].0);
            assert(r[j].0 == acc[j].0);
        }
    } else if seq_lt(name, acc[0].0) {
        assert forall|i: int, j: int| 0 <= i < j < r.len() implies seq_lt(#[trigger] r[i].0, #[trigger] r[j].0) by {
            if i == 0 {
                if j > 1 {
                    lemma_seq_lt_trans(name, acc[0].0, acc[j - 1].0);
                }
            } else {
                assert(r[i].0 == acc[i - 1].0);
            }
        }
    } else {
        lemma_seq_lt_total(name, acc[0].0);
        let rest = acc.drop_first();
        assert(names_sorted(rest)) by {
            assert forall|i: int, j: int| 0 <= i < j < rest.len() implies seq_lt(
                #[trigger] rest[i].0,
                #[trigger] rest[j].0,
            ) by {
                assert(rest[i] == acc[i + 1]);
                assert(rest[j] == acc[j + 1]);
            }
        }
        lemma_put_sorted(rest, name, v);
        lemma_put_keys(rest, name, v);
        let pr = put_spec(rest, name, v);
        assert forall|i: int, j: int| 0 <= i < j < r.len() implies seq_lt(#[trigger] r[i].0, #[trigger] r[j].0) by {
            if i == 0 {
                assert(r[j] == pr[j - 1]);
                if pr[j - 1].0 != name {
                    let m = choose|m: int| 0 <= m < rest.len() && rest[m].0 == pr[j - 1].0;
                    assert(acc[m + 1] == rest[m]);
                }
            } else {
                assert(r[i] == pr[i - 1]);
                assert(r[j] == pr[j - 1]);
            }
        }
    }
}

/// Bind `name` to `v` among `values`, kept in name order.
pub(crate) fn put_entry<V, W>(values: &mut Vec<(String, V)>, name: String, v: V, Ghost(f): Ghost<spec_fn(V) -> W>)
    ensures
        entries_view(final(values)@, f) == put_spec(entries_view(old(values)@, f), name@, f(v)),
{
    let ghost iv = entries_view(old(values)@, f);
    let ghost fv = f(v);
    let key = chars_of(name.as_str());
    let mut i: usize = 0;
    assert(iv.skip(0) =~= iv);
    assert(iv.take(0) + iv.skip(0) =~= iv);
    loop
        invariant
            i <= values@.len(),
            values@ == old(values)@,
            iv == entries_view(old(values)@, f),
            fv == f(v),
            key@ == name@,
            put_spec(iv, name@, fv) == iv.take(i as int) + put_spec(iv.skip(i as int), name@, fv),
        decreases values@.len() - i,
    {
        if i == values.len() {
            assert(iv.skip(i as int) =~= Seq::<(Seq<char>, W)>::empty());
            values.push((name, v));
            assert(entries_view(values@, f) =~= iv.take(i as int) + seq![(key@, fv)]);
            assert(iv.take(i as int) =~= iv);
            return;
        }
        let here = chars_of(values[i].0.as_str());
        assert(iv.skip(i as int)[0] == iv[i as int]);
        assert(iv.skip(i as int).drop_first() =~= iv.skip(i + 1));
        if seq_eq(&here, &key) {
            values.set(i, (name, v));
            assert(entries_view(values@, f) =~= iv.take(i as int) + (seq![(key@, fv)] + iv.skip(i + 1)));
            return;
        }
        if chars_lt(&key, &here) {
            values.insert(i, (name, v));
            assert(entries_view(values@, f) =~= iv.take(i as int) + (seq![(key@, fv)] + iv.skip(i as int)));
            return;
        }
        assert(iv.take(i + 1) =~= iv.take(i as int).push(iv[i as int]));
        assert(iv.take(i as int) + (seq![iv[i as int]] + put_spec(iv.skip(i + 1), name@, fv)) =~= iv.take(
            i + 1,
        ) + put_spec(iv.skip(i + 1), name@, fv));
        i = i + 1;
    }
}

/// `acc` with `name` bound to `v`: in place where the name first stands,
/// else inserted in name order.
pub open spec fn set_value<V>(acc: Seq<(Seq<char>, V)>, name: Seq<char>, v: V) -> Seq<(Seq<char>, V)> {
    match index_of_name(acc, name) {
        Some(p) => acc.update(p, (name, v)),
        None => put_spec(acc, name, v),
    }
}

/// Setting a name keeps the entries in name order, each name once.
pub proof fn lemma_set_sorted<V>(acc: Seq<(Seq<char>, V)>, name: Seq<char>, v: V)
    requires
        names_sorted(acc),
    ensures
        names_sorted(set_value(acc, name, v)),
{
    lemma_index_of_name(acc, name);
    match index_of_name(acc, name) {
        Some(p) => {
            let r = set_value(acc, name, v);
            assert forall|i: int, j: int| 0 <= i < j < r.len() implies seq_lt(#[trigger] r[i].0, #[trigger] r[j].0) by {
                assert(r[i].0 == acc[i].0);
                assert(r[j].0 == acc[j].0);
            }
        },
        None => lemma_put_sorted(acc, name, v),
    }
}

/// Reading a name after setting it gives the value set; reading another
/// name gives what it gave before.
pub proof fn lemma_set_value<V>(acc: Seq<(Seq<char>, V)>, name: Seq<char>, v: V, k: Seq<char>)
    ensures
        value_of(set_value(acc, name, v), k) == if k == name {
            Some(v)
        } else {
            value_of(acc, k)
        },
    decreases acc.len(),
{
    lemma_index_of_name(acc, name);
    match index_of_name(acc, name) {
        Some(p) => {
            if p > 0 {
                let rest = acc.drop_first();
                lemma_index_of_name(rest, name);
                assert(index_of_name(rest, name) == Some(p - 1)) by {
                    lemma_index_of_name_unique(rest, name, p - 1);
                }
                lemma_set_value(rest, name, v, k);
                assert(set_value(acc, name, v).drop_first() =~= set_value(rest, name, v));
                assert(set_value(acc, name, v)[0] == acc[0]);
            } else {
                assert(set_value(acc, name, v).drop_first() =~= acc.drop_first());
            }
        },
        None => lemma_put_value(acc, name, v, k),
    }
}

proof fn lemma_index_of_name_unique<V>(acc: Seq<(Seq<char>, V)>, name: Seq<char>, p: int)
    requires
        0 <= p < acc.len(),
        acc[p].0 == name,
        forall|j: int| 0 <= j < p ==> acc[j].0 != name,
    ensures
        index_of_name(acc, name) == Some(p),
{
    lemma_index_of_name(acc, name);
}



proof fn lemma_value_first<V>(acc: Seq<(Seq<char>, V)>, name: Seq<char>, p: int)
    requires
        0 <= p < acc.len(),
        acc[p].0 == name,
        forall|j: int| 0 <= j < p ==> acc[j].0 != name,
    ensures
        value_of(acc, name) == Some(acc[p].1),
    decreases p,
{
    if p > 0 {
        let rest = acc.drop_first();
        assert forall|j: int| 0 <= j < p - 1 implies rest[j].0 != name by {
            assert(rest[j] == acc[j + 1]);
        }
        lemma_value_first(rest, name, p - 1);
    }
}

proof fn lemma_value_none<V>(acc: Seq<(Seq<char>, V)>, name: Seq<char>)
    requires
        forall|j: int| 0 <= j < acc.len() ==> acc[j].0 != name,
    ensures
        value_of(acc, name) is None,
    decreases acc.len(),
{
    if acc.len() > 0 {
        let rest = acc.drop_first();
        assert forall|j: int| 0 <= j < rest.len() implies rest[j].0 != name by {
            assert(rest[j] == acc[j + 1]);
        }
        lemma_value_none(rest, name);
    }
}

/// The value read for a name is the one at its first position.
pub proof fn lemma_value_at<V>(acc: Seq<(Seq<char>, V)>, name: Seq<char>)
    ensures
        match index_of_name(acc, name) {
            Some(p) => value_of(acc, name) == Some(acc[p].1),
            None => value_of(acc, name) is None,
        },
{
    lemma_index_of_name(acc, name);
    match index_of_name(acc, name) {
        Some(p) => lemma_value_first(acc, name, p),
        None => lemma_value_none(acc, name),
    }
}

/// The position of the first entry named `name`.
pub(crate) fn find_name<V, W>(entries: &Vec<(String, V)>, name: &str, Ghost(f): Ghost<spec_fn(V) -> W>) -> (r:
    Option<usize>)
    ensures
        match index_of_name(entries_view(entries@, f), name@) {
            Some(p) => r matches Some(i) && i as int == p,
            None => r is None,
        },
{
    let ghost ev = entries_view(entries@, f);
    let mut i: usize = 0;
    while i < entries.len()
        invariant
            i <= entries@.len(),
            ev == entries_view(entries@, f),
            forall|j: int| 0 <= j < i ==> ev[j].0 != name@,
        decreases entries@.len() - i,
    {
        if str_eq(entries[i].0.as_str(), name) {
            proof {
                lemma_index_of_name_unique(ev, name@, i as int);
            }
            return Some(i);
        }
        i = i + 1;
    }
    proof {
        lemma_index_of_name(ev, name@);
    }
    None
}

} // verus!
