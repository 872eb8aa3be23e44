//! Resolving runtime compatibility facts for one context, independently for
//! each upstream source (browser-compat-data and web-features), with the
//! outcome of each lookup.

use vstd::prelude::*;
use crate::compat::{Baseline, BrowserSupport, Discouraged};
use crate::compat_json::{
    extract_browser_support, has_baseline_facts, matches_key, matches_key_spec, resolve_baseline,
    resolve_baseline_status, resolve_discouraged, support_spec, support_view, advice_list_fits,
    baseline_fits, opt_json,
};
use crate::json::{as_bool_spec, member, JsonValue};
use crate::runtime_compat::{CompatOverride, Outcome, Provenance};
use crate::text::{chars_of, push_char, str_eq};
use crate::html::opt_chars;
use crate::verdict::Facts;

verus! {

/// One upstream source as fetched: its package name, whether refreshing it
/// is disabled, the version and data URL resolved, and the data (none when
/// the fetch failed or was disabled).
pub struct Source {
    pub name: String,
    pub disabled: bool,
    pub version: Option<String>,
    pub url: String,
    pub data: Option<JsonValue>,
}

// ---------------------------------------------------------------------------
// JSON pointers

/// `s` with each `a b` pair (left to right, not overlapping) replaced by `c`.
pub open spec fn replace_pair(s: Seq<char>, a: char, b: char, c: char) -> Seq<char>
    decreases s.len(),
{
    if s.len() == 0 {
        s
    } else if s.len() >= 2 && s[0] == a && s[1] == b {
        seq![c] + replace_pair(s.subrange(2, s.len() as int), a, b, c)
    } else {
        seq![s[0]] + replace_pair(s.subrange(1, s.len() as int), a, b, c)
    }
}

/// A pointer token with its escapes read: `~1` is `/`, then `~0` is `~`.
pub open spec fn unescape_token(t: Seq<char>) -> Seq<char> {
    replace_pair(replace_pair(t, '~', '1', '/'), '~', '0', '~')
}

fn replace_pair_exec(v: &Vec<char>, a: char, b: char, c: char) -> (r: Vec<char>)
    ensures
        r@ == replace_pair(v@, a, b, c),
{
    let mut out: Vec<char> = Vec::new();
    let mut i: usize = 0;
    assert(v@.subrange(0, v@.len() as int) =~= v@);
    while i < v.len()
        invariant
            i <= v@.len(),
            out@ + replace_pair(v@.subrange(i as int, v@.len() as int), a, b, c) == replace_pair(
                v@,
                a,
                b,
                c,
            ),
        decreases v@.len() - i,
    {
        let ghost rest = v@.subrange(i as int, v@.len() as int);
        if i + 1 < v.len() && v[i] == a && v[i + 1] == b {
            assert(rest.subrange(2, rest.len() as int) =~= v@.subrange(i + 2, v@.len() as int));
            out.push(c);
            i = i + 2;
        } else {
            assert(rest.subrange(1, rest.len() as int) =~= v@.subrange(i + 1, v@.len() as int));
            out.push(v[i]);
            i = i + 1;
        }
    }
    assert(replace_pair(v@.subrange(i as int, v@.len() as int), a, b, c) =~= Seq::<char>::empty());
    assert(out@ =~= out@ + Seq::<char>::empty());
    out
}

/// The position an array token names: decimal digits, no sign and no
/// leading zero.
pub open spec fn index_token(t: Seq<char>) -> Option<nat> {
    if t.len() == 0 || (t[0] == '0' && t.len() != 1) {
        None
    } else if (forall|k: int| 0 <= k < t.len() ==> crate::text::is_digit(#[trigger] t[k]))
        && crate::util::digits_value(t, 10) <= usize::MAX {
        Some(crate::util::digits_value(t, 10))
    } else {
        None
    }
}

/// The value a sequence of tokens addresses.
pub open spec fn walk_tokens(v: JsonValue, tokens: Seq<Seq<char>>) -> Option<JsonValue>
    decreases tokens.len(),
{
    if tokens.len() == 0 {
        Some(v)
    } else {
        let next = match v {
            JsonValue::Object(entries) => crate::json::member_of(entries@, tokens[0]),
            JsonValue::Array(items) => match index_token(tokens[0]) {
                Some(k) => if k < items@.len() {
                    Some(items@[k as int])
                } else {
                    None
                },
                None => None,
            },
            _ => None,
        };
        match next {
            Some(n) => walk_tokens(n, tokens.drop_first()),
            None => None,
        }
    }
}

/// The `__compat` record of a dotted compat key: the key's dots and
/// slashes separate pointer tokens, and each token's escapes are read.
pub open spec fn bcd_record_spec(data: JsonValue, key: Seq<char>) -> Option<JsonValue> {
    walk_tokens(
        data,
        crate::value_space::split_spec(key.map_values(|c: char| if c == '.' { '/' } else { c }), '/').map_values(
            |t: Seq<char>| unescape_token(t),
        ).push("__compat"@),
    )
}

fn parse_index(t: &Vec<char>) -> (r: Option<usize>)
    ensures
        match r {
            Some(k) => index_token(t@) == Some(k as nat),
            None => index_token(t@) is None,
        },
{
    if t.len() == 0 || (t[0] == '0' && t.len() != 1) {
        return None;
    }
    let mut value: usize = 0;
    let mut i: usize = 0;
    let mut overflow = false;
    while i < t.len()
        invariant
            i <= t@.len(),
            t@.len() > 0,
            forall|k: int| 0 <= k < i ==> crate::text::is_digit(#[trigger] t@[k]),
            !overflow ==> value == crate::util::digits_value(t@.take(i as int), 10),
            overflow ==> crate::util::digits_value(t@.take(i as int), 10) > usize::MAX,
        decreases t@.len() - i,
    {
        let c = t[i];
        if !crate::text::digit(c) {
            assert(!crate::text::is_digit(t@[i as int]));
            return None;
        }
        let d = (c as u32 - 48) as usize;
        proof {
            lemma_digits_step(t@, i as int);
        }
        if !overflow {
            if value > (usize::MAX - d) / 10 {
                overflow = true;
                proof {
                    assert(value * 10 + d > usize::MAX) by (nonlinear_arith)
                        requires
                            value > (usize::MAX - d) / 10,
                            d <= 9,
                    ;
                }
            } else {
                proof {
                    assert(value * 10 + d <= usize::MAX) by (nonlinear_arith)
                        requires
                            value <= (usize::MAX - d) / 10,
                            d <= 9,
                    ;
                }
                value = value * 10 + d;
            }
        } else {
            proof {
                assert(crate::util::digits_value(t@.take(i as int), 10) * 10 + d > usize::MAX) by (nonlinear_arith)
                    requires
                        crate::util::digits_value(t@.take(i as int), 10) > usize::MAX,
                ;
            }
        }
        i = i + 1;
    }
    assert(t@.take(t@.len() as int) =~= t@);
    assert(forall|k: int| 0 <= k < t@.len() ==> crate::text::is_digit(#[trigger] t@[k]));
    if overflow {
        None
    } else {
        Some(value)
    }
}

proof fn lemma_digits_step(t: Seq<char>, i: int)
    requires
        0 <= i < t.len(),
        crate::text::is_digit(t[i]),
    ensures
        crate::util::digits_value(t.take(i + 1), 10) == crate::util::digits_value(t.take(i), 10) * 10
            + (t[i] as u32 - 48),
{
    assert(t.take(i + 1).drop_last() =~= t.take(i));
    assert(t.take(i + 1).last() == t[i]);
    assert(crate::util::digit_of(t[i], 10) == Some((t[i] as u32 - 48) as nat));
}

fn member_ref<'a>(entries: &'a Vec<(String, JsonValue)>, key: &str) -> (r: Option<&'a JsonValue>)
    ensures
        match crate::json::member_of(entries@, key@) {
            Some(m) => r matches Some(x) && *x == m,
            None => r is None,
        },
{
    let mut i: usize = 0;
    assert(entries@.skip(0) =~= entries@);
    while i < entries.len()
        invariant
            i <= entries@.len(),
            crate::json::member_of(entries@, key@) == crate::json::member_of(entries@.skip(i as int), key@),
        decreases entries@.len() - i,
    {
        assert(entries@.skip(i as int)[0] == entries@[i as int]);
        assert(entries@.skip(i as int).drop_first() =~= entries@.skip(i + 1));
        if str_eq(entries[i].0.as_str(), key) {
            assert(crate::json::member_of(entries@.skip(i as int), key@) == Some(entries@[i as int].1));
            return Some(&entries[i].1);
        }
        i = i + 1;
    }
    None
}

/// The value `tokens` address in `v`.
pub fn walk<'a>(v: &'a JsonValue, tokens: &Vec<String>) -> (r: Option<&'a JsonValue>)
    ensures
        match walk_tokens(*v, crate::text::string_seqs(tokens@)) {
            Some(x) => r matches Some(y) && *y == x,
            None => r is None,
        },
{
    let ghost ts = crate::text::string_seqs(tokens@);
    let mut cur: &JsonValue = v;
    let mut i: usize = 0;
    assert(ts.skip(0) =~= ts);
    while i < tokens.len()
        invariant
            i <= tokens@.len(),
            ts == crate::text::string_seqs(tokens@),
            walk_tokens(*v, ts) == walk_tokens(*cur, ts.skip(i as int)),
        decreases tokens@.len() - i,
    {
        assert(ts.skip(i as int)[0] == tokens@[i as int]@);
        assert(ts.skip(i as int).drop_first() =~= ts.skip(i + 1));
        let t = tokens[i].as_str();
        let next = match cur {
            JsonValue::Object(entries) => member_ref(entries, t),
            JsonValue::Array(items) => {
                let tv = chars_of(t);
                match parse_index(&tv) {
                    Some(k) => {
                        if k < items.len() {
                            Some(&items[k])
                        } else {
                            None
                        }
                    },
                    None => None,
                }
            },
            _ => None,
        };
        match next {
            Some(n) => {
                cur = n;
            },
            None => {
                return None;
            },
        }
        i = i + 1;
    }
    assert(ts.skip(tokens@.len() as int) =~= Seq::<Seq<char>>::empty());
    Some(cur)
}

/// The `__compat` record of a dotted compat key.
pub fn bcd_record<'a>(data: &'a JsonValue, key: &str) -> (r: Option<&'a JsonValue>)
    ensures
        match bcd_record_spec(*data, key@) {
            Some(x) => r matches Some(y) && *y == x,
            None => r is None,
        },
{
    let kv = chars_of(key);
    let mut slashed: Vec<char> = Vec::new();
    let mut i: usize = 0;
    while i < kv.len()
        invariant
            i <= kv@.len(),
            kv@ == key@,
            slashed@ == kv@.take(i as int).map_values(|c: char| if c == '.' { '/' } else { c }),
        decreases kv@.len() - i,
    {
        slashed.push(if kv[i] == '.' { '/' } else { kv[i] });
        i = i + 1;
        assert(slashed@ =~= kv@.take(i as int).map_values(|c: char| if c == '.' { '/' } else { c }));
    }
    assert(kv@.take(kv@.len() as int) =~= kv@);
    let raw = crate::value_space::split_on(&slashed, '/');
    let ghost raws = crate::text::string_seqs(raw@);
    let mut tokens: Vec<String> = Vec::new();
    let mut j: usize = 0;
    while j < raw.len()
        invariant
            j <= raw@.len(),
            raws == crate::text::string_seqs(raw@),
            crate::text::string_seqs(tokens@) =~= raws.take(j as int).map_values(|t: Seq<char>| unescape_token(t)),
        decreases raw@.len() - j,
    {
        let t = chars_of(raw[j].as_str());
        let a = replace_pair_exec(&t, '~', '1', '/');
        let b = replace_pair_exec(&a, '~', '0', '~');
        let ghost before = crate::text::string_seqs(tokens@);
        tokens.push(crate::text::string_of(&b));
        assert(crate::text::string_seqs(tokens@) =~= before.push(unescape_token(raws[j as int])));
        assert(raws.take(j + 1).map_values(|t: Seq<char>| unescape_token(t)) =~= raws.take(j as int).map_values(
            |t: Seq<char>| unescape_token(t),
        ).push(unescape_token(raws[j as int])));
        j = j + 1;
    }
    assert(raws.take(raw@.len() as int) =~= raws);
    let ghost before = crate::text::string_seqs(tokens@);
    tokens.push("__compat".to_owned());
    assert(crate::text::string_seqs(tokens@) =~= before.push("__compat"@));
    walk(data, &tokens)
}

// ---------------------------------------------------------------------------
// Outcomes

/// Whether web-features lists `key` under any feature.
pub open spec fn wf_has_key_spec(features: Option<JsonValue>, key: Seq<char>) -> bool {
    match features {
        Some(JsonValue::Object(entries)) => exists|k: int|
            0 <= k < entries@.len() && matches_key_spec(#[trigger] entries@[k].1, key),
        _ => false,
    }
}

pub fn wf_has_key(features: Option<&JsonValue>, key: &str) -> (r: bool)
    ensures
        r == wf_has_key_spec(opt_json(features), key@),
{
    match features {
        Some(JsonValue::Object(entries)) => {
            let mut i: usize = 0;
            while i < entries.len()
                invariant
                    i <= entries@.len(),
                    wf_has_key_spec(opt_json(features), key@) == exists|k: int|
                        0 <= k < entries@.len() && matches_key_spec(#[trigger] entries@[k].1, key@),
                    forall|k: int| 0 <= k < i ==> !matches_key_spec(#[trigger] entries@[k].1, key@),
                decreases entries@.len() - i,
            {
                if matches_key(&entries[i].1, key) {
                    assert(matches_key_spec(entries@[i as int].1, key@));
                    return true;
                }
                i = i + 1;
            }
            false
        },
        _ => false,
    }
}

/// A status flag that is present but not a boolean.
pub open spec fn bad_flag(status: JsonValue, key: Seq<char>) -> bool {
    match member(status, key) {
        Some(v) => !(v is Bool),
        None => false,
    }
}

pub open spec fn invalid_status(status: Option<JsonValue>) -> bool {
    match status {
        Some(s) => !(s is Object) || bad_flag(s, "deprecated"@) || bad_flag(s, "experimental"@)
            || bad_flag(s, "standard_track"@),
        None => false,
    }
}

/// A statement whose `version_added` is missing or neither a boolean nor a
/// string.
pub open spec fn unknown_statement(st: JsonValue) -> bool {
    match member(st, "version_added"@) {
        Some(v) => !(v is Bool) && !(v is String),
        None => true,
    }
}

/// The statements of one browser entry: a list's items, or the entry.
pub open spec fn entry_unknown(v: JsonValue) -> bool {
    match v {
        JsonValue::Array(items) => exists|k: int|
            0 <= k < items@.len() && unknown_statement(#[trigger] items@[k]),
        _ => unknown_statement(v),
    }
}

pub open spec fn unknown_support(support: Option<JsonValue>) -> bool {
    match support {
        Some(JsonValue::Object(entries)) => exists|k: int|
            0 <= k < entries@.len() && entry_unknown(#[trigger] entries@[k].1),
        Some(_) => true,
        None => false,
    }
}

/// How a BCD record reads: unknown when it is not an object, says nothing,
/// or has a malformed status or support statement; loaded otherwise.
pub open spec fn bcd_outcome_spec(record: JsonValue) -> Outcome {
    let status = member(record, "status"@);
    let support = member(record, "support"@);
    if !(record is Object) || (status is None && support is None) {
        Outcome::Unknown
    } else if invalid_status(status) || unknown_support(support) {
        Outcome::Unknown
    } else {
        Outcome::Loaded
    }
}

fn is_bad_flag(status: &JsonValue, key: &str) -> (r: bool)
    ensures
        r == bad_flag(*status, key@),
{
    match status.get(key) {
        Some(JsonValue::Bool(_)) => false,
        Some(_) => true,
        None => false,
    }
}

fn is_unknown_statement(st: &JsonValue) -> (r: bool)
    ensures
        r == unknown_statement(*st),
{
    match st.get("version_added") {
        Some(JsonValue::Bool(_)) => false,
        Some(JsonValue::String(_)) => false,
        Some(_) => true,
        None => true,
    }
}

fn is_entry_unknown(v: &JsonValue) -> (r: bool)
    ensures
        r == entry_unknown(*v),
{
    match v {
        JsonValue::Array(items) => {
            let mut k: usize = 0;
            while k < items.len()
                invariant
                    k <= items@.len(),
                    entry_unknown(*v) == exists|j: int|
                        0 <= j < items@.len() && unknown_statement(#[trigger] items@[j]),
                    forall|j: int| 0 <= j < k ==> !unknown_statement(#[trigger] items@[j]),
                decreases items@.len() - k,
            {
                if is_unknown_statement(&items[k]) {
                    assert(unknown_statement(items@[k as int]));
                    return true;
                }
                k = k + 1;
            }
            false
        },
        _ => is_unknown_statement(v),
    }
}

pub fn bcd_outcome(record: &JsonValue) -> (r: Outcome)
    ensures
        r == bcd_outcome_spec(*record),
{
    let status = record.get("status");
    let support = record.get("support");
    if !record.is_object() || (status.is_none() && support.is_none()) {
        return Outcome::Unknown;
    }
    let bad_status = match status {
        Some(s) => !s.is_object() || is_bad_flag(s, "deprecated") || is_bad_flag(s, "experimental")
            || is_bad_flag(s, "standard_track"),
        None => false,
    };
    let bad_support = match support {
        Some(JsonValue::Object(entries)) => {
            let mut found = false;
            let mut i: usize = 0;
            while i < entries.len()
                invariant
                    i <= entries@.len(),
                    found == exists|k: int| 0 <= k < i && entry_unknown(#[trigger] entries@[k].1),
                decreases entries@.len() - i,
            {
                if is_entry_unknown(&entries[i].1) {
                    found = true;
                }
                i = i + 1;
            }
            found
        },
        Some(_) => true,
        None => false,
    };
    if bad_status || bad_support {
        Outcome::Unknown
    } else {
        Outcome::Loaded
    }
}

// ---------------------------------------------------------------------------
// Provenance

/// The bundled version and URL of a source, by name: the first entry.
pub open spec fn bundled_for(bundled: Seq<(String, String, String)>, name: Seq<char>) -> Option<
    (Seq<char>, Seq<char>),
>
    decreases bundled.len(),
{
    if bundled.len() == 0 {
        None
    } else if bundled[0].0@ == name {
        Some((bundled[0].1@, bundled[0].2@))
    } else {
        bundled_for(bundled.drop_first(), name)
    }
}

/// Who answered a lookup: when the refresh failed or was disabled, the
/// bundled data's version and URL stand in for the source's.
pub open spec fn provenance_fits(
    p: Provenance,
    src: Source,
    key: Seq<char>,
    outcome: Outcome,
    bundled: Seq<(String, String, String)>,
) -> bool {
    let b = if outcome == Outcome::Failed || outcome == Outcome::Disabled {
        bundled_for(bundled, src.name@)
    } else {
        None
    };
    &&& p.source@ == src.name@
    &&& opt_chars(p.version) == match b {
        Some((v, _)) => Some(v),
        None => opt_chars(src.version),
    }
    &&& p.url@ == match b {
        Some((_, u)) => u,
        None => src.url@,
    }
    &&& p.key@ == key
    &&& p.outcome == outcome
}

/// The index of the first bundled entry for `name`, if any.
fn find_bundled(bundled: &Vec<(String, String, String)>, name: &str) -> (r: Option<usize>)
    ensures
        match r {
            Some(i) => i < bundled@.len() && bundled_for(bundled@, name@) == Some(
                (bundled@[i as int].1@, bundled@[i as int].2@),
            ),
            None => bundled_for(bundled@, name@) is None,
        },
{
    let mut i: usize = 0;
    assert(bundled@.skip(0) =~= bundled@);
    while i < bundled.len()
        invariant
            i <= bundled@.len(),
            bundled_for(bundled@, name@) == bundled_for(bundled@.skip(i as int), name@),
        decreases bundled@.len() - i,
    {
        assert(bundled@.skip(i as int)[0] == bundled@[i as int]);
        assert(bundled@.skip(i as int).drop_first() =~= bundled@.skip(i + 1));
        if str_eq(bundled[i].0.as_str(), name) {
            return Some(i);
        }
        i = i + 1;
    }
    None
}

pub fn provenance(
    src: &Source,
    key: &str,
    outcome: Outcome,
    bundled: &Vec<(String, String, String)>,
) -> (r: Provenance)
    ensures
        provenance_fits(r, *src, key@, outcome, bundled@),
{
    let found: Option<usize> = if outcome == Outcome::Failed || outcome == Outcome::Disabled {
        find_bundled(bundled, src.name.as_str())
    } else {
        None
    };
    let version = match found {
        Some(i) => Some(bundled[i].1.clone()),
        None => match &src.version {
            Some(v) => Some(v.clone()),
            None => None,
        },
    };
    let url = match found {
        Some(i) => bundled[i].2.clone(),
        None => src.url.clone(),
    };
    Provenance { source: src.name.clone(), version, url, key: key.to_owned(), outcome }
}

// ---------------------------------------------------------------------------
// Resolving one context

/// The BCD record for a context: its own key's, else the fallback key's,
/// with the key that answered.
pub open spec fn bcd_lookup(data: JsonValue, key: Seq<char>, fallback: Option<Seq<char>>) -> (
    Option<JsonValue>,
    Seq<char>,
) {
    match bcd_record_spec(data, key) {
        Some(r) => (Some(r), key),
        None => match fallback {
            Some(k) => match bcd_record_spec(data, k) {
                Some(r) => (Some(r), k),
                None => (None, key),
            },
            None => (None, key),
        },
    }
}

pub open spec fn status_flag(record: Option<JsonValue>, name: Seq<char>) -> Option<bool> {
    match record {
        Some(r) => as_bool_spec(crate::json::opt_member(member(r, "status"@), name)),
        None => None,
    }
}

pub open spec fn support_fits(s: Option<BrowserSupport>, record: Option<JsonValue>) -> bool {
    match record {
        Some(r) => match support_spec(r) {
            Some(v) => s matches Some(x) && support_view(x) == v,
            None => s is None,
        },
        None => s is None,
    }
}

/// What browser-compat-data contributes: the status flags, every browser's
/// statements and the outcome; the bundled facts stand when there is no data.
pub open spec fn bcd_part_fits(
    r: CompatOverride,
    baked: Facts,
    key: Seq<char>,
    fallback: Option<Seq<char>>,
    bcd: Source,
    bundled: Seq<(String, String, String)>,
) -> bool {
    match bcd.data {
        Some(d) => {
            let (record, k) = bcd_lookup(d, key, fallback);
            let outcome = match record {
                Some(x) => bcd_outcome_spec(x),
                None => Outcome::Absent,
            };
            &&& r.facts.deprecated == match status_flag(record, "deprecated"@) {
                Some(b) => b,
                None => false,
            }
            &&& r.facts.experimental == match status_flag(record, "experimental"@) {
                Some(b) => b,
                None => false,
            }
            &&& r.facts.standard_track == status_flag(record, "standard_track"@)
            &&& support_fits(r.facts.browser_support, record)
            &&& provenance_fits(r.sources@[0], bcd, k, outcome, bundled)
        },
        None => {
            &&& r.facts.deprecated == baked.deprecated
            &&& r.facts.experimental == baked.experimental
            &&& r.facts.standard_track == baked.standard_track
            &&& r.facts.browser_support == baked.browser_support
            &&& provenance_fits(
                r.sources@[0],
                bcd,
                key,
                if bcd.disabled {
                    Outcome::Disabled
                } else {
                    Outcome::Failed
                },
                bundled,
            )
        },
    }
}

/// The web-features key for a context: its own, else the fallback when only
/// the fallback is listed.
pub open spec fn wf_key_for(features: Option<JsonValue>, key: Seq<char>, fallback: Option<Seq<char>>) -> Seq<
    char,
> {
    match fallback {
        Some(k) => if !wf_has_key_spec(features, key) && wf_has_key_spec(features, k) {
            k
        } else {
            key
        },
        None => key,
    }
}

pub open spec fn baseline_result_fits(b: Option<Baseline>, features: Option<JsonValue>, key: Seq<char>) -> bool {
    match resolve_baseline_status(features, key) {
        Some(status) => match b {
            Some(x) => has_baseline_facts(status) && baseline_fits(x, status),
            None => !has_baseline_facts(status),
        },
        None => b is None,
    }
}

/// What web-features contributes: Baseline, discouragement and the outcome;
/// the bundled facts stand when there is no data.
pub open spec fn wf_part_fits(
    r: CompatOverride,
    baked: Facts,
    key: Seq<char>,
    fallback: Option<Seq<char>>,
    wf: Source,
    bundled: Seq<(String, String, String)>,
) -> bool {
    match wf.data {
        Some(d) => {
            let features = member(d, "features"@);
            let k = wf_key_for(features, key, fallback);
            let outcome = if !wf_has_key_spec(features, k) {
                Outcome::Absent
            } else if match r.facts.baseline {
                Some(b) => b.status is None,
                None => true,
            } {
                Outcome::Unknown
            } else {
                Outcome::Loaded
            };
            &&& baseline_result_fits(r.facts.baseline, features, k)
            &&& advice_list_fits(r.facts.discouraged@, features, k)
            &&& provenance_fits(r.sources@[1], wf, k, outcome, bundled)
        },
        None => {
            &&& r.facts.baseline == baked.baseline
            &&& r.facts.discouraged == baked.discouraged
            &&& provenance_fits(
                r.sources@[1],
                wf,
                key,
                if wf.disabled {
                    Outcome::Disabled
                } else {
                    Outcome::Failed
                },
                bundled,
            )
        },
    }
}

fn flag_in(record: Option<&JsonValue>, name: &str) -> (r: Option<bool>)
    ensures
        r == status_flag(opt_json(record), name@),
{
    match record {
        Some(rec) => match rec.get("status") {
            Some(st) => match st.get(name) {
                Some(v) => v.as_bool(),
                None => None,
            },
            None => None,
        },
        None => None,
    }
}

/// Resolve one context's facts from both sources, starting from the bundled
/// facts; `fallback` is the global key an element-local context falls back
/// to.
pub fn resolve(
    baked: Facts,
    key: &str,
    fallback: Option<&str>,
    bcd: &Source,
    wf: &Source,
    bundled: &Vec<(String, String, String)>,
) -> (r: CompatOverride)
    ensures
        bcd_part_fits(
            r,
            baked,
            key@,
            match fallback {
                Some(k) => Some(k@),
                None => None,
            },
            *bcd,
            bundled@,
        ),
        wf_part_fits(
            r,
            baked,
            key@,
            match fallback {
                Some(k) => Some(k@),
                None => None,
            },
            *wf,
            bundled@,
        ),
{
    let ghost fb = match fallback {
        Some(k) => Some(k@),
        None => None::<Seq<char>>,
    };
    let mut facts = baked;
    let (bcd_key, bcd_result) = match &bcd.data {
        Some(data) => {
            let mut bkey = key;
            let mut record = bcd_record(data, key);
            if record.is_none() {
                if let Some(k) = fallback {
                    let other = bcd_record(data, k);
                    if other.is_some() {
                        bkey = k;
                        record = other;
                    }
                }
            }
            assert(bcd_lookup(*data, key@, fb) == (opt_json(record), bkey@));
            facts.deprecated = match flag_in(record, "deprecated") {
                Some(b) => b,
                None => false,
            };
            facts.experimental = match flag_in(record, "experimental") {
                Some(b) => b,
                None => false,
            };
            facts.standard_track = flag_in(record, "standard_track");
            facts.browser_support = match record {
                Some(rec) => extract_browser_support(rec),
                None => None,
            };
            let outcome = match record {
                Some(rec) => bcd_outcome(rec),
                None => Outcome::Absent,
            };
            (bkey, outcome)
        },
        None => (key, if bcd.disabled {
            Outcome::Disabled
        } else {
            Outcome::Failed
        }),
    };
    let (wf_key, wf_result) = match &wf.data {
        Some(data) => {
            let features = data.get("features");
            let mut wkey = key;
            if !wf_has_key(features, key) {
                if let Some(k) = fallback {
                    if wf_has_key(features, k) {
                        wkey = k;
                    }
                }
            }
            assert(wkey@ == wf_key_for(member(*data, "features"@), key@, fb));
            facts.baseline = resolve_baseline(features, wkey);
            facts.discouraged = resolve_discouraged(features, wkey);
            let outcome = if !wf_has_key(features, wkey) {
                Outcome::Absent
            } else if match &facts.baseline {
                Some(b) => b.status.is_none(),
                None => true,
            } {
                Outcome::Unknown
            } else {
                Outcome::Loaded
            };
            (wkey, outcome)
        },
        None => (key, if wf.disabled {
            Outcome::Disabled
        } else {
            Outcome::Failed
        }),
    };
    let first = provenance(bcd, bcd_key, bcd_result, bundled);
    let second = provenance(wf, wf_key, wf_result, bundled);
    CompatOverride { facts, sources: [first, second] }
}

} // verus!
