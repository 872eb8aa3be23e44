//! The compatibility details of a hover: per-browser notes, Baseline and
//! discouragement lines, and the value constraints of an attribute.

use vstd::prelude::*;
use quick_xml::events::Event;
use crate::compat::{
    select_statement, selected_index, support_for, flag_kind_name, Baseline, BaselineDate,
    BaselineTier, BrowserFlag, BrowserSupport, BrowserVersion, Discouraged, date_year, milestone_of,
};
use crate::hover::{
    browser_version_label, escape_metadata, escape_metadata_spec, metadata_code, metadata_code_spec,
    qualifier_glyph, version_label_spec, format_baseline_qualifier, CompatMarkdownBuilder,
    HoverSection, format_browser_support_line, support_line_spec,
};
use crate::hover_settings::{browser_label, browser_label_spec, BrowserDetail, HoverSettings, Section};
use crate::text::{
    chars_of, concat, concat3, decimal, decimal_string, join, join_spec, push_char, push_str,
    str_eq, string_seqs,
};
use crate::util::{normalize_ws, normalize_ws_spec};
use crate::values::{values_view, CatalogAttributeValues, ValuesView};
use crate::grammar::{node_view, node_views, CatalogCssGrammarGraph, CatalogCssGrammarNode, CatalogCssGrammarNodeKind, NodeView};
use crate::spec_lifecycle::{sort_names, sorted_names};
use crate::runtime_compat::{CompatOverride, Outcome, Provenance};
use crate::verdict::Facts;

verus! {

// ---------------------------------------------------------------------------
// Links

/// What the `url` crate parses a text into: its scheme and its
/// serialization; `None` when it is not an absolute URL.
pub uninterp spec fn parsed_url(text: Seq<char>) -> Option<(Seq<char>, Seq<char>)>;

/// `url::Url::parse`, with the scheme (`Url::scheme`) and the serialization
/// (`Url::as_str`) of the result. The outcome is named; nothing more is
/// claimed of it.
#[verifier::external_body]
fn parse_url(text: &str) -> (r: Option<(String, String)>)
    ensures
        match r {
            Some(u) => parsed_url(text@) == Some((u.0@, u.1@)),
            None => parsed_url(text@) is None,
        },
{
    let url = url::Url::parse(text).ok()?;
    Some((url.scheme().to_owned(), url.as_str().to_owned()))
}

/// `<` and `>` percent-encoded.
pub open spec fn encode_angles_spec(s: Seq<char>) -> Seq<char>
    decreases s.len(),
{
    if s.len() == 0 {
        s
    } else {
        encode_angles_spec(s.drop_last()) + if s.last() == '<' {
            "%3C"@
        } else if s.last() == '>' {
            "%3E"@
        } else {
            seq![s.last()]
        }
    }
}

fn encode_angles(s: &str) -> (r: String)
    ensures
        r@ == encode_angles_spec(s@),
{
    let v = chars_of(s);
    let mut out = String::new();
    let mut i: usize = 0;
    while i < v.len()
        invariant
            i <= v@.len(),
            out@ == encode_angles_spec(v@.take(i as int)),
        decreases v@.len() - i,
    {
        assert(v@.take(i + 1).drop_last() =~= v@.take(i as int));
        let c = v[i];
        if c == '<' {
            push_str(&mut out, "%3C");
        } else if c == '>' {
            push_str(&mut out, "%3E");
        } else {
            push_char(&mut out, c);
        }
        i = i + 1;
        proof {
            reveal_strlit("%3C");
            reveal_strlit("%3E");
        }
        assert(out@ =~= encode_angles_spec(v@.take(i as int)));
    }
    assert(v@.take(v@.len() as int) =~= v@);
    out
}

/// A link target: an http(s) URL as an autolink of its serialization, any
/// other text escaped.
pub open spec fn metadata_link_spec(text: Seq<char>) -> Seq<char> {
    match parsed_url(text) {
        Some((scheme, serialized)) => if scheme == "http"@ || scheme == "https"@ {
            "<"@ + encode_angles_spec(serialized) + ">"@
        } else {
            escape_metadata_spec(text)
        },
        None => escape_metadata_spec(text),
    }
}

pub fn metadata_link(text: &str) -> (r: String)
    ensures
        r@ == metadata_link_spec(text@),
{
    match parse_url(text) {
        Some((scheme, serialized)) => {
            if str_eq(scheme.as_str(), "http") || str_eq(scheme.as_str(), "https") {
                concat3("<", encode_angles(serialized.as_str()).as_str(), ">")
            } else {
                escape_metadata(text)
            }
        },
        None => escape_metadata(text),
    }
}

// ---------------------------------------------------------------------------
// Browser notes

/// One event of reading a note as XML.
pub enum NoteEvent {
    /// Text between markup.
    Text(String),
    /// A reference: the character of a character reference, and the name.
    Reference(Option<char>, String),
    /// A start or empty tag, by name.
    Tag(String),
    /// Anything else: end tags, comments, declarations.
    Other,
}

/// The events `quick_xml` reads from a note, in order; `None` when it
/// reports an error.
pub uninterp spec fn note_events(note: Seq<char>) -> Option<Seq<NoteEvent>>;

/// `quick_xml::Reader::from_str` with end names unchecked, then
/// `read_event` up to the end, each event converted to plain values. The
/// outcome is named; nothing more is claimed of it.
#[verifier::external_body]
fn read_note(note: &str) -> (r: Option<Vec<NoteEvent>>)
    ensures
        match r {
            Some(v) => note_events(note@) == Some(v@),
            None => note_events(note@) is None,
        },
{
    let mut reader = quick_xml::Reader::from_str(note);
    reader.config_mut().check_end_names = false;
    let mut out = Vec::new();
    loop {
        out.push(match reader.read_event().ok()? {
            Event::Eof => return Some(out),
            Event::Text(t) => NoteEvent::Text(t.as_ref().to_owned()),
            Event::GeneralRef(r) => NoteEvent::Reference(r.resolve_char_ref().ok().flatten(), r.as_ref().to_owned()),
            Event::Start(t) | Event::Empty(t) => NoteEvent::Tag(t.name().as_ref().to_owned()),
            _ => NoteEvent::Other,
        });
    }
}

/// The character a named entity stands for.
pub open spec fn named_entity(name: Seq<char>) -> Option<char> {
    if name == "amp"@ {
        Some('&')
    } else if name == "lt"@ {
        Some('<')
    } else if name == "gt"@ {
        Some('>')
    } else if name == "quot"@ {
        Some('"')
    } else if name == "apos"@ {
        Some('\'')
    } else if name == "nbsp"@ {
        Some(' ')
    } else {
        None
    }
}

/// The text an event contributes: text as it is, a reference as its
/// character (an unknown name kept as written), a line or list break as a
/// space.
pub open spec fn event_text(e: NoteEvent) -> Seq<char> {
    match e {
        NoteEvent::Text(t) => t@,
        NoteEvent::Reference(Some(c), _) => seq![c],
        NoteEvent::Reference(None, name) => match named_entity(name@) {
            Some(c) => seq![c],
            None => "&"@ + name@ + ";"@,
        },
        NoteEvent::Tag(name) => if name@ == "br"@ || name@ == "p"@ || name@ == "li"@ {
            seq![' ']
        } else {
            Seq::empty()
        },
        NoteEvent::Other => Seq::empty(),
    }
}

pub open spec fn events_text(es: Seq<NoteEvent>) -> Seq<char>
    decreases es.len(),
{
    if es.len() == 0 {
        Seq::empty()
    } else {
        events_text(es.drop_last()) + event_text(es.last())
    }
}

/// A note as readable, escaped text: its markup dropped and its whitespace
/// collapsed; the whole note escaped when it does not read as XML.
pub open spec fn browser_note_spec(note: Seq<char>) -> Seq<char> {
    match note_events(note) {
        Some(es) => escape_metadata_spec(normalize_ws_spec(events_text(es))),
        None => escape_metadata_spec(note),
    }
}

fn entity_char(name: &str) -> (r: Option<char>)
    ensures
        r == named_entity(name@),
{
    if str_eq(name, "amp") {
        Some('&')
    } else if str_eq(name, "lt") {
        Some('<')
    } else if str_eq(name, "gt") {
        Some('>')
    } else if str_eq(name, "quot") {
        Some('"')
    } else if str_eq(name, "apos") {
        Some('\'')
    } else if str_eq(name, "nbsp") {
        Some(' ')
    } else {
        None
    }
}

pub fn format_browser_note(note: &str) -> (r: String)
    ensures
        r@ == browser_note_spec(note@),
{
    let events = match read_note(note) {
        Some(v) => v,
        None => return escape_metadata(note),
    };
    let mut text = String::new();
    let mut i: usize = 0;
    assert(events@.take(0) =~= Seq::<NoteEvent>::empty());
    while i < events.len()
        invariant
            i <= events@.len(),
            text@ == events_text(events@.take(i as int)),
        decreases events@.len() - i,
    {
        assert(events@.take(i + 1).drop_last() =~= events@.take(i as int));
        assert(events@.take(i + 1).last() == events@[i as int]);
        let ghost before = text@;
        match &events[i] {
            NoteEvent::Text(t) => push_str(&mut text, t.as_str()),
            NoteEvent::Reference(Some(c), _) => push_char(&mut text, *c),
            NoteEvent::Reference(None, name) => match entity_char(name.as_str()) {
                Some(c) => push_char(&mut text, c),
                None => {
                    push_str(&mut text, "&");
                    push_str(&mut text, name.as_str());
                    push_str(&mut text, ";");
                },
            },
            NoteEvent::Tag(name) => {
                if str_eq(name.as_str(), "br") || str_eq(name.as_str(), "p") || str_eq(
                    name.as_str(),
                    "li",
                ) {
                    push_char(&mut text, ' ');
                }
            },
            NoteEvent::Other => {},
        }
        assert(text@ =~= before + event_text(events@[i as int]));
        i = i + 1;
    }
    assert(events@.take(events@.len() as int) =~= events@);
    let collapsed = normalize_ws(text.as_str());
    escape_metadata(collapsed.as_str())
}

pub open spec fn shows_detail(s: HoverSettings, d: BrowserDetail) -> bool {
    s.browser_details@.contains(d)
}

fn shows(s: &HoverSettings, d: BrowserDetail) -> (r: bool)
    ensures
        r == shows_detail(*s, d),
{
    let mut i: usize = 0;
    while i < s.browser_details.len()
        invariant
            i <= s.browser_details@.len(),
            forall|k: int| 0 <= k < i ==> s.browser_details@[k] != d,
        decreases s.browser_details@.len() - i,
    {
        if s.browser_details[i] == d {
            return true;
        }
        i = i + 1;
    }
    false
}

/// How a flag is set: `name` or `name=value`.
pub open spec fn flag_setting(f: BrowserFlag) -> Seq<char> {
    match f.value_to_set {
        Some(v) => f.name@ + "="@ + v@,
        None => f.name@,
    }
}

pub open spec fn flag_segment(f: BrowserFlag) -> Seq<char> {
    "behind flag "@ + metadata_code_spec(flag_setting(f)) + " ("@ + flag_kind_name(f.kind) + ")"@
}

pub open spec fn opt_segment(shown: bool, value: Option<String>, before: Seq<char>, after: Seq<char>) -> Seq<
    Seq<char>,
> {
    match value {
        Some(x) => if shown {
            seq![before + escape_metadata_spec(x@) + after]
        } else {
            Seq::empty()
        },
        None => Seq::empty(),
    }
}

/// The details one support statement shows, in order.
pub open spec fn statement_segments(v: BrowserVersion, s: HoverSettings) -> Seq<Seq<char>> {
    (if s.browser_history {
        seq![version_label_spec(Some(v))]
    } else {
        Seq::empty()
    }) + (if shows_detail(s, BrowserDetail::PartialImplementation) && v.partial_implementation {
        seq!["partial implementation"@]
    } else {
        Seq::empty()
    }) + opt_segment(shows_detail(s, BrowserDetail::Prefix), v.prefix, "requires "@, " prefix"@)
        + opt_segment(shows_detail(s, BrowserDetail::AlternativeName), v.alternative_name, "ships as "@, Seq::empty())
        + (if shows_detail(s, BrowserDetail::Flags) {
        v.flags@.map_values(|f: BrowserFlag| flag_segment(f))
    } else {
        Seq::empty()
    }) + opt_segment(shows_detail(s, BrowserDetail::VersionRemoved), v.version_removed, "removed in "@, Seq::empty())
        + opt_segment(shows_detail(s, BrowserDetail::VersionLast), v.version_last, "last supported in "@, Seq::empty())
        + (if shows_detail(s, BrowserDetail::Notes) {
        v.notes@.map_values(|n: String| browser_note_spec(n@))
    } else {
        Seq::empty()
    }) + (if shows_detail(s, BrowserDetail::ImplementationLinks) {
        v.impl_url@.map_values(|u: String| "implementation: "@ + metadata_link_spec(u@))
    } else {
        Seq::empty()
    })
}

fn push_opt_segment(
    out: &mut Vec<String>,
    shown: bool,
    value: &Option<String>,
    before: &str,
    after: &str,
)
    ensures
        string_seqs(final(out)@) == string_seqs(old(out)@) + opt_segment(shown, *value, before@, after@),
{
    let ghost start = string_seqs(out@);
    if shown {
        if let Some(x) = value {
            let e = escape_metadata(x.as_str());
            out.push(concat3(before, e.as_str(), after));
            assert(string_seqs(out@) =~= start.push(before@ + escape_metadata_spec(x@) + after@));
        }
    }
    assert(string_seqs(out@) =~= start + opt_segment(shown, *value, before@, after@));
}

fn flag_text(f: &BrowserFlag) -> (r: String)
    ensures
        r@ == flag_segment(*f),
{
    let setting = match &f.value_to_set {
        Some(v) => concat3(f.name.as_str(), "=", v.as_str()),
        None => f.name.clone(),
    };
    let mut out = "behind flag ".to_owned();
    push_str(&mut out, metadata_code(setting.as_str()).as_str());
    push_str(&mut out, " (");
    push_str(&mut out, f.kind.as_str());
    push_str(&mut out, ")");
    out
}

#[verifier::spinoff_prover]
#[verifier::rlimit(40)]
pub fn statement_details(v: &BrowserVersion, s: &HoverSettings) -> (r: Vec<String>)
    ensures
        string_seqs(r@) == statement_segments(*v, *s),
{
    proof {
        reveal_strlit("");
    }
    let mut out: Vec<String> = Vec::new();
    if s.browser_history {
        out.push(browser_version_label(Some(v)));
    }
    let ghost g1 = string_seqs(out@);
    assert(g1 =~= if s.browser_history {
        seq![version_label_spec(Some(*v))]
    } else {
        Seq::<Seq<char>>::empty()
    });
    if shows(s, BrowserDetail::PartialImplementation) && v.partial_implementation {
        out.push("partial implementation".to_owned());
    }
    let ghost g2 = string_seqs(out@);
    assert(g2 =~= g1 + if shows_detail(*s, BrowserDetail::PartialImplementation) && v.partial_implementation {
        seq!["partial implementation"@]
    } else {
        Seq::<Seq<char>>::empty()
    });
    push_opt_segment(&mut out, shows(s, BrowserDetail::Prefix), &v.prefix, "requires ", " prefix");
    push_opt_segment(&mut out, shows(s, BrowserDetail::AlternativeName), &v.alternative_name, "ships as ", "");
    let ghost g3 = string_seqs(out@);
    if shows(s, BrowserDetail::Flags) {
        let mut i: usize = 0;
        while i < v.flags.len()
            invariant
                i <= v.flags@.len(),
                string_seqs(out@) =~= g3 + v.flags@.take(i as int).map_values(|f: BrowserFlag| flag_segment(f)),
            decreases v.flags@.len() - i,
        {
            let ghost before = string_seqs(out@);
            out.push(flag_text(&v.flags[i]));
            assert(v.flags@.take(i + 1).map_values(|f: BrowserFlag| flag_segment(f)) =~= v.flags@.take(
                i as int,
            ).map_values(|f: BrowserFlag| flag_segment(f)).push(flag_segment(v.flags@[i as int])));
            assert(string_seqs(out@) =~= before.push(flag_segment(v.flags@[i as int])));
            i = i + 1;
        }
        assert(v.flags@.take(v.flags@.len() as int) =~= v.flags@);
    }
    let ghost g3f = string_seqs(out@);
    assert(g3f =~= g3 + if shows_detail(*s, BrowserDetail::Flags) {
        v.flags@.map_values(|f: BrowserFlag| flag_segment(f))
    } else {
        Seq::<Seq<char>>::empty()
    });
    push_opt_segment(&mut out, shows(s, BrowserDetail::VersionRemoved), &v.version_removed, "removed in ", "");
    push_opt_segment(&mut out, shows(s, BrowserDetail::VersionLast), &v.version_last, "last supported in ", "");
    let ghost g4 = string_seqs(out@);
    if shows(s, BrowserDetail::Notes) {
        let mut i: usize = 0;
        while i < v.notes.len()
            invariant
                i <= v.notes@.len(),
                string_seqs(out@) =~= g4 + v.notes@.take(i as int).map_values(|n: String| browser_note_spec(n@)),
            decreases v.notes@.len() - i,
        {
            let ghost before = string_seqs(out@);
            out.push(format_browser_note(v.notes[i].as_str()));
            assert(v.notes@.take(i + 1).map_values(|n: String| browser_note_spec(n@)) =~= v.notes@.take(
                i as int,
            ).map_values(|n: String| browser_note_spec(n@)).push(browser_note_spec(v.notes@[i as int]@)));
            assert(string_seqs(out@) =~= before.push(browser_note_spec(v.notes@[i as int]@)));
            i = i + 1;
        }
        assert(v.notes@.take(v.notes@.len() as int) =~= v.notes@);
    }
    let ghost g5 = string_seqs(out@);
    assert(g5 =~= g4 + if shows_detail(*s, BrowserDetail::Notes) {
        v.notes@.map_values(|n: String| browser_note_spec(n@))
    } else {
        Seq::<Seq<char>>::empty()
    });
    if shows(s, BrowserDetail::ImplementationLinks) {
        let mut i: usize = 0;
        while i < v.impl_url.len()
            invariant
                i <= v.impl_url@.len(),
                string_seqs(out@) =~= g5 + v.impl_url@.take(i as int).map_values(
                    |u: String| "implementation: "@ + metadata_link_spec(u@),
                ),
            decreases v.impl_url@.len() - i,
        {
            let ghost before = string_seqs(out@);
            out.push(concat("implementation: ", metadata_link(v.impl_url[i].as_str()).as_str()));
            assert(v.impl_url@.take(i + 1).map_values(|u: String| "implementation: "@ + metadata_link_spec(u@))
                =~= v.impl_url@.take(i as int).map_values(
                |u: String| "implementation: "@ + metadata_link_spec(u@),
            ).push("implementation: "@ + metadata_link_spec(v.impl_url@[i as int]@)));
            assert(string_seqs(out@) =~= before.push(
                "implementation: "@ + metadata_link_spec(v.impl_url@[i as int]@),
            ));
            i = i + 1;
        }
        assert(v.impl_url@.take(v.impl_url@.len() as int) =~= v.impl_url@);
    }
    assert(string_seqs(out@) =~= g5 + if shows_detail(*s, BrowserDetail::ImplementationLinks) {
        v.impl_url@.map_values(|u: String| "implementation: "@ + metadata_link_spec(u@))
    } else {
        Seq::<Seq<char>>::empty()
    });
    assert(string_seqs(out@) =~= statement_segments(*v, *s));
    out
}

/// The statements a browser's details show: all of them with history on,
/// else the selected one.
pub open spec fn shown_statements(history: Seq<BrowserVersion>, s: HoverSettings) -> Seq<BrowserVersion> {
    if s.browser_history {
        history
    } else {
        match selected_index(history) {
            Some(k) => seq![history[k]],
            None => Seq::empty(),
        }
    }
}

pub open spec fn statement_line(id: Seq<char>, v: BrowserVersion, s: HoverSettings) -> Seq<Seq<char>> {
    let segs = statement_segments(v, s);
    if segs.len() == 0 {
        Seq::empty()
    } else {
        seq!["- "@ + escape_metadata_spec(browser_label_spec(id)) + ": "@ + join_spec(segs, "; "@)]
    }
}

pub open spec fn statement_lines(id: Seq<char>, vs: Seq<BrowserVersion>, s: HoverSettings) -> Seq<Seq<char>>
    decreases vs.len(),
{
    if vs.len() == 0 {
        Seq::empty()
    } else {
        statement_lines(id, vs.drop_last(), s) + statement_line(id, vs.last(), s)
    }
}

pub open spec fn browser_lines(support: BrowserSupport, ids: Seq<Seq<char>>, s: HoverSettings) -> Seq<
    Seq<char>,
>
    decreases ids.len(),
{
    if ids.len() == 0 {
        Seq::empty()
    } else {
        browser_lines(support, ids.drop_last(), s) + match support_for(support, ids.last()) {
            Some(h) => statement_lines(ids.last(), shown_statements(h, s), s),
            None => Seq::empty(),
        }
    }
}

/// The per-browser detail lines of the configured browsers, in order; none
/// when there is nothing to show.
pub open spec fn notes_list_spec(support: Option<BrowserSupport>, s: HoverSettings) -> Option<Seq<Seq<char>>> {
    match support {
        None => None,
        Some(sup) => {
            let lines = browser_lines(sup, string_seqs(s.browsers@), s);
            if lines.len() == 0 {
                None
            } else {
                Some(lines)
            }
        },
    }
}

fn push_statement_line(lines: &mut Vec<String>, id: &str, v: &BrowserVersion, s: &HoverSettings)
    ensures
        string_seqs(final(lines)@) == string_seqs(old(lines)@) + statement_line(id@, *v, *s),
{
    let segs = statement_details(v, s);
    let ghost before = string_seqs(lines@);
    if segs.len() > 0 {
        let mut line = "- ".to_owned();
        push_str(&mut line, escape_metadata(browser_label(id)).as_str());
        push_str(&mut line, ": ");
        push_str(&mut line, join(&segs, "; ").as_str());
        lines.push(line);
        assert(string_seqs(lines@) =~= before.push(line@));
    } else {
        assert(string_seqs(lines@) =~= before);
    }
    assert(string_seqs(lines@) =~= before + statement_line(id@, *v, *s));
}

pub fn format_browser_notes_list(support: Option<&BrowserSupport>, settings: &HoverSettings) -> (r: Option<
    Vec<String>,
>)
    ensures
        match notes_list_spec(
            match support {
                Some(x) => Some(*x),
                None => None,
            },
            *settings,
        ) {
            Some(lines) => r matches Some(v) && string_seqs(v@) == lines,
            None => r is None,
        },
{
    let support = match support {
        Some(x) => x,
        None => return None,
    };
    let ghost ids = string_seqs(settings.browsers@);
    let mut lines: Vec<String> = Vec::new();
    let mut i: usize = 0;
    assert(ids.take(0) =~= Seq::<Seq<char>>::empty());
    while i < settings.browsers.len()
        invariant
            i <= settings.browsers@.len(),
            ids == string_seqs(settings.browsers@),
            string_seqs(lines@) == browser_lines(*support, ids.take(i as int), *settings),
        decreases settings.browsers@.len() - i,
    {
        assert(ids.take(i + 1).drop_last() =~= ids.take(i as int));
        assert(ids.take(i + 1).last() == settings.browsers@[i as int]@);
        let id = settings.browsers[i].as_str();
        let ghost before = string_seqs(lines@);
        if let Some(history) = support.get(id) {
            if settings.browser_history {
                let mut k: usize = 0;
                assert(history@.take(0) =~= Seq::<BrowserVersion>::empty());
                while k < history.len()
                    invariant
                        k <= history@.len(),
                        string_seqs(lines@) == before + statement_lines(id@, history@.take(k as int), *settings),
                    decreases history@.len() - k,
                {
                    assert(history@.take(k + 1).drop_last() =~= history@.take(k as int));
                    push_statement_line(&mut lines, id, &history[k], settings);
                    k = k + 1;
                }
                assert(history@.take(history@.len() as int) =~= history@);
            } else {
                match select_statement(history.as_slice()) {
                    Some(v) => {
                        push_statement_line(&mut lines, id, v, settings);
                        let ghost one = seq![*v];
                        assert(one.drop_last() =~= Seq::<BrowserVersion>::empty());
                        assert(one.last() == *v);
                        assert(statement_lines(id@, one.drop_last(), *settings) =~= Seq::<Seq<char>>::empty());
                        assert(statement_lines(id@, one, *settings) =~= statement_line(id@, *v, *settings));
                    },
                    None => {
                        assert(string_seqs(lines@) =~= before + statement_lines(
                            id@,
                            Seq::<BrowserVersion>::empty(),
                            *settings,
                        ));
                    },
                }
            }
        } else {
            assert(string_seqs(lines@) =~= before + Seq::<Seq<char>>::empty());
        }
        i = i + 1;
    }
    assert(ids.take(settings.browsers@.len() as int) =~= ids);
    if lines.len() == 0 {
        None
    } else {
        Some(lines)
    }
}

// ---------------------------------------------------------------------------
// Baseline

/// The Baseline badge images, as image URLs.
pub struct BaselineIcons {
    pub widely: String,
    pub newly: String,
    pub limited: String,
}

/// ` since 2021` (with the date's qualifier) when the milestone has a year.
pub open spec fn since_spec(b: Baseline) -> Seq<char> {
    match milestone_of(b) {
        Some(d) => match date_year(d) {
            Some(y) => " since "@ + qualifier_glyph(d.qualifier) + decimal(y as nat),
            None => Seq::empty(),
        },
        None => Seq::empty(),
    }
}

pub open spec fn baseline_date_line(label: Seq<char>, date: Option<BaselineDate>) -> Seq<char> {
    match date {
        Some(d) => "\n\n"@ + label + " date: "@ + match d.date {
            Some(parsed) => qualifier_glyph(d.qualifier) + parsed@,
            None => "date not recognized (raw: "@ + escape_metadata_spec(d.raw@) + ")"@,
        },
        None => Seq::empty(),
    }
}

/// The Baseline section: the tier with its badge and year, why an unknown
/// tier is unknown, then each milestone date.
pub open spec fn baseline_spec(b: Baseline, icons: BaselineIcons) -> Seq<char> {
    let head = match b.status {
        Some(BaselineTier::Widely) => "![Baseline icon]("@ + icons.widely@ + ") _Widely Available"@
            + since_spec(b) + "_"@,
        Some(BaselineTier::Newly) => "![Baseline icon]("@ + icons.newly@ + ") _Newly Available"@
            + since_spec(b) + "_"@,
        Some(BaselineTier::Limited) => "![Baseline icon]("@ + icons.limited@
            + ") _Limited availability_"@,
        None => "_Baseline status unknown_"@ + match b.raw_status {
            Some(raw) => " (unrecognized upstream status: "@ + escape_metadata_spec(raw@) + ")"@,
            None => " (upstream status missing)"@,
        },
    };
    head + baseline_date_line("Newly Available"@, b.low_date) + baseline_date_line(
        "Widely Available"@,
        b.high_date,
    )
}

fn since_text(b: &Baseline) -> (r: String)
    ensures
        r@ == since_spec(*b),
{
    match b.milestone() {
        Some(d) => match d.year() {
            Some(y) => {
                let mut out = " since ".to_owned();
                push_str(&mut out, format_baseline_qualifier(d.qualifier));
                push_str(&mut out, decimal_string(y as u64).as_str());
                out
            },
            None => String::new(),
        },
        None => String::new(),
    }
}

fn push_date_line(out: &mut String, label: &str, date: &Option<BaselineDate>)
    ensures
        final(out)@ == old(out)@ + baseline_date_line(label@, *date),
{
    if let Some(d) = date {
        push_str(out, "\n\n");
        push_str(out, label);
        push_str(out, " date: ");
        match &d.date {
            Some(parsed) => {
                push_str(out, format_baseline_qualifier(d.qualifier));
                push_str(out, parsed.as_str());
            },
            None => {
                push_str(out, "date not recognized (raw: ");
                push_str(out, escape_metadata(d.raw.as_str()).as_str());
                push_str(out, ")");
            },
        }
    } else {
        proof {
            reveal_strlit("");
        }
    }
}

pub fn format_baseline(baseline: &Baseline, icons: &BaselineIcons) -> (r: String)
    ensures
        r@ == baseline_spec(*baseline, *icons),
{
    let mut line = match baseline.status {
        Some(BaselineTier::Widely) => {
            let mut l = concat3("![Baseline icon](", icons.widely.as_str(), ") _Widely Available");
            push_str(&mut l, since_text(baseline).as_str());
            push_str(&mut l, "_");
            l
        },
        Some(BaselineTier::Newly) => {
            let mut l = concat3("![Baseline icon](", icons.newly.as_str(), ") _Newly Available");
            push_str(&mut l, since_text(baseline).as_str());
            push_str(&mut l, "_");
            l
        },
        Some(BaselineTier::Limited) => concat3(
            "![Baseline icon](",
            icons.limited.as_str(),
            ") _Limited availability_",
        ),
        None => {
            let mut l = "_Baseline status unknown_".to_owned();
            match &baseline.raw_status {
                Some(raw) => {
                    push_str(&mut l, " (unrecognized upstream status: ");
                    push_str(&mut l, escape_metadata(raw.as_str()).as_str());
                    push_str(&mut l, ")");
                },
                None => push_str(&mut l, " (upstream status missing)"),
            }
            l
        },
    };
    push_date_line(&mut line, "Newly Available", &baseline.low_date);
    push_date_line(&mut line, "Widely Available", &baseline.high_date);
    line
}

// ---------------------------------------------------------------------------
// Discouragement

/// A supporting reference: an http(s) URL with no whitespace or angle
/// brackets as an autolink, any other text escaped.
pub open spec fn reference_spec(url: Seq<char>) -> Seq<char> {
    if (crate::lifecycle_prose::starts_with(url, "https://"@) || crate::lifecycle_prose::starts_with(
        url,
        "http://"@,
    )) && !(exists|k: int|
        0 <= k < url.len() && (crate::text::is_ws(#[trigger] url[k]) || url[k] == '<' || url[k]
            == '>')) {
        "<"@ + url + ">"@
    } else {
        escape_metadata_spec(url)
    }
}

fn reference_text(url: &str) -> (r: String)
    ensures
        r@ == reference_spec(url@),
{
    let v = chars_of(url);
    let web = crate::lifecycle_prose::starts(&v, "https://") || crate::lifecycle_prose::starts(
        &v,
        "http://",
    );
    let mut clean = true;
    let mut k: usize = 0;
    while k < v.len()
        invariant
            k <= v@.len(),
            v@ == url@,
            clean == !(exists|j: int|
                0 <= j < k && (crate::text::is_ws(#[trigger] v@[j]) || v@[j] == '<' || v@[j] == '>')),
        decreases v@.len() - k,
    {
        let c = v[k];
        if crate::text::ws(c) || c == '<' || c == '>' {
            clean = false;
        }
        k = k + 1;
    }
    if web && clean {
        concat3("<", url, ">")
    } else {
        escape_metadata(url)
    }
}

pub open spec fn escaped_all(v: Seq<String>) -> Seq<Seq<char>> {
    v.map_values(|s: String| escape_metadata_spec(s@))
}

pub open spec fn references_text(refs: Seq<String>) -> Seq<char>
    decreases refs.len(),
{
    if refs.len() == 0 {
        Seq::empty()
    } else {
        references_text(refs.drop_last()) + "\n\nSupporting reference: "@ + reference_spec(refs.last()@)
    }
}

/// One piece of `WebDX` advice: who discourages what and why, its scope,
/// alternatives, references and removal date.
pub open spec fn advice_spec(d: Discouraged) -> Seq<char> {
    let name = match d.feature_name {
        Some(n) => n@,
        None => d.feature_id@,
    };
    "**WebDX discourages "@ + escape_metadata_spec(name) + "**\n\n"@ + escape_metadata_spec(d.reason@)
        + "\n\nFeature scope: "@ + escape_metadata_spec(d.feature_id@) + " ("@ + escape_metadata_spec(
        d.compat_key@,
    ) + ")."@ + (if d.alternatives@.len() > 0 {
        "\n\nAlternatives: "@ + join_spec(escaped_all(d.alternatives@), ", "@)
    } else {
        Seq::empty()
    }) + references_text(d.according_to@) + match d.removal_date {
        Some(date) => "\n\nUpstream removal date: "@ + escape_metadata_spec(date@),
        None => Seq::empty(),
    }
}

pub open spec fn discouraged_spec(advice: Seq<Discouraged>) -> Option<Seq<char>> {
    if advice.len() == 0 {
        None
    } else {
        Some(join_spec(advice.map_values(|d: Discouraged| advice_spec(d)), "\n\n"@))
    }
}

fn escape_each(v: &Vec<String>) -> (r: Vec<String>)
    ensures
        string_seqs(r@) == escaped_all(v@),
{
    let mut out: Vec<String> = Vec::new();
    let mut i: usize = 0;
    while i < v.len()
        invariant
            i <= v@.len(),
            string_seqs(out@) =~= escaped_all(v@).take(i as int),
        decreases v@.len() - i,
    {
        let ghost before = string_seqs(out@);
        out.push(escape_metadata(v[i].as_str()));
        assert(string_seqs(out@) =~= before.push(escape_metadata_spec(v@[i as int]@)));
        i = i + 1;
    }
    assert(escaped_all(v@).take(v@.len() as int) =~= escaped_all(v@));
    out
}

fn advice_text(d: &Discouraged) -> (r: String)
    ensures
        r@ == advice_spec(*d),
{
    let name = match &d.feature_name {
        Some(n) => n.as_str(),
        None => d.feature_id.as_str(),
    };
    let mut text = "**WebDX discourages ".to_owned();
    push_str(&mut text, escape_metadata(name).as_str());
    push_str(&mut text, "**\n\n");
    push_str(&mut text, escape_metadata(d.reason.as_str()).as_str());
    push_str(&mut text, "\n\nFeature scope: ");
    push_str(&mut text, escape_metadata(d.feature_id.as_str()).as_str());
    push_str(&mut text, " (");
    push_str(&mut text, escape_metadata(d.compat_key.as_str()).as_str());
    push_str(&mut text, ").");
    let ghost head = text@;
    if d.alternatives.len() > 0 {
        push_str(&mut text, "\n\nAlternatives: ");
        push_str(&mut text, join(&escape_each(&d.alternatives), ", ").as_str());
    } else {
        proof {
            reveal_strlit("");
        }
    }
    let ghost with_alts = text@;
    let mut i: usize = 0;
    assert(d.according_to@.take(0) =~= Seq::<String>::empty());
    while i < d.according_to.len()
        invariant
            i <= d.according_to@.len(),
            text@ == with_alts + references_text(d.according_to@.take(i as int)),
        decreases d.according_to@.len() - i,
    {
        assert(d.according_to@.take(i + 1).drop_last() =~= d.according_to@.take(i as int));
        assert(d.according_to@.take(i + 1).last() == d.according_to@[i as int]);
        push_str(&mut text, "\n\nSupporting reference: ");
        push_str(&mut text, reference_text(d.according_to[i].as_str()).as_str());
        i = i + 1;
    }
    assert(d.according_to@.take(d.according_to@.len() as int) =~= d.according_to@);
    if let Some(date) = &d.removal_date {
        push_str(&mut text, "\n\nUpstream removal date: ");
        push_str(&mut text, escape_metadata(date.as_str()).as_str());
    }
    assert(text@ =~= advice_spec(*d));
    text
}

pub fn format_discouraged(advice: &Vec<Discouraged>) -> (r: Option<String>)
    ensures
        match discouraged_spec(advice@) {
            Some(t) => r matches Some(x) && x@ == t,
            None => r is None,
        },
{
    if advice.len() == 0 {
        return None;
    }
    let mut parts: Vec<String> = Vec::new();
    let mut i: usize = 0;
    while i < advice.len()
        invariant
            i <= advice@.len(),
            string_seqs(parts@) =~= advice@.take(i as int).map_values(|d: Discouraged| advice_spec(d)),
        decreases advice@.len() - i,
    {
        let ghost before = string_seqs(parts@);
        parts.push(advice_text(&advice[i]));
        assert(string_seqs(parts@) =~= before.push(advice_spec(advice@[i as int])));
        assert(advice@.take(i + 1).map_values(|d: Discouraged| advice_spec(d)) =~= advice@.take(
            i as int,
        ).map_values(|d: Discouraged| advice_spec(d)).push(advice_spec(advice@[i as int])));
        i = i + 1;
    }
    assert(advice@.take(advice@.len() as int) =~= advice@);
    Some(join(&parts, "\n\n"))
}

// ---------------------------------------------------------------------------
// Value constraints

/// The texts of the graph's nodes of one kind, sorted, each once.
pub open spec fn kind_texts(nodes: Seq<NodeView>, kind: CatalogCssGrammarNodeKind) -> Seq<Seq<char>>
    decreases nodes.len(),
{
    if nodes.len() == 0 {
        Seq::empty()
    } else {
        let prev = kind_texts(nodes.drop_last(), kind);
        let n = nodes.last();
        if n.kind == kind && n.text is Some {
            prev.push(n.text->0)
        } else {
            prev
        }
    }
}

pub open spec fn node_text_spec(graph: CatalogCssGrammarGraph, kind: CatalogCssGrammarNodeKind) -> Seq<Seq<char>> {
    sorted_names(kind_texts(node_views(graph.nodes@), kind))
}

pub fn css_graph_node_text(graph: &CatalogCssGrammarGraph, kind: CatalogCssGrammarNodeKind) -> (r: Vec<
    String,
>)
    ensures
        string_seqs(r@) == node_text_spec(*graph, kind),
{
    let ghost nv = node_views(graph.nodes@);
    let mut found: Vec<String> = Vec::new();
    let mut i: usize = 0;
    assert(nv.take(0) =~= Seq::<NodeView>::empty());
    while i < graph.nodes.len()
        invariant
            i <= graph.nodes@.len(),
            nv == node_views(graph.nodes@),
            string_seqs(found@) == kind_texts(nv.take(i as int), kind),
        decreases graph.nodes@.len() - i,
    {
        assert(nv.take(i + 1).drop_last() =~= nv.take(i as int));
        assert(nv.take(i + 1).last() == node_view(graph.nodes@[i as int]));
        let n = &graph.nodes[i];
        if n.kind == kind {
            if let Some(t) = &n.text {
                let ghost before = string_seqs(found@);
                found.push(t.clone());
                assert(string_seqs(found@) =~= before.push(t@));
            }
        }
        i = i + 1;
    }
    assert(nv.take(graph.nodes@.len() as int) =~= nv);
    sort_names(found)
}

/// `label` followed by the values in code, separated by ` | `.
pub open spec fn code_list(label: Seq<char>, values: Seq<Seq<char>>) -> Seq<char> {
    label + ": `"@ + join_spec(values, "` | `"@) + "`"@
}

pub open spec fn grammar_lines(grammar: Seq<char>, graph: CatalogCssGrammarGraph) -> Seq<Seq<char>> {
    let keywords = node_text_spec(graph, CatalogCssGrammarNodeKind::Keyword);
    let types = node_text_spec(graph, CatalogCssGrammarNodeKind::Type);
    let functions = node_text_spec(graph, CatalogCssGrammarNodeKind::Function);
    seq!["Grammar: `"@ + grammar + "`"@] + (if keywords.len() > 0 {
        seq![code_list("Keywords"@, keywords)]
    } else {
        Seq::empty()
    }) + (if types.len() > 0 {
        seq![code_list("Types"@, types)]
    } else {
        Seq::empty()
    }) + (if functions.len() > 0 {
        seq![code_list("Functions"@, functions)]
    } else {
        Seq::empty()
    })
}

/// The one-line description of a semantic value shape.
pub open spec fn shape_label(v: ValuesView) -> Option<Seq<char>> {
    match v {
        ValuesView::Boolean => Some("Value: HTML boolean attribute"@),
        ValuesView::TokenList => Some("Value: space-separated tokens"@),
        ValuesView::CommaTokenList => Some("Value: comma-separated tokens"@),
        ValuesView::UrlTokenList => Some("Value: space-separated URL tokens"@),
        ValuesView::LanguageTag => Some("Value: BCP 47 language tag"@),
        ValuesView::Integer => Some("Value: integer"@),
        ValuesView::Number => Some("Value: number"@),
        ValuesView::IdList => Some("Value: space-separated ID references"@),
        ValuesView::MediaType => Some("Value: media type"@),
        ValuesView::MediaQueryList => Some("Value: CSS media query list"@),
        ValuesView::CssDeclarationList => Some("Value: CSS declaration list"@),
        ValuesView::Id => Some("Value: non-empty ID without whitespace"@),
        ValuesView::ReferrerPolicy => Some("Value: referrer policy"@),
        ValuesView::SuggestedFileName => Some("Value: suggested download file name"@),
        ValuesView::PathData => Some("Value: SVG path data"@),
        ValuesView::SemicolonNumberList => Some("Value: semicolon-separated number list"@),
        ValuesView::CoordinatePair => Some("Value: coordinate pair"@),
        ValuesView::CoordinatePairList => Some("Value: semicolon-separated coordinate pairs"@),
        _ => None,
    }
}

/// The value-constraint lines of an attribute's value space: its keywords or
/// functions, a description of a semantic shape, or a grammar with its
/// keywords, types and functions; none for the plain types.
pub open spec fn constraints_spec(v: CatalogAttributeValues) -> Seq<Seq<char>> {
    match v {
        CatalogAttributeValues::Enum { values } => seq![code_list("Values"@, string_seqs(values@))],
        CatalogAttributeValues::Transform { functions } => seq![
            code_list("Functions"@, string_seqs(functions@)),
        ],
        CatalogAttributeValues::CssGrammar { grammar, graph } => grammar_lines(grammar@, graph),
        _ => match shape_label(values_view(v)) {
            Some(l) => seq![l],
            None => Seq::empty(),
        },
    }
}

fn code_list_text(label: &str, values: &Vec<String>) -> (r: String)
    ensures
        r@ == code_list(label@, string_seqs(values@)),
{
    let mut out = concat(label, ": `");
    push_str(&mut out, join(values, "` | `").as_str());
    push_str(&mut out, "`");
    out
}

fn one(s: &str) -> (r: Vec<String>)
    ensures
        string_seqs(r@) == seq![s@],
{
    let r = vec![s.to_owned()];
    assert(string_seqs(r@) =~= seq![s@]);
    r
}

pub fn value_constraints_lines(values: &CatalogAttributeValues) -> (r: Vec<String>)
    ensures
        string_seqs(r@) == constraints_spec(*values),
{
    match values {
        CatalogAttributeValues::Enum { values } => {
            let r = vec![code_list_text("Values", values)];
            assert(string_seqs(r@) =~= seq![code_list("Values"@, string_seqs(values@))]);
            r
        },
        CatalogAttributeValues::Transform { functions } => {
            let r = vec![code_list_text("Functions", functions)];
            assert(string_seqs(r@) =~= seq![code_list("Functions"@, string_seqs(functions@))]);
            r
        },
        CatalogAttributeValues::CssGrammar { grammar, graph } => {
            let mut lines = one(concat3("Grammar: `", grammar.as_str(), "`").as_str());
            let ghost g0 = string_seqs(lines@);
            let keywords = css_graph_node_text(graph, CatalogCssGrammarNodeKind::Keyword);
            if keywords.len() > 0 {
                lines.push(code_list_text("Keywords", &keywords));
            }
            let ghost g1 = string_seqs(lines@);
            assert(g1 =~= g0 + if keywords@.len() > 0 {
                seq![code_list("Keywords"@, string_seqs(keywords@))]
            } else {
                Seq::<Seq<char>>::empty()
            });
            let types = css_graph_node_text(graph, CatalogCssGrammarNodeKind::Type);
            if types.len() > 0 {
                lines.push(code_list_text("Types", &types));
            }
            let ghost g2 = string_seqs(lines@);
            assert(g2 =~= g1 + if types@.len() > 0 {
                seq![code_list("Types"@, string_seqs(types@))]
            } else {
                Seq::<Seq<char>>::empty()
            });
            let functions = css_graph_node_text(graph, CatalogCssGrammarNodeKind::Function);
            if functions.len() > 0 {
                lines.push(code_list_text("Functions", &functions));
            }
            assert(string_seqs(lines@) =~= g2 + if functions@.len() > 0 {
                seq![code_list("Functions"@, string_seqs(functions@))]
            } else {
                Seq::<Seq<char>>::empty()
            });
            assert(string_seqs(lines@) =~= grammar_lines(grammar@, *graph));
            lines
        },
        CatalogAttributeValues::Boolean => one("Value: HTML boolean attribute"),
        CatalogAttributeValues::TokenList => one("Value: space-separated tokens"),
        CatalogAttributeValues::CommaTokenList => one("Value: comma-separated tokens"),
        CatalogAttributeValues::UrlTokenList => one("Value: space-separated URL tokens"),
        CatalogAttributeValues::LanguageTag => one("Value: BCP 47 language tag"),
        CatalogAttributeValues::Integer => one("Value: integer"),
        CatalogAttributeValues::Number => one("Value: number"),
        CatalogAttributeValues::IdList => one("Value: space-separated ID references"),
        CatalogAttributeValues::MediaType => one("Value: media type"),
        CatalogAttributeValues::MediaQueryList => one("Value: CSS media query list"),
        CatalogAttributeValues::CssDeclarationList => one("Value: CSS declaration list"),
        CatalogAttributeValues::Id => one("Value: non-empty ID without whitespace"),
        CatalogAttributeValues::ReferrerPolicy => one("Value: referrer policy"),
        CatalogAttributeValues::SuggestedFileName => one("Value: suggested download file name"),
        CatalogAttributeValues::PathData => one("Value: SVG path data"),
        CatalogAttributeValues::SemicolonNumberList => one("Value: semicolon-separated number list"),
        CatalogAttributeValues::CoordinatePair => one("Value: coordinate pair"),
        CatalogAttributeValues::CoordinatePairList => one("Value: semicolon-separated coordinate pairs"),
        _ => {
            let r: Vec<String> = Vec::new();
            assert(string_seqs(r@) =~= Seq::<Seq<char>>::empty());
            r
        },
    }
}

// ---------------------------------------------------------------------------
// Provenance and the details section

pub open spec fn outcome_text(o: Outcome) -> Seq<char> {
    match o {
        Outcome::Loaded => "loaded"@,
        Outcome::Absent => "no data"@,
        Outcome::Unknown => "unknown status"@,
        Outcome::Failed => "refresh failed; bundled facts retained (stale)"@,
        Outcome::Disabled => "refresh disabled; bundled facts"@,
    }
}

fn outcome_str(o: Outcome) -> (r: &'static str)
    ensures
        r@ == outcome_text(o),
{
    match o {
        Outcome::Loaded => "loaded",
        Outcome::Absent => "no data",
        Outcome::Unknown => "unknown status",
        Outcome::Failed => "refresh failed; bundled facts retained (stale)",
        Outcome::Disabled => "refresh disabled; bundled facts",
    }
}

/// Which source gave a context's facts, its version, the outcome, the key
/// and where the data came from.
pub open spec fn provenance_line(p: Provenance) -> Seq<char> {
    p.source@ + " "@ + match p.version {
        Some(v) => v@,
        None => "(version unavailable)"@,
    } + ": "@ + outcome_text(p.outcome) + ". Context: `"@ + p.key@ + "`. Source: <"@ + p.url@ + ">"@
}

fn provenance_text(p: &Provenance) -> (r: String)
    ensures
        r@ == provenance_line(*p),
{
    let mut out = concat(p.source.as_str(), " ");
    match &p.version {
        Some(v) => push_str(&mut out, v.as_str()),
        None => push_str(&mut out, "(version unavailable)"),
    }
    push_str(&mut out, ": ");
    push_str(&mut out, outcome_str(p.outcome));
    push_str(&mut out, ". Context: `");
    push_str(&mut out, p.key.as_str());
    push_str(&mut out, "`. Source: <");
    push_str(&mut out, p.url.as_str());
    push_str(&mut out, ">");
    out
}

pub open spec fn provenance_texts(rt: Option<CompatOverride>) -> Seq<Seq<char>> {
    match rt {
        Some(o) => seq![provenance_line(o.sources@[0]), provenance_line(o.sources@[1])],
        None => Seq::empty(),
    }
}

pub open spec fn opt_ref<T>(o: Option<&T>) -> Option<T> {
    match o {
        Some(x) => Some(*x),
        None => None,
    }
}

proof fn lemma_texts_push(s: Seq<HoverSection>, x: HoverSection)
    ensures
        crate::hover::section_texts(s.push(x)) == crate::hover::section_texts(s).push(
            crate::hover::section_text(x),
        ),
{
    assert(crate::hover::section_texts(s.push(x)) =~= crate::hover::section_texts(s).push(
        crate::hover::section_text(x),
    ));
}

/// Append one status line per source of the runtime record, if any.
pub fn append_provenance(builder: &mut CompatMarkdownBuilder, runtime: Option<&CompatOverride>)
    ensures
        crate::hover::section_texts(final(builder).sections@) == crate::hover::section_texts(
            old(builder).sections@,
        ) + provenance_texts(opt_ref(runtime)),
{
    let ghost start = builder.sections@;
    if let Some(rt) = runtime {
        let l0 = provenance_text(&rt.sources[0]);
        let l1 = provenance_text(&rt.sources[1]);
        let ghost mid = builder.sections@;
        builder.status(l0);
        proof {
            lemma_texts_push(mid, HoverSection::Status(l0));
        }
        let ghost mid2 = builder.sections@;
        builder.status(l1);
        proof {
            lemma_texts_push(mid2, HoverSection::Status(l1));
        }
        assert(crate::hover::section_texts(builder.sections@) =~= crate::hover::section_texts(start)
            + provenance_texts(opt_ref(runtime)));
    } else {
        assert(crate::hover::section_texts(builder.sections@) =~= crate::hover::section_texts(start)
            + provenance_texts(opt_ref(runtime)));
    }
}

/// The Web Features versions of the configured browsers, labelled.
pub open spec fn wf_versions(support: Seq<(String, String)>, ids: Seq<Seq<char>>) -> Seq<Seq<char>>
    decreases ids.len(),
{
    if ids.len() == 0 {
        Seq::empty()
    } else {
        wf_versions(support, ids.drop_last()) + match crate::values::lookup(support, ids.last()) {
            Some(v) => seq![escape_metadata_spec(browser_label_spec(ids.last())) + " "@ + escape_metadata_spec(v)],
            None => Seq::empty(),
        }
    }
}

pub open spec fn shows_section(s: HoverSettings, x: Section) -> bool {
    s.sections@.contains(x)
}

/// The rendered sections the compatibility details add, in order:
/// discouragement advice (else Baseline), browser chips, browser details,
/// Web Features support, and sources.
pub open spec fn compat_details_spec(
    facts: Facts,
    rt: Option<CompatOverride>,
    s: HoverSettings,
    icons: BaselineIcons,
) -> Seq<Seq<char>> {
    let advice = if shows_section(s, Section::Discouraged) {
        discouraged_spec(facts.discouraged@)
    } else {
        None
    };
    let first = match advice {
        Some(a) => seq![a],
        None => if shows_section(s, Section::Baseline) && facts.baseline is Some {
            seq![baseline_spec(facts.baseline->0, icons)]
        } else {
            Seq::empty()
        },
    };
    let chips = if shows_section(s, Section::Browsers) {
        match support_line_spec(facts.browser_support, string_seqs(s.browsers@)) {
            Some(line) => seq![line],
            None => Seq::empty(),
        }
    } else {
        Seq::empty()
    };
    let notes = if shows_section(s, Section::BrowserDetails) {
        match notes_list_spec(facts.browser_support, s) {
            Some(lines) => seq![join_spec(lines, "\n"@)],
            None => Seq::empty(),
        }
    } else {
        Seq::empty()
    };
    let wf = if shows_section(s, Section::WebFeaturesSupport) {
        match facts.baseline {
            Some(b) => match b.support {
                Some(sup) => {
                    let lines = wf_versions(sup@, string_seqs(s.browsers@));
                    if lines.len() > 0 {
                        seq!["Web Features support: "@ + join_spec(lines, " \u{b7} "@)]
                    } else {
                        Seq::empty()
                    }
                },
                None => Seq::empty(),
            },
            None => Seq::empty(),
        }
    } else {
        Seq::empty()
    };
    let sources = if shows_section(s, Section::Sources) {
        provenance_texts(rt)
    } else {
        Seq::empty()
    };
    first + chips + notes + wf + sources
}

fn wf_support_lines(support: &Vec<(String, String)>, settings: &HoverSettings) -> (r: Vec<String>)
    ensures
        string_seqs(r@) == wf_versions(support@, string_seqs(settings.browsers@)),
{
    let ghost ids = string_seqs(settings.browsers@);
    let mut lines: Vec<String> = Vec::new();
    let mut i: usize = 0;
    assert(ids.take(0) =~= Seq::<Seq<char>>::empty());
    while i < settings.browsers.len()
        invariant
            i <= settings.browsers@.len(),
            ids == string_seqs(settings.browsers@),
            string_seqs(lines@) == wf_versions(support@, ids.take(i as int)),
        decreases settings.browsers@.len() - i,
    {
        assert(ids.take(i + 1).drop_last() =~= ids.take(i as int));
        assert(ids.take(i + 1).last() == settings.browsers@[i as int]@);
        let id = settings.browsers[i].as_str();
        let ghost before = string_seqs(lines@);
        match crate::values::lookup_in(support, id) {
            Some(v) => {
                let mut line = escape_metadata(browser_label(id));
                push_str(&mut line, " ");
                push_str(&mut line, escape_metadata(v).as_str());
                lines.push(line);
                assert(string_seqs(lines@) =~= before.push(line@));
            },
            None => {
                assert(string_seqs(lines@) =~= before + Seq::<Seq<char>>::empty());
            },
        }
        i = i + 1;
    }
    assert(ids.take(settings.browsers@.len() as int) =~= ids);
    lines
}

/// Append the compatibility details of `facts` that the settings show.
#[verifier::spinoff_prover]
pub fn append_compat_details(
    builder: &mut CompatMarkdownBuilder,
    facts: &Facts,
    rt: Option<&CompatOverride>,
    settings: &HoverSettings,
    icons: &BaselineIcons,
)
    ensures
        crate::hover::section_texts(final(builder).sections@) == crate::hover::section_texts(
            old(builder).sections@,
        ) + compat_details_spec(*facts, opt_ref(rt), *settings, *icons),
{
    let ghost start = crate::hover::section_texts(builder.sections@);
    let advice = if settings.shows(Section::Discouraged) {
        format_discouraged(&facts.discouraged)
    } else {
        None
    };
    match advice {
        Some(a) => {
            let ghost m = builder.sections@;
            builder.baseline(a);
            proof {
                lemma_texts_push(m, HoverSection::Baseline(a));
            }
        },
        None => {
            if settings.shows(Section::Baseline) {
                if let Some(b) = &facts.baseline {
                    let line = format_baseline(b, icons);
                    let ghost m = builder.sections@;
                    builder.baseline(line);
                    proof {
                        lemma_texts_push(m, HoverSection::Baseline(line));
                    }
                }
            }
        },
    }
    let ghost t1 = crate::hover::section_texts(builder.sections@);
    if settings.shows(Section::Browsers) {
        if let Some(line) = format_browser_support_line(facts.browser_support.as_ref(), settings) {
            let ghost m = builder.sections@;
            builder.browser_chips(line);
            proof {
                lemma_texts_push(m, HoverSection::BrowserChips(line));
            }
        }
    }
    let ghost t2 = crate::hover::section_texts(builder.sections@);
    if settings.shows(Section::BrowserDetails) {
        if let Some(lines) = format_browser_notes_list(facts.browser_support.as_ref(), settings) {
            let ghost m = builder.sections@;
            let ghost ls = lines;
            builder.browser_notes(lines);
            proof {
                if ls@.len() > 0 {
                    lemma_texts_push(m, HoverSection::BrowserNotes(ls));
                }
            }
        }
    }
    let ghost t3 = crate::hover::section_texts(builder.sections@);
    if settings.shows(Section::WebFeaturesSupport) {
        if let Some(b) = &facts.baseline {
            if let Some(support) = &b.support {
                let lines = wf_support_lines(support, settings);
                if lines.len() > 0 {
                    let text = concat("Web Features support: ", join(&lines, " \u{b7} ").as_str());
                    let ghost m = builder.sections@;
                    builder.baseline(text);
                    proof {
                        lemma_texts_push(m, HoverSection::Baseline(text));
                    }
                }
            }
        }
    }
    let ghost t4 = crate::hover::section_texts(builder.sections@);
    if settings.shows(Section::Sources) {
        append_provenance(builder, rt);
    }
    assert(crate::hover::section_texts(builder.sections@) =~= start + compat_details_spec(
        *facts,
        opt_ref(rt),
        *settings,
        *icons,
    ));
}

} // verus!
