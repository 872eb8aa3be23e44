//! Hover Markdown rendered as readable plain text.
//!
//! A client that does not advertise `markdown` for hover content is only
//! promised plain text. This is not a Markdown renderer: it undoes the
//! constructs the hovers actually emit. A code span or fenced block carries its
//! content through literally, and a delimiter is markup only when it is
//! actually paired, so `--_accent` keeps its underscore while
//! `_Widely Available_` loses both of its.

use vstd::prelude::*;
use crate::text::{
    alnum, alpha, ascii_ws, is_alnum, is_alpha, is_ascii_ws, is_punct, is_ws, punct, push_char,
    push_range, ws, chars_of,
};

verus! {

/// Whether `at` begins a line.
pub open spec fn at_line_start_spec(s: Seq<char>, at: int) -> bool {
    at == 0 || s[at - 1] == '\n'
}

/// Index of the newline ending the line containing `from`, or the end.
pub open spec fn line_end_spec(s: Seq<char>, from: int) -> int
    decreases s.len() - from,
{
    if from >= s.len() {
        s.len() as int
    } else if s[from] == '\n' {
        from
    } else {
        line_end_spec(s, from + 1)
    }
}

pub proof fn lemma_line_end_bounds(s: Seq<char>, from: int)
    requires
        0 <= from,
    ensures
        from <= s.len() ==> from <= line_end_spec(s, from) <= s.len(),
        from > s.len() ==> line_end_spec(s, from) == s.len(),
        forall|i: int| from <= i < line_end_spec(s, from) ==> s[i] != '\n',
        line_end_spec(s, from) < s.len() ==> s[line_end_spec(s, from)] == '\n',
    decreases s.len() - from,
{
    if from < s.len() && s[from] != '\n' {
        lemma_line_end_bounds(s, from + 1);
    }
}

pub proof fn lemma_fence_scan_bounds(s: Seq<char>, result: int, open: int, width: nat)
    requires
        0 <= open < s.len(),
        width == backtick_run_spec(s, open),
        result == fenced_block_spec(s, open).1,
        open + width <= s.len(),
        open + width <= line_end_spec(s, open + width),
    ensures
        open < result <= s.len(),
{
    let first = line_end_spec(s, open + width);
    let start = if first < s.len() {
        first + 1
    } else {
        first
    };
    lemma_line_end_bounds(s, open + width);
    lemma_fence_scan_range(s, start, start, width);
}

pub proof fn lemma_fence_scan_range(s: Seq<char>, start: int, line: int, width: nat)
    requires
        0 <= start <= line,
        start <= s.len(),
    ensures
        start <= fence_scan_spec(s, start, line, width).1 <= s.len(),
        line < s.len() ==> line <= fence_scan_spec(s, start, line, width).1,
    decreases s.len() - line,
{
    if line < s.len() {
        lemma_line_end_bounds(s, line);
        let ends = line_end_spec(s, line);
        if ends < s.len() {
            lemma_fence_scan_range(s, start, ends + 1, width);
        }
    }
}

/// How many backticks run from `at`.
pub open spec fn backtick_run_spec(s: Seq<char>, at: int) -> nat
    decreases s.len() - at,
{
    if 0 <= at < s.len() && s[at] == '`' {
        1 + backtick_run_spec(s, at + 1)
    } else {
        0
    }
}

pub proof fn lemma_backtick_run_bounds(s: Seq<char>, at: int)
    requires
        0 <= at,
    ensures
        at + backtick_run_spec(s, at) <= s.len() || backtick_run_spec(s, at) == 0,
        at < s.len() && s[at] == '`' ==> backtick_run_spec(s, at) >= 1,
        forall|i: int| at <= i < at + backtick_run_spec(s, at) ==> s[i] == '`',
        at + backtick_run_spec(s, at) < s.len() ==> s[at + backtick_run_spec(s, at)] != '`',
    decreases s.len() - at,
{
    if at < s.len() && s[at] == '`' {
        lemma_backtick_run_bounds(s, at + 1);
    }
}

/// Where the next run of exactly `width` backticks begins at or after `from`.
pub open spec fn closing_run_spec(s: Seq<char>, from: int, width: nat) -> Option<int>
    decreases s.len() - from,
{
    if from < 0 || from >= s.len() {
        None
    } else if s[from] == '`' {
        if backtick_run_spec(s, from) == width {
            Some(from)
        } else {
            proof {
                lemma_backtick_run_bounds(s, from);
            }
            closing_run_spec(s, from + backtick_run_spec(s, from), width)
        }
    } else {
        closing_run_spec(s, from + 1, width)
    }
}

/// Every character of `t` is Unicode whitespace (`str::trim` leaves nothing).
pub open spec fn all_ws(t: Seq<char>) -> bool {
    forall|i: int| 0 <= i < t.len() ==> is_ws(#[trigger] t[i])
}

/// A code span drops the one space it carries in from each end, unless what
/// is left would be blank.
pub open spec fn trim_code_span_spec(c: Seq<char>) -> Seq<char> {
    if c.len() >= 2 && c[0] == ' ' && c[c.len() - 1] == ' ' && !all_ws(
        c.subrange(1, c.len() - 1),
    ) {
        c.subrange(1, c.len() - 1)
    } else {
        c
    }
}

/// No backtick in `s[from..to]`.
pub open spec fn no_backtick(s: Seq<char>, from: int, to: int) -> bool {
    forall|i: int| from <= i < to ==> s[i] != '`'
}

/// Three or more backticks starting a line, with no backtick after them on
/// that line, open a fenced block rather than a code span.
pub open spec fn opens_fence_spec(s: Seq<char>, at: int) -> bool {
    let width = backtick_run_spec(s, at);
    at_line_start_spec(s, at) && width >= 3 && no_backtick(s, at + width, line_end_spec(s, at))
}

/// Scan the lines of a fenced block opened with `width` backticks, whose
/// content starts at `start`, from the line beginning at `line`. Yields the
/// content copied and where to resume.
pub open spec fn fence_scan_spec(s: Seq<char>, start: int, line: int, width: nat) -> (
    Seq<char>,
    int,
)
    decreases s.len() - line,
{
    if line < 0 || line >= s.len() {
        (s.subrange(start, s.len() as int), s.len() as int)
    } else {
        let run = backtick_run_spec(s, line);
        let ends = line_end_spec(s, line);
        if run >= width && all_ws(s.subrange(line + run, ends)) {
            (s.subrange(start, line), if ends < s.len() {
                ends + 1
            } else {
                ends
            })
        } else {
            if ends < s.len() {
                proof {
                    lemma_line_end_bounds(s, line);
                }
                fence_scan_spec(s, start, ends + 1, width)
            } else {
                (s.subrange(start, s.len() as int), s.len() as int)
            }
        }
    }
}

/// A fenced block's content, without its fences or the language tag riding
/// on the opening one, and where to resume after it.
pub open spec fn fenced_block_spec(s: Seq<char>, open: int) -> (Seq<char>, int) {
    let width = backtick_run_spec(s, open);
    let first = line_end_spec(s, open + width);
    let start = if first < s.len() {
        first + 1
    } else {
        first
    };
    fence_scan_spec(s, start, start, width)
}


/// Past the scheme of an autolink: letters, digits, `+`, `-` and `.`.
pub open spec fn scheme_end_spec(s: Seq<char>, at: int) -> int
    decreases s.len() - at,
{
    if 0 <= at < s.len() && (is_alnum(s[at]) || s[at] == '+' || s[at] == '-' || s[at] == '.') {
        scheme_end_spec(s, at + 1)
    } else {
        at
    }
}

/// The `>` that ends an autolink body starting at `at`, if no space or `<`
/// comes first.
pub open spec fn autolink_body_spec(s: Seq<char>, at: int) -> Option<int>
    decreases s.len() - at,
{
    if at < 0 || at >= s.len() {
        None
    } else if s[at] == '>' {
        Some(at)
    } else if is_ascii_ws(s[at]) || s[at] == '<' {
        None
    } else {
        autolink_body_spec(s, at + 1)
    }
}

/// Where the autolink opened at `open` closes: a scheme of two or more
/// characters starting with a letter, a `:`, then anything but a space or
/// another angle bracket up to `>`.
pub open spec fn autolink_end_spec(s: Seq<char>, open: int) -> Option<int> {
    let first = open + 1;
    if !(0 <= first < s.len() && is_alpha(s[first])) {
        None
    } else {
        let at = scheme_end_spec(s, first + 1);
        if !(at < s.len() && s[at] == ':') || at == first + 1 {
            None
        } else {
            autolink_body_spec(s, at)
        }
    }
}

/// Whether `s[from..to]` holds nothing but `-`, space and tab.
pub open spec fn break_chars(s: Seq<char>, from: int, to: int) -> bool {
    forall|i: int| from <= i < to ==> (s[i] == '-' || s[i] == ' ' || s[i] == '\t')
}

/// How many `-` appear in `s[from..to]`.
pub open spec fn dash_count(s: Seq<char>, from: int, to: int) -> nat
    decreases to - from,
{
    if from >= to {
        0
    } else {
        dash_count(s, from, to - 1) + if s[to - 1] == '-' {
            1nat
        } else {
            0nat
        }
    }
}

/// Where a thematic break (a line of three or more `-`, spaces allowed)
/// starting at `at` ends, past the blank line that follows it.
pub open spec fn thematic_break_end_spec(s: Seq<char>, at: int) -> Option<int> {
    let end = line_end_spec(s, at);
    if !break_chars(s, at, end) || dash_count(s, at, end) < 3 {
        None
    } else {
        let after = if end < s.len() {
            end + 1
        } else {
            end
        };
        Some(
            if after < s.len() && s[after] == '\n' {
                after + 1
            } else {
                after
            },
        )
    }
}

/// Whether the delimiter at `at` sits inside a word.
pub open spec fn intraword_spec(s: Seq<char>, at: int) -> bool {
    at >= 1 && is_alnum(s[at - 1]) && at + 1 < s.len() && is_alnum(s[at + 1])
}

/// Whether the `_` at `at` can open emphasis: something other than space
/// follows it, and it does not sit inside a word.
pub open spec fn opens_emphasis_spec(s: Seq<char>, at: int) -> bool {
    at + 1 < s.len() && !is_ascii_ws(s[at + 1]) && !intraword_spec(s, at)
}

/// The first unescaped `_` at or after `at` on this line that can close
/// emphasis.
pub open spec fn emphasis_scan_spec(s: Seq<char>, at: int) -> Option<int>
    decreases s.len() - at,
{
    if at < 1 || at >= s.len() || s[at] == '\n' {
        None
    } else if s[at] == '_' && s[at - 1] != '\\' && !is_ascii_ws(s[at - 1]) && !intraword_spec(
        s,
        at,
    ) {
        Some(at)
    } else {
        emphasis_scan_spec(s, at + 1)
    }
}

/// Where the emphasis opened by the `_` at `open` closes on its line.
pub open spec fn emphasis_span_spec(s: Seq<char>, open: int) -> Option<int> {
    emphasis_scan_spec(s, open + 2)
}

/// What a scan for `[text](target)` found.
pub enum LinkScan {
    /// The text is `[text_start, text_end)`, the target
    /// `[text_end + 2, target_end)`, and the link ends before `after`.
    Found { text_start: usize, text_end: usize, target_end: usize, after: usize },
    /// A `]` closed the text but no balanced `(...)` followed.
    NotALink,
    /// No unescaped `]` appears after the `[`.
    Unclosed,
}

/// The first unescaped `]` at or after `at`.
pub open spec fn bracket_close_spec(s: Seq<char>, at: int) -> Option<int>
    decreases s.len() - at,
{
    if at < 1 || at >= s.len() {
        None
    } else if s[at] == ']' && s[at - 1] != '\\' {
        Some(at)
    } else {
        bracket_close_spec(s, at + 1)
    }
}

/// The `)` that brings the parenthesis depth from `depth` to zero.
pub open spec fn paren_close_spec(s: Seq<char>, at: int, depth: nat) -> Option<int>
    decreases s.len() - at,
{
    if at < 0 || at >= s.len() {
        None
    } else if s[at] == '(' {
        paren_close_spec(s, at + 1, depth + 1)
    } else if s[at] == ')' {
        if depth <= 1 {
            Some(at)
        } else {
            paren_close_spec(s, at + 1, (depth - 1) as nat)
        }
    } else {
        paren_close_spec(s, at + 1, depth)
    }
}

/// Split `[text](target)` starting at the `[` at `open`; parentheses nested
/// in the target are counted.
pub open spec fn read_link_spec(s: Seq<char>, open: int) -> LinkScan {
    match bracket_close_spec(s, open + 1) {
        None => LinkScan::Unclosed,
        Some(text_end) => if !(text_end + 1 < s.len() && s[text_end + 1] == '(') {
            LinkScan::NotALink
        } else {
            match paren_close_spec(s, text_end + 2, 1) {
                Some(close) => LinkScan::Found {
                    text_start: (open + 1) as usize,
                    text_end: text_end as usize,
                    target_end: close as usize,
                    after: (close + 1) as usize,
                },
                None => LinkScan::NotALink,
            }
        },
    }
}

/// Drop the backslashes that escape ASCII punctuation.
pub open spec fn unescape_spec(t: Seq<char>) -> Seq<char>
    decreases t.len(),
{
    if t.len() == 0 {
        t
    } else if t.len() >= 2 && t[0] == '\\' && is_punct(t[1]) {
        seq![t[1]] + unescape_spec(t.subrange(2, t.len() as int))
    } else {
        seq![t[0]] + unescape_spec(t.subrange(1, t.len() as int))
    }
}

/// What a link or image starting at `at` contributes: an image becomes its
/// alt text, a link keeps its text and gains its target in parentheses.
pub open spec fn link_text_spec(s: Seq<char>, at: int) -> (Seq<char>, LinkScan) {
    let image = s[at] == '!';
    if image && !(at + 1 < s.len() && s[at + 1] == '[') {
        (Seq::empty(), LinkScan::NotALink)
    } else {
        let scan = read_link_spec(
            s,
            if image {
                at + 1
            } else {
                at
            },
        );
        match scan {
            LinkScan::Found { text_start, text_end, target_end, after } => {
                let text = unescape_spec(s.subrange(text_start as int, text_end as int));
                let target = s.subrange(text_end + 2, target_end as int);
                (if !image && target.len() > 0 {
                    text + seq![' ', '('] + target + seq![')']
                } else {
                    text
                }, scan)
            },
            _ => (Seq::empty(), scan),
        }
    }
}


/// Lengths that leave room for the few positions past the end the scan names.
pub open spec fn fits(s: Seq<char>) -> bool {
    s.len() + 4 <= usize::MAX
}

/// Whether `c` occurs in `s[from..]`.
pub open spec fn occurs_from(s: Seq<char>, from: int, c: char) -> bool {
    exists|i: int| from <= i < s.len() && s[i] == c
}

/// The scan state: which delimiters can still close somewhere ahead, the
/// position before which no emphasis opener is worth trying again, and the
/// pending emphasis closer.
#[derive(Clone, Copy)]
pub struct Scan {
    pub brackets: bool,
    pub autolinks: bool,
    pub code: bool,
    pub dead_until: usize,
    pub close: Option<usize>,
}

/// One step of the conversion at `at`: what is written, where the scan
/// resumes, and the new scan state.
pub open spec fn step_spec(s: Seq<char>, at: int, st: Scan) -> (Seq<char>, int, Scan) {
    let c = s[at];
    let one = seq![c];
    if c == '<' && st.autolinks {
        match autolink_end_spec(s, at) {
            Some(close) => (s.subrange(at + 1, close), close + 1, st),
            None => (one, at + 1, if !occurs_from(s, at, '>') {
                Scan { autolinks: false, ..st }
            } else {
                st
            }),
        }
    } else if c == '>' && at_line_start_spec(s, at) {
        (Seq::empty(), if at + 1 < s.len() && s[at + 1] == ' ' {
            at + 2
        } else {
            at + 1
        }, st)
    } else if c == '-' && at_line_start_spec(s, at) && thematic_break_end_spec(s, at) is Some {
        (Seq::empty(), thematic_break_end_spec(s, at)->0, st)
    } else if c == '\\' && at + 1 < s.len() && is_punct(s[at + 1]) {
        (seq![s[at + 1]], at + 2, st)
    } else if c == '`' && opens_fence_spec(s, at) {
        let (content, resume) = fenced_block_spec(s, at);
        (content, resume, st)
    } else if c == '`' && st.code {
        let width = backtick_run_spec(s, at);
        match closing_run_spec(s, at + width, width) {
            Some(close) => (trim_code_span_spec(s.subrange(at + width, close)), close + width, st),
            None => (one, at + 1, Scan { code: false, ..st }),
        }
    } else if (c == '~' || c == '*') && at + 1 < s.len() && s[at + 1] == c {
        (Seq::empty(), at + 2, st)
    } else if c == '_' {
        if st.close == Some(at as usize) {
            (Seq::empty(), at + 1, Scan { close: None, ..st })
        } else if st.close is None && opens_emphasis_spec(s, at) && at >= st.dead_until {
            match emphasis_span_spec(s, at) {
                Some(close) => (Seq::empty(), at + 1, Scan { close: Some(close as usize), ..st }),
                None => (one, at + 1, Scan { dead_until: line_end_spec(s, at) as usize, ..st }),
            }
        } else {
            (one, at + 1, st)
        }
    } else if (c == '!' || c == '[') && st.brackets {
        let (text, scan) = link_text_spec(s, at);
        match scan {
            LinkScan::Found { after, .. } => (text, after as int, st),
            LinkScan::Unclosed => (one, at + 1, Scan { brackets: false, ..st }),
            LinkScan::NotALink => (one, at + 1, st),
        }
    } else {
        (one, at + 1, st)
    }
}

/// The plain text of `s` from `at` on, in scan state `st`.
pub open spec fn plain_from(s: Seq<char>, at: int, st: Scan) -> Seq<char>
    decreases s.len() - at,
{
    if at < 0 || at >= s.len() {
        Seq::empty()
    } else {
        let (emitted, next, st2) = step_spec(s, at, st);
        if at < next <= s.len() {
            emitted + plain_from(s, next, st2)
        } else {
            emitted
        }
    }
}

/// The scan state at the start of a document: every delimiter may still close.
pub open spec fn initial_scan() -> Scan {
    Scan { brackets: true, autolinks: true, code: true, dead_until: 0, close: None }
}

/// The plain-text reading of hover Markdown `markdown`.
pub open spec fn plain_text_spec(markdown: Seq<char>) -> Seq<char> {
    plain_from(markdown, 0, initial_scan())
}


fn at_line_start(v: &Vec<char>, at: usize) -> (r: bool)
    requires
        fits(v@),
        at <= v@.len(),
    ensures
        r == at_line_start_spec(v@, at as int),
{
    at == 0 || v[at - 1] == '\n'
}

fn line_end(v: &Vec<char>, from: usize) -> (r: usize)
    requires
        fits(v@),
        from <= v@.len(),
    ensures
        r as int == line_end_spec(v@, from as int),
        from <= r <= v@.len(),
{
    let mut i = from;
    while i < v.len() && v[i] != '\n'
        invariant
            fits(v@),
            from <= i <= v@.len(),
            line_end_spec(v@, from as int) == line_end_spec(v@, i as int),
        decreases v@.len() - i,
    {
        i = i + 1;
    }
    i
}

fn backtick_run(v: &Vec<char>, at: usize) -> (r: usize)
    requires
        fits(v@),
        at <= v@.len(),
    ensures
        r == backtick_run_spec(v@, at as int),
        at + r <= v@.len(),
{
    let mut i = at;
    while i < v.len() && v[i] == '`'
        invariant
            fits(v@),
            at <= i <= v@.len(),
            backtick_run_spec(v@, at as int) == (i - at) + backtick_run_spec(v@, i as int),
        decreases v@.len() - i,
    {
        i = i + 1;
    }
    i - at
}

fn closing_run(v: &Vec<char>, from: usize, width: usize) -> (r: Option<usize>)
    requires
        fits(v@),
        from <= v@.len(),
    ensures
        r == match closing_run_spec(v@, from as int, width as nat) {
            Some(i) => Some(i as usize),
            None => None::<usize>,
        },
        r matches Some(i) ==> from <= i && i + width <= v@.len(),
        closing_run_spec(v@, from as int, width as nat) matches Some(i) ==> from <= i && i + width
            <= v@.len(),
{
    let mut at = from;
    while at < v.len()
        invariant
            fits(v@),
            from <= at <= v@.len(),
            closing_run_spec(v@, from as int, width as nat) == closing_run_spec(
                v@,
                at as int,
                width as nat,
            ),
        decreases v@.len() - at,
    {
        if v[at] == '`' {
            let run = backtick_run(v, at);
            proof {
                lemma_backtick_run_bounds(v@, at as int);
            }
            if run == width {
                return Some(at);
            }
            at = at + run;
        } else {
            at = at + 1;
        }
    }
    None
}

fn all_ws_range(v: &Vec<char>, from: usize, to: usize) -> (r: bool)
    requires
        fits(v@),
        from <= to <= v@.len(),
    ensures
        r == all_ws(v@.subrange(from as int, to as int)),
{
    let mut i = from;
    while i < to
        invariant
            fits(v@),
            from <= i <= to <= v@.len(),
            forall|k: int| from <= k < i ==> is_ws(v@[k]),
        decreases to - i,
    {
        if !ws(v[i]) {
            assert(!is_ws(v@.subrange(from as int, to as int)[i - from]));
            return false;
        }
        i = i + 1;
    }
    assert forall|k: int| 0 <= k < to - from implies is_ws(
        #[trigger] v@.subrange(from as int, to as int)[k],
    ) by {
        assert(v@.subrange(from as int, to as int)[k] == v@[from + k]);
    }
    true
}

/// Append the code span content `v[from..to]`, trimmed as a code span is.
fn push_code_span(out: &mut String, v: &Vec<char>, from: usize, to: usize)
    requires
        fits(v@),
        from <= to <= v@.len(),
    ensures
        final(out)@ == old(out)@ + trim_code_span_spec(v@.subrange(from as int, to as int)),
{
    let ghost c = v@.subrange(from as int, to as int);
    if to - from >= 2 && v[from] == ' ' && v[to - 1] == ' ' && !all_ws_range(v, from + 1, to - 1) {
        assert(c.subrange(1, c.len() - 1) == v@.subrange(from + 1, to - 1));
        push_range(out, v, from + 1, to - 1);
    } else {
        proof {
            if c.len() >= 2 && c[0] == ' ' && c[c.len() - 1] == ' ' {
                assert(c.subrange(1, c.len() - 1) == v@.subrange(from + 1, to - 1));
            }
        }
        push_range(out, v, from, to);
    }
}

fn no_backtick_range(v: &Vec<char>, from: usize, to: usize) -> (r: bool)
    requires
        fits(v@),
        from <= to <= v@.len(),
    ensures
        r == no_backtick(v@, from as int, to as int),
{
    let mut i = from;
    while i < to
        invariant
            fits(v@),
            from <= i <= to <= v@.len(),
            no_backtick(v@, from as int, i as int),
        decreases to - i,
    {
        if v[i] == '`' {
            return false;
        }
        i = i + 1;
    }
    true
}

fn opens_fence(v: &Vec<char>, at: usize) -> (r: bool)
    requires
        fits(v@),
        at < v@.len(),
    ensures
        r == opens_fence_spec(v@, at as int),
{
    let width = backtick_run(v, at);
    if !(at_line_start(v, at) && width >= 3) {
        return false;
    }
    let end = line_end(v, at);
    proof {
        lemma_backtick_run_bounds(v@, at as int);
        lemma_line_end_bounds(v@, at as int);
        if at + width > end {
            assert(v@[end as int] == '`');
        }
    }
    no_backtick_range(v, at + width, end)
}

/// Append a fenced block's content and return where to resume.
fn copy_fenced_block(out: &mut String, v: &Vec<char>, open: usize) -> (r: usize)
    requires
        fits(v@),
        open < v@.len(),
    ensures
        final(out)@ == old(out)@ + fenced_block_spec(v@, open as int).0,
        r as int == fenced_block_spec(v@, open as int).1,
{
    let width = backtick_run(v, open);
    let first = line_end(v, open + width);
    let start = if first < v.len() {
        first + 1
    } else {
        first
    };
    let mut line = start;
    while line < v.len()
        invariant
            fits(v@),
            start <= line <= v@.len(),
            out@ == old(out)@,
            fenced_block_spec(v@, open as int) == fence_scan_spec(
                v@,
                start as int,
                line as int,
                width as nat,
            ),
        decreases v@.len() - line,
    {
        let run = backtick_run(v, line);
        let ends = line_end(v, line);
        proof {
            lemma_backtick_run_bounds(v@, line as int);
            lemma_line_end_bounds(v@, line as int);
            if line + run > ends {
                assert(v@[ends as int] == '`');
            }
        }
        if run >= width && all_ws_range(v, line + run, ends) {
            push_range(out, v, start, line);
            return if ends < v.len() {
                ends + 1
            } else {
                ends
            };
        }
        if ends >= v.len() {
            push_range(out, v, start, v.len());
            return v.len();
        }
        line = ends + 1;
    }
    push_range(out, v, start, v.len());
    v.len()
}

fn autolink_end(v: &Vec<char>, open: usize) -> (r: Option<usize>)
    requires
        fits(v@),
        open < v@.len(),
    ensures
        r == match autolink_end_spec(v@, open as int) {
            Some(i) => Some(i as usize),
            None => None::<usize>,
        },
        r matches Some(i) ==> open < i < v@.len(),
        autolink_end_spec(v@, open as int) matches Some(i) ==> open < i < v@.len(),
{
    let first = open + 1;
    if !(first < v.len() && alpha(v[first])) {
        return None;
    }
    let mut at = first + 1;
    while at < v.len() && (alnum(v[at]) || v[at] == '+' || v[at] == '-' || v[at] == '.')
        invariant
            fits(v@),
            first + 1 <= at <= v@.len(),
            scheme_end_spec(v@, first + 1) == scheme_end_spec(v@, at as int),
        decreases v@.len() - at,
    {
        at = at + 1;
    }
    if !(at < v.len() && v[at] == ':') || at == first + 1 {
        return None;
    }
    let colon = at;
    while at < v.len()
        invariant
            fits(v@),
            colon <= at <= v@.len(),
            open < colon,
            autolink_end_spec(v@, open as int) == autolink_body_spec(v@, colon as int),
            autolink_body_spec(v@, colon as int) == autolink_body_spec(v@, at as int),
        decreases v@.len() - at,
    {
        if v[at] == '>' {
            return Some(at);
        }
        if ascii_ws(v[at]) || v[at] == '<' {
            return None;
        }
        at = at + 1;
    }
    None
}

fn thematic_break_end(v: &Vec<char>, at: usize) -> (r: Option<usize>)
    requires
        fits(v@),
        at <= v@.len(),
    ensures
        r == match thematic_break_end_spec(v@, at as int) {
            Some(i) => Some(i as usize),
            None => None::<usize>,
        },
        r matches Some(i) ==> at < i <= v@.len(),
        thematic_break_end_spec(v@, at as int) matches Some(i) ==> at < i <= v@.len(),
{
    let end = line_end(v, at);
    let mut dashes: usize = 0;
    let mut i = at;
    while i < end
        invariant
            fits(v@),
            at <= i <= end <= v@.len(),
            end as int == line_end_spec(v@, at as int),
            break_chars(v@, at as int, i as int),
            dashes == dash_count(v@, at as int, i as int),
            dashes <= i - at,
        decreases end - i,
    {
        if v[i] == '-' {
            dashes = dashes + 1;
        } else if v[i] != ' ' && v[i] != '\t' {
            assert(!break_chars(v@, at as int, end as int)) by {
                assert(!(v@[i as int] == '-' || v@[i as int] == ' ' || v@[i as int] == '\t'));
            }
            assert(thematic_break_end_spec(v@, at as int) is None);
            return None;
        }
        i = i + 1;
    }
    if dashes < 3 {
        return None;
    }
    let mut after = if end < v.len() {
        end + 1
    } else {
        end
    };
    if after < v.len() && v[after] == '\n' {
        after = after + 1;
    }
    Some(after)
}

fn intraword(v: &Vec<char>, at: usize) -> (r: bool)
    requires
        fits(v@),
        at < v@.len(),
    ensures
        r == intraword_spec(v@, at as int),
{
    at >= 1 && alnum(v[at - 1]) && at + 1 < v.len() && alnum(v[at + 1])
}

fn opens_emphasis(v: &Vec<char>, at: usize) -> (r: bool)
    requires
        fits(v@),
        at < v@.len(),
    ensures
        r == opens_emphasis_spec(v@, at as int),
{
    at + 1 < v.len() && !ascii_ws(v[at + 1]) && !intraword(v, at)
}

fn emphasis_span(v: &Vec<char>, open: usize) -> (r: Option<usize>)
    requires
        fits(v@),
        open < v@.len(),
    ensures
        r == match emphasis_span_spec(v@, open as int) {
            Some(i) => Some(i as usize),
            None => None::<usize>,
        },
        r matches Some(i) ==> open < i < v@.len(),
        emphasis_span_spec(v@, open as int) matches Some(i) ==> open < i < v@.len(),
{
    let mut at = open + 2;
    while at < v.len() && v[at] != '\n'
        invariant
            fits(v@),
            open + 2 <= at,
            open < v@.len(),
            emphasis_span_spec(v@, open as int) == emphasis_scan_spec(v@, at as int),
        decreases v@.len() - at,
    {
        if v[at] == '_' && v[at - 1] != '\\' && !ascii_ws(v[at - 1]) && !intraword(v, at) {
            return Some(at);
        }
        at = at + 1;
    }
    None
}

fn read_link(v: &Vec<char>, open: usize) -> (r: LinkScan)
    requires
        fits(v@),
        open < v@.len(),
    ensures
        r == read_link_spec(v@, open as int),
        r matches LinkScan::Found { text_start, text_end, target_end, after } ==> open
            < text_start <= text_end && text_end + 2 <= target_end && after == target_end + 1
            && target_end < v@.len(),
{
    let mut text_end = open + 1;
    while text_end < v.len() && !(v[text_end] == ']' && v[text_end - 1] != '\\')
        invariant
            fits(v@),
            open + 1 <= text_end,
            open < v@.len(),
            bracket_close_spec(v@, open + 1) == bracket_close_spec(v@, text_end as int),
        decreases v@.len() - text_end,
    {
        text_end = text_end + 1;
    }
    if text_end >= v.len() {
        return LinkScan::Unclosed;
    }
    if !(text_end + 1 < v.len() && v[text_end + 1] == '(') {
        return LinkScan::NotALink;
    }
    let mut depth: usize = 1;
    let mut at = text_end + 2;
    while at < v.len()
        invariant
            fits(v@),
            text_end + 2 <= at <= v@.len(),
            open + 1 <= text_end,
            1 <= depth <= at - text_end,
            bracket_close_spec(v@, open + 1) == Some(text_end as int),
            text_end + 1 < v@.len(),
            v@[text_end + 1] == '(',
            paren_close_spec(v@, text_end + 2, 1) == paren_close_spec(
                v@,
                at as int,
                depth as nat,
            ),
        decreases v@.len() - at,
    {
        if v[at] == '(' {
            depth = depth + 1;
        } else if v[at] == ')' {
            if depth <= 1 {
                return LinkScan::Found {
                    text_start: open + 1,
                    text_end,
                    target_end: at,
                    after: at + 1,
                };
            }
            depth = depth - 1;
        }
        at = at + 1;
    }
    LinkScan::NotALink
}

fn push_unescaped(out: &mut String, v: &Vec<char>, from: usize, to: usize)
    requires
        fits(v@),
        from <= to <= v@.len(),
    ensures
        final(out)@ == old(out)@ + unescape_spec(v@.subrange(from as int, to as int)),
{
    let mut i = from;
    while i < to
        invariant
            fits(v@),
            from <= i <= to <= v@.len(),
            out@ + unescape_spec(v@.subrange(i as int, to as int)) == old(out)@ + unescape_spec(
                v@.subrange(from as int, to as int),
            ),
        decreases to - i,
    {
        let ghost t = v@.subrange(i as int, to as int);
        if i + 1 < to && v[i] == '\\' && punct(v[i + 1]) {
            assert(t.subrange(2, t.len() as int) == v@.subrange(i + 2, to as int));
            push_char(out, v[i + 1]);
            i = i + 2;
        } else {
            assert(t.subrange(1, t.len() as int) == v@.subrange(i + 1, to as int));
            push_char(out, v[i]);
            i = i + 1;
        }
    }
    assert(v@.subrange(to as int, to as int).len() == 0);
}

/// Append what the link or image at `at` contributes, and report the scan.
fn copy_link(out: &mut String, v: &Vec<char>, at: usize) -> (r: LinkScan)
    requires
        fits(v@),
        at < v@.len(),
    ensures
        final(out)@ == old(out)@ + link_text_spec(v@, at as int).0,
        r == link_text_spec(v@, at as int).1,
        r matches LinkScan::Found { after, .. } ==> at < after <= v@.len(),
{
    let image = v[at] == '!';
    if image && !(at + 1 < v.len() && v[at + 1] == '[') {
        assert(old(out)@ + Seq::<char>::empty() == old(out)@);
        return LinkScan::NotALink;
    }
    let scan = read_link(
        v,
        if image {
            at + 1
        } else {
            at
        },
    );
    match scan {
        LinkScan::Found { text_start, text_end, target_end, after } => {
            push_unescaped(out, v, text_start, text_end);
            if !image && target_end > text_end + 2 {
                push_char(out, ' ');
                push_char(out, '(');
                push_range(out, v, text_end + 2, target_end);
                push_char(out, ')');
            }
        },
        _ => {
            assert(old(out)@ + Seq::<char>::empty() == old(out)@);
        },
    }
    scan
}


fn occurs(v: &Vec<char>, from: usize, c: char) -> (r: bool)
    requires
        fits(v@),
        from <= v@.len(),
    ensures
        r == occurs_from(v@, from as int, c),
{
    let mut i = from;
    while i < v.len()
        invariant
            fits(v@),
            from <= i <= v@.len(),
            forall|k: int| from <= k < i ==> v@[k] != c,
        decreases v@.len() - i,
    {
        if v[i] == c {
            return true;
        }
        i = i + 1;
    }
    false
}

/// One step of the conversion at `at`.
fn step(out: &mut String, v: &Vec<char>, at: usize, st: Scan) -> (r: (usize, Scan))
    requires
        fits(v@),
        at < v@.len(),
    ensures
        final(out)@ == old(out)@ + step_spec(v@, at as int, st).0,
        r.0 as int == step_spec(v@, at as int, st).1,
        r.1 == step_spec(v@, at as int, st).2,
        at < r.0 <= v@.len(),
{
    let c = v[at];
    if c == '<' && st.autolinks {
        match autolink_end(v, at) {
            Some(close) => {
                push_range(out, v, at + 1, close);
                return (close + 1, st);
            },
            None => {
                push_char(out, c);
                let st2 = if !occurs(v, at, '>') {
                    Scan { autolinks: false, ..st }
                } else {
                    st
                };
                return (at + 1, st2);
            },
        }
    }
    if c == '>' && at_line_start(v, at) {
        assert(old(out)@ + Seq::<char>::empty() == old(out)@);
        return (if at + 1 < v.len() && v[at + 1] == ' ' {
            at + 2
        } else {
            at + 1
        }, st);
    }
    if c == '-' && at_line_start(v, at) {
        if let Some(after) = thematic_break_end(v, at) {
            assert(old(out)@ + Seq::<char>::empty() == old(out)@);
            return (after, st);
        }
    }
    if c == '\\' && at + 1 < v.len() && punct(v[at + 1]) {
        push_char(out, v[at + 1]);
        return (at + 2, st);
    }
    if c == '`' && opens_fence(v, at) {
        let resume = copy_fenced_block(out, v, at);
        proof {
            let width = backtick_run_spec(v@, at as int);
            lemma_backtick_run_bounds(v@, at as int);
            lemma_line_end_bounds(v@, at + width);
            lemma_fence_scan_bounds(
                v@,
                fenced_block_spec(v@, at as int).1,
                at as int,
                width,
            );
        }
        return (resume, st);
    }
    if c == '`' && st.code {
        let width = backtick_run(v, at);
        match closing_run(v, at + width, width) {
            Some(close) => {
                push_code_span(out, v, at + width, close);
                return (close + width, st);
            },
            None => {
                push_char(out, c);
                return (at + 1, Scan { code: false, ..st });
            },
        }
    }
    if (c == '~' || c == '*') && at + 1 < v.len() && v[at + 1] == c {
        assert(old(out)@ + Seq::<char>::empty() == old(out)@);
        return (at + 2, st);
    }
    if c == '_' {
        if st.close == Some(at) {
            assert(old(out)@ + Seq::<char>::empty() == old(out)@);
            return (at + 1, Scan { close: None, ..st });
        }
        if st.close.is_none() && opens_emphasis(v, at) && at >= st.dead_until {
            match emphasis_span(v, at) {
                Some(close) => {
                    assert(old(out)@ + Seq::<char>::empty() == old(out)@);
                    return (at + 1, Scan { close: Some(close), ..st });
                },
                None => {
                    push_char(out, c);
                    let end = line_end(v, at);
                    return (at + 1, Scan { dead_until: end, ..st });
                },
            }
        }
        push_char(out, c);
        return (at + 1, st);
    }
    if (c == '!' || c == '[') && st.brackets {
        let scan = copy_link(out, v, at);
        match scan {
            LinkScan::Found { after, .. } => {
                return (after, st);
            },
            LinkScan::Unclosed => {
                push_char(out, c);
                return (at + 1, Scan { brackets: false, ..st });
            },
            LinkScan::NotALink => {
                push_char(out, c);
                return (at + 1, st);
            },
        }
    }
    push_char(out, c);
    (at + 1, st)
}

/// Render hover Markdown as readable plain text.
///
/// Code spans and fenced blocks carry their content through literally;
/// emphasis, strikethrough and strong markers are dropped only when paired
/// or doubled; links keep their text and gain their target in parentheses,
/// images become their alt text; block-quote markers and the thematic break
/// between definitions are dropped; a backslash before ASCII punctuation is
/// unwrapped. Every delimiter that searches for a partner records a failed
/// search, so the conversion stays linear in hostile input.
pub fn to_plain_text(markdown: &str) -> (out: String)
    requires
        fits(markdown@),
    ensures
        out@ == plain_text_spec(markdown@),
{
    let v = chars_of(markdown);
    let mut out = String::new();
    let mut at: usize = 0;
    let mut st = Scan { brackets: true, autolinks: true, code: true, dead_until: 0, close: None };
    while at < v.len()
        invariant
            fits(v@),
            v@ == markdown@,
            at <= v@.len(),
            out@ + plain_from(v@, at as int, st) == plain_text_spec(v@),
        decreases v@.len() - at,
    {
        let ghost before = out@;
        let (next, st2) = step(&mut out, &v, at, st);
        proof {
            assert(before + plain_from(v@, at as int, st) == before + (step_spec(
                v@,
                at as int,
                st,
            ).0 + plain_from(v@, next as int, st2)));
        }
        at = next;
        st = st2;
    }
    assert(out@ + Seq::<char>::empty() == out@);
    out
}

} // verus!
