//! Presentation-only hover preferences. Compatibility storage and diagnostics
//! are independent of them.

use vstd::prelude::*;
use crate::chapter::strs;
use crate::text::str_eq;

verus! {

/// Independently selectable hover blocks, in their normal display order.
#[derive(Debug, Clone, Copy, PartialEq, Eq, Structural)]
pub enum Section {
    Description,
    Status,
    Values,
    Baseline,
    Discouraged,
    Browsers,
    BrowserDetails,
    WebFeaturesSupport,
    Sources,
    Links,
}

/// Individual fields within the browser details section.
#[derive(Debug, Clone, Copy, PartialEq, Eq, Structural)]
pub enum BrowserDetail {
    Notes,
    PartialImplementation,
    Prefix,
    AlternativeName,
    Flags,
    VersionRemoved,
    VersionLast,
    ImplementationLinks,
}

/// Settings under `svg.hover`. Browser ids are the identifiers BCD publishes.
pub struct HoverSettings {
    pub browsers: Vec<String>,
    pub sections: Vec<Section>,
    pub browser_details: Vec<BrowserDetail>,
    pub browser_history: bool,
}

/// The browsers shown when nothing else is configured.
pub open spec fn default_browser_ids() -> Seq<Seq<char>> {
    seq!["chrome"@, "edge"@, "firefox"@, "safari"@]
}

/// The sections shown when nothing else is configured: every one but the
/// Web Features support line.
pub open spec fn default_sections() -> Seq<Section> {
    seq![
        Section::Description,
        Section::Status,
        Section::Values,
        Section::Baseline,
        Section::Discouraged,
        Section::Browsers,
        Section::BrowserDetails,
        Section::Sources,
        Section::Links,
    ]
}

pub open spec fn default_details() -> Seq<BrowserDetail> {
    seq![
        BrowserDetail::Notes,
        BrowserDetail::PartialImplementation,
        BrowserDetail::Prefix,
        BrowserDetail::AlternativeName,
        BrowserDetail::Flags,
        BrowserDetail::VersionRemoved,
    ]
}

impl Default for HoverSettings {
    fn default() -> (r: Self)
        ensures
            strs(r.browsers@) == default_browser_ids(),
            r.sections@ == default_sections(),
            r.browser_details@ == default_details(),
            !r.browser_history,
    {
        let browsers = vec![
            "chrome".to_owned(),
            "edge".to_owned(),
            "firefox".to_owned(),
            "safari".to_owned(),
        ];
        assert(strs(browsers@) =~= default_browser_ids());
        let sections = vec![
            Section::Description,
            Section::Status,
            Section::Values,
            Section::Baseline,
            Section::Discouraged,
            Section::Browsers,
            Section::BrowserDetails,
            Section::Sources,
            Section::Links,
        ];
        assert(sections@ =~= default_sections());
        let browser_details = vec![
            BrowserDetail::Notes,
            BrowserDetail::PartialImplementation,
            BrowserDetail::Prefix,
            BrowserDetail::AlternativeName,
            BrowserDetail::Flags,
            BrowserDetail::VersionRemoved,
        ];
        assert(browser_details@ =~= default_details());
        HoverSettings { browsers, sections, browser_details, browser_history: false }
    }
}

/// The browser ids with every repeat of an earlier id dropped, order kept.
pub open spec fn first_occurrences(s: Seq<Seq<char>>) -> Seq<Seq<char>>
    decreases s.len(),
{
    if s.len() == 0 {
        Seq::empty()
    } else if s.drop_last().contains(s.last()) {
        first_occurrences(s.drop_last())
    } else {
        first_occurrences(s.drop_last()).push(s.last())
    }
}

/// Dropping repeats keeps exactly the ids that occur.
pub proof fn lemma_first_occurrences_members(s: Seq<Seq<char>>)
    ensures
        forall|x: Seq<char>| first_occurrences(s).contains(x) <==> s.contains(x),
    decreases s.len(),
{
    if s.len() > 0 {
        let p = s.drop_last();
        let l = s.last();
        lemma_first_occurrences_members(p);
        assert(s =~= p.push(l));
        assert forall|x: Seq<char>| first_occurrences(s).contains(x) <==> s.contains(x) by {
            assert(p.push(l).contains(x) <==> (p.contains(x) || x == l)) by {
                if p.push(l).contains(x) {
                    let i = choose|i: int| 0 <= i < p.push(l).len() && p.push(l)[i] == x;
                    if i < p.len() {
                        assert(p[i] == x);
                    }
                }
                if p.contains(x) {
                    let i = choose|i: int| 0 <= i < p.len() && p[i] == x;
                    assert(p.push(l)[i] == x);
                }
                if x == l {
                    assert(p.push(l)[p.len() as int] == x);
                }
            }
            let f = first_occurrences(p);
            assert(f.push(l).contains(x) <==> (f.contains(x) || x == l)) by {
                if f.push(l).contains(x) {
                    let i = choose|i: int| 0 <= i < f.push(l).len() && f.push(l)[i] == x;
                    if i < f.len() {
                        assert(f[i] == x);
                    }
                }
                if f.contains(x) {
                    let i = choose|i: int| 0 <= i < f.len() && f[i] == x;
                    assert(f.push(l)[i] == x);
                }
                if x == l {
                    assert(f.push(l)[f.len() as int] == x);
                }
            }
        }
    }
}

/// Dropping repeats leaves no id twice.
pub proof fn lemma_first_occurrences_distinct(s: Seq<Seq<char>>)
    ensures
        first_occurrences(s).no_duplicates(),
    decreases s.len(),
{
    if s.len() > 0 {
        lemma_first_occurrences_distinct(s.drop_last());
        lemma_first_occurrences_members(s.drop_last());
    }
}

fn contains_str(v: &Vec<String>, x: &String) -> (r: bool)
    ensures
        r == strs(v@).contains(x@),
{
    let mut i: usize = 0;
    while i < v.len()
        invariant
            i <= v@.len(),
            forall|k: int| 0 <= k < i ==> v@[k]@ != x@,
        decreases v@.len() - i,
    {
        if str_eq(v[i].as_str(), x.as_str()) {
            assert(strs(v@)[i as int] == x@);
            return true;
        }
        i = i + 1;
    }
    assert forall|k: int| 0 <= k < strs(v@).len() implies strs(v@)[k] != x@ by {
        assert(strs(v@)[k] == v@[k]@);
    }
    false
}

impl HoverSettings {
    /// Whether `section` is shown.
    pub fn shows(&self, section: Section) -> (r: bool)
        ensures
            r == self.sections@.contains(section),
    {
        let mut i: usize = 0;
        while i < self.sections.len()
            invariant
                i <= self.sections@.len(),
                forall|k: int| 0 <= k < i ==> self.sections@[k] != section,
            decreases self.sections@.len() - i,
        {
            if self.sections[i] == section {
                return true;
            }
            i = i + 1;
        }
        false
    }

    /// Keep each requested browser once, at its first position.
    pub fn drop_repeated_browsers(&mut self)
        ensures
            strs(final(self).browsers@) == first_occurrences(strs(old(self).browsers@)),
            final(self).sections@ == old(self).sections@,
            final(self).browser_details@ == old(self).browser_details@,
            final(self).browser_history == old(self).browser_history,
    {
        let mut kept: Vec<String> = Vec::new();
        let mut i: usize = 0;
        let ghost all = strs(self.browsers@);
        assert(all.take(0) =~= Seq::<Seq<char>>::empty());
        while i < self.browsers.len()
            invariant
                i <= self.browsers@.len(),
                all == strs(self.browsers@),
                strs(kept@) == first_occurrences(all.take(i as int)),
            decreases self.browsers@.len() - i,
        {
            let ghost prefix = all.take(i as int);
            assert(all.take(i + 1).drop_last() =~= prefix);
            assert(all.take(i + 1).last() == self.browsers@[i as int]@);
            proof {
                lemma_first_occurrences_members(prefix);
            }
            if !contains_str(&kept, &self.browsers[i]) {
                kept.push(self.browsers[i].clone());
                assert(strs(kept@) =~= first_occurrences(prefix).push(all[i as int]));
            }
            i = i + 1;
        }
        assert(all.take(all.len() as int) =~= all);
        self.browsers = kept;
    }
}

/// The display label of a BCD browser id; an unknown id labels itself.
pub open spec fn browser_label_spec(id: Seq<char>) -> Seq<char> {
    if id == "chrome"@ {
        "Chrome"@
    } else if id == "chrome_android"@ {
        "Chrome for Android"@
    } else if id == "edge"@ {
        "Edge"@
    } else if id == "firefox"@ {
        "Firefox"@
    } else if id == "firefox_android"@ {
        "Firefox for Android"@
    } else if id == "safari"@ {
        "Safari"@
    } else if id == "safari_ios"@ {
        "Safari on iOS"@
    } else if id == "ie"@ {
        "Internet Explorer"@
    } else if id == "opera"@ {
        "Opera"@
    } else if id == "opera_android"@ {
        "Opera for Android"@
    } else if id == "samsunginternet_android"@ {
        "Samsung Internet for Android"@
    } else if id == "webview_android"@ {
        "Android WebView"@
    } else if id == "webview_ios"@ {
        "iOS WebView"@
    } else if id == "oculus"@ {
        "Meta Quest Browser"@
    } else if id == "bun"@ {
        "Bun"@
    } else if id == "deno"@ {
        "Deno"@
    } else if id == "nodejs"@ {
        "Node.js"@
    } else {
        id
    }
}

/// The display label of a BCD browser id.
pub fn browser_label<'a>(id: &'a str) -> (r: &'a str)
    ensures
        r@ == browser_label_spec(id@),
{
    if str_eq(id, "chrome") {
        "Chrome"
    } else if str_eq(id, "chrome_android") {
        "Chrome for Android"
    } else if str_eq(id, "edge") {
        "Edge"
    } else if str_eq(id, "firefox") {
        "Firefox"
    } else if str_eq(id, "firefox_android") {
        "Firefox for Android"
    } else if str_eq(id, "safari") {
        "Safari"
    } else if str_eq(id, "safari_ios") {
        "Safari on iOS"
    } else if str_eq(id, "ie") {
        "Internet Explorer"
    } else if str_eq(id, "opera") {
        "Opera"
    } else if str_eq(id, "opera_android") {
        "Opera for Android"
    } else if str_eq(id, "samsunginternet_android") {
        "Samsung Internet for Android"
    } else if str_eq(id, "webview_android") {
        "Android WebView"
    } else if str_eq(id, "webview_ios") {
        "iOS WebView"
    } else if str_eq(id, "oculus") {
        "Meta Quest Browser"
    } else if str_eq(id, "bun") {
        "Bun"
    } else if str_eq(id, "deno") {
        "Deno"
    } else if str_eq(id, "nodejs") {
        "Node.js"
    } else {
        id
    }
}

} // verus!
