//! The counters that a run keeps and the summary it reports at the end.

use vstd::prelude::*;
use crate::args::SearchTargets;

verus! {

/// What compiling one item gave.
#[derive(PartialEq, Eq, Structural, Clone, Copy, Debug)]
pub enum Outcome {
    /// A document was processed: whether it gave a page, and how many
    /// snippets were imported from it.
    Document { page: bool, snippets: u32 },
    /// Whether a snippet was imported.
    Snippet(bool),
    /// Whether a page was imported.
    Page(bool),
    /// Whether a course was imported.
    Course(bool),
    /// Whether a universe was imported.
    Universe(bool),
}

/// The counters of a run.
#[derive(PartialEq, Eq, Structural, Clone, Copy, Debug)]
pub struct Stats {
    pub processed_pdfs: u32,
    pub snippets: u32,
    pub pages: u32,
    pub courses: u32,
    pub universes: u32,
}

/// One line of the final summary.
#[derive(PartialEq, Eq, Structural, Clone, Copy, Debug)]
pub enum StatLine {
    ProcessedPdfs(u32),
    ImportedSnippets(u32),
    ImportedPages(u32),
    ImportedCourses(u32),
    ImportedUniverses(u32),
}

pub open spec fn one_if(b: bool) -> int {
    if b { 1 } else { 0 }
}

/// The counters after recording `o`, as unbounded integers in the order
/// processed PDFs, snippets, pages, courses, universes.
pub open spec fn counts_after(s: Stats, o: Outcome) -> (int, int, int, int, int) {
    match o {
        Outcome::Document { page, snippets } => (
            s.processed_pdfs + 1,
            s.snippets + snippets,
            s.pages + one_if(page),
            s.courses as int,
            s.universes as int,
        ),
        Outcome::Snippet(ok) => (
            s.processed_pdfs as int,
            s.snippets + one_if(ok),
            s.pages as int,
            s.courses as int,
            s.universes as int,
        ),
        Outcome::Page(ok) => (
            s.processed_pdfs as int,
            s.snippets as int,
            s.pages + one_if(ok),
            s.courses as int,
            s.universes as int,
        ),
        Outcome::Course(ok) => (
            s.processed_pdfs as int,
            s.snippets as int,
            s.pages as int,
            s.courses + one_if(ok),
            s.universes as int,
        ),
        Outcome::Universe(ok) => (
            s.processed_pdfs as int,
            s.snippets as int,
            s.pages as int,
            s.courses as int,
            s.universes + one_if(ok),
        ),
    }
}

/// Every counter still fits in a `u32` after recording `o`.
pub open spec fn fits_after(s: Stats, o: Outcome) -> bool {
    let c = counts_after(s, o);
    c.0 <= u32::MAX && c.1 <= u32::MAX && c.2 <= u32::MAX && c.3 <= u32::MAX && c.4 <= u32::MAX
}

pub open spec fn stats_of(c: (int, int, int, int, int)) -> Stats {
    Stats {
        processed_pdfs: c.0 as u32,
        snippets: c.1 as u32,
        pages: c.2 as u32,
        courses: c.3 as u32,
        universes: c.4 as u32,
    }
}

/// The lines of the summary: a line for each counter that the run could
/// have changed, in a fixed order.
pub open spec fn report_lines(s: Stats, git: bool, t: SearchTargets) -> Seq<StatLine> {
    let docs = t.latex || t.typst;
    (if git || docs { seq![StatLine::ProcessedPdfs(s.processed_pdfs)] } else { Seq::empty() })
        + (if git || t.snippets || docs {
        seq![StatLine::ImportedSnippets(s.snippets)]
    } else {
        Seq::empty()
    }) + (if git || t.pages || docs { seq![StatLine::ImportedPages(s.pages)] } else { Seq::empty() })
        + (if git || t.courses { seq![StatLine::ImportedCourses(s.courses)] } else { Seq::empty() })
        + (if git || t.universes {
        seq![StatLine::ImportedUniverses(s.universes)]
    } else {
        Seq::empty()
    })
}

/// Recording never lowers a counter, and a document always counts as one
/// processed PDF.
pub proof fn lemma_record_monotone(s: Stats, o: Outcome)
    requires
        fits_after(s, o),
    ensures
        stats_of(counts_after(s, o)).processed_pdfs >= s.processed_pdfs,
        stats_of(counts_after(s, o)).snippets >= s.snippets,
        stats_of(counts_after(s, o)).pages >= s.pages,
        stats_of(counts_after(s, o)).courses >= s.courses,
        stats_of(counts_after(s, o)).universes >= s.universes,
        o is Document ==> stats_of(counts_after(s, o)).processed_pdfs == s.processed_pdfs + 1,
{
}

/// Recording an outcome moves only its own counters: a document adds one
/// processed PDF, its snippets and its page; a snippet, page, course or
/// universe adds one to its own counter when it was imported; every other
/// counter stays as it was.
pub proof fn lemma_record_own_counter(s: Stats, o: Outcome)
    requires
        fits_after(s, o),
    ensures
        ({
            let r = stats_of(counts_after(s, o));
            match o {
                Outcome::Document { page, snippets } => r.processed_pdfs == s.processed_pdfs + 1
                    && r.snippets == s.snippets + snippets && r.pages == s.pages + (if page {
                    1int
                } else {
                    0int
                }) && r.courses == s.courses && r.universes == s.universes,
                Outcome::Snippet(ok) => r.snippets == s.snippets + (if ok { 1int } else { 0int })
                    && r.processed_pdfs == s.processed_pdfs && r.pages == s.pages && r.courses
                    == s.courses && r.universes == s.universes,
                Outcome::Page(ok) => r.pages == s.pages + (if ok { 1int } else { 0int })
                    && r.processed_pdfs == s.processed_pdfs && r.snippets == s.snippets && r.courses
                    == s.courses && r.universes == s.universes,
                Outcome::Course(ok) => r.courses == s.courses + (if ok { 1int } else { 0int })
                    && r.processed_pdfs == s.processed_pdfs && r.snippets == s.snippets && r.pages
                    == s.pages && r.universes == s.universes,
                Outcome::Universe(ok) => r.universes == s.universes + (if ok { 1int } else { 0int })
                    && r.processed_pdfs == s.processed_pdfs && r.snippets == s.snippets && r.pages
                    == s.pages && r.courses == s.courses,
            }
        }),
{
}

/// An outcome can be recorded exactly when the counters it raises have room
/// in a `u32`.
pub proof fn lemma_fits_own_counter(s: Stats, o: Outcome)
    ensures
        fits_after(s, o) == (match o {
            Outcome::Document { page, snippets } => s.processed_pdfs < u32::MAX && s.snippets
                + snippets <= u32::MAX && (page ==> s.pages < u32::MAX),
            Outcome::Snippet(ok) => ok ==> s.snippets < u32::MAX,
            Outcome::Page(ok) => ok ==> s.pages < u32::MAX,
            Outcome::Course(ok) => ok ==> s.courses < u32::MAX,
            Outcome::Universe(ok) => ok ==> s.universes < u32::MAX,
        }),
{
}

/// The summary shows a counter exactly when the run could have changed it,
/// with its value: processed PDFs for git runs and runs over latex or typst;
/// snippets and pages also when their own folder was searched; courses and
/// universes for git runs and their own folder only. Each line comes once.
pub proof fn lemma_report_lines(s: Stats, git: bool, t: SearchTargets)
    ensures
        report_lines(s, git, t).contains(StatLine::ProcessedPdfs(s.processed_pdfs)) <==> (git || t.latex
            || t.typst),
        report_lines(s, git, t).contains(StatLine::ImportedSnippets(s.snippets)) <==> (git
            || t.snippets || t.latex || t.typst),
        report_lines(s, git, t).contains(StatLine::ImportedPages(s.pages)) <==> (git || t.pages
            || t.latex || t.typst),
        report_lines(s, git, t).contains(StatLine::ImportedCourses(s.courses)) <==> (git || t.courses),
        report_lines(s, git, t).contains(StatLine::ImportedUniverses(s.universes)) <==> (git
            || t.universes),
        forall|k: int|
            0 <= k < report_lines(s, git, t).len() ==> (#[trigger] report_lines(s, git, t)[k] matches StatLine::ProcessedPdfs(v) ==> v == s.processed_pdfs)
                && (report_lines(s, git, t)[k] matches StatLine::ImportedSnippets(v) ==> v == s.snippets)
                && (report_lines(s, git, t)[k] matches StatLine::ImportedPages(v) ==> v == s.pages)
                && (report_lines(s, git, t)[k] matches StatLine::ImportedCourses(v) ==> v == s.courses)
                && (report_lines(s, git, t)[k] matches StatLine::ImportedUniverses(v) ==> v == s.universes),
        forall|a: int, b: int|
            0 <= a < b < report_lines(s, git, t).len() ==> line_rank(#[trigger] report_lines(s, git, t)[a])
                < line_rank(#[trigger] report_lines(s, git, t)[b]),
{
    let r = report_lines(s, git, t);
    let docs = t.latex || t.typst;
    let e = Seq::<StatLine>::empty();
    let p1 = if git || docs { seq![StatLine::ProcessedPdfs(s.processed_pdfs)] } else { e };
    let p2 = if git || t.snippets || docs { seq![StatLine::ImportedSnippets(s.snippets)] } else { e };
    let p3 = if git || t.pages || docs { seq![StatLine::ImportedPages(s.pages)] } else { e };
    let p4 = if git || t.courses { seq![StatLine::ImportedCourses(s.courses)] } else { e };
    let p5 = if git || t.universes { seq![StatLine::ImportedUniverses(s.universes)] } else { e };
    assert(r =~= p1 + p2 + p3 + p4 + p5);
    let all = seq![
        StatLine::ProcessedPdfs(s.processed_pdfs),
        StatLine::ImportedSnippets(s.snippets),
        StatLine::ImportedPages(s.pages),
        StatLine::ImportedCourses(s.courses),
        StatLine::ImportedUniverses(s.universes),
    ];
    assert forall|k: int| 0 <= k < r.len() implies (#[trigger] r[k] == all[0] || r[k] == all[1] || r[k]
        == all[2] || r[k] == all[3] || r[k] == all[4]) by {
        let l1 = p1.len() as int;
        let l2 = l1 + p2.len();
        let l3 = l2 + p3.len();
        let l4 = l3 + p4.len();
        if k < l1 { assert(r[k] == all[0]); }
        else if k < l2 { assert(r[k] == all[1]); }
        else if k < l3 { assert(r[k] == all[2]); }
        else if k < l4 { assert(r[k] == all[3]); }
        else { assert(r[k] == all[4]); }
    }
    assert forall|a: int, b: int| 0 <= a < b < r.len() implies line_rank(#[trigger] r[a]) < line_rank(#[trigger] r[b]) by {
        let l1 = p1.len() as int;
        let l2 = l1 + p2.len();
        let l3 = l2 + p3.len();
        let l4 = l3 + p4.len();
        assert(a < l1 ==> r[a] == all[0]);
        assert(l1 <= a < l2 ==> r[a] == all[1]);
        assert(l2 <= a < l3 ==> r[a] == all[2]);
        assert(l3 <= a < l4 ==> r[a] == all[3]);
        assert(l4 <= a ==> r[a] == all[4]);
        assert(b < l1 ==> r[b] == all[0]);
        assert(l1 <= b < l2 ==> r[b] == all[1]);
        assert(l2 <= b < l3 ==> r[b] == all[2]);
        assert(l3 <= b < l4 ==> r[b] == all[3]);
        assert(l4 <= b ==> r[b] == all[4]);
    }
    if git || docs { assert(r[0] == all[0]); }
    if git || t.snippets || docs { assert(r[p1.len() as int] == all[1]); }
    if git || t.pages || docs { assert(r[(p1.len() + p2.len()) as int] == all[2]); }
    if git || t.courses { assert(r[(p1.len() + p2.len() + p3.len()) as int] == all[3]); }
    if git || t.universes { assert(r[(p1.len() + p2.len() + p3.len() + p4.len()) as int] == all[4]); }
}

/// The place of a line in the summary.
pub open spec fn line_rank(l: StatLine) -> int {
    match l {
        StatLine::ProcessedPdfs(_) => 0,
        StatLine::ImportedSnippets(_) => 1,
        StatLine::ImportedPages(_) => 2,
        StatLine::ImportedCourses(_) => 3,
        StatLine::ImportedUniverses(_) => 4,
    }
}

impl Stats {
    /// All counters at zero.
    pub fn new() -> (s: Stats)
        ensures
            s == (Stats { processed_pdfs: 0, snippets: 0, pages: 0, courses: 0, universes: 0 }),
    {
        Stats { processed_pdfs: 0, snippets: 0, pages: 0, courses: 0, universes: 0 }
    }

    /// Whether `o` can be recorded without a counter going past `u32::MAX`.
    pub fn fits(&self, o: Outcome) -> (r: bool)
        ensures
            r == fits_after(*self, o),
    {
        match o {
            Outcome::Document { page, snippets } => {
                self.processed_pdfs < u32::MAX && snippets <= u32::MAX - self.snippets && (!page
                    || self.pages < u32::MAX)
            },
            Outcome::Snippet(ok) => !ok || self.snippets < u32::MAX,
            Outcome::Page(ok) => !ok || self.pages < u32::MAX,
            Outcome::Course(ok) => !ok || self.courses < u32::MAX,
            Outcome::Universe(ok) => !ok || self.universes < u32::MAX,
        }
    }

    /// Adds what one compiled item gave to the counters.
    pub fn record(&mut self, o: Outcome)
        requires
            fits_after(*old(self), o),
        ensures
            *final(self) == stats_of(counts_after(*old(self), o)),
    {
        match o {
            Outcome::Document { page, snippets } => {
                self.processed_pdfs = self.processed_pdfs + 1;
                self.snippets = self.snippets + snippets;
                if page {
                    self.pages = self.pages + 1;
                }
            },
            Outcome::Snippet(ok) => {
                if ok {
                    self.snippets = self.snippets + 1;
                }
            },
            Outcome::Page(ok) => {
                if ok {
                    self.pages = self.pages + 1;
                }
            },
            Outcome::Course(ok) => {
                if ok {
                    self.courses = self.courses + 1;
                }
            },
            Outcome::Universe(ok) => {
                if ok {
                    self.universes = self.universes + 1;
                }
            },
        }
    }

    /// The summary lines to show at the end of a run that used git (`git`)
    /// or searched the folders `t`.
    pub fn report(&self, git: bool, t: &SearchTargets) -> (r: Vec<StatLine>)
        ensures
            r@ == report_lines(*self, git, *t),
    {
        let docs = t.latex || t.typst;
        let mut r: Vec<StatLine> = Vec::new();
        if git || docs {
            r.push(StatLine::ProcessedPdfs(self.processed_pdfs));
        }
        if git || t.snippets || docs {
            r.push(StatLine::ImportedSnippets(self.snippets));
        }
        if git || t.pages || docs {
            r.push(StatLine::ImportedPages(self.pages));
        }
        if git || t.courses {
            r.push(StatLine::ImportedCourses(self.courses));
        }
        if git || t.universes {
            r.push(StatLine::ImportedUniverses(self.universes));
        }
        assert(r@ =~= report_lines(*self, git, *t));
        r
    }
}

impl StatLine {
    /// The label of the line.
    pub fn label(&self) -> (r: &'static str)
        ensures
            r@ == (match *self {
                StatLine::ProcessedPdfs(_) => "Processed PDFs"@,
                StatLine::ImportedSnippets(_) => "Imported snippets"@,
                StatLine::ImportedPages(_) => "Imported pages"@,
                StatLine::ImportedCourses(_) => "Imported courses"@,
                StatLine::ImportedUniverses(_) => "Imported universe"@,
            }),
    {
        match self {
            StatLine::ProcessedPdfs(_) => "Processed PDFs",
            StatLine::ImportedSnippets(_) => "Imported snippets",
            StatLine::ImportedPages(_) => "Imported pages",
            StatLine::ImportedCourses(_) => "Imported courses",
            StatLine::ImportedUniverses(_) => "Imported universe",
        }
    }

    /// The number the line shows.
    pub fn value(&self) -> (r: u32)
        ensures
            r == (match *self {
                StatLine::ProcessedPdfs(v) => v,
                StatLine::ImportedSnippets(v) => v,
                StatLine::ImportedPages(v) => v,
                StatLine::ImportedCourses(v) => v,
                StatLine::ImportedUniverses(v) => v,
            }),
    {
        match self {
            StatLine::ProcessedPdfs(v) => *v,
            StatLine::ImportedSnippets(v) => *v,
            StatLine::ImportedPages(v) => *v,
            StatLine::ImportedCourses(v) => *v,
            StatLine::ImportedUniverses(v) => *v,
        }
    }
}

} // verus!
