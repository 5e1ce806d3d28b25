//! The source folders of a notes repository and the order they are searched.

use vstd::prelude::*;
use crate::args::SearchTargets;
use crate::plan::{JobKind, folder_job};
use crate::text::spells;

verus! {

/// A folder under `source/`.
#[derive(PartialEq, Eq, Structural, Clone, Copy, Debug)]
pub enum SourceFolder {
    Latex,
    Typst,
    Snippets,
    Pages,
    Courses,
    Universes,
}

pub open spec fn folder_name(f: SourceFolder) -> Seq<char> {
    match f {
        SourceFolder::Latex => "latex"@,
        SourceFolder::Typst => "typst"@,
        SourceFolder::Snippets => "snippets"@,
        SourceFolder::Pages => "pages"@,
        SourceFolder::Courses => "courses"@,
        SourceFolder::Universes => "universes"@,
    }
}

pub open spec fn folder_kind(f: SourceFolder) -> JobKind {
    match f {
        SourceFolder::Latex => JobKind::Document,
        SourceFolder::Typst => JobKind::Document,
        SourceFolder::Snippets => JobKind::Snippet,
        SourceFolder::Pages => JobKind::Page,
        SourceFolder::Courses => JobKind::Course,
        SourceFolder::Universes => JobKind::Universe,
    }
}

/// The folders that `t` selects, in the order they are compiled.
pub open spec fn searched(t: SearchTargets) -> Seq<SourceFolder> {
    (if t.latex { seq![SourceFolder::Latex] } else { Seq::empty() }) + (if t.typst {
        seq![SourceFolder::Typst]
    } else {
        Seq::empty()
    }) + (if t.snippets { seq![SourceFolder::Snippets] } else { Seq::empty() }) + (if t.pages {
        seq![SourceFolder::Pages]
    } else {
        Seq::empty()
    }) + (if t.courses { seq![SourceFolder::Courses] } else { Seq::empty() }) + (if t.universes {
        seq![SourceFolder::Universes]
    } else {
        Seq::empty()
    })
}

impl SourceFolder {
    /// The folder's name under `source/` (and under the data folder).
    pub fn name(&self) -> (r: &'static str)
        ensures
            r@ == folder_name(*self),
    {
        match self {
            SourceFolder::Latex => "latex",
            SourceFolder::Typst => "typst",
            SourceFolder::Snippets => "snippets",
            SourceFolder::Pages => "pages",
            SourceFolder::Courses => "courses",
            SourceFolder::Universes => "universes",
        }
    }

    /// What is compiled for an entry of this folder.
    pub fn job_kind(&self) -> (r: JobKind)
        ensures
            r == folder_kind(*self),
    {
        match self {
            SourceFolder::Latex => JobKind::Document,
            SourceFolder::Typst => JobKind::Document,
            SourceFolder::Snippets => JobKind::Snippet,
            SourceFolder::Pages => JobKind::Page,
            SourceFolder::Courses => JobKind::Course,
            SourceFolder::Universes => JobKind::Universe,
        }
    }
}

/// The folders to search, in the order latex, typst, snippets, pages,
/// courses, universes.
pub fn search_folders(t: &SearchTargets) -> (r: Vec<SourceFolder>)
    ensures
        r@ == searched(*t),
{
    let mut r: Vec<SourceFolder> = Vec::new();
    if t.latex {
        r.push(SourceFolder::Latex);
    }
    if t.typst {
        r.push(SourceFolder::Typst);
    }
    if t.snippets {
        r.push(SourceFolder::Snippets);
    }
    if t.pages {
        r.push(SourceFolder::Pages);
    }
    if t.courses {
        r.push(SourceFolder::Courses);
    }
    if t.universes {
        r.push(SourceFolder::Universes);
    }
    assert(r@ =~= searched(*t));
    r
}

/// The place of a folder in the search order.
pub open spec fn folder_rank(f: SourceFolder) -> int {
    match f {
        SourceFolder::Latex => 0,
        SourceFolder::Typst => 1,
        SourceFolder::Snippets => 2,
        SourceFolder::Pages => 3,
        SourceFolder::Courses => 4,
        SourceFolder::Universes => 5,
    }
}

/// Whether the flag of this folder is set in `t`.
pub open spec fn flag_of(t: SearchTargets, f: SourceFolder) -> bool {
    match f {
        SourceFolder::Latex => t.latex,
        SourceFolder::Typst => t.typst,
        SourceFolder::Snippets => t.snippets,
        SourceFolder::Pages => t.pages,
        SourceFolder::Courses => t.courses,
        SourceFolder::Universes => t.universes,
    }
}

/// The folders of `s` come in strictly increasing order, all before `r`.
pub open spec fn ordered_below(s: Seq<SourceFolder>, r: int) -> bool {
    &&& forall|a: int, b: int| 0 <= a < b < s.len() ==> folder_rank(#[trigger] s[a]) < folder_rank(#[trigger] s[b])
    &&& forall|a: int| 0 <= a < s.len() ==> folder_rank(#[trigger] s[a]) < r
}

proof fn lemma_add_folder(s: Seq<SourceFolder>, s2: Seq<SourceFolder>, on: bool, f: SourceFolder, t: SearchTargets)
    requires
        s2 == s + (if on { seq![f] } else { Seq::<SourceFolder>::empty() }),
        ordered_below(s, folder_rank(f)),
        forall|g: SourceFolder| folder_rank(g) < folder_rank(f) ==> (#[trigger] s.contains(g) <==> flag_of(t, g)),
        forall|g: SourceFolder| folder_rank(g) >= folder_rank(f) ==> !#[trigger] s.contains(g),
        on == flag_of(t, f),
    ensures
        ordered_below(s2, folder_rank(f) + 1),
        forall|g: SourceFolder| folder_rank(g) <= folder_rank(f) ==> (#[trigger] s2.contains(g) <==> flag_of(t, g)),
        forall|g: SourceFolder| folder_rank(g) > folder_rank(f) ==> !#[trigger] s2.contains(g),
{
    assert forall|g: SourceFolder| #[trigger] s2.contains(g) <==> (s.contains(g) || (on && g == f)) by {
        if s2.contains(g) {
            let k = choose|k: int| 0 <= k < s2.len() && s2[k] == g;
            if k < s.len() {
                assert(s[k] == g);
            }
        }
        if s.contains(g) {
            let k = choose|k: int| 0 <= k < s.len() && s[k] == g;
            assert(s2[k] == g);
        }
        if on && g == f {
            assert(s2[s.len() as int] == f);
        }
    }
    assert forall|g: SourceFolder| folder_rank(g) == folder_rank(f) implies g == f by {}
}

/// A folder is searched exactly when its own flag is set; each folder comes
/// at most once, in the order latex, typst, snippets, pages, courses,
/// universes.
pub proof fn lemma_searched(t: SearchTargets)
    ensures
        forall|f: SourceFolder| #[trigger] searched(t).contains(f) <==> flag_of(t, f),
        forall|a: int, b: int|
            0 <= a < b < searched(t).len() ==> folder_rank(#[trigger] searched(t)[a]) < folder_rank(
                #[trigger] searched(t)[b],
            ),
        searched(t).contains(SourceFolder::Latex) <==> t.latex,
        searched(t).contains(SourceFolder::Typst) <==> t.typst,
        searched(t).contains(SourceFolder::Snippets) <==> t.snippets,
        searched(t).contains(SourceFolder::Pages) <==> t.pages,
        searched(t).contains(SourceFolder::Courses) <==> t.courses,
        searched(t).contains(SourceFolder::Universes) <==> t.universes,
{
    let e = Seq::<SourceFolder>::empty();
    let s1 = e + (if t.latex { seq![SourceFolder::Latex] } else { e });
    let s2 = s1 + (if t.typst { seq![SourceFolder::Typst] } else { e });
    let s3 = s2 + (if t.snippets { seq![SourceFolder::Snippets] } else { e });
    let s4 = s3 + (if t.pages { seq![SourceFolder::Pages] } else { e });
    let s5 = s4 + (if t.courses { seq![SourceFolder::Courses] } else { e });
    let s6 = s5 + (if t.universes { seq![SourceFolder::Universes] } else { e });
    assert(ordered_below(s1, 1) && (forall|g: SourceFolder| folder_rank(g) <= 0 ==> (#[trigger] s1.contains(g) <==> flag_of(t, g)))
        && (forall|g: SourceFolder| folder_rank(g) > 0 ==> !#[trigger] s1.contains(g))) by {
        lemma_add_folder(e, s1, t.latex, SourceFolder::Latex, t);
    }
    assert(ordered_below(s2, 2) && (forall|g: SourceFolder| folder_rank(g) <= 1 ==> (#[trigger] s2.contains(g) <==> flag_of(t, g)))
        && (forall|g: SourceFolder| folder_rank(g) > 1 ==> !#[trigger] s2.contains(g))) by {
        lemma_add_folder(s1, s2, t.typst, SourceFolder::Typst, t);
    }
    assert(ordered_below(s3, 3) && (forall|g: SourceFolder| folder_rank(g) <= 2 ==> (#[trigger] s3.contains(g) <==> flag_of(t, g)))
        && (forall|g: SourceFolder| folder_rank(g) > 2 ==> !#[trigger] s3.contains(g))) by {
        lemma_add_folder(s2, s3, t.snippets, SourceFolder::Snippets, t);
    }
    assert(ordered_below(s4, 4) && (forall|g: SourceFolder| folder_rank(g) <= 3 ==> (#[trigger] s4.contains(g) <==> flag_of(t, g)))
        && (forall|g: SourceFolder| folder_rank(g) > 3 ==> !#[trigger] s4.contains(g))) by {
        lemma_add_folder(s3, s4, t.pages, SourceFolder::Pages, t);
    }
    assert(ordered_below(s5, 5) && (forall|g: SourceFolder| folder_rank(g) <= 4 ==> (#[trigger] s5.contains(g) <==> flag_of(t, g)))
        && (forall|g: SourceFolder| folder_rank(g) > 4 ==> !#[trigger] s5.contains(g))) by {
        lemma_add_folder(s4, s5, t.courses, SourceFolder::Courses, t);
    }
    assert(ordered_below(s6, 6) && (forall|g: SourceFolder| folder_rank(g) <= 5 ==> (#[trigger] s6.contains(g) <==> flag_of(t, g)))) by {
        lemma_add_folder(s5, s6, t.universes, SourceFolder::Universes, t);
    }
    assert(s6 =~= searched(t)) by {
        assert(s1 =~= (if t.latex { seq![SourceFolder::Latex] } else { e }));
    }
    assert(s6.contains(SourceFolder::Latex) <==> flag_of(t, SourceFolder::Latex));
    assert(s6.contains(SourceFolder::Typst) <==> flag_of(t, SourceFolder::Typst));
    assert(s6.contains(SourceFolder::Snippets) <==> flag_of(t, SourceFolder::Snippets));
    assert(s6.contains(SourceFolder::Pages) <==> flag_of(t, SourceFolder::Pages));
    assert(s6.contains(SourceFolder::Courses) <==> flag_of(t, SourceFolder::Courses));
    assert(s6.contains(SourceFolder::Universes) <==> flag_of(t, SourceFolder::Universes));
}

/// The jobs planned for changed files agree with the folders searched: an
/// item of a folder is compiled as that folder's kind, except that changed
/// files below `typst` give no job.
pub proof fn lemma_folder_kinds_agree(f: SourceFolder, b: Seq<u8>)
    requires
        spells(b, folder_name(f)),
    ensures
        f != SourceFolder::Typst ==> folder_job((4, b)) == Some(folder_kind(f)),
        f == SourceFolder::Typst ==> folder_job((4, b)) is None,
{
    reveal_strlit("latex");
    reveal_strlit("typst");
    reveal_strlit("snippets");
    reveal_strlit("pages");
    reveal_strlit("courses");
    reveal_strlit("universes");
    assert(b.len() > 0);
    let c0 = b[0] as u32;
    assert(c0 == folder_name(f)[0] as u32);
    if b.len() == 5 {
        let c1 = b[1] as u32;
        assert(c1 == folder_name(f)[1] as u32);
    }
}

} // verus!
