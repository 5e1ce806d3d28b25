//! Which compile jobs a list of changed files gives rise to.
//!
//! Every changed file is walked from its full path up towards the root. Each
//! time the parent of the current path is one of the folders `latex`,
//! `snippets`, `pages`, `courses` or `universes`, the current path is
//! compiled as an item of that folder; any other parent (`typst` among them)
//! gives nothing. A LaTeX document (an entry of `latex`) is compiled once
//! only, however many changed files lie below it.

use vstd::prelude::*;
use crate::text::{bytes_eq, bytes_spell, spells};

verus! {

/// One component of a path, as `std::path::Component` gives it; names are
/// the raw bytes of the operating system string.
pub enum PathComponent {
    Prefix(Vec<u8>),
    RootDir,
    CurDir,
    ParentDir,
    Normal(Vec<u8>),
}

impl View for PathComponent {
    /// A tag for the variant and the bytes it holds.
    type V = (nat, Seq<u8>);

    open spec fn view(&self) -> (nat, Seq<u8>) {
        match self {
            PathComponent::Prefix(b) => (0, b@),
            PathComponent::RootDir => (1, Seq::empty()),
            PathComponent::CurDir => (2, Seq::empty()),
            PathComponent::ParentDir => (3, Seq::empty()),
            PathComponent::Normal(b) => (4, b@),
        }
    }
}

/// What is compiled for an item of a source folder.
#[derive(PartialEq, Eq, Structural, Clone, Copy, Debug)]
pub enum JobKind {
    Document,
    Snippet,
    Page,
    Course,
    Universe,
}

/// Compile the path made of the first `depth` components of changed file
/// number `file`, as an item of kind `kind`.
#[derive(PartialEq, Eq, Structural, Clone, Copy, Debug)]
pub struct Job {
    pub file: usize,
    pub depth: usize,
    pub kind: JobKind,
}

/// The components of a path, each by its view.
pub open spec fn path_view(p: Seq<PathComponent>) -> Seq<(nat, Seq<u8>)> {
    p.map_values(|c: PathComponent| c@)
}

/// Every changed file, as the views of its components.
pub open spec fn files_view(files: Seq<Vec<PathComponent>>) -> Seq<Seq<(nat, Seq<u8>)>> {
    files.map_values(|f: Vec<PathComponent>| path_view(f@))
}

/// The kind of item that lives directly inside a folder with this name.
pub open spec fn folder_job(c: (nat, Seq<u8>)) -> Option<JobKind> {
    if c.0 != 4 {
        None
    } else if spells(c.1, "latex"@) {
        Some(JobKind::Document)
    } else if spells(c.1, "snippets"@) {
        Some(JobKind::Snippet)
    } else if spells(c.1, "pages"@) {
        Some(JobKind::Page)
    } else if spells(c.1, "courses"@) {
        Some(JobKind::Course)
    } else if spells(c.1, "universes"@) {
        Some(JobKind::Universe)
    } else {
        None
    }
}

/// A path whose last component is this one has no parent.
pub open spec fn has_no_parent(c: (nat, Seq<u8>)) -> bool {
    c.0 == 0 || c.0 == 1
}

/// The items met on the walk up from the prefix of length `m` of `p`, in
/// the order of the walk: the depth of the item and its kind.
pub open spec fn walk(p: Seq<(nat, Seq<u8>)>, m: nat) -> Seq<(nat, JobKind)>
    decreases m,
{
    if m < 2 || m > p.len() || has_no_parent(p[m - 1]) {
        Seq::empty()
    } else {
        let here: Seq<(nat, JobKind)> = match folder_job(p[m - 2]) {
            Some(k) => seq![(m, k)],
            None => Seq::empty(),
        };
        here + walk(p, (m - 1) as nat)
    }
}

/// The path that a job compiles.
pub open spec fn job_path(files: Seq<Seq<(nat, Seq<u8>)>>, file: int, depth: int) -> Seq<(nat, Seq<u8>)> {
    files[file].take(depth)
}

/// A document at this path was already among `done`.
pub open spec fn document_done(
    files: Seq<Seq<(nat, Seq<u8>)>>,
    done: Seq<Job>,
    file: int,
    depth: int,
) -> bool {
    exists|j: int|
        0 <= j < done.len() && done[j].kind == JobKind::Document && job_path(
            files,
            done[j].file as int,
            done[j].depth as int,
        ) == job_path(files, file, depth)
}

/// `done` followed by the jobs of the items `items` of changed file `file`.
pub open spec fn add_items(
    files: Seq<Seq<(nat, Seq<u8>)>>,
    done: Seq<Job>,
    file: nat,
    items: Seq<(nat, JobKind)>,
) -> Seq<Job>
    decreases items.len(),
{
    if items.len() == 0 {
        done
    } else {
        let d = items[0].0;
        let k = items[0].1;
        let next = if k == JobKind::Document && document_done(files, done, file as int, d as int) {
            done
        } else {
            done.push(Job { file: file as usize, depth: d as usize, kind: k })
        };
        add_items(files, next, file, items.drop_first())
    }
}

/// The jobs of the first `n` changed files.
pub open spec fn planned(files: Seq<Seq<(nat, Seq<u8>)>>, n: nat) -> Seq<Job>
    decreases n,
{
    if n == 0 || n > files.len() {
        Seq::empty()
    } else {
        let i = (n - 1) as nat;
        add_items(files, planned(files, i), i, walk(files[i as int], files[i as int].len()))
    }
}

/// The jobs that stay within the files they name.
pub open spec fn jobs_in_range(files: Seq<Seq<(nat, Seq<u8>)>>, jobs: Seq<Job>, n: nat) -> bool {
    forall|j: int|
        0 <= j < jobs.len() ==> jobs[j].file < n && jobs[j].depth <= files[jobs[j].file as int].len()
}

/// The job compiles a prefix of its file whose parent is a folder of the
/// job's kind.
pub open spec fn job_sound(files: Seq<Seq<(nat, Seq<u8>)>>, job: Job) -> bool {
    &&& job.file < files.len()
    &&& 2 <= job.depth <= files[job.file as int].len()
    &&& folder_job(files[job.file as int][job.depth - 2]) == Some(job.kind)
}

pub open spec fn all_sound(files: Seq<Seq<(nat, Seq<u8>)>>, jobs: Seq<Job>) -> bool {
    forall|j: int| 0 <= j < jobs.len() ==> job_sound(files, #[trigger] jobs[j])
}

/// No two document jobs compile the same path.
pub open spec fn documents_unique(files: Seq<Seq<(nat, Seq<u8>)>>, jobs: Seq<Job>) -> bool {
    forall|a: int, b: int|
        0 <= a < b < jobs.len() && (#[trigger] jobs[a]).kind == JobKind::Document && (
        #[trigger] jobs[b]).kind == JobKind::Document ==> job_path(
            files,
            jobs[a].file as int,
            jobs[a].depth as int,
        ) != job_path(files, jobs[b].file as int, jobs[b].depth as int)
}

/// The item at depth `d` of file `file`, of kind `k`, is taken care of by
/// `jobs`: a document by a document job on the same path, any other item by
/// its own job.
pub open spec fn covered(files: Seq<Seq<(nat, Seq<u8>)>>, jobs: Seq<Job>, file: nat, d: nat, k: JobKind) -> bool {
    if k == JobKind::Document {
        exists|j: int|
            0 <= j < jobs.len() && jobs[j].kind == JobKind::Document && job_path(
                files,
                jobs[j].file as int,
                jobs[j].depth as int,
            ) == job_path(files, file as int, d as int)
    } else {
        exists|j: int|
            0 <= j < jobs.len() && jobs[j] == Job { file: file as usize, depth: d as usize, kind: k }
    }
}

/// The sizes of the files fit in `usize`, as those of vectors do.
pub open spec fn sizes_fit(files: Seq<Seq<(nat, Seq<u8>)>>) -> bool {
    files.len() <= usize::MAX && forall|i: int| 0 <= i < files.len() ==> #[trigger] files[i].len() <= usize::MAX
}

proof fn lemma_walk(p: Seq<(nat, Seq<u8>)>, m: nat)
    requires
        m <= p.len(),
    ensures
        forall|t: int|
            0 <= t < walk(p, m).len() ==> 2 <= (#[trigger] walk(p, m)[t]).0 <= m && folder_job(
                p[walk(p, m)[t].0 - 2],
            ) == Some(walk(p, m)[t].1),
    decreases m,
{
    if m >= 2 && !has_no_parent(p[m - 1]) {
        lemma_walk(p, (m - 1) as nat);
    }
}

proof fn lemma_add_items(files: Seq<Seq<(nat, Seq<u8>)>>, done: Seq<Job>, file: nat, items: Seq<(nat, JobKind)>)
    requires
        sizes_fit(files),
        file < files.len(),
        forall|t: int|
            0 <= t < items.len() ==> 2 <= (#[trigger] items[t]).0 <= files[file as int].len()
                && folder_job(files[file as int][items[t].0 - 2]) == Some(items[t].1),
        all_sound(files, done),
        documents_unique(files, done),
    ensures
        add_items(files, done, file, items).len() >= done.len(),
        forall|j: int| 0 <= j < done.len() ==> add_items(files, done, file, items)[j] == done[j],
        all_sound(files, add_items(files, done, file, items)),
        documents_unique(files, add_items(files, done, file, items)),
        forall|t: int|
            0 <= t < items.len() ==> covered(
                files,
                add_items(files, done, file, items),
                file,
                (#[trigger] items[t]).0,
                items[t].1,
            ),
    decreases items.len(),
{
    if items.len() > 0 {
        let d = items[0].0;
        let k = items[0].1;
        let skip = k == JobKind::Document && document_done(files, done, file as int, d as int);
        let job = Job { file: file as usize, depth: d as usize, kind: k };
        let next = if skip { done } else { done.push(job) };
        assert(files[file as int].len() <= usize::MAX);
        if !skip {
            assert(job_sound(files, job));
            assert forall|a: int, b: int|
                0 <= a < b < next.len() && (#[trigger] next[a]).kind == JobKind::Document && (
                #[trigger] next[b]).kind == JobKind::Document implies job_path(
                files,
                next[a].file as int,
                next[a].depth as int,
            ) != job_path(files, next[b].file as int, next[b].depth as int) by {
                if b == done.len() {
                    assert(next[a] == done[a]);
                    assert(!(done[a].kind == JobKind::Document && job_path(
                        files,
                        done[a].file as int,
                        done[a].depth as int,
                    ) == job_path(files, file as int, d as int)));
                } else {
                    assert(next[a] == done[a] && next[b] == done[b]);
                }
            }
            assert(all_sound(files, next));
        }
        let rest = items.drop_first();
        assert forall|t: int| 0 <= t < rest.len() implies 2 <= (#[trigger] rest[t]).0 <= files[file as int].len()
            && folder_job(files[file as int][rest[t].0 - 2]) == Some(rest[t].1) by {
            assert(rest[t] == items[t + 1]);
        }
        lemma_add_items(files, next, file, rest);
        let result = add_items(files, next, file, rest);
        assert(result == add_items(files, done, file, items));
        assert forall|j: int| 0 <= j < done.len() implies result[j] == done[j] by {
            assert(next[j] == done[j]);
        }
        assert forall|t: int| 0 <= t < items.len() implies covered(
            files,
            result,
            file,
            (#[trigger] items[t]).0,
            items[t].1,
        ) by {
            if t == 0 {
                if skip {
                    let j = choose|j: int|
                        0 <= j < done.len() && done[j].kind == JobKind::Document && job_path(
                            files,
                            done[j].file as int,
                            done[j].depth as int,
                        ) == job_path(files, file as int, d as int);
                    assert(result[j] == done[j]);
                } else {
                    assert(result[done.len() as int] == next[done.len() as int]);
                    assert(next[done.len() as int] == job);
                    assert(job.depth as int == d as int);
                }
            } else {
                assert(items[t] == rest[t - 1]);
            }
        }
    }
}

/// The plan is sound, compiles no document twice, and misses nothing: for
/// every changed file, every item met on its walk up is compiled (a document
/// by a job on the same path, any other item by its own job), and every job
/// compiles an item of a folder of its kind.
pub proof fn lemma_plan(files: Seq<Seq<(nat, Seq<u8>)>>, n: nat)
    requires
        sizes_fit(files),
        n <= files.len(),
    ensures
        all_sound(files, planned(files, n)),
        documents_unique(files, planned(files, n)),
        forall|i: int, t: int|
            0 <= i < n && 0 <= t < walk(files[i], files[i].len()).len() ==> covered(
                files,
                planned(files, n),
                i as nat,
                (#[trigger] walk(files[i], files[i].len())[t]).0,
                walk(files[i], files[i].len())[t].1,
            ),
    decreases n,
{
    if n > 0 {
        let i = (n - 1) as nat;
        lemma_plan(files, i);
        let done = planned(files, i);
        let items = walk(files[i as int], files[i as int].len());
        lemma_walk(files[i as int], files[i as int].len());
        lemma_add_items(files, done, i, items);
        let result = planned(files, n);
        assert(result == add_items(files, done, i, items));
        assert forall|i2: int, t: int|
            0 <= i2 < n && 0 <= t < walk(files[i2], files[i2].len()).len() implies covered(
            files,
            result,
            i2 as nat,
            (#[trigger] walk(files[i2], files[i2].len())[t]).0,
            walk(files[i2], files[i2].len())[t].1,
        ) by {
            if i2 < i {
                let w = walk(files[i2], files[i2].len())[t];
                if w.1 == JobKind::Document {
                    let j = choose|j: int|
                        0 <= j < done.len() && done[j].kind == JobKind::Document && job_path(
                            files,
                            done[j].file as int,
                            done[j].depth as int,
                        ) == job_path(files, i2, w.0 as int);
                    assert(result[j] == done[j]);
                } else {
                    let j = choose|j: int|
                        0 <= j < done.len() && done[j] == Job {
                            file: i2 as usize,
                            depth: w.0 as usize,
                            kind: w.1,
                        };
                    assert(result[j] == done[j]);
                }
            } else {
                assert(items[t] == walk(files[i2], files[i2].len())[t]);
            }
        }
    }
}

proof fn lemma_walk_contains(p: Seq<(nat, Seq<u8>)>, m: nat, d: nat, k: JobKind)
    requires
        2 <= d <= m <= p.len(),
        forall|j: int| d - 1 <= j < m ==> (#[trigger] p[j]).0 != 0 && p[j].0 != 1,
        folder_job(p[d - 2]) == Some(k),
    ensures
        exists|t: int| 0 <= t < walk(p, m).len() && walk(p, m)[t] == (d, k),
    decreases m,
{
    assert(p[m - 1].0 != 0 && p[m - 1].0 != 1);
    let rest = walk(p, (m - 1) as nat);
    if m == d {
        assert(walk(p, m)[0] == (d, k));
    } else {
        lemma_walk_contains(p, (m - 1) as nat, d, k);
        let t = choose|t: int| 0 <= t < rest.len() && rest[t] == (d, k);
        let w = walk(p, m);
        let h = w.len() - rest.len();
        assert(w[h + t] == rest[t]);
    }
}

/// Every item of a changed file is compiled: when the component at depth
/// `d - 2` of changed file `i` names a source folder of kind `k`, and no
/// component from depth `d - 1` on is a root or a prefix (so the walk up
/// from the file reaches the item), the plan holds a job for that item: its
/// own job `(i, d, k)`, or for a LaTeX document a document job on the same
/// path.
pub proof fn lemma_plan_complete(files: Seq<Seq<(nat, Seq<u8>)>>, n: nat, i: nat, d: nat)
    requires
        sizes_fit(files),
        n <= files.len(),
        i < n,
        2 <= d <= files[i as int].len(),
        forall|j: int|
            d - 1 <= j < files[i as int].len() ==> (#[trigger] files[i as int][j]).0 != 0
                && files[i as int][j].0 != 1,
        folder_job(files[i as int][d - 2]) is Some,
    ensures
        covered(files, planned(files, n), i, d, folder_job(files[i as int][d - 2])->0),
{
    let p = files[i as int];
    let k = folder_job(p[d - 2])->0;
    lemma_walk_contains(p, p.len(), d, k);
    let t = choose|t: int| 0 <= t < walk(p, p.len()).len() && walk(p, p.len())[t] == (d, k);
    lemma_plan(files, n);
    assert(walk(files[i as int], files[i as int].len())[t] == (d, k));
}

/// The folders that give jobs, by their literal names: `latex` gives
/// documents, `snippets` snippets, `pages` pages, `courses` courses,
/// `universes` universes, and no other component gives a job.
pub proof fn lemma_folder_job_names(c: (nat, Seq<u8>))
    ensures
        folder_job(c) == Some(JobKind::Document) <==> (c.0 == 4 && spells(c.1, "latex"@)),
        folder_job(c) == Some(JobKind::Snippet) <==> (c.0 == 4 && spells(c.1, "snippets"@)),
        folder_job(c) == Some(JobKind::Page) <==> (c.0 == 4 && spells(c.1, "pages"@)),
        folder_job(c) == Some(JobKind::Course) <==> (c.0 == 4 && spells(c.1, "courses"@)),
        folder_job(c) == Some(JobKind::Universe) <==> (c.0 == 4 && spells(c.1, "universes"@)),
        folder_job(c) is None <==> !(c.0 == 4 && (spells(c.1, "latex"@) || spells(c.1, "snippets"@)
            || spells(c.1, "pages"@) || spells(c.1, "courses"@) || spells(c.1, "universes"@))),
{
    reveal_strlit("latex");
    reveal_strlit("snippets");
    reveal_strlit("pages");
    reveal_strlit("courses");
    reveal_strlit("universes");
    if c.0 == 4 && c.1.len() > 0 {
        let c0 = c.1[0] as u32;
        if c.1.len() == 5 {
            let c1 = c.1[1] as u32;
        }
    }
}

/// No job appears twice.
pub open spec fn jobs_distinct(jobs: Seq<Job>) -> bool {
    forall|a: int, b: int| 0 <= a < b < jobs.len() ==> #[trigger] jobs[a] != #[trigger] jobs[b]
}

proof fn lemma_walk_decreasing(p: Seq<(nat, Seq<u8>)>, m: nat)
    requires
        m <= p.len(),
    ensures
        forall|a: int, b: int|
            0 <= a < b < walk(p, m).len() ==> (#[trigger] walk(p, m)[a]).0 > (#[trigger] walk(p, m)[b]).0,
    decreases m,
{
    if m >= 2 && !has_no_parent(p[m - 1]) {
        let rest = walk(p, (m - 1) as nat);
        lemma_walk(p, (m - 1) as nat);
        lemma_walk_decreasing(p, (m - 1) as nat);
        let w = walk(p, m);
        assert forall|a: int, b: int| 0 <= a < b < w.len() implies (#[trigger] w[a]).0 > (
        #[trigger] w[b]).0 by {
            if w.len() > rest.len() {
                assert(w[0].0 == m);
                if a == 0 {
                    assert(w[b] == rest[b - 1]);
                } else {
                    assert(w[a] == rest[a - 1] && w[b] == rest[b - 1]);
                }
            } else {
                assert(w =~= rest);
            }
        }
    }
}

proof fn lemma_add_items_distinct(
    files: Seq<Seq<(nat, Seq<u8>)>>,
    done: Seq<Job>,
    file: nat,
    items: Seq<(nat, JobKind)>,
)
    requires
        sizes_fit(files),
        file < files.len(),
        forall|t: int| 0 <= t < items.len() ==> (#[trigger] items[t]).0 <= files[file as int].len(),
        forall|a: int, b: int| 0 <= a < b < items.len() ==> (#[trigger] items[a]).0 > (#[trigger] items[b]).0,
        jobs_distinct(done),
        forall|j: int|
            0 <= j < done.len() ==> (#[trigger] done[j]).file < file || (done[j].file == file
                && forall|t: int| 0 <= t < items.len() ==> done[j].depth > (#[trigger] items[t]).0),
    ensures
        jobs_distinct(add_items(files, done, file, items)),
        forall|j: int|
            0 <= j < add_items(files, done, file, items).len() ==> (#[trigger] add_items(
                files,
                done,
                file,
                items,
            )[j]).file <= file,
    decreases items.len(),
{
    if items.len() == 0 {
        assert forall|j: int| 0 <= j < done.len() implies (#[trigger] done[j]).file <= file by {}
    } else {
        let d = items[0].0;
        let k = items[0].1;
        let skip = k == JobKind::Document && document_done(files, done, file as int, d as int);
        let job = Job { file: file as usize, depth: d as usize, kind: k };
        let next = if skip { done } else { done.push(job) };
        let rest = items.drop_first();
        assert(files[file as int].len() <= usize::MAX);
        if !skip {
            assert forall|a: int, b: int| 0 <= a < b < next.len() implies #[trigger] next[a]
                != #[trigger] next[b] by {
                if b == done.len() {
                    assert(next[a] == done[a]);
                    assert(done[a].file < file || done[a].depth > items[0].0);
                } else {
                    assert(next[a] == done[a] && next[b] == done[b]);
                }
            }
        }
        assert forall|t: int| 0 <= t < rest.len() implies (#[trigger] rest[t]).0 <= files[file as int].len()
            by {
            assert(rest[t] == items[t + 1]);
        }
        assert forall|a: int, b: int| 0 <= a < b < rest.len() implies (#[trigger] rest[a]).0 > (
        #[trigger] rest[b]).0 by {
            assert(rest[a] == items[a + 1] && rest[b] == items[b + 1]);
        }
        assert forall|j: int| 0 <= j < next.len() implies (#[trigger] next[j]).file < file || (
        next[j].file == file && forall|t: int|
            0 <= t < rest.len() ==> next[j].depth > (#[trigger] rest[t]).0) by {
            if j < done.len() {
                assert(next[j] == done[j]);
                if done[j].file == file {
                    assert forall|t: int| 0 <= t < rest.len() implies next[j].depth > (
                    #[trigger] rest[t]).0 by {
                        assert(rest[t] == items[t + 1]);
                    }
                }
            } else {
                assert(next[j] == job);
                assert forall|t: int| 0 <= t < rest.len() implies next[j].depth > (
                #[trigger] rest[t]).0 by {
                    assert(rest[t] == items[t + 1]);
                }
            }
        }
        lemma_add_items_distinct(files, next, file, rest);
    }
}

/// Each job of the plan appears once: together with `lemma_plan`, every
/// item of another kind than document is compiled exactly once for each
/// changed file it is met from, and the jobs name files in order.
pub proof fn lemma_plan_distinct(files: Seq<Seq<(nat, Seq<u8>)>>, n: nat)
    requires
        sizes_fit(files),
        n <= files.len(),
    ensures
        jobs_distinct(planned(files, n)),
        forall|j: int| 0 <= j < planned(files, n).len() ==> (#[trigger] planned(files, n)[j]).file < n,
    decreases n,
{
    if n > 0 {
        let i = (n - 1) as nat;
        lemma_plan_distinct(files, i);
        let done = planned(files, i);
        let items = walk(files[i as int], files[i as int].len());
        lemma_walk(files[i as int], files[i as int].len());
        lemma_walk_decreasing(files[i as int], files[i as int].len());
        lemma_add_items_distinct(files, done, i, items);
        assert(planned(files, n) == add_items(files, done, i, items));
    }
}

fn component_eq(a: &PathComponent, b: &PathComponent) -> (r: bool)
    ensures
        r == (a@ == b@),
{
    match (a, b) {
        (PathComponent::Prefix(x), PathComponent::Prefix(y)) => bytes_eq(x, y),
        (PathComponent::RootDir, PathComponent::RootDir) => true,
        (PathComponent::CurDir, PathComponent::CurDir) => true,
        (PathComponent::ParentDir, PathComponent::ParentDir) => true,
        (PathComponent::Normal(x), PathComponent::Normal(y)) => bytes_eq(x, y),
        _ => false,
    }
}

/// Whether the first `da` components of `a` are the first `db` of `b`.
fn same_prefix(a: &Vec<PathComponent>, da: usize, b: &Vec<PathComponent>, db: usize) -> (r: bool)
    requires
        da <= a.len(),
        db <= b.len(),
    ensures
        r == (path_view(a@).take(da as int) == path_view(b@).take(db as int)),
{
    if da != db {
        assert(path_view(a@).take(da as int).len() != path_view(b@).take(db as int).len());
        return false;
    }
    let mut i: usize = 0;
    while i < da
        invariant
            da == db,
            da <= a.len(),
            db <= b.len(),
            i <= da,
            forall|j: int| 0 <= j < i ==> a@[j]@ == b@[j]@,
        decreases da - i,
    {
        if !component_eq(&a[i], &b[i]) {
            assert(path_view(a@).take(da as int)[i as int] != path_view(b@).take(db as int)[i as int]);
            return false;
        }
        i = i + 1;
    }
    assert(path_view(a@).take(da as int) =~= path_view(b@).take(db as int));
    true
}

/// The kind of item inside the folder named by this component.
fn folder_job_of(c: &PathComponent) -> (r: Option<JobKind>)
    ensures
        r == folder_job(c@),
{
    match c {
        PathComponent::Normal(b) => {
            if bytes_spell(b, "latex") {
                Some(JobKind::Document)
            } else if bytes_spell(b, "snippets") {
                Some(JobKind::Snippet)
            } else if bytes_spell(b, "pages") {
                Some(JobKind::Page)
            } else if bytes_spell(b, "courses") {
                Some(JobKind::Course)
            } else if bytes_spell(b, "universes") {
                Some(JobKind::Universe)
            } else {
                None
            }
        },
        _ => None,
    }
}

/// Whether a document at the first `depth` components of file `file` is
/// among `jobs` already. The documents planned so far are looked up among
/// the planned jobs: with a hash set keyed by paths, Verus could prove
/// nothing about membership.
fn document_seen(files: &Vec<Vec<PathComponent>>, jobs: &Vec<Job>, file: usize, depth: usize) -> (r: bool)
    requires
        file < files.len(),
        depth <= files@[file as int].len(),
        jobs_in_range(files_view(files@), jobs@, files.len() as nat),
    ensures
        r == document_done(files_view(files@), jobs@, file as int, depth as int),
{
    let ghost fv = files_view(files@);
    assert(fv[file as int] == path_view(files@[file as int]@));
    let mut j: usize = 0;
    while j < jobs.len()
        invariant
            fv == files_view(files@),
            file < files.len(),
            depth <= files@[file as int].len(),
            fv[file as int] == path_view(files@[file as int]@),
            jobs_in_range(fv, jobs@, files.len() as nat),
            j <= jobs.len(),
            forall|k: int|
                0 <= k < j ==> !(jobs@[k].kind == JobKind::Document && job_path(
                    fv,
                    jobs@[k].file as int,
                    jobs@[k].depth as int,
                ) == job_path(fv, file as int, depth as int)),
        decreases jobs.len() - j,
    {
        let job = jobs[j];
        assert(job.file < files.len() && job.depth <= fv[job.file as int].len());
        assert(fv[job.file as int] == path_view(files@[job.file as int]@));
        if job.kind == JobKind::Document && same_prefix(&files[job.file], job.depth, &files[file], depth) {
            assert(jobs@[j as int] == job);
            return true;
        }
        j = j + 1;
    }
    false
}

/// The compile jobs for the changed files `files`, each given by its path
/// components: for every file, the items met on the walk up from the file
/// itself, nearest first, where an item is the path of which the parent is a
/// source folder; a document already planned is not planned again.
pub fn plan_generic_files(files: &Vec<Vec<PathComponent>>) -> (jobs: Vec<Job>)
    ensures
        jobs@ == planned(files_view(files@), files.len() as nat),
        jobs_in_range(files_view(files@), jobs@, files.len() as nat),
{
    let ghost fv = files_view(files@);
    let mut jobs: Vec<Job> = Vec::new();
    let mut i: usize = 0;
    while i < files.len()
        invariant
            fv == files_view(files@),
            fv.len() == files.len(),
            i <= files.len(),
            jobs@ == planned(fv, i as nat),
            jobs_in_range(fv, jobs@, i as nat),
        decreases files.len() - i,
    {
        let p = &files[i];
        let ghost pv = fv[i as int];
        let ghost start = jobs@;
        assert(pv == path_view(p@));
        let mut m: usize = p.len();
        while m >= 2
            invariant
                fv == files_view(files@),
                fv.len() == files.len(),
                i < files.len(),
                pv == fv[i as int],
                pv == path_view(p@),
                p == &files@[i as int],
                m <= p.len(),
                add_items(fv, start, i as nat, walk(pv, p.len() as nat)) == add_items(
                    fv,
                    jobs@,
                    i as nat,
                    walk(pv, m as nat),
                ),
                jobs_in_range(fv, jobs@, (i + 1) as nat),
            ensures
                walk(pv, m as nat) == Seq::<(nat, JobKind)>::empty(),
                add_items(fv, start, i as nat, walk(pv, p.len() as nat)) == add_items(
                    fv,
                    jobs@,
                    i as nat,
                    walk(pv, m as nat),
                ),
                jobs_in_range(fv, jobs@, (i + 1) as nat),
            decreases m,
        {
            assert(pv[m - 1] == p@[m - 1]@);
            assert(pv[m - 2] == p@[m - 2]@);
            match &p[m - 1] {
                PathComponent::RootDir | PathComponent::Prefix(_) => {
                    break;
                },
                _ => {},
            }
            let ghost rest = walk(pv, (m - 1) as nat);
            match folder_job_of(&p[m - 2]) {
                Some(k) => {
                    let ghost item = (m as nat, k);
                    assert(walk(pv, m as nat) == seq![item] + rest);
                    assert((seq![item] + rest).drop_first() =~= rest);
                    if k == JobKind::Document && document_seen(files, &jobs, i, m) {
                    } else {
                        jobs.push(Job { file: i, depth: m, kind: k });
                    }
                },
                None => {
                    assert(walk(pv, m as nat) =~= rest);
                },
            }
            m = m - 1;
        }
        assert(add_items(fv, jobs@, i as nat, Seq::<(nat, JobKind)>::empty()) == jobs@);
        assert(planned(fv, (i + 1) as nat) == add_items(fv, planned(fv, i as nat), i as nat, walk(pv, pv.len())));
        i = i + 1;
    }
    jobs
}

} // verus!
