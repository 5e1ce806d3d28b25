use stellar_notes::git_diff::{changed_files, name_status_well_formed};
use stellar_notes::plan::{plan_generic_files, Job, JobKind, PathComponent};
use stellar_notes::stats::{Outcome, StatLine, Stats};
use stellar_notes::args::SearchTargets;

fn path(s: &str) -> Vec<PathComponent> {
    let mut v = vec![];
    if s.starts_with('/') {
        v.push(PathComponent::RootDir);
    }
    for part in s.split('/').filter(|p| !p.is_empty()) {
        v.push(PathComponent::Normal(part.as_bytes().to_vec()));
    }
    v
}

#[test]
fn plan_finds_items_nearest_first() {
    let files = vec![path("/home/n/source/snippets/plot/src/main.rs")];
    let jobs = plan_generic_files(&files);
    assert_eq!(jobs, vec![Job { file: 0, depth: 6, kind: JobKind::Snippet }]);
}

#[test]
fn plan_compiles_a_document_once() {
    let files = vec![
        path("source/latex/Algebra/a.tex"),
        path("source/latex/Algebra/b.tex"),
        path("source/courses/algebra.json"),
        path("source/latex/Topology.tex"),
    ];
    let jobs = plan_generic_files(&files);
    assert_eq!(
        jobs,
        vec![
            Job { file: 0, depth: 3, kind: JobKind::Document },
            Job { file: 2, depth: 3, kind: JobKind::Course },
            Job { file: 3, depth: 3, kind: JobKind::Document },
        ]
    );
}

#[test]
fn plan_nested_folders_and_typst() {
    let files = vec![path("pages/latex/x.tex"), path("typst/notes.typ"), path("README.md")];
    // An item of `typst` gives no job when it comes from git.
    let jobs = plan_generic_files(&files);
    assert_eq!(
        jobs,
        vec![
            Job { file: 0, depth: 3, kind: JobKind::Document },
            Job { file: 0, depth: 2, kind: JobKind::Page },
        ]
    );
    assert_eq!(plan_generic_files(&vec![path("typst/x")]), vec![]);
    assert_eq!(
        plan_generic_files(&vec![path("latex/x")]),
        vec![Job { file: 0, depth: 2, kind: JobKind::Document }]
    );
}

#[test]
fn plan_does_not_climb_past_the_root() {
    let files = vec![vec![
        PathComponent::Normal(b"latex".to_vec()),
        PathComponent::RootDir,
        PathComponent::Normal(b"x".to_vec()),
    ]];
    assert_eq!(plan_generic_files(&files), vec![]);
}

#[test]
fn name_status_lines() {
    let out = "M\tsource/latex/A.tex\nA\tsource/courses/c.json\nD\tgone.txt\nR100\ta\tb\n";
    assert!(name_status_well_formed(out));
    assert_eq!(
        changed_files(out),
        vec!["source/latex/A.tex".to_string(), "source/courses/c.json".to_string()]
    );
    assert_eq!(changed_files(""), Vec::<String>::new());
    assert!(!name_status_well_formed("M"));
    assert!(!name_status_well_formed("ok\nAé"));
    assert!(name_status_well_formed("Dé\n"));
}

#[test]
fn stats_count_and_report() {
    let mut s = Stats::new();
    s.record(Outcome::Document { page: true, snippets: 4 });
    s.record(Outcome::Document { page: false, snippets: 2 });
    s.record(Outcome::Snippet(true));
    s.record(Outcome::Snippet(false));
    s.record(Outcome::Course(true));
    assert_eq!(s, Stats { processed_pdfs: 2, snippets: 7, pages: 1, courses: 1, universes: 0 });
    let t = SearchTargets { latex: false, typst: false, snippets: false, pages: false, courses: true, universes: false };
    assert_eq!(s.report(false, &t), vec![StatLine::ImportedCourses(1)]);
    assert_eq!(s.report(true, &t).len(), 5);
    assert_eq!(StatLine::ProcessedPdfs(2).label(), "Processed PDFs");
    assert_eq!(StatLine::ImportedUniverses(3).value(), 3);
    let full = Stats { processed_pdfs: 0, snippets: u32::MAX, pages: 0, courses: 0, universes: 0 };
    assert!(!full.fits(Outcome::Snippet(true)));
    assert!(full.fits(Outcome::Snippet(false)));
}
