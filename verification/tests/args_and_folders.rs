use stellar_notes::args::{App, ArgConflict, SearchTargets};
use stellar_notes::documents::{document_format, is_document_folder, DocumentFormat};
use stellar_notes::folders::{search_folders, SourceFolder};

fn app() -> App {
    App {
        regex: false,
        ignore_case: false,
        snippets: false,
        pull: false,
        diff: false,
        latex: false,
        typst: false,
        pages: false,
        courses: false,
        universes: false,
        containing: None,
        inputs: None,
    }
}

#[test]
fn validate_accepts_single_modes() {
    assert_eq!(app().validate(), Ok(()));
    let mut a = app();
    a.regex = true;
    assert_eq!(a.validate(), Ok(()));
    let mut a = app();
    a.pull = true;
    a.latex = true;
    assert_eq!(a.validate(), Ok(()));
}

#[test]
fn validate_reports_conflicts_in_order() {
    let mut a = app();
    a.regex = true;
    a.ignore_case = true;
    a.pull = true;
    assert_eq!(a.validate(), Err(ArgConflict::RegexIgnoreCase));
    let mut a = app();
    a.ignore_case = true;
    a.pull = true;
    assert_eq!(a.validate(), Err(ArgConflict::IgnoreCasePull));
    let mut a = app();
    a.pull = true;
    a.regex = true;
    assert_eq!(a.validate(), Err(ArgConflict::PullRegex));
    let mut a = app();
    a.ignore_case = true;
    a.diff = true;
    assert_eq!(a.validate(), Err(ArgConflict::IgnoreCaseDiff));
    let mut a = app();
    a.diff = true;
    a.regex = true;
    assert_eq!(a.validate(), Err(ArgConflict::DiffRegex));
    let mut a = app();
    a.pull = true;
    a.diff = true;
    assert_eq!(a.validate(), Err(ArgConflict::PullDiff));
    assert_eq!(
        ArgConflict::PullDiff.message(),
        "Cannot use 'pull' flag if 'diff' flag is set"
    );
}

#[test]
fn no_folder_flag_searches_everything() {
    let t = app().search_targets();
    assert_eq!(
        t,
        SearchTargets { latex: true, typst: true, snippets: true, pages: true, courses: true, universes: true }
    );
    let mut a = app();
    a.courses = true;
    a.latex = true;
    let t = a.search_targets();
    assert_eq!(
        t,
        SearchTargets { latex: true, typst: false, snippets: false, pages: false, courses: true, universes: false }
    );
    assert_eq!(search_folders(&t), vec![SourceFolder::Latex, SourceFolder::Courses]);
    assert!(!a.uses_git());
    a.diff = true;
    assert!(a.uses_git());
}

#[test]
fn folders_in_order() {
    let t = app().search_targets();
    let names: Vec<&str> = search_folders(&t).iter().map(|f| f.name()).collect();
    assert_eq!(names, vec!["latex", "typst", "snippets", "pages", "courses", "universes"]);
}

#[test]
fn document_formats() {
    assert_eq!(document_format("tex"), Some(DocumentFormat::Latex));
    assert_eq!(document_format("typ"), Some(DocumentFormat::Typst));
    assert_eq!(document_format("pdf"), None);
    assert_eq!(document_format(""), None);
    assert_eq!(DocumentFormat::Latex.name(), "LaTeX");
    assert_eq!(DocumentFormat::Typst.folder(), "typst");
    assert_eq!(DocumentFormat::Typst.extension(), "typ");
    assert!(is_document_folder("latex"));
    assert!(is_document_folder("typst"));
    assert!(!is_document_folder("snippets"));
    assert!(!is_document_folder("Latex"));
}
