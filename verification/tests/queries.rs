use stellar_notes::query::{execute_query, queries_valid, query_all_files, select_files, EntryInfo, QueryError};

fn entry(name: &str, contents: Option<&str>) -> EntryInfo {
    EntryInfo { name: Some(name.to_string()), contents: contents.map(|c| c.to_string()) }
}

fn entries() -> Vec<EntryInfo> {
    vec![
        entry("LinearAlgebra.tex", Some("\\section{Vector spaces}")),
        entry("Topology.tex", Some("open sets")),
        EntryInfo { name: None, contents: None },
        entry("linear-maps.tex", None),
    ]
}

#[test]
fn substring_queries() {
    let e = entries();
    assert_eq!(execute_query(&e, "Linear", false, false, &None), Ok(vec![0]));
    assert_eq!(execute_query(&e, ".tex", false, false, &None), Ok(vec![0, 1, 3]));
}

#[test]
fn case_blind_queries() {
    let e = entries();
    assert_eq!(execute_query(&e, "LINEAR", false, true, &None), Ok(vec![0, 3]));
    assert_eq!(execute_query(&e, "LINEAR", false, false, &None), Ok(vec![]));
}

#[test]
fn regex_queries() {
    let e = entries();
    assert_eq!(execute_query(&e, "^[A-Z].*\\.tex$", true, false, &None), Ok(vec![0, 1]));
    assert_eq!(execute_query(&e, "(", true, false, &None), Err(QueryError::InvalidRegex));
    assert_eq!(execute_query(&vec![], "(", true, false, &None), Err(QueryError::InvalidRegex));
    let names = vec![entry("xaab", None), entry("ba", None)];
    assert_eq!(execute_query(&names, "a+b", true, false, &None), Ok(vec![0]));
    assert_eq!(execute_query(&names, "[", true, false, &None), Err(QueryError::InvalidRegex));
}

#[test]
fn content_filter() {
    let e = entries();
    let c = Some("open".to_string());
    assert_eq!(execute_query(&e, "tex", false, false, &c), Ok(vec![1]));
    assert_eq!(query_all_files(&e, &c), vec![1]);
    assert_eq!(query_all_files(&e, &None), vec![0, 1, 2, 3]);
    let c = Some("Open".to_string());
    assert_eq!(query_all_files(&e, &c), vec![]);
}

#[test]
fn several_inputs() {
    let e = entries();
    let inputs = Some(vec!["Linear".to_string(), "tex".to_string()]);
    assert_eq!(select_files(&e, &inputs, false, false, &None), Ok(vec![0, 0, 1, 3]));
    let inputs = Some(vec!["Top".to_string(), "(".to_string()]);
    assert_eq!(select_files(&e, &inputs, true, false, &None), Err(QueryError::InvalidRegex));
    assert_eq!(select_files(&e, &None, true, false, &None), Ok(vec![0, 1, 2, 3]));
}

#[test]
fn validity_is_known_before_reading() {
    assert!(queries_valid(&None, true));
    assert!(queries_valid(&Some(vec!["(".to_string()]), false));
    assert!(queries_valid(&Some(vec!["a|b".to_string()]), true));
    assert!(!queries_valid(&Some(vec!["a".to_string(), "(".to_string()]), true));
}

#[test]
fn case_blind_keeps_case_sensitive_matches() {
    let e = entries();
    for q in ["Linear", "tex", "", "Top", "near"] {
        let sensitive = execute_query(&e, q, false, false, &None).unwrap();
        let blind = execute_query(&e, q, false, true, &None).unwrap();
        assert!(sensitive.iter().all(|i| blind.contains(i)));
    }
    assert_eq!(execute_query(&e, "", false, false, &None), Ok(vec![0, 1, 3]));
    assert_eq!(execute_query(&e, "", false, true, &None), Ok(vec![0, 1, 3]));
}
