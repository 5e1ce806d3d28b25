use stellar_notes::items::{find_build_script, json_id};
use stellar_notes::text::{bytes_eq, bytes_spell, chars_of, replace_str, str_contains, str_eq};

#[test]
fn contains_finds_substrings() {
    assert!(str_contains("Linear algebra notes", "algebra"));
    assert!(!str_contains("Linear algebra notes", "Algebra"));
    assert!(str_contains("abc", ""));
    assert!(str_contains("", ""));
    assert!(!str_contains("ab", "abc"));
    assert!(str_contains("aaab", "aab"));
}

#[test]
fn replace_matches_std() {
    let cases = [
        ("course.json", ".json", ""),
        ("a.json.json", ".json", ""),
        ("..jsonjson", ".json", ""),
        ("ab", "", "X"),
        ("", "", "X"),
        ("aaaa", "aa", "b"),
        ("no match", "zz", "y"),
    ];
    for (s, p, r) in cases {
        assert_eq!(replace_str(s, p, r), s.replace(p, r));
    }
    assert_eq!(replace_str("ab", "", "X"), "XaXbX");
}

#[test]
fn json_ids() {
    assert_eq!(json_id("course.json"), "course");
    assert_eq!(json_id("math.json"), "math");
    assert_eq!(json_id("readme.md"), "readme.md");
    assert_eq!(json_id("x.json.bak"), "x.bak");
}

#[test]
fn chars_and_equality() {
    assert_eq!(chars_of("héllo"), vec!['h', 'é', 'l', 'l', 'o']);
    assert!(str_eq("latex", "latex"));
    assert!(!str_eq("latex", "latex2"));
    assert!(bytes_spell(&b"typst".to_vec(), "typst"));
    assert!(!bytes_spell(&b"typ".to_vec(), "typst"));
    assert!(bytes_eq(&vec![1, 2], &vec![1, 2]));
    assert!(!bytes_eq(&vec![1, 2], &vec![2, 1]));
}

#[test]
fn build_script_is_found() {
    let names = vec![
        Some("src".to_string()),
        None,
        Some("build.py".to_string()),
        Some("build.py".to_string()),
    ];
    assert_eq!(find_build_script(&names), Some(2));
    let names = vec![Some("Cargo.toml".to_string()), Some("build.pyc".to_string())];
    assert_eq!(find_build_script(&names), None);
    assert_eq!(find_build_script(&vec![]), None);
}
