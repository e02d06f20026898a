use vsprojm::{check_selector, refine_by_flags, refine_paths, select_candidates, select_matching, PathPattern, ProjectError};

fn s(v: &[&str]) -> Vec<String> {
    v.iter().map(|x| x.to_string()).collect()
}

#[test]
fn malformed_pattern_is_an_error() {
    match PathPattern::new("foo(") {
        Err(ProjectError::MalformedPattern { pattern }) => assert_eq!(pattern, "foo("),
        _ => panic!("expected MalformedPattern"),
    }
}

#[test]
fn pattern_matches_anywhere() {
    let p = PathPattern::new("util").unwrap();
    assert!(p.matches("src\\util\\a.cpp"));
    assert!(!p.matches("main.cpp"));
}

#[test]
fn refine_keeps_matching_or_negated() {
    let p = PathPattern::new("^src").unwrap();
    let paths = s(&["src\\a.cpp", "test\\b.cpp", "src\\c.cpp"]);
    assert_eq!(refine_paths(&paths, &p, false), s(&["src\\a.cpp", "src\\c.cpp"]));
    assert_eq!(refine_paths(&paths, &p, true), s(&["test\\b.cpp"]));
}

#[test]
fn refine_by_given_flags() {
    let paths = s(&["a", "b", "c"]);
    assert_eq!(refine_by_flags(&paths, &vec![true, false, true], false), s(&["a", "c"]));
    assert_eq!(refine_by_flags(&paths, &vec![true, false, true], true), s(&["b"]));
}

#[test]
fn candidates_by_extension_ignoring_case() {
    let paths = s(&["a.CPP", "b.h", "dir/c.cpp", "d.cppx"]);
    assert_eq!(select_candidates(&paths, "cpp", None, false), vec![0, 2]);
    assert_eq!(select_candidates(&paths, "cpp", Some(&vec![true, true, false, true]), false), vec![0]);
    assert_eq!(select_candidates(&paths, "cpp", Some(&vec![true, true, false, true]), true), vec![2]);
}

#[test]
fn candidates_with_pattern() {
    let paths = s(&["src/a.cpp", "test/b.cpp", "c.cpp"]);
    let p = PathPattern::new("^test").unwrap();
    assert_eq!(select_matching(&paths, "cpp", Some(&p), false), vec![1]);
    assert_eq!(select_matching(&paths, "cpp", Some(&p), true), vec![0, 2]);
    assert_eq!(select_matching(&paths, "cpp", None, true), vec![0, 1, 2]);
}

#[test]
fn selector_needs_exactly_one() {
    assert!(check_selector(Some("a"), None).is_ok());
    assert!(check_selector(None, Some("cpp")).is_ok());
    assert!(matches!(check_selector(None, None), Err(ProjectError::InvalidInput { .. })));
    assert!(matches!(check_selector(Some("a"), Some("cpp")), Err(ProjectError::InvalidInput { .. })));
}
