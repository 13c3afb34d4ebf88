use datapeak::env_vars::{contains_env_variables, match_all_env_variables};

#[test]
fn plain_path_holds_no_variables() {
    assert!(!contains_env_variables("web::reqs::count"));
}

#[test]
fn braced_reference_is_detected() {
    assert!(contains_env_variables("{{HOST}}::reqs::count"));
}

#[test]
fn all_references_are_found_with_spans() {
    let ms = match_all_env_variables("a {{X}} b {{Y}}");
    assert_eq!(ms.len(), 2);
    assert_eq!(ms[0].text, "{{X}}");
    assert_eq!(ms[0].start, 2);
    assert_eq!(ms[0].end, 7);
    assert_eq!(ms[1].text, "{{Y}}");
    assert_eq!(ms[1].start, 10);
    assert_eq!(ms[1].end, 15);
}

#[test]
fn unclosed_braces_do_not_match() {
    assert!(!contains_env_variables("{{OPEN"));
    assert!(match_all_env_variables("{{OPEN").is_empty());
}
