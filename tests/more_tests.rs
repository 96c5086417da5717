use minigrep::search::{search, search_case_insensitive};
use minigrep::text::{contains, lines};
use minigrep::Config;

fn args(items: &[&str]) -> Vec<String> {
    items.iter().map(|s| s.to_string()).collect()
}

#[test]
fn config_fails_below_three_arguments() {
    assert!(Config::new(&args(&[]), false).is_err());
    assert!(Config::new(&args(&["prog"]), true).is_err());
    assert!(Config::new(&args(&["prog", "query"]), false).is_err());
}

#[test]
fn config_takes_query_and_filename() {
    let c = Config::new(&args(&["prog", "needle", "hay.txt", "extra"]), false).unwrap();
    assert_eq!(c.query, "needle");
    assert_eq!(c.filename, "hay.txt");
    assert!(c.case_sensitive);
}

#[test]
fn config_ignores_case_when_variable_set() {
    let c = Config::new(&args(&["prog", "needle", "hay.txt"]), true).unwrap();
    assert!(!c.case_sensitive);
}

#[test]
fn search_twice_gives_same_lines() {
    let contents = "Rust:\nsafe, fast, productive.\nPick three.\nDuct tape.";
    assert_eq!(search("duct", contents), search("duct", contents));
    assert_eq!(
        search_case_insensitive("duct", contents),
        search_case_insensitive("duct", contents)
    );
}

#[test]
fn empty_query_keeps_every_line() {
    let contents = "one\nTwo\n\nthree\n";
    let all = vec!["one", "Two", "", "three"];
    assert_eq!(search("", contents), all);
    assert_eq!(search_case_insensitive("", contents), all);
}

#[test]
fn case_insensitive_finds_what_case_sensitive_misses() {
    let contents = "Rust:\nsafe, fast, productive.\nPick three.\nDuct tape.";
    assert_eq!(
        search_case_insensitive("duct", contents),
        vec!["safe, fast, productive.", "Duct tape."]
    );
    assert_eq!(search("DUCT", contents), Vec::<&str>::new());
}

#[test]
fn case_insensitive_beyond_ascii() {
    assert_eq!(search_case_insensitive("ÄRGER", "kein ärger\nnichts"), vec!["kein ärger"]);
}

#[test]
fn lines_of_text() {
    assert_eq!(lines(""), Vec::<&str>::new());
    assert_eq!(lines("\n"), vec![""]);
    assert_eq!(lines("a\nb"), vec!["a", "b"]);
    assert_eq!(lines("a\nb\n"), vec!["a", "b"]);
    assert_eq!(lines("a\n\nb"), vec!["a", "", "b"]);
    assert_eq!(lines("é\nü"), vec!["é", "ü"]);
}

#[test]
fn no_trailing_empty_line_in_either_mode() {
    let contents = "match\nother\n";
    assert_eq!(search("", contents), vec!["match", "other"]);
    assert_eq!(search_case_insensitive("", contents), vec!["match", "other"]);
}

#[test]
fn contains_substrings() {
    assert!(contains("productive", "duct"));
    assert!(contains("anything", ""));
    assert!(contains("", ""));
    assert!(!contains("", "a"));
    assert!(!contains("Duct", "duct"));
    assert!(!contains("du", "duct"));
    assert!(contains("aaab", "aab"));
}

#[test]
fn empty_text_has_no_matches() {
    assert_eq!(search("x", ""), Vec::<&str>::new());
    assert_eq!(search_case_insensitive("x", ""), Vec::<&str>::new());
}
