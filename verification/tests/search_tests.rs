use minigrep::search;
use minigrep::search_case_insensitive;

#[test]
fn case_sensitive() {
    let query = "duct";
    let contents = "\
Rust:
safe, fast, productive.
Pick three.
Duct tape.";

    assert_eq!(vec!["safe, fast, productive."], search(query, contents));
}

#[test]
fn case_insensitive() {
    let query = "rUsT";
    let contents = "\
Rust:
safe, fast, productive.
Pick three.
Trust me.";

    assert_eq!(vec!["Rust:", "Trust me."], search_case_insensitive(query, contents));
}

#[test]
fn empty_query_returns_every_line() {
    let contents = "one\ntwo\nthree";
    assert_eq!(vec!["one", "two", "three"], search("", contents));
}

#[test]
fn empty_text_returns_nothing() {
    let result = search("anything", "");
    assert!(result.is_empty());
}

#[test]
fn empty_query_and_trailing_newline() {
    let contents = "one\ntwo\n";
    assert_eq!(vec!["one", "two"], search("", contents));
}

#[test]
fn search_is_idempotent() {
    let query = "st";
    let contents = "Rust:\nsafe, fast, productive.\nPick three.";
    let first = search(query, contents);
    let second = search(query, contents);
    assert_eq!(first, second);
}

#[test]
fn case_insensitive_returns_at_least_as_much() {
    let query = "RUST";
    let contents = "Rust:\nTrust me.\nrust never sleeps";
    let exact = search(query, contents);
    let folded = search_case_insensitive(query, contents);
    assert!(exact.len() <= folded.len());
    assert_eq!(0, exact.len());
    assert_eq!(vec!["Rust:", "Trust me.", "rust never sleeps"], folded);
}

#[test]
fn carriage_returns_are_stripped_before_matching() {
    let contents = "one\r\ntwo\r\nthree";
    assert_eq!(vec!["one"], search("one", contents));
    assert_eq!(vec!["one", "two", "three"], search("", contents));
}

#[test]
fn lone_carriage_return_stays_on_last_line() {
    let contents = "one\r";
    assert_eq!(vec!["one\r"], search("", contents));
}

#[test]
fn query_spanning_lines_does_not_match() {
    let contents = "ab\ncd";
    assert!(search("b\nc", contents).is_empty());
    assert!(search("bc", contents).is_empty());
}

#[test]
fn case_insensitive_keeps_original_casing() {
    let contents = "SHOUTING line\nquiet line";
    assert_eq!(vec!["SHOUTING line"], search_case_insensitive("shouting", contents));
}
