use minigrep::search;
use minigrep::search_case_insensitive;

#[test]
fn one_result() {
    let query = "duct";
    let contents = "\
Rust:
safe, fast, productive.
Pick three.";

    assert_eq!(vec!["safe, fast, productive."], search(query, contents));
}

#[test]
fn case_sensitive() {
    let query = "duct";
    let contents = "\
Rust:
safe, fast, productive.
Pick three.
Duct tape.";

    assert_eq!(vec!["safe, fast, productive."], search(query, contents));
}

#[test]
fn case_insensitive() {
    let query = "rUsT";
    let contents = "\
Rust:
safe, fast, productive.
Pick three.
Trust me.";

    assert_eq!(
        vec!["Rust:", "Trust me."],
        search_case_insensitive(query, contents)
    );
}

#[test]
fn empty_query_matches_every_line() {
    let contents = "\
Rust:
safe, fast, productive.
Pick three.";

    assert_eq!(
        vec!["Rust:", "safe, fast, productive.", "Pick three."],
        search("", contents)
    );
}

#[test]
fn no_match_yields_empty_result() {
    let results: Vec<&str> = Vec::new();
    assert_eq!(results, search("needle", "haystack\nwithout it"));
}

#[test]
fn empty_contents_yield_no_lines() {
    let results: Vec<&str> = Vec::new();
    assert_eq!(results, search("", ""));
}

#[test]
fn match_spans_the_whole_line() {
    assert_eq!(vec!["duct"], search("duct", "duct\ntape"));
}

#[test]
fn insensitive_match_emits_the_original_line() {
    assert_eq!(
        vec!["Duct tape."],
        search_case_insensitive("DUCT", "Duct tape.\nPick three.")
    );
}
