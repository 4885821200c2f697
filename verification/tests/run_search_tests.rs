use minigrep::run_search;
use minigrep::Config;

#[test]
fn run_search_sensitive_mode() {
    let config = Config {
        query: String::from("duct"),
        filename: String::from("poem.txt"),
        case_sensitive: true,
    };
    let contents = "\
Rust:
safe, fast, productive.
Pick three.
Duct tape.";

    assert_eq!(vec!["safe, fast, productive."], run_search(&config, contents));
}

#[test]
fn run_search_insensitive_mode() {
    let config = Config {
        query: String::from("rUsT"),
        filename: String::from("poem.txt"),
        case_sensitive: false,
    };
    let contents = "\
Rust:
safe, fast, productive.
Pick three.
Trust me.";

    assert_eq!(vec!["Rust:", "Trust me."], run_search(&config, contents));
}
