use minigrep::search;
use minigrep::search_case_insensitive;
use minigrep::split_lines;
use minigrep::Config;

#[test]
fn case_sensitive() {
    let query = "duct";
    let contents = "\
Rust:
safe, fast, productive.
Pick three.
Duct tape.";

    assert_eq!(vec!["safe, fast, productive."], search(query, contents));
}

#[test]
fn case_insensitive() {
    let query = "rUsT";
    let contents = "\
Rust:
safe, fast, productive.
Pick three.
Trust me.";

    assert_eq!(
        vec!["Rust:", "Trust me."],
        search_case_insensitive(query, contents)
    );
}

#[test]
fn repeated_lines_kept_in_order() {
    let contents = "a dup here\nother\na dup here\nend dup";
    assert_eq!(
        vec!["a dup here", "a dup here", "end dup"],
        search("dup", contents)
    );
}

#[test]
fn insensitive_is_superset_of_sensitive() {
    let contents = "Rust:\nrusty nail\nno match\nTRUSTY";
    let sensitive = search("rust", contents);
    let insensitive = search_case_insensitive("rust", contents);
    assert_eq!(vec!["rusty nail"], sensitive);
    assert_eq!(vec!["Rust:", "rusty nail", "TRUSTY"], insensitive);
    for line in &sensitive {
        assert!(insensitive.contains(line));
    }
}

#[test]
fn search_is_deterministic() {
    let contents = "one\ntwo\nthree";
    assert_eq!(search("t", contents), search("t", contents));
    assert_eq!(
        search_case_insensitive("T", contents),
        search_case_insensitive("T", contents)
    );
}

#[test]
fn empty_query_matches_every_line() {
    let contents = "first\nsecond\nthird";
    assert_eq!(vec!["first", "second", "third"], search("", contents));
    assert_eq!(
        vec!["first", "second", "third"],
        search_case_insensitive("", contents)
    );
}

#[test]
fn empty_contents_match_nothing() {
    assert_eq!(Vec::<&str>::new(), search("x", ""));
    assert_eq!(Vec::<&str>::new(), search("", ""));
    assert_eq!(Vec::<&str>::new(), search_case_insensitive("", ""));
}

#[test]
fn trailing_newline_opens_no_extra_line() {
    assert_eq!(vec!["a", "b"], search("", "a\nb\n"));
}

#[test]
fn carriage_return_before_newline_is_stripped() {
    assert_eq!(vec!["alpha", "beta"], search("", "alpha\r\nbeta"));
    assert_eq!(vec!["alpha"], search("alpha", "alpha\r\nbeta"));
}

#[test]
fn lone_carriage_return_at_end_is_kept() {
    assert_eq!(vec!["x\r"], search("", "x\r"));
}

#[test]
fn newline_alone_is_one_empty_line() {
    assert_eq!(vec![""], search("", "\n"));
    assert_eq!(Vec::<&str>::new(), search("q", "\n"));
}

#[test]
fn query_longer_than_line_matches_nothing() {
    assert_eq!(Vec::<&str>::new(), search("longer than line", "short"));
}

#[test]
fn lowercasing_covers_all_letters() {
    // Lowercasing is full Unicode lowercasing, not an ASCII-only fold.
    assert_eq!(vec!["\u{00C9}"], search_case_insensitive("\u{00E9}", "\u{00C9}"));
    assert_eq!(vec!["\u{03A3}x"], search_case_insensitive("\u{03C3}", "\u{03A3}x"));
}

#[test]
fn split_lines_matches_line_rules() {
    assert_eq!(Vec::<&str>::new(), split_lines(""));
    assert_eq!(vec![""], split_lines("\n"));
    assert_eq!(vec!["a", "", "b"], split_lines("a\n\nb"));
    assert_eq!(vec!["a", "b"], split_lines("a\r\nb\n"));
}

#[test]
fn matching_lines_honors_case_flag() {
    let contents = "Rust:\nrusty nail";
    let sensitive = Config {
        query: String::from("Rust"),
        file_path: String::from("unused"),
        ignore_case: false,
    };
    let insensitive = Config {
        query: String::from("Rust"),
        file_path: String::from("unused"),
        ignore_case: true,
    };
    assert_eq!(vec!["Rust:"], minigrep::matching_lines(&sensitive, contents));
    assert_eq!(
        vec!["Rust:", "rusty nail"],
        minigrep::matching_lines(&insensitive, contents)
    );
}
