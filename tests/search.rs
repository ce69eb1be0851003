use minigrep::config::{NO_FILE_NAME, NO_QUERY};
use minigrep::{search, Config};
use minigrep::report::report;
use minigrep::search::matches_folded;
use minigrep::text::{chars_of, contains, strip_cr};

#[test]
fn one_result() {
    let query = "duct";
    let contents = "\
Rust:
safe, fast, productive.
Pick three.";

    assert_eq!(vec!["safe, fast, productive."], search(query, contents, false));
}

#[test]
fn case_insensitive() {
    let query = "rUsT";
    let contents = "\
Rust:
safe, fast, productive.
Pick three.
Trust me.";

    assert_eq!(vec!["Rust:", "Trust me."], search(query, contents, true));
}

#[test]
fn exact_mode_respects_case() {
    let contents = "Rust:\nsafe, fast, productive.\nPick three.\nTrust me.";
    assert_eq!(vec!["Trust me."], search("rust", contents, false));
    assert_eq!(Vec::<&str>::new(), search("rUsT", contents, false));
}

#[test]
fn exact_mode_keeps_order_and_duplicates() {
    let contents = "b one\na two\nb three\nb one";
    assert_eq!(vec!["b one", "b three", "b one"], search("b", contents, false));
}

#[test]
fn ignore_case_finds_exact_matches_too() {
    let contents = "Rust:\nsafe, fast, productive.\nPick three.\nTrust me.";
    let exact = search("st", contents, false);
    let folded = search("st", contents, true);
    for line in &exact {
        assert!(folded.contains(line));
    }
    assert_eq!(vec!["Rust:", "safe, fast, productive.", "Trust me."], folded);
}

#[test]
fn repeated_search_gives_same_lines() {
    let contents = "Rust:\nsafe, fast, productive.\nPick three.\nTrust me.";
    assert_eq!(search("t", contents, true), search("t", contents, true));
    assert_eq!(search("t", contents, false), search("t", contents, false));
}

#[test]
fn empty_text_has_no_match() {
    assert_eq!(Vec::<&str>::new(), search("a", "", false));
    assert_eq!(Vec::<&str>::new(), search("a", "", true));
}

#[test]
fn query_equal_to_line_matches_once() {
    let contents = "alpha\nbeta\ngamma";
    assert_eq!(vec!["beta"], search("beta", contents, false));
    assert_eq!(vec!["beta"], search("beta", contents, true));
}

#[test]
fn absent_query_has_no_match() {
    let contents = "Rust:\nsafe, fast, productive.\nPick three.";
    assert_eq!(Vec::<&str>::new(), search("xyz", contents, false));
    assert_eq!(Vec::<&str>::new(), search("xyz", contents, true));
}

#[test]
fn query_longer_than_every_line_has_no_match() {
    assert_eq!(Vec::<&str>::new(), search("abcdefgh", "abc\nabcdefg", false));
}

#[test]
fn empty_lines_never_match() {
    assert_eq!(vec!["x"], search("x", "\n\nx\n\n", false));
}

#[test]
fn crlf_line_endings_are_stripped() {
    assert_eq!(vec!["one", "two"], search("o", "one\r\ntwo\r\nsix", false));
}

#[test]
fn trailing_newline_adds_no_line() {
    assert_eq!(vec!["a", "b"], search("", "a\nb\n", false));
}

#[test]
fn lone_carriage_return_at_end_stays() {
    assert_eq!(vec!["a\r"], search("a", "a\r", false));
}

#[test]
fn non_ascii_text() {
    assert_eq!(vec!["ÉCOLE ü"], search("école", "x\nÉCOLE ü\ny", true));
    assert_eq!(Vec::<&str>::new(), search("école", "x\nÉCOLE ü\ny", false));
}

#[test]
fn report_for_two_files() {
    let contents1 = "Rust:\nsafe, fast, productive.\nPick three.";
    let contents2 = "nothing here";
    let mut out: Vec<String> = Vec::new();
    out.extend(report("poem.txt", &search("duct", contents1, false)));
    out.extend(report("other.txt", &search("duct", contents2, false)));
    assert_eq!(vec!["poem.txt:".to_string(), "safe, fast, productive.".to_string()], out);
}

#[test]
fn report_without_matches_is_empty() {
    assert!(report("a.txt", &Vec::new()).is_empty());
}

fn args(list: &[&str]) -> Vec<String> {
    list.iter().map(|s| s.to_string()).collect()
}

#[test]
fn config_without_query() {
    assert!(matches!(Config::new(args(&["prog"]), None), Err(m) if m == NO_QUERY));
    assert_eq!(NO_QUERY, "Didn't get a query string");
}

#[test]
fn config_without_file_name() {
    assert!(matches!(Config::new(args(&["prog", "q"]), None), Err(m) if m == NO_FILE_NAME));
    assert_eq!(NO_FILE_NAME, "Didn't get a file name");
}

#[test]
fn config_with_files() {
    let c = match Config::new(args(&["prog", "q", "a.txt", "b.txt"]), None) {
        Ok(c) => c,
        Err(m) => panic!("{}", m),
    };
    assert_eq!("q", c.query);
    assert_eq!(vec!["a.txt".to_string(), "b.txt".to_string()], c.filenames);
    assert!(!c.ignore_case);
}

#[test]
fn config_case_setting() {
    let on = Config::new(args(&["p", "q", "f"]), Some("1".to_string())).ok().unwrap();
    assert!(on.ignore_case);
    let off = Config::new(args(&["p", "q", "f"]), Some("true".to_string())).ok().unwrap();
    assert!(!off.ignore_case);
    let zero = Config::new(args(&["p", "q", "f"]), Some("0".to_string())).ok().unwrap();
    assert!(!zero.ignore_case);
}

#[test]
fn contains_is_exact() {
    assert!(contains("safe, fast", "fast"));
    assert!(contains("abc", ""));
    assert!(!contains("abc", "abcd"));
    assert!(!contains("Fast", "fast"));
}

#[test]
fn matches_folded_on_lowered_values() {
    assert!(matches_folded("trust me.", "rust"));
    assert!(!matches_folded("pick three.", "rust"));
}

#[test]
fn strip_cr_removes_one() {
    assert_eq!("a", strip_cr("a\r"));
    assert_eq!("a\r", strip_cr("a\r\r"));
    assert_eq!("a", strip_cr("a"));
    assert_eq!("", strip_cr(""));
}

#[test]
fn chars_of_keeps_order() {
    assert_eq!(vec!['é', 'a', '\n'], chars_of("éa\n"));
}
