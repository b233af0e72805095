use frep::Output;
use frep::search;

#[test]
fn one_result() {
    let query = "rod";
    let contents = "\nRust:\nsafe, fast, productive.\nPick three.\nDuct Tape.";

    assert_eq!(
        vec![Output::new(3, String::from("safe, fast, productive."))],
        search(query, contents, Some(false))
    );
}

#[test]
fn case_insensitive() {
    let query = "rUSt";
    let contents = "\nRust:\nsafe, fast, productive.\nPick three.\nTrust me.";

    assert_eq!(
        vec![
            Output::new(2, String::from("Rust:")),
            Output::new(5, String::from("Trust me."))
        ],
        search(query, contents, Some(true))
    );
}

#[test]
fn scenario_exact_substring() {
    let contents = "Rust:\nsafe, fast, productive.\nPick three.\nDuct Tape.";
    assert_eq!(
        vec![Output::new(2, String::from("safe, fast, productive."))],
        search("duct", contents, Some(false))
    );
}

#[test]
fn scenario_folded_substring() {
    let contents = "Rust:\nsafe, fast, productive.\nPick three.\nTrust me.";
    assert_eq!(
        vec![
            Output::new(1, String::from("Rust:")),
            Output::new(4, String::from("Trust me."))
        ],
        search("rUsT", contents, Some(true))
    );
}

#[test]
fn empty_contents_yields_no_matches() {
    assert_eq!(Vec::<Output>::new(), search("anything", "", Some(false)));
    assert_eq!(Vec::<Output>::new(), search("anything", "", Some(true)));
    assert_eq!(Vec::<Output>::new(), search("", "", Some(false)));
}

#[test]
fn empty_query_matches_every_line() {
    assert_eq!(
        vec![
            Output::new(1, String::from("one")),
            Output::new(2, String::from("two")),
            Output::new(3, String::from("three"))
        ],
        search("", "one\ntwo\nthree", Some(false))
    );
    assert_eq!(
        vec![
            Output::new(1, String::from("one")),
            Output::new(2, String::from("two"))
        ],
        search("", "one\ntwo", Some(true))
    );
}

#[test]
fn identical_calls_yield_identical_results() {
    let contents = "Rust:\nsafe, fast, productive.\nPick three.";
    let first = search("st", contents, Some(true));
    let second = search("st", contents, Some(true));
    assert_eq!(first, second);
}

#[test]
fn case_sensitive_matches_are_a_subset() {
    let contents = "Duct\nduct\nDUCT\nnothing here";
    let sensitive = search("duct", contents, Some(false));
    let insensitive = search("duct", contents, Some(true));
    assert_eq!(vec![Output::new(2, String::from("duct"))], sensitive);
    assert_eq!(
        vec![
            Output::new(1, String::from("Duct")),
            Output::new(2, String::from("duct")),
            Output::new(3, String::from("DUCT"))
        ],
        insensitive
    );
    for m in &sensitive {
        assert!(insensitive.contains(m));
    }
}

#[test]
fn missing_mode_defaults_to_case_sensitive() {
    let contents = "trust\nRust";
    assert_eq!(search("Rust", contents, None), search("Rust", contents, Some(false)));
    assert_eq!(vec![Output::new(2, String::from("Rust"))], search("Rust", contents, None));
}

#[test]
fn carriage_return_line_breaks() {
    assert_eq!(
        vec![
            Output::new(1, String::from("a")),
            Output::new(2, String::from("b")),
            Output::new(3, String::from("c"))
        ],
        search("", "a\r\nb\nc\n", Some(false))
    );
}

#[test]
fn lone_carriage_return_stays_in_line() {
    assert_eq!(
        vec![Output::new(1, String::from("a\rb"))],
        search("", "a\rb", Some(false))
    );
}

#[test]
fn folding_is_ascii_only() {
    let contents = "STRASSE\nstrasse";
    assert_eq!(
        vec![
            Output::new(1, String::from("STRASSE")),
            Output::new(2, String::from("strasse"))
        ],
        search("StRaSsE", contents, Some(true))
    );
}

#[test]
fn output_new_pairs_number_and_line() {
    let m = Output::new(7, String::from("needle"));
    assert_eq!(7, m.line_number);
    assert_eq!("needle", m.line);
}
