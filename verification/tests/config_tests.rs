use frep::Config;
use frep::ConfigError;

#[test]
fn zero_trailing_tokens_is_missing_query() {
    let r = Config::build(vec![String::from("prog")]);
    assert!(matches!(r, Err(ConfigError::MissingQuery)));
    let r = Config::build(Vec::new());
    assert!(matches!(r, Err(ConfigError::MissingQuery)));
}

#[test]
fn one_trailing_token_is_missing_file_path() {
    let r = Config::build(vec![String::from("prog"), String::from("needle")]);
    assert!(matches!(r, Err(ConfigError::MissingFilePath)));
}

#[test]
fn flag_alone_is_missing_query() {
    let r = Config::build(vec![String::from("prog"), String::from("--ignore-case")]);
    assert!(matches!(r, Err(ConfigError::MissingQuery)));
}

#[test]
fn flag_and_query_is_missing_file_path() {
    let r = Config::build(vec![
        String::from("prog"),
        String::from("--ignore-case"),
        String::from("needle"),
    ]);
    assert!(matches!(r, Err(ConfigError::MissingFilePath)));
}

#[test]
fn two_trailing_tokens_build_a_case_sensitive_config() {
    let c = Config::build(vec![
        String::from("prog"),
        String::from("needle"),
        String::from("haystack.txt"),
    ])
    .unwrap();
    assert!(!c.ignore_case);
    assert_eq!("needle", c.query);
    assert_eq!("haystack.txt", c.file_path);
}

#[test]
fn leading_flag_enables_ignore_case() {
    let c = Config::build(vec![
        String::from("prog"),
        String::from("--ignore-case"),
        String::from("needle"),
        String::from("haystack.txt"),
    ])
    .unwrap();
    assert!(c.ignore_case);
    assert_eq!("needle", c.query);
    assert_eq!("haystack.txt", c.file_path);
}

#[test]
fn flag_elsewhere_is_an_ordinary_token() {
    let c = Config::build(vec![
        String::from("prog"),
        String::from("needle"),
        String::from("--ignore-case"),
    ])
    .unwrap();
    assert!(!c.ignore_case);
    assert_eq!("needle", c.query);
    assert_eq!("--ignore-case", c.file_path);
}

#[test]
fn extra_tokens_are_ignored()  {
    let c = Config::build(vec![
        String::from("prog"),
        String::from("needle"),
        String::from("haystack.txt"),
        String::from("extra"),
    ])
    .unwrap();
    assert_eq!("needle", c.query);
    assert_eq!("haystack.txt", c.file_path);
}
