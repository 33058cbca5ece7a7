use minigrep::Config;
use minigrep::ConfigError;

fn args(parts: &[&str]) -> Vec<String> {
    parts.iter().map(|p| p.to_string()).collect()
}

#[test]
fn missing_query_is_reported() {
    let r = Config::build(args(&["prog"]), false);
    assert_eq!(Err(ConfigError::MissingQuery), r);
    assert_eq!(
        "Didn't get a query string",
        ConfigError::MissingQuery.message()
    );
}

#[test]
fn empty_args_miss_the_query() {
    assert_eq!(Err(ConfigError::MissingQuery), Config::build(args(&[]), false));
}

#[test]
fn missing_file_path_is_reported() {
    let r = Config::build(args(&["prog", "needle"]), false);
    assert_eq!(Err(ConfigError::MissingFilePath), r);
    assert_eq!(
        "Didn't get a file path",
        ConfigError::MissingFilePath.message()
    );
}

#[test]
fn two_positional_args_build_a_config() {
    let config = Config::build(args(&["prog", "needle", "hay.txt"]), false).unwrap();
    assert_eq!("needle", config.query);
    assert_eq!("hay.txt", config.file_path);
    assert!(!config.ignore_case);
}

#[test]
fn extra_args_are_ignored() {
    let config = Config::build(args(&["prog", "a", "b", "c", "d"]), false).unwrap();
    assert_eq!("a", config.query);
    assert_eq!("b", config.file_path);
}

#[test]
fn env_presence_sets_ignore_case() {
    let on = Config::build(args(&["prog", "q", "f"]), true).unwrap();
    assert!(on.ignore_case);
    let off = Config::build(args(&["prog", "q", "f"]), false).unwrap();
    assert!(!off.ignore_case);
}
