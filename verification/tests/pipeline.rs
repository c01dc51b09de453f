use minigrep::config::{SearchConfig, SearchError};
use minigrep::runner::run_loaded;

fn config(query: &str, case_insensitive: bool) -> SearchConfig {
    SearchConfig {
        query: query.to_string(),
        file_path: "poem.txt".to_string(),
        case_insensitive,
    }
}

const POEM: &str = "Rust:\nsafe, fast, productive.\nPick three.\nDuct tape.";

#[test]
fn successful_load_yields_matching_lines() {
    let result = run_loaded(&config("duct", false), Ok(POEM.to_string())).unwrap();
    assert_eq!(result, vec!["safe, fast, productive.".to_string()]);
}

#[test]
fn successful_load_without_matches_is_still_success() {
    let result = run_loaded(&config("monkey", false), Ok(POEM.to_string())).unwrap();
    assert!(result.is_empty());
}

#[test]
fn case_flag_reaches_the_engine() {
    let result = run_loaded(&config("duct", true), Ok(POEM.to_string())).unwrap();
    assert_eq!(
        result,
        vec!["safe, fast, productive.".to_string(), "Duct tape.".to_string()]
    );
}

#[test]
fn failed_load_forwards_the_cause_unchanged() {
    let outcome = run_loaded(
        &config("duct", false),
        Err("No such file or directory (os error 2)".to_string()),
    );
    match outcome {
        Err(SearchError::FileReadError(cause)) => {
            assert_eq!(cause, "No such file or directory (os error 2)");
        }
        _ => panic!("expected a FileReadError"),
    }
}

#[test]
fn running_twice_gives_identical_match_sets() {
    let first = run_loaded(&config("duct", true), Ok(POEM.to_string())).unwrap();
    let second = run_loaded(&config("duct", true), Ok(POEM.to_string())).unwrap();
    assert_eq!(first, second);
}
