use minigrep::config::{resolve_config, SearchError, EXPECTED_ARGS};

fn argv(parts: &[&str]) -> Vec<String> {
    parts.iter().map(|s| s.to_string()).collect()
}

#[test]
fn resolves_query_path_and_flag() {
    let args = argv(&["prog", "needle", "notes.txt"]);
    let config = resolve_config(&args, false).unwrap();
    assert_eq!(config.query, "needle");
    assert_eq!(config.file_path, "notes.txt");
    assert!(!config.case_insensitive);

    let config = resolve_config(&args, true).unwrap();
    assert!(config.case_insensitive);
}

#[test]
fn zero_positional_arguments_are_missing_arguments() {
    let args = argv(&["prog"]);
    match resolve_config(&args, false) {
        Err(SearchError::MissingArguments { expected, actual }) => {
            assert_eq!(expected, EXPECTED_ARGS);
            assert_eq!(actual, 0);
        }
        _ => panic!("expected a MissingArguments error"),
    }
}

#[test]
fn one_positional_argument_is_missing_arguments() {
    let args = argv(&["prog", "needle"]);
    match resolve_config(&args, false) {
        Err(SearchError::MissingArguments { expected, actual }) => {
            assert_eq!(expected, EXPECTED_ARGS);
            assert_eq!(actual, 1);
        }
        _ => panic!("expected a MissingArguments error"),
    }
}

#[test]
fn three_positional_arguments_are_rejected() {
    let args = argv(&["prog", "needle", "notes.txt", "extra"]);
    match resolve_config(&args, false) {
        Err(SearchError::MissingArguments { expected, actual }) => {
            assert_eq!(expected, EXPECTED_ARGS);
            assert_eq!(actual, 3);
        }
        _ => panic!("expected a MissingArguments error"),
    }
}

#[test]
fn empty_argument_vector_is_missing_arguments() {
    let args: Vec<String> = Vec::new();
    match resolve_config(&args, false) {
        Err(SearchError::MissingArguments { expected, actual }) => {
            assert_eq!(expected, EXPECTED_ARGS);
            assert_eq!(actual, 0);
        }
        _ => panic!("expected a MissingArguments error"),
    }
}

#[test]
fn file_read_error_carries_the_cause() {
    let err = SearchError::FileReadError("No such file or directory".to_string());
    match err {
        SearchError::FileReadError(msg) => assert_eq!(msg, "No such file or directory"),
        _ => panic!("expected a FileReadError"),
    }
}
