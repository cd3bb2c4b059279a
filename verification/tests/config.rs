use milligrep::{run, Config, GrepError, ReadFailure};

fn args(words: &[&str]) -> Vec<String> {
    words.iter().map(|word| word.to_string()).collect()
}

#[test]
fn query_and_filename_are_taken_in_order() {
    let config = Config::new(&args(&["prog", "needle", "haystack.txt"]), None).unwrap();
    assert_eq!(config.query, "needle");
    assert_eq!(config.filename, "haystack.txt");
    assert!(config.case_sensitive);
}

#[test]
fn missing_filename_is_an_error() {
    assert_eq!(
        Config::new(&args(&["prog", "foo"]), None),
        Err(GrepError::MissingFilename)
    );
    assert_eq!(
        Config::new(&args(&["prog", "foo"]), Some("1")),
        Err(GrepError::MissingFilename)
    );
}

#[test]
fn missing_query_is_an_error() {
    assert_eq!(
        Config::new(&args(&["prog"]), None),
        Err(GrepError::MissingQuery)
    );
    assert_eq!(Config::new(&args(&[]), None), Err(GrepError::MissingQuery));
}

#[test]
fn further_arguments_are_left_unread() {
    let config = Config::new(&args(&["prog", "q", "f", "extra", "more"]), None).unwrap();
    assert_eq!(
        config,
        Config {
            query: "q".to_string(),
            filename: "f".to_string(),
            case_sensitive: true,
        }
    );
}

#[test]
fn empty_arguments_are_arguments() {
    let config = Config::new(&args(&["", "", ""]), None).unwrap();
    assert_eq!(config.query, "");
    assert_eq!(config.filename, "");
}

#[test]
fn the_variable_counts_by_its_presence() {
    let words = args(&["prog", "q", "f"]);
    assert!(Config::new(&words, None).unwrap().case_sensitive);
    assert!(!Config::new(&words, Some("")).unwrap().case_sensitive);
    assert!(!Config::new(&words, Some("1")).unwrap().case_sensitive);
    assert!(!Config::new(&words, Some("0")).unwrap().case_sensitive);
    assert!(!Config::new(&words, Some("false")).unwrap().case_sensitive);
}

#[test]
fn each_error_has_its_message() {
    assert_eq!(GrepError::MissingQuery.message(), "Didn't get a query string");
    assert_eq!(GrepError::MissingFilename.message(), "Didn't get the file name");
    assert_eq!(
        GrepError::FileReadError(ReadFailure::NotFound).message(),
        "The file was not found"
    );
    assert_eq!(
        GrepError::FileReadError(ReadFailure::PermissionDenied).message(),
        "The file may not be read"
    );
    assert_eq!(
        GrepError::FileReadError(ReadFailure::InvalidText).message(),
        "The file is not valid UTF-8 text"
    );
    assert_eq!(
        GrepError::FileReadError(ReadFailure::Other).message(),
        "The file could not be read"
    );
}

fn config(query: &str, case_sensitive: bool) -> Config {
    Config {
        query: query.to_string(),
        filename: "poem.txt".to_string(),
        case_sensitive,
    }
}

#[test]
fn a_run_writes_the_lines_that_match() {
    let contents = "Rust:\nsafe, fast, productive.\nPick three.\nTrust me.";
    assert_eq!(
        run(&config("rust", true), Ok(contents)),
        Ok(vec!["Trust me."])
    );
    assert_eq!(
        run(&config("rust", false), Ok(contents)),
        Ok(vec!["Rust:", "Trust me."])
    );
    assert_eq!(run(&config("zebra", false), Ok(contents)), Ok(vec![]));
}

#[test]
fn a_run_without_its_file_writes_nothing() {
    for cause in [
        ReadFailure::NotFound,
        ReadFailure::PermissionDenied,
        ReadFailure::InvalidText,
        ReadFailure::Other,
    ] {
        assert_eq!(
            run(&config("", true), Err(cause)),
            Err(GrepError::FileReadError(cause))
        );
        assert_eq!(
            run(&config("", false), Err(cause)),
            Err(GrepError::FileReadError(cause))
        );
    }
}
