use minigrep::Config;
use minigrep::GrepError;
use minigrep::run_search;

#[test]
fn correct_config() {
    let args: Vec<String> = vec![
        String::from("callingprogram"),
        String::from("query"),
        String::from("filename"),
    ];
    let result = Config::new(&args, false);

    assert_eq!(result.is_ok(), true);
}

#[test]
fn incorrect_config() {
    let args: Vec<String> = vec![String::from("callingprogram"), String::from("query")];
    if let Err(error) = Config::new(&args, false) {
        assert_eq!(error.message(), String::from("Not enough arguments"));
    } else {
        panic!("Config returned OK instead of Error");
    }
}

#[test]
fn config_keeps_query_and_filename() {
    let args: Vec<String> = vec![
        String::from("prog"),
        String::from("needle"),
        String::from("haystack.txt"),
    ];
    let config = Config::new(&args, false).unwrap();
    assert_eq!(config.query, "needle");
    assert_eq!(config.filename, "haystack.txt");
}

#[test]
fn environment_toggle_flips_case_mode() {
    let args: Vec<String> = vec![
        String::from("prog"),
        String::from("needle"),
        String::from("haystack.txt"),
    ];
    let with_toggle = Config::new(&args, true).unwrap();
    assert_eq!(with_toggle.case_sensitive, false);
    let without_toggle = Config::new(&args, false).unwrap();
    assert_eq!(without_toggle.case_sensitive, true);
}

#[test]
fn missing_argument_is_its_own_kind() {
    let args: Vec<String> = vec![String::from("prog")];
    let error = Config::new(&args, false).unwrap_err();
    assert!(matches!(error, GrepError::MissingArgument));
}

#[test]
fn io_error_message_carries_the_cause() {
    let error = GrepError::IoError(String::from("No such file or directory"));
    assert_eq!(error.message(), String::from("No such file or directory"));
}

#[test]
fn run_search_follows_case_mode() {
    let args: Vec<String> = vec![
        String::from("prog"),
        String::from("rUsT"),
        String::from("poem.txt"),
    ];
    let contents = "Rust:\nTrust me.\nPick three.";

    let sensitive = Config::new(&args, false).unwrap();
    let none: Vec<&str> = Vec::new();
    assert_eq!(none, run_search(&sensitive, contents));

    let insensitive = Config::new(&args, true).unwrap();
    assert_eq!(vec!["Rust:", "Trust me."], run_search(&insensitive, contents));
}
