use minigrep::Config;
use minigrep::ConfigError;

#[test]
fn no_query() {
    let args = vec![String::new()];
    assert_eq!(Err(ConfigError::MissingQuery), Config::new(&args, false));
    assert_eq!("Didn't get a query string", ConfigError::MissingQuery.message());
}

#[test]
fn no_file_name() {
    let args = vec![String::new(), String::from("the")];
    assert_eq!(Err(ConfigError::MissingFilename), Config::new(&args, false));
    assert_eq!("Didn't get a file name", ConfigError::MissingFilename.message());
}

#[test]
fn creates_config_case_sensitive() {
    let config = Config {
        query: String::from("the"),
        filename: String::from("poem.txt"),
        case_sensitive: true,
    };
    let args = vec![String::new(), String::from("the"), String::from("poem.txt")];
    assert_eq!(Ok(config), Config::new(&args, false));
}

#[test]
fn creates_config_case_insensitive() {
    let config = Config {
        query: String::from("the"),
        filename: String::from("poem.txt"),
        case_sensitive: false,
    };
    let args = vec![String::new(), String::from("the"), String::from("poem.txt")];
    assert_eq!(Ok(config), Config::new(&args, true));
}

#[test]
fn resolution_fails_in_order_of_the_missing_argument() {
    let args = vec![String::from("prog")];
    assert_eq!(Err(ConfigError::MissingQuery), Config::new(&args, false));
    let args = vec![String::from("prog"), String::from("the")];
    assert_eq!(Err(ConfigError::MissingFilename), Config::new(&args, false));
}

#[test]
fn empty_argument_list_misses_the_query() {
    let args: Vec<String> = Vec::new();
    assert_eq!(Err(ConfigError::MissingQuery), Config::new(&args, false));
}

#[test]
fn extra_arguments_are_ignored() {
    let args = vec![
        String::from("prog"),
        String::from("the"),
        String::from("poem.txt"),
        String::from("--verbose"),
        String::from("extra"),
    ];
    let config = Config::new(&args, false).unwrap();
    assert_eq!("the", config.query);
    assert_eq!("poem.txt", config.filename);
    assert!(config.case_sensitive);
}
