use unic::config::ArgsError;
use unic::{config_from_matches, input_failure, parse_config, Config};

fn args(words: &[&str]) -> Vec<String> {
    words.iter().map(|s| s.to_string()).collect()
}

#[test]
fn test_parse_config_all_provided() {
    // It's important to pass in the first arg as some string otherwise clap considers our
    // -c flag as the program name and only picks up the in_file and out_file from the args!
    let args_1 = vec!["my-executable", "-c", "infile", "outfile"]
        .iter()
        .map(|s| s.to_string())
        .collect();
    let res_1 = parse_config(args_1);

    assert!(res_1.is_ok());
    assert_eq!(
        res_1.unwrap(),
        Config {
            in_file: "infile".to_string(),
            out_file: Some("outfile".to_string()),
            show_count: true,
        }
    )
}

#[test]
fn test_parse_config_no_args() {
    let args_1 = vec!["my-executable".to_string()];
    let res_1 = parse_config(args_1);

    assert!(res_1.is_ok());
    assert_eq!(
        res_1.unwrap(),
        Config {
            in_file: "-".to_string(),
            out_file: None,
            show_count: false,
        }
    )
}

#[test]
fn input_alone_leaves_output_open() {
    assert_eq!(
        parse_config(args(&["unic", "in.txt"])),
        Ok(Config { in_file: "in.txt".to_string(), out_file: None, show_count: false })
    );
}

#[test]
fn long_flag_asks_for_counts() {
    assert_eq!(
        parse_config(args(&["unic", "--count"])),
        Ok(Config { in_file: "-".to_string(), out_file: None, show_count: true })
    );
}

#[test]
fn flag_may_follow_the_paths() {
    assert_eq!(
        parse_config(args(&["unic", "in.txt", "out.txt", "-c"])),
        Ok(Config {
            in_file: "in.txt".to_string(),
            out_file: Some("out.txt".to_string()),
            show_count: true,
        })
    );
}

#[test]
fn unknown_flag_is_refused() {
    let error: ArgsError = parse_config(args(&["unic", "-x"])).unwrap_err();
    assert!(error.refused);
    assert_eq!(error.exit_status(), 2);
    assert!(error.message.contains("-x"));
}

#[test]
fn third_path_is_refused() {
    let error = parse_config(args(&["unic", "a", "b", "c"])).unwrap_err();
    assert!(error.refused);
    assert_eq!(error.exit_status(), 2);
}

#[test]
fn help_is_answered_not_refused() {
    let error = parse_config(args(&["unic", "--help"])).unwrap_err();
    assert!(!error.refused);
    assert_eq!(error.exit_status(), 0);
    assert!(error.message.contains("--count"));
    assert!(error.message.contains("Prefix lines by the number of occurrences"));
}

#[test]
fn version_is_answered_not_refused() {
    let error = parse_config(args(&["unic", "--version"])).unwrap_err();
    assert!(!error.refused);
    assert_eq!(error.exit_status(), 0);
    assert!(error.message.contains("1.0.0"));
}

#[test]
fn missing_input_defaults_to_standard_input() {
    let config = config_from_matches(None, Some("out".to_string()), true);
    assert_eq!(
        config,
        Config { in_file: "-".to_string(), out_file: Some("out".to_string()), show_count: true }
    );
    assert!(config.reads_standard_input());
}

#[test]
fn matched_values_are_kept() {
    let config = config_from_matches(Some("in".to_string()), None, false);
    assert_eq!(config, Config { in_file: "in".to_string(), out_file: None, show_count: false });
    assert!(!config.reads_standard_input());
}

#[test]
fn only_a_lone_dash_is_standard_input() {
    let dash = Config { in_file: "-".to_string(), out_file: None, show_count: false };
    let dashes = Config { in_file: "--".to_string(), out_file: None, show_count: false };
    let empty = Config { in_file: "".to_string(), out_file: None, show_count: false };
    assert!(dash.reads_standard_input());
    assert!(!dashes.reads_standard_input());
    assert!(!empty.reads_standard_input());
}

#[test]
fn input_failure_names_program_and_path() {
    assert_eq!(
        input_failure("missing.txt", "No such file or directory (os error 2)"),
        "unic: missing.txt: No such file or directory (os error 2)"
    );
    assert_eq!(input_failure("", ""), "unic: : ");
}
