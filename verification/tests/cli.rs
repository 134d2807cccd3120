use fabric_installer::cli::{cache_dir_path, check_args, usize_to_string, CliDecision};

#[test]
fn one_argument_proceeds_with_it_as_version() {
    let args = vec!["1.20.4".to_string()];
    match check_args(&args) {
        CliDecision::Proceed { version } => assert_eq!(version, "1.20.4"),
        CliDecision::Usage { .. } => panic!("one argument must proceed"),
    }
}

#[test]
fn zero_arguments_stop_with_usage_diagnostic() {
    let args: Vec<String> = Vec::new();
    match check_args(&args) {
        CliDecision::Usage { message } => {
            assert_eq!(message, "Expected 1 argument, got 0");
        }
        CliDecision::Proceed { .. } => panic!("zero arguments must stop"),
    }
}

#[test]
fn two_arguments_stop_with_usage_diagnostic() {
    let args = vec!["a".to_string(), "b".to_string()];
    match check_args(&args) {
        CliDecision::Usage { message } => {
            assert_eq!(message, "Expected 1 argument, got 2");
        }
        CliDecision::Proceed { .. } => panic!("two arguments must stop"),
    }
}

#[test]
fn decimal_formatting_is_exact() {
    assert_eq!(usize_to_string(0), "0");
    assert_eq!(usize_to_string(7), "7");
    assert_eq!(usize_to_string(10), "10");
    assert_eq!(usize_to_string(123), "123");
    assert_eq!(usize_to_string(90210), "90210");
}

#[test]
fn cache_dir_is_derived_from_home() {
    assert_eq!(cache_dir_path("/home/user"), "/home/user/.cache/fabric-installers/");
}
