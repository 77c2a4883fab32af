use devspin_cli::config::Service;
use devspin_cli::start::{any_blank, RunMode, StartArgs};
use devspin_cli::text::{contains_name, is_ascii_alphanumeric, is_blank};
use devspin_cli::ToolError;

fn service(name: &str) -> Service {
    Service {
        name: name.to_string(),
        service_type: "web".to_string(),
        command: "true".to_string(),
        working_dir: None,
        health_check: None,
        dependencies: Vec::new(),
    }
}

fn args(only: Option<&[&str]>, skip: Option<&[&str]>) -> StartArgs {
    StartArgs {
        name: "demo".to_string(),
        env: None,
        verbose: false,
        background: false,
        dry_run: false,
        only: only.map(|names| names.iter().map(|n| n.to_string()).collect()),
        skip: skip.map(|names| names.iter().map(|n| n.to_string()).collect()),
    }
}

fn config_error(result: Result<(), ToolError>) -> String {
    match result {
        Err(ToolError::ConfigError(reason)) => reason,
        other => panic!("expected a configuration error, got {:?}", other),
    }
}

#[test]
fn without_filters_every_service_starts() {
    let a = args(None, None);
    assert!(a.should_start_service(&service("A")));
    assert!(a.should_start_service(&service("")));
}

#[test]
fn an_only_list_lets_its_names_start() {
    let a = args(Some(&["A", "C"]), None);
    assert!(a.should_start_service(&service("A")));
    assert!(!a.should_start_service(&service("B")));
    assert!(a.should_start_service(&service("C")));
    assert!(!a.should_start_service(&service("a")));
}

#[test]
fn an_empty_only_list_lets_nothing_start() {
    let a = args(Some(&[]), None);
    assert!(!a.should_start_service(&service("A")));
}

#[test]
fn a_skip_list_keeps_its_names_from_starting() {
    let a = args(None, Some(&["B"]));
    assert!(a.should_start_service(&service("A")));
    assert!(!a.should_start_service(&service("B")));
}

#[test]
fn with_both_lists_a_service_must_pass_both() {
    let a = args(Some(&["A", "B"]), Some(&["B"]));
    assert!(a.should_start_service(&service("A")));
    assert!(!a.should_start_service(&service("B")));
    assert!(!a.should_start_service(&service("C")));
}

#[test]
fn plain_arguments_are_valid() {
    assert!(args(None, None).validate_args().is_ok());
    assert!(args(Some(&["api"]), None).validate_args().is_ok());
    assert!(args(None, Some(&["api", "web"])).validate_args().is_ok());
    assert!(args(Some(&[]), None).validate_args().is_ok());
}

#[test]
fn both_filters_at_once_are_a_configuration_error() {
    let reason = config_error(args(Some(&["A"]), Some(&["B"])).validate_args());
    assert_eq!(reason, "Cannot use both --only and --skip filters simultaneously");
}

#[test]
fn both_filters_are_refused_before_blank_names() {
    let reason = config_error(args(Some(&[""]), Some(&[" "])).validate_args());
    assert_eq!(reason, "Cannot use both --only and --skip filters simultaneously");
}

#[test]
fn a_blank_name_in_the_only_list_is_a_configuration_error() {
    assert_eq!(
        config_error(args(Some(&["api", ""]), None).validate_args()),
        "Empty service name in --only filter"
    );
    assert_eq!(
        config_error(args(Some(&["  \t"]), None).validate_args()),
        "Empty service name in --only filter"
    );
}

#[test]
fn a_blank_name_in_the_skip_list_is_a_configuration_error() {
    assert_eq!(
        config_error(args(None, Some(&[" ", "api"])).validate_args()),
        "Empty service name in --skip filter"
    );
}

#[test]
fn blank_texts_hold_only_white_space() {
    assert!(is_blank(""));
    assert!(is_blank(" "));
    assert!(is_blank(" \t\n\u{a0}"));
    assert!(!is_blank("a"));
    assert!(!is_blank("  a  "));
    assert!(!is_blank("越"));
    assert!(any_blank(&vec!["a".to_string(), " ".to_string()]));
    assert!(!any_blank(&vec!["a".to_string(), "b c".to_string()]));
    assert!(!any_blank(&Vec::new()));
}

#[test]
fn names_are_found_in_a_list_as_they_are_written() {
    let names = vec!["api".to_string(), "web".to_string()];
    assert!(contains_name(&names, "api"));
    assert!(contains_name(&names, "web"));
    assert!(!contains_name(&names, "Web"));
    assert!(!contains_name(&names, "ap"));
    assert!(!contains_name(&Vec::new(), "api"));
}

#[test]
fn letters_and_digits_of_ascii_are_alphanumeric() {
    for c in ['a', 'z', 'A', 'Z', '0', '9', 'm', 'Q', '5'] {
        assert!(is_ascii_alphanumeric(c));
    }
    for c in ['-', '_', ' ', '@', '[', '`', '{', '/', ':', 'é', '٣'] {
        assert!(!is_ascii_alphanumeric(c));
    }
}

#[test]
fn the_mode_is_a_dry_run_before_all_else() {
    let mut a = args(None, None);
    assert_eq!(a.mode(), RunMode::Foreground);
    a.background = true;
    assert_eq!(a.mode(), RunMode::Background);
    a.dry_run = true;
    assert_eq!(a.mode(), RunMode::DryRun);
    a.background = false;
    assert_eq!(a.mode(), RunMode::DryRun);
}

#[test]
fn the_configuration_lies_in_the_directory_of_the_project() {
    let mut a = args(None, None);
    assert_eq!(a.config_path(), "demo/devspin.yaml");
    a.name = "tests/fixtures/verbose-project".to_string();
    assert_eq!(a.config_path(), "tests/fixtures/verbose-project/devspin.yaml");
}
