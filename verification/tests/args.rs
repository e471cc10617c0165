use bash_builtins::args::Args;
use bash_builtins::errors::Error;
use bash_builtins::errors::HostAction;

#[test]
fn update_word_list_after_arguments() {
    let mut args = Args::new(vec![b"abc".to_vec(), b"def".to_vec()]);

    let string_args = args.string_arguments();
    assert_eq!(string_args.len(), 2);
    assert_eq!(string_args[0].as_ref().unwrap(), &b"abc".to_vec());
    assert_eq!(string_args[1].as_ref().unwrap(), &b"def".to_vec());

    args.finished().unwrap();
}

#[test]
fn string_arguments_reports_invalid_utf8() {
    let mut args = Args::new(vec![b"ok".to_vec(), vec![0xFF, 0xFE]]);
    let items = args.string_arguments();
    assert_eq!(items.len(), 2);
    assert!(items[0].is_ok());
    assert!(items[1].is_err());
}

#[test]
fn is_empty_reflects_word_list() {
    let args = Args::new(Vec::new());
    assert!(args.is_empty());

    let args = Args::new(vec![b"x".to_vec()]);
    assert!(!args.is_empty());
}

#[test]
fn finished_rejects_leftover_arguments() {
    let mut args = Args::new(vec![b"extra".to_vec()]);
    assert!(matches!(args.finished(), Err(Error::Usage)));
    let actions = args.drain_actions();
    assert_eq!(actions, vec![HostAction::TooManyArguments]);
}

#[test]
fn raw_and_path_arguments_consume_words() {
    let mut args = Args::new(vec![b"a".to_vec(), b"b".to_vec()]);
    let raw = args.raw_arguments();
    assert_eq!(raw, vec![b"a".to_vec(), b"b".to_vec()]);
    assert!(args.is_empty());

    let mut args = Args::new(vec![b"/tmp/x".to_vec()]);
    let paths = args.path_arguments();
    assert_eq!(paths, vec![b"/tmp/x".to_vec()]);
    args.finished().unwrap();
}

#[test]
fn scanner_reset_recorded_once_per_call() {
    let mut args = Args::new(vec![b"a".to_vec()]);
    args.options();
    let _ = args.raw_arguments();
    let actions = args.drain_actions();
    let resets = actions
        .iter()
        .filter(|a| matches!(a, HostAction::ResetScanner))
        .count();
    assert_eq!(resets, 1);
}

#[test]
fn no_options_accepts_plain_words() {
    let mut args = Args::new(vec![b"file".to_vec()]);
    assert!(args.no_options().is_ok());
    assert!(args.drain_actions().is_empty());
}

#[test]
fn no_options_accepts_double_dash_and_lone_dash() {
    let mut args = Args::new(vec![b"--".to_vec(), b"rest".to_vec()]);
    assert!(args.no_options().is_ok());

    let mut args = Args::new(vec![b"-".to_vec()]);
    assert!(args.no_options().is_ok());
}

#[test]
fn no_options_rejects_an_option() {
    let mut args = Args::new(vec![b"-x".to_vec()]);
    assert!(matches!(args.no_options(), Err(Error::Usage)));
    assert_eq!(args.drain_actions(), vec![HostAction::DisplayUsage]);
}

#[test]
fn no_options_special_cases_help() {
    let mut args = Args::new(vec![b"--help".to_vec()]);
    assert!(matches!(args.no_options(), Err(Error::Usage)));
    assert_eq!(args.drain_actions(), vec![HostAction::DisplayHelp]);
}
