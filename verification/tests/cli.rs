use viewwitness::cli::{
    output_args, parse_exact_focus_option, validate_exact_focus, CliError, ExactFocus, OutputMode,
};

fn args(v: &[&str]) -> Vec<String> {
    v.iter().map(|s| s.to_string()).collect()
}

#[test]
fn focus_options_are_taken_and_others_left() {
    let mut focus = ExactFocus::new();
    assert!(!focus.is_active());
    assert_eq!(parse_exact_focus_option("--object=showcase:painted-rectangle", &mut focus), Ok(true));
    assert_eq!(parse_exact_focus_option("--binding=handle", &mut focus), Ok(true));
    assert_eq!(parse_exact_focus_option("before.yaml", &mut focus), Ok(false));
    assert_eq!(parse_exact_focus_option("--yaml", &mut focus), Ok(false));
    assert!(focus.is_active());
    assert_eq!(focus.object_id.as_deref(), Some("showcase:painted-rectangle"));
    assert_eq!(focus.binding_id.as_deref(), Some("handle"));
    assert_eq!(validate_exact_focus(&focus, OutputMode::Agent, false), Ok(()));
}

#[test]
fn empty_and_repeated_focus_options_are_refused() {
    let mut focus = ExactFocus::new();
    assert_eq!(parse_exact_focus_option("--object=", &mut focus), Err(CliError::ObjectEmpty));
    assert_eq!(parse_exact_focus_option("--binding=", &mut focus), Err(CliError::BindingEmpty));
    assert_eq!(parse_exact_focus_option("--object=a", &mut focus), Ok(true));
    assert_eq!(parse_exact_focus_option("--object=b", &mut focus), Err(CliError::ObjectRepeated));
    assert_eq!(parse_exact_focus_option("--binding=x", &mut focus), Ok(true));
    assert_eq!(parse_exact_focus_option("--binding=y", &mut focus), Err(CliError::BindingRepeated));
    assert_eq!(CliError::ObjectRepeated.message(), "--object may only be supplied once");
    assert_eq!(CliError::BindingEmpty.message(), "--binding must not be empty");
}

#[test]
fn focus_combinations_are_validated() {
    let binding_only = ExactFocus { object_id: None, binding_id: Some("handle".to_string()) };
    assert_eq!(
        validate_exact_focus(&binding_only, OutputMode::Agent, false),
        Err(CliError::BindingWithoutObject)
    );
    assert_eq!(CliError::BindingWithoutObject.message(), "--binding requires --object");
    let object = ExactFocus { object_id: Some("o".to_string()), binding_id: None };
    assert_eq!(validate_exact_focus(&object, OutputMode::Yaml, false), Err(CliError::FocusWithYaml));
    assert_eq!(validate_exact_focus(&object, OutputMode::Agent, true), Err(CliError::FocusWithDerive));
    assert_eq!(
        CliError::FocusWithYaml.message(),
        "authored focus is an agent-text projection; --object/--binding cannot be combined with --yaml"
    );
    let none = ExactFocus::new();
    assert_eq!(validate_exact_focus(&none, OutputMode::Yaml, true), Ok(()));
}

#[test]
fn output_arguments_split_into_positionals_and_last_mode() {
    let (positionals, mode) = output_args(args(&["before.yaml", "--yaml", "after.yaml"])).unwrap();
    assert_eq!(positionals, args(&["before.yaml", "after.yaml"]));
    assert_eq!(mode, OutputMode::Yaml);
    let (positionals, mode) = output_args(args(&["--yaml", "--agent"])).unwrap();
    assert!(positionals.is_empty());
    assert_eq!(mode, OutputMode::Agent);
    let (positionals, mode) = output_args(Vec::new()).unwrap();
    assert!(positionals.is_empty());
    assert_eq!(mode, OutputMode::Agent);
}

#[test]
fn unknown_options_are_refused_by_name() {
    assert_eq!(
        output_args(args(&["a.yaml", "--bogus", "-x"])),
        Err(CliError::UnknownOption("--bogus".to_string()))
    );
}
