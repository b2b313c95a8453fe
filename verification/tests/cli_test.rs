use movefmt::cli::{
    apply_options, check_verbosity_flags, determine_operation, emit_mode_from_emit_str,
    is_move_source_name, split_key_vals, CliError, FormattingError, HelpOp, Operation,
    OperationError,
};
use movefmt::comment::RichChar;
use movefmt::comment_rewrite::CodeBlockAttribute;
use movefmt::config::{Config, EmitMode, Verbosity};

#[test]
fn emit_modes() {
    assert_eq!(emit_mode_from_emit_str("overwrite"), Ok(EmitMode::Overwrite));
    assert_eq!(emit_mode_from_emit_str("new_file"), Ok(EmitMode::NewFile));
    assert_eq!(emit_mode_from_emit_str("stdout"), Ok(EmitMode::Stdout));
    assert_eq!(emit_mode_from_emit_str("diff"), Ok(EmitMode::Diff));
    assert_eq!(emit_mode_from_emit_str("files"), Err(CliError::InvalidEmit));
}

#[test]
fn verbose_and_quiet_conflict() {
    assert_eq!(check_verbosity_flags(true, true), Err(CliError::VerboseAndQuiet));
    assert_eq!(check_verbosity_flags(true, false), Ok(()));
    assert_eq!(check_verbosity_flags(false, true), Ok(()));
}

#[test]
fn options_override_config() {
    let mut config = Config::default();
    apply_options(Some(true), None, Some(EmitMode::Stdout), &mut config);
    assert_eq!(config.verbose, Verbosity::Verbose);
    assert_eq!(config.emit_mode, EmitMode::Stdout);
    let mut quiet = Config::default();
    apply_options(None, Some(true), None, &mut quiet);
    assert_eq!(quiet.verbose, Verbosity::Quiet);
    assert_eq!(quiet.emit_mode, EmitMode::Overwrite);
}

#[test]
fn key_val_lists() {
    let kvs = split_key_vals("max_width=80,tab_spaces=2").unwrap();
    assert_eq!(
        kvs,
        vec![
            ("max_width".to_string(), "80".to_string()),
            ("tab_spaces".to_string(), "2".to_string())
        ]
    );
    let eq_in_val = split_key_vals("a=b=c").unwrap();
    assert_eq!(eq_in_val, vec![("a".to_string(), "b=c".to_string())]);
    assert_eq!(
        split_key_vals("a=1,oops"),
        Err(CliError::NotKeyVal("oops".to_string()))
    );
    assert_eq!(split_key_vals(""), Err(CliError::NotKeyVal("".to_string())));
}

#[test]
fn move_source_names() {
    assert!(is_move_source_name("coin.move"));
    assert!(!is_move_source_name("coin.fmt.move"));
    assert!(!is_move_source_name("coin.out.move"));
    assert!(!is_move_source_name("coin.rs"));
    assert!(!is_move_source_name("move"));
}

#[test]
fn operations() {
    assert_eq!(
        determine_operation(true, None, None, None, false, false),
        Ok(Operation::Help(HelpOp::NoTopic))
    );
    assert_eq!(
        determine_operation(true, Some("config"), None, None, false, false),
        Ok(Operation::Help(HelpOp::Config))
    );
    assert_eq!(
        determine_operation(true, Some("other"), None, None, true, false),
        Ok(Operation::Version)
    );
    assert_eq!(
        determine_operation(false, None, Some("default"), Some("movefmt.toml"), false, false),
        Ok(Operation::ConfigOutputDefault {
            path: Some("movefmt.toml".to_string())
        })
    );
    assert_eq!(
        determine_operation(false, None, Some("current"), None, false, false),
        Ok(Operation::ConfigOutputCurrent { path: None })
    );
    assert_eq!(
        determine_operation(false, None, Some("minimal"), None, false, false),
        Err(OperationError::UnknownPrintConfigTopic("minimal".to_string()))
    );
    assert_eq!(
        determine_operation(false, None, None, None, false, true),
        Ok(Operation::Stdin)
    );
    assert_eq!(
        determine_operation(false, None, None, Some("a.move"), false, false),
        Ok(Operation::Format)
    );
}

#[test]
fn formatting_error_messages() {
    assert_eq!(
        FormattingError::ParseContentError("parse failed".to_string()).message(),
        "parse failed"
    );
    assert_eq!(FormattingError::FmtError("x".to_string()).message(), "x");
}

#[test]
fn rich_chars() {
    assert_eq!('a'.get_char(), 'a');
    assert_eq!((3usize, 'b').get_char(), 'b');
}

#[test]
fn code_block_attributes() {
    assert_eq!(CodeBlockAttribute::new(""), CodeBlockAttribute::Move);
    assert_eq!(CodeBlockAttribute::new(" run , "), CodeBlockAttribute::Move);
    assert_eq!(CodeBlockAttribute::new("rust"), CodeBlockAttribute::NotMove);
    assert_eq!(CodeBlockAttribute::new("run,ignore"), CodeBlockAttribute::NotMove);
}
