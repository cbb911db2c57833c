use kana_drill::commands::Commands;

#[test]
fn recognizes_help() {
    assert!(matches!(Commands::from_str("\\h"), Ok(Commands::Help)));
}

#[test]
fn recognizes_weights() {
    assert!(matches!(Commands::from_str("\\w"), Ok(Commands::Weights)));
}

#[test]
fn recognizes_quit() {
    assert!(matches!(Commands::from_str("\\q"), Ok(Commands::Quit)));
}

#[test]
fn unknown_command_is_a_recoverable_error() {
    let err = Commands::from_str("\\x").unwrap_err();
    assert_eq!(err, "Unknown command");
    assert!(Commands::from_str("\\quit").is_err());
    assert!(Commands::from_str("\\").is_err());
}

#[test]
fn plain_input_is_an_answer() {
    match Commands::from_str("ka") {
        Ok(Commands::Answer(a)) => assert_eq!(a, "ka"),
        _ => panic!("expected an answer"),
    }
}

#[test]
fn empty_input_is_an_answer() {
    match Commands::from_str("") {
        Ok(Commands::Answer(a)) => assert_eq!(a, ""),
        _ => panic!("expected an answer"),
    }
}
