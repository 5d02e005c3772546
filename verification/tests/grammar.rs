use ble_repl::repl::cli::{parse_command, parse_words, CommandError, HelpTopic, ReplCommand};
use ble_repl::text::{is_blank, is_white_space, parse_usize, str_eq};

fn words(line: &[&str]) -> Vec<String> {
    line.iter().map(|w| w.to_string()).collect()
}

fn parse(line: &[&str]) -> Result<ReplCommand, CommandError> {
    parse_command(&words(line))
}

#[test]
fn scan_defaults_to_five_seconds() {
    assert_eq!(parse(&["scan"]), Ok(ReplCommand::Scan { timeout: 5, all: false, list: false }));
}

#[test]
fn scan_with_timeout_and_flags() {
    assert_eq!(
        parse(&["scan", "10", "-a"]),
        Ok(ReplCommand::Scan { timeout: 10, all: true, list: false })
    );
    assert_eq!(
        parse(&["scan", "--list", "--all"]),
        Ok(ReplCommand::Scan { timeout: 5, all: true, list: true })
    );
    assert_eq!(parse(&["scan", "-al"]), Ok(ReplCommand::Scan { timeout: 5, all: true, list: true }));
    assert_eq!(parse(&["scan", "-a", "-a"]), Ok(ReplCommand::Scan { timeout: 5, all: true, list: false }));
    assert_eq!(parse(&["scan", "+7"]), Ok(ReplCommand::Scan { timeout: 7, all: false, list: false }));
}

#[test]
fn scan_rejects_bad_arguments() {
    assert_eq!(parse(&["scan", "5", "6"]), Err(CommandError::UnexpectedArgument("6".to_string())));
    assert_eq!(parse(&["scan", "abc"]), Err(CommandError::InvalidValue("abc".to_string())));
    assert_eq!(
        parse(&["scan", "99999999999999999999999999"]),
        Err(CommandError::InvalidValue("99999999999999999999999999".to_string()))
    );
    assert_eq!(parse(&["scan", "-x"]), Err(CommandError::UnexpectedArgument("-x".to_string())));
    assert_eq!(parse(&["scan", "--fast"]), Err(CommandError::UnexpectedArgument("--fast".to_string())));
    assert_eq!(parse(&["scan", "--", "-5"]), Err(CommandError::InvalidValue("-5".to_string())));
    assert_eq!(parse(&["scan", "-ah"]), Err(CommandError::HelpRequested(HelpTopic::Scan)));
}

#[test]
fn quit_and_its_alias() {
    assert_eq!(parse(&["quit"]), Ok(ReplCommand::Quit));
    assert_eq!(parse(&["exit"]), Ok(ReplCommand::Quit));
    assert_eq!(parse(&["exit", "now"]), Err(CommandError::UnexpectedArgument("now".to_string())));
    assert_eq!(parse(&["quit", "now"]), parse(&["exit", "now"]));
    assert_eq!(parse(&["quit", "--"]), Ok(ReplCommand::Quit));
}

#[test]
fn help_is_asked_for() {
    assert_eq!(parse(&["help"]), Err(CommandError::HelpRequested(HelpTopic::Shell)));
    let topics = [
        ("quit", HelpTopic::Quit),
        ("exit", HelpTopic::Quit),
        ("disconnect", HelpTopic::Disconnect),
        ("scan", HelpTopic::Scan),
        ("connect", HelpTopic::Connect),
    ];
    for (name, topic) in topics {
        assert_eq!(parse(&[name, "--help", "whatever"]), Err(CommandError::HelpRequested(topic)));
        assert_eq!(parse(&[name, "-h"]), Err(CommandError::HelpRequested(topic)));
        assert_eq!(parse(&["help", name]), Err(CommandError::HelpRequested(topic)));
    }
    assert_eq!(parse(&["help", "fly"]), Err(CommandError::UnknownCommand("fly".to_string())));
    assert_eq!(parse(&["help", "help"]), Err(CommandError::HelpRequested(HelpTopic::Help)));
    assert_eq!(parse(&["help", "--help"]), Err(CommandError::UnknownCommand("--help".to_string())));
    assert_eq!(parse(&["help", "scan", "x"]), Err(CommandError::UnknownCommand("x".to_string())));
}

#[test]
fn the_command_is_named_by_the_first_word_stem() {
    assert_eq!(parse(&["x/scan"]), Ok(ReplCommand::Scan { timeout: 5, all: false, list: false }));
    assert_eq!(parse(&["quit.exe"]), Ok(ReplCommand::Quit));
    assert_eq!(parse(&["bin/connect.sh", "-i", "2"]), Ok(ReplCommand::ConnectById(2)));
    assert_eq!(parse(&[".."]), Err(CommandError::HelpRequested(HelpTopic::Shell)));
    assert_eq!(parse(&["..", "scan"]), Err(CommandError::HelpRequested(HelpTopic::Shell)));
    assert_eq!(parse(&["..", "scan", "9"]), Err(CommandError::UnknownCommand("9".to_string())));
    assert_eq!(parse(&["..", "x", "scan", "9"]), Ok(ReplCommand::Scan { timeout: 9, all: false, list: false }));
    assert_eq!(parse(&["./bin//scan/", "-a"]), Ok(ReplCommand::Scan { timeout: 5, all: true, list: false }));
    assert_eq!(parse(&["scan/."]), Ok(ReplCommand::Scan { timeout: 5, all: false, list: false }));
    assert_eq!(parse(&[".quit"]), Err(CommandError::UnknownCommand(".quit".to_string())));
    assert_eq!(parse(&["quit.tar.gz"]), Err(CommandError::UnknownCommand("quit.tar".to_string())));
    assert_eq!(parse(&["quit/.."]), Err(CommandError::HelpRequested(HelpTopic::Shell)));
    assert_eq!(parse(&[":scan"]), Err(CommandError::UnknownCommand(":scan".to_string())));
    assert_eq!(parse(&["a:b/scan"]), Ok(ReplCommand::Scan { timeout: 5, all: false, list: false }));
}

#[test]
fn words_with_a_given_stem() {
    assert_eq!(parse_words(Some("disconnect".to_string()), &words(&["whatever"])), Ok(ReplCommand::Disconnect));
    assert_eq!(parse_words(None, &words(&["x", "y", "quit"])), Ok(ReplCommand::Quit));
    assert_eq!(parse_words(None, &words(&["x", "quit"])), Err(CommandError::HelpRequested(HelpTopic::Shell)));
    assert_eq!(parse_words(None, &words(&["x"])), Err(CommandError::HelpRequested(HelpTopic::Shell)));
    assert_eq!(
        parse_words(Some("quit".to_string()), &Vec::new()),
        Err(CommandError::HelpRequested(HelpTopic::Shell))
    );
}

#[test]
fn missing_and_unknown_commands() {
    assert_eq!(parse(&[]), Err(CommandError::HelpRequested(HelpTopic::Shell)));
    assert_eq!(parse(&["fly"]), Err(CommandError::UnknownCommand("fly".to_string())));
    assert_eq!(parse(&["a/fly"]), Err(CommandError::UnknownCommand("fly".to_string())));
    assert_eq!(parse(&[""]), Err(CommandError::HelpRequested(HelpTopic::Shell)));
}

#[test]
fn connect_by_id_forms() {
    assert_eq!(parse(&["connect", "-i", "3"]), Ok(ReplCommand::ConnectById(3)));
    assert_eq!(parse(&["connect", "--id", "3"]), Ok(ReplCommand::ConnectById(3)));
    assert_eq!(parse(&["connect", "--id=4"]), Ok(ReplCommand::ConnectById(4)));
    assert_eq!(parse(&["connect", "-i5"]), Ok(ReplCommand::ConnectById(5)));
    assert_eq!(parse(&["connect", "-i=6"]), Ok(ReplCommand::ConnectById(6)));
    assert_eq!(parse(&["connect", "--id", "2", "--id", "9"]), Ok(ReplCommand::ConnectById(2)));
}

#[test]
fn connect_by_identifier() {
    assert_eq!(
        parse(&["connect", "AA:BB:CC"]),
        Ok(ReplCommand::ConnectByIdentifier("AA:BB:CC".to_string()))
    );
    assert_eq!(
        parse(&["connect", "--", "-odd"]),
        Ok(ReplCommand::ConnectByIdentifier("-odd".to_string()))
    );
}

#[test]
fn connect_errors() {
    assert_eq!(parse(&["connect", "-i", "1", "dev"]), Err(CommandError::ConflictingArguments));
    assert_eq!(parse(&["connect", "dev", "--id=1"]), Err(CommandError::ConflictingArguments));
    assert_eq!(parse(&["connect"]), Err(CommandError::MissingArgument));
    assert_eq!(parse(&["connect", "-i"]), Err(CommandError::MissingValue));
    assert_eq!(parse(&["connect", "-i", "-3"]), Err(CommandError::MissingValue));
    assert_eq!(parse(&["connect", "-i", "x"]), Err(CommandError::InvalidValue("x".to_string())));
    assert_eq!(parse(&["connect", "--id="]), Err(CommandError::InvalidValue("".to_string())));
    assert_eq!(parse(&["connect", "a", "b"]), Err(CommandError::UnexpectedArgument("b".to_string())));
    assert_eq!(parse(&["connect", "-x"]), Err(CommandError::UnexpectedArgument("-x".to_string())));
}

#[test]
fn disconnect_takes_no_argument() {
    assert_eq!(parse(&["disconnect"]), Ok(ReplCommand::Disconnect));
    assert_eq!(parse(&["disconnect", "x"]), Err(CommandError::UnexpectedArgument("x".to_string())));
}

#[test]
fn usize_numbers() {
    assert_eq!(parse_usize("0"), Some(0));
    assert_eq!(parse_usize("42"), Some(42));
    assert_eq!(parse_usize("+42"), Some(42));
    assert_eq!(parse_usize("+"), None);
    assert_eq!(parse_usize(""), None);
    assert_eq!(parse_usize("-1"), None);
    assert_eq!(parse_usize("4 2"), None);
    assert_eq!(parse_usize(&usize::MAX.to_string()), Some(usize::MAX));
    assert_eq!(parse_usize("18446744073709551616"), None);
}

#[test]
fn string_helpers() {
    assert!(str_eq("héllo", "héllo"));
    assert!(!str_eq("hello", "hell"));
    assert!(!str_eq("abc", "abd"));
    assert!(is_blank(""));
    assert!(is_blank(" \t\n\u{a0}"));
    assert!(!is_blank("  x "));
}

#[test]
fn white_space_is_that_of_std() {
    for code in 0u32..0x110000 {
        if let Some(c) = char::from_u32(code) {
            assert_eq!(is_white_space(c), c.is_whitespace(), "U+{:04X}", code);
        }
    }
}

#[test]
fn command_error_messages() {
    assert_eq!(CommandError::HelpRequested(HelpTopic::Scan).message(), "");
    assert_eq!(
        CommandError::UnknownCommand("fly".to_string()).message(),
        "error: The subcommand 'fly' wasn't recognized"
    );
    assert_eq!(
        CommandError::UnexpectedArgument("x".to_string()).message(),
        "error: Found argument 'x' which wasn't expected, or isn't valid in this context"
    );
    assert_eq!(CommandError::InvalidValue("x".to_string()).message(), "error: Invalid value \"x\": not a number");
    assert_eq!(
        CommandError::MissingValue.message(),
        "error: The argument '--id <id>' requires a value but none was supplied"
    );
    assert_eq!(
        CommandError::ConflictingArguments.message(),
        "error: The argument '--id <id>' cannot be used with '<identifier>'"
    );
    assert_eq!(
        CommandError::MissingArgument.message(),
        "error: The following required arguments were not provided: --id <id> | <identifier>"
    );
}
