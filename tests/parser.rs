use multi_threader::parser::{join_with_spaces, split_words, trim_line, Command, CommandType};

#[test]
fn test_parse_set_command() {
    let cmd: Command = "SET user:1001 John".parse().unwrap();
    match cmd.command_type {
        CommandType::SetKey(key, value) => {
            assert_eq!(key, "user:1001");
            assert_eq!(value, "John");
        }
        _ => panic!("Expected Set command"),
    }
}

#[test]
fn test_parse_get_command() {
    let cmd: Command = "GET user:1001".parse().unwrap();
    match cmd.command_type {
        CommandType::Get(key) => assert_eq!(key, "user:1001"),
        _ => panic!("Expected Get command"),
    }
}

#[test]
fn test_parse_delete_command() {
    let cmd: Command = "DELETE user:1001".parse().unwrap();
    match cmd.command_type {
        CommandType::Delete(key) => assert_eq!(key, "user:1001"),
        _ => panic!("Expected Delete command"),
    }
}

#[test]
fn test_parse_empty_line() {
    let result: Result<Command, String> = "".parse();
    assert!(result.is_err());
}

#[test]
fn test_parse_invalid_command() {
    let result: Result<Command, String> = "INVALID command".parse();
    assert!(result.is_err());
}

#[test]
fn test_parse_set_with_multi_word_value() {
    let cmd: Command = "SET user:1001 John Doe".parse().unwrap();
    match cmd.command_type {
        CommandType::SetKey(key, value) => {
            assert_eq!(key, "user:1001");
            assert_eq!(value, "John Doe");
        }
        _ => panic!("Expected Set command"),
    }
}

#[test]
fn parse_error_messages() {
    assert_eq!(Command::parse("   \t ").err().unwrap(), "Empty line");
    assert_eq!(
        Command::parse("  INVALID foo  ").err().unwrap(),
        "Invalid command: INVALID foo"
    );
    assert_eq!(Command::parse("GET").err().unwrap(), "Invalid command: GET");
    assert_eq!(Command::parse("SET a").err().unwrap(), "Invalid command: SET a");
    assert_eq!(
        Command::parse("GET a b").err().unwrap(),
        "Invalid command: GET a b"
    );
    assert!(Command::parse("get a").is_err());
}

#[test]
fn parse_collapses_any_whitespace_in_values() {
    let cmd = Command::parse("\tSET  k \u{3000} one\t two  ").unwrap();
    match cmd.command_type {
        CommandType::SetKey(key, value) => {
            assert_eq!(key, "k");
            assert_eq!(value, "one two");
        }
        _ => panic!("expected a set"),
    }
}

#[test]
fn words_trim_and_join() {
    assert_eq!(split_words("  a bb\n ccc "), vec!["a", "bb", "ccc"]);
    assert!(split_words(" \t ").is_empty());
    assert_eq!(trim_line("\n x  y \t"), "x  y");
    assert_eq!(trim_line("   "), "");
    let ws = vec!["p".to_string(), "q".to_string(), "r".to_string()];
    assert_eq!(join_with_spaces(&ws, 0), "p q r");
    assert_eq!(join_with_spaces(&ws, 2), "r");
}
