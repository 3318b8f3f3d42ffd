use multi_threader::handler::CommandHandler;
use multi_threader::parser::Command;

#[test]
fn test_set_and_get() {
    let mut handler = CommandHandler::new();

    let set_cmd: Command = "SET user:1001 John".parse().unwrap();
    let result = handler.process_command(set_cmd);
    assert!(result.is_ok());

    let get_cmd: Command = "GET user:1001".parse().unwrap();
    let result = handler.process_command(get_cmd);
    assert!(result.is_ok());
    assert!(result.unwrap().contains("John"));
}

#[test]
fn test_get_nonexistent_key() {
    let mut handler = CommandHandler::new();
    let get_cmd: Command = "GET nonexistent".parse().unwrap();
    let result = handler.process_command(get_cmd);
    assert!(result.is_err());
}

#[test]
fn test_delete() {
    let mut handler = CommandHandler::new();

    let set_cmd: Command = "SET user:1001 John".parse().unwrap();
    handler.process_command(set_cmd).unwrap();

    let delete_cmd: Command = "DELETE user:1001".parse().unwrap();
    let result = handler.process_command(delete_cmd);
    assert!(result.is_ok());

    let get_cmd: Command = "GET user:1001".parse().unwrap();
    let result = handler.process_command(get_cmd);
    assert!(result.is_err());
}

fn run(handler: &mut CommandHandler, line: &str) -> Result<String, String> {
    handler.process_command(Command::parse(line).unwrap())
}

#[test]
fn outcome_messages_are_exact() {
    let mut h = CommandHandler::new();
    assert_eq!(run(&mut h, "SET k v w"), Ok("SET k = v w".to_string()));
    assert_eq!(run(&mut h, "GET k"), Ok("GET k = v w".to_string()));
    assert_eq!(run(&mut h, "SET k z"), Ok("SET k = z".to_string()));
    assert_eq!(run(&mut h, "GET k"), Ok("GET k = z".to_string()));
    assert_eq!(run(&mut h, "DELETE k"), Ok("DELETED k (was: z)".to_string()));
    assert_eq!(run(&mut h, "DELETE k"), Err("Key 'k' not found".to_string()));
    assert_eq!(run(&mut h, "GET k"), Err("Key 'k' not found".to_string()));
}

#[test]
fn round_trip_set_get_delete_get() {
    let mut h = CommandHandler::new();
    assert!(run(&mut h, "SET key value").is_ok());
    assert_eq!(run(&mut h, "GET key"), Ok("GET key = value".to_string()));
    assert!(run(&mut h, "DELETE key").is_ok());
    assert_eq!(run(&mut h, "GET key"), Err("Key 'key' not found".to_string()));
}

#[test]
fn keys_are_independent() {
    let mut h = CommandHandler::new();
    run(&mut h, "SET a 1").unwrap();
    run(&mut h, "SET b 2").unwrap();
    run(&mut h, "SET c 3").unwrap();
    assert!(run(&mut h, "DELETE b").is_ok());
    assert_eq!(run(&mut h, "GET a"), Ok("GET a = 1".to_string()));
    assert_eq!(run(&mut h, "GET c"), Ok("GET c = 3".to_string()));
    assert!(run(&mut h, "GET b").is_err());
}
