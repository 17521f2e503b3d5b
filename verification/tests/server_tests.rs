use redis_clone::command::{Command, CommandError, CommandResponse, Get, SetValue};
use redis_clone::decode::DecodeError;
use redis_clone::resp::Message;
use redis_clone::server::{next_action, ConnectionIds, ServerCore, WorkerAction};
use redis_clone::string::RedisString;

/// What one connection gets back for the bytes it sends: every message in
/// `input` is answered in order, as a worker and the processor do it.
fn serve(core: &mut ServerCore, input: &[u8]) -> Vec<u8> {
    let mut out = Vec::new();
    let mut at = 0;
    loop {
        let decoded = Message::parse_resp(&input[at..]);
        if let Ok(Some((_, used))) = &decoded {
            at += used;
        }
        let decoded = decoded.map(|found| found.map(|(message, _)| message));
        match next_action(decoded) {
            WorkerAction::Close => return out,
            WorkerAction::ReplyAndClose(response) => {
                response.to_resp().serialize_resp(&mut out);
                return out;
            }
            WorkerAction::Reply(response) => response.to_resp().serialize_resp(&mut out),
            WorkerAction::Dispatch(command) => core
                .process_command(command)
                .to_resp()
                .serialize_resp(&mut out),
        }
    }
}

fn set(key: &[u8], value: &[u8]) -> Command {
    Command::SetValue(SetValue {
        key: RedisString::from(key),
        value: RedisString::from(value),
    })
}

fn get(key: &[u8]) -> Command {
    Command::Get(Get {
        key: RedisString::from(key),
    })
}

fn found(value: &[u8]) -> CommandResponse {
    CommandResponse::BulkString(Some(RedisString::from(value)))
}

#[test]
fn test_ping() {
    let mut core = ServerCore::new();
    let response = core.process_command(Command::Ping);
    assert_eq!(response, CommandResponse::Pong);
}

#[test]
fn test_set_get() {
    let mut core = ServerCore::new();

    let set_command = Command::SetValue(SetValue {
        key: RedisString::from("key"),
        value: RedisString::from("value"),
    });
    let response = core.process_command(set_command);
    assert_eq!(response, CommandResponse::Okay);

    let get_command = Command::Get(Get {
        key: RedisString::from("key"),
    });
    let response = core.process_command(get_command);
    assert_eq!(
        response,
        CommandResponse::BulkString(Some(RedisString::from("value")))
    );
}

#[test]
fn get_gives_the_most_recent_set() {
    let mut core = ServerCore::new();
    assert_eq!(core.process_command(get(b"a")), CommandResponse::BulkString(None));
    assert_eq!(core.process_command(set(b"a", b"1")), CommandResponse::Okay);
    assert_eq!(core.process_command(set(b"b", b"2")), CommandResponse::Okay);
    assert_eq!(core.process_command(get(b"a")), found(b"1"));
    assert_eq!(core.process_command(set(b"a", b"3")), CommandResponse::Okay);
    assert_eq!(core.process_command(Command::Ping), CommandResponse::Pong);
    assert_eq!(core.process_command(get(b"a")), found(b"3"));
    assert_eq!(core.process_command(get(b"b")), found(b"2"));
    assert_eq!(core.process_command(get(b"c")), CommandResponse::BulkString(None));
    assert_eq!(core.process_command(get(b"ab")), CommandResponse::BulkString(None));
    assert_eq!(core.process_command(get(b"")), CommandResponse::BulkString(None));
}

#[test]
fn empty_key_and_empty_value_are_kept() {
    let mut core = ServerCore::new();
    assert_eq!(core.process_command(set(b"", b"x")), CommandResponse::Okay);
    assert_eq!(core.process_command(set(b"k", b"")), CommandResponse::Okay);
    assert_eq!(core.process_command(get(b"")), found(b"x"));
    assert_eq!(core.process_command(get(b"k")), found(b""));
    assert_eq!(
        serve(&mut core, b"*2\r\n$3\r\nGET\r\n$1\r\nk\r\n"),
        b"$0\r\n\r\n"
    );
    assert_eq!(
        serve(&mut core, b"*2\r\n$3\r\nGET\r\n$0\r\n\r\n"),
        b"$1\r\nx\r\n"
    );
}

#[test]
fn binary_keys_and_values_are_kept() {
    let mut core = ServerCore::new();
    let key: Vec<u8> = vec![0, 13, 10, 200, 255];
    let value: Vec<u8> = (0u8..=255).collect();
    assert_eq!(core.process_command(set(&key, &value)), CommandResponse::Okay);
    assert_eq!(core.process_command(get(&key)), found(&value));
    assert_eq!(
        core.process_command(get(&[0, 13, 10, 200])),
        CommandResponse::BulkString(None)
    );
}

#[test]
fn unknown_command_is_answered_by_an_error_that_names_it() {
    let mut core = ServerCore::new();
    let raw = Command::RawCommand(vec![Message::bulk_string("nonsense"), Message::BulkString(None)]);
    assert_eq!(
        core.process_command(raw),
        CommandResponse::Error("unknown command: nonsense".to_string())
    );
    let raw = Command::RawCommand(vec![Message::SimpleString("caf\u{e9}".to_string())]);
    assert_eq!(
        core.process_command(raw),
        CommandResponse::Error("unknown command: caf??".to_string())
    );
    let raw = Command::RawCommand(vec![Message::BulkString(Some(RedisString::from(vec![
        b'a', 13, 10, 0, 255, b'~', b' ', 127,
    ])))]);
    assert_eq!(
        core.process_command(raw),
        CommandResponse::Error("unknown command: a????~ ?".to_string())
    );
    assert_eq!(
        core.process_command(Command::RawCommand(Vec::new())),
        CommandResponse::Error("unknown command: ".to_string())
    );
    assert_eq!(
        core.process_command(Command::RawCommand(vec![Message::BulkString(None)])),
        CommandResponse::Error("unknown command: ".to_string())
    );
}

#[test]
fn unknown_command_leaves_the_store_alone() {
    let mut core = ServerCore::new();
    assert_eq!(core.process_command(set(b"a", b"1")), CommandResponse::Okay);
    let raw = Command::RawCommand(vec![
        Message::bulk_string("DEL"),
        Message::bulk_string("a"),
    ]);
    assert_eq!(
        core.process_command(raw),
        CommandResponse::Error("unknown command: DEL".to_string())
    );
    assert_eq!(core.process_command(get(b"a")), found(b"1"));
}

#[test]
fn worker_stops_at_the_end_of_the_stream() {
    assert_eq!(next_action(Ok(None)), WorkerAction::Close);
}

#[test]
fn worker_answers_a_decode_error_and_stops() {
    assert_eq!(
        next_action(Err(DecodeError::InvalidType)),
        WorkerAction::ReplyAndClose(CommandResponse::Error(
            "error parsing message: invalid message start".to_string()
        ))
    );
    assert_eq!(
        next_action(Err(DecodeError::TruncatedArray(7))),
        WorkerAction::ReplyAndClose(CommandResponse::Error(
            "error parsing message: truncated array element 7".to_string()
        ))
    );
}

#[test]
fn worker_answers_what_is_no_command() {
    assert_eq!(
        next_action(Ok(Some(Message::SimpleString("PING".to_string())))),
        WorkerAction::Reply(CommandResponse::Error(
            "error parsing RESP: commands must be an array".to_string()
        ))
    );
    assert_eq!(
        next_action(Ok(Some(Message::Array(vec![
            Message::bulk_string("GET"),
        ])))),
        WorkerAction::Reply(CommandResponse::Error(
            "error parsing RESP: GET must have a single key argument".to_string()
        ))
    );
    assert_eq!(
        CommandError::GetArguments.message(),
        "GET must have a single key argument"
    );
}

#[test]
fn worker_hands_commands_to_the_processor() {
    assert_eq!(
        next_action(Ok(Some(Message::Array(vec![Message::bulk_string("ping")])))),
        WorkerAction::Dispatch(Command::Ping)
    );
    let unknown = vec![Message::bulk_string("nonsense")];
    assert_eq!(
        next_action(Ok(Some(Message::Array(unknown.clone())))),
        WorkerAction::Dispatch(Command::RawCommand(unknown))
    );
}

#[test]
fn connection_identities_count_up_from_zero() {
    let mut ids = ConnectionIds::new();
    assert_eq!(ids.next_id(), Some(0));
    assert_eq!(ids.next_id(), Some(1));
    assert_eq!(ids.next_id(), Some(2));
    for expected in 3..100 {
        assert_eq!(ids.next_id(), Some(expected));
    }
}

#[test]
fn scenario_ping() {
    let mut core = ServerCore::new();
    assert_eq!(serve(&mut core, b"*1\r\n$4\r\nPING\r\n"), b"+PONG\r\n");
}

#[test]
fn scenario_set_then_get() {
    let mut core = ServerCore::new();
    assert_eq!(
        serve(
            &mut core,
            b"*3\r\n$3\r\nSET\r\n$5\r\nmykey\r\n$5\r\nhello\r\n*2\r\n$3\r\nGET\r\n$5\r\nmykey\r\n"
        ),
        b"+OK\r\n$5\r\nhello\r\n"
    );
}

#[test]
fn scenario_get_missing_key() {
    let mut core = ServerCore::new();
    assert_eq!(
        serve(&mut core, b"*2\r\n$3\r\nGET\r\n$7\r\nmissing\r\n"),
        b"$-1\r\n"
    );
}

#[test]
fn scenario_unknown_command() {
    let mut core = ServerCore::new();
    let out = serve(&mut core, b"*1\r\n$8\r\nnonsense\r\n");
    assert_eq!(out[0], b'-');
    assert!(out.ends_with(b"\r\n"));
    let text = String::from_utf8(out.clone()).unwrap();
    assert!(text.contains("unknown command"));
    assert_eq!(out, b"-unknown command: nonsense\r\n");
}

#[test]
fn scenario_binary_value_survives() {
    let mut core = ServerCore::new();
    assert_eq!(
        serve(
            &mut core,
            b"*3\r\n$3\r\nSET\r\n$1\r\nk\r\n$6\r\na\r\nb\x00c\r\n*2\r\n$3\r\nGET\r\n$1\r\nk\r\n"
        ),
        b"+OK\r\n$6\r\na\r\nb\x00c\r\n"
    );
}

#[test]
fn scenario_bulk_length_must_count_the_body_exactly() {
    let mut core = ServerCore::new();
    assert_eq!(
        serve(
            &mut core,
            b"*3\r\n$3\r\nSET\r\n$1\r\nk\r\n$7\r\na\r\nb\x00c\r\n*2\r\n$3\r\nGET\r\n$1\r\nk\r\n"
        ),
        b"-error parsing message: bulk string is not followed by CRLF\r\n"
    );
}

#[test]
fn scenario_case_insensitive_command_name() {
    let mut core = ServerCore::new();
    assert_eq!(serve(&mut core, b"*1\r\n$4\r\nping\r\n"), b"+PONG\r\n");
}

#[test]
fn scenario_wrong_arity_is_answered_and_the_connection_goes_on() {
    let mut core = ServerCore::new();
    assert_eq!(
        serve(
            &mut core,
            b"*2\r\n$4\r\nPING\r\n$1\r\nx\r\n*1\r\n$4\r\nPING\r\n"
        ),
        b"-error parsing RESP: PING takes no arguments\r\n+PONG\r\n"
    );
}

#[test]
fn scenario_framing_error_is_answered_and_the_connection_closes() {
    let mut core = ServerCore::new();
    assert_eq!(
        serve(&mut core, b"*1\r\n$4\r\nPING\r\n:1\r\n*1\r\n$4\r\nPING\r\n"),
        b"+PONG\r\n-error parsing message: invalid message start\r\n"
    );
}

#[test]
fn unknown_command_reply_is_one_line_whatever_the_name_holds() {
    let mut core = ServerCore::new();
    let out = serve(&mut core, b"*1\r\n$5\r\na\r\nb\n\r\n");
    assert_eq!(out, b"-unknown command: a??b?\r\n");
    assert_eq!(
        Message::parse_resp(&out),
        Ok(Some((
            Message::Error("unknown command: a??b?".to_string()),
            out.len()
        )))
    );
}
