use redis_clone::decode::{wants_more, DecodeError};
use redis_clone::resp::Message;
use redis_clone::string::RedisString;

fn decode_one(bytes: &[u8]) -> Result<Option<Message>, DecodeError> {
    Message::parse_resp(bytes).map(|found| found.map(|(message, _)| message))
}

fn assert_message_round_trip(msg: Message, expected: &[u8]) {
    let mut buf = Vec::new();
    msg.serialize_resp(&mut buf);
    assert_eq!(
        String::from_utf8(buf.clone()),
        String::from_utf8(expected.to_vec())
    );
    let msg2 = Message::parse_resp(buf.as_slice()).unwrap();
    assert_eq!(Some((msg, expected.len())), msg2);
}

#[test]
fn parse_empty_string() {
    let msg = Message::parse_resp(b"").unwrap();
    assert_eq!(msg, None);
}

#[test]
fn simple_string_round_trip() {
    assert_message_round_trip(Message::SimpleString("OK".to_string()), b"+OK\r\n");
}

#[test]
fn error_round_trip() {
    assert_message_round_trip(
        Message::Error("ERROR my error".to_string()),
        b"-ERROR my error\r\n",
    );
}

#[test]
fn bulk_string_round_trip() {
    assert_message_round_trip(Message::BulkString(None), b"$-1\r\n");
    assert_message_round_trip(
        Message::BulkString(Some(RedisString::from("hello"))),
        b"$5\r\nhello\r\n",
    );
    assert_message_round_trip(
        Message::BulkString(Some(RedisString::from("hello\r\nwith\r\nnewline"))),
        b"$20\r\nhello\r\nwith\r\nnewline\r\n",
    );
}

#[test]
fn array_round_trip() {
    assert_message_round_trip(Message::Array(Vec::new()), b"*0\r\n");
    assert_message_round_trip(
        Message::Array(vec![Message::SimpleString("OK".to_string())]),
        b"*1\r\n+OK\r\n",
    );
    assert_message_round_trip(
        Message::Array(vec![
            Message::SimpleString("OK".to_string()),
            Message::SimpleString("blah".to_string()),
        ]),
        b"*2\r\n+OK\r\n+blah\r\n",
    );

    assert_message_round_trip(
        Message::Array(vec![
            Message::Array(vec![Message::SimpleString("nested".to_string())]),
            Message::SimpleString("OK".to_string()),
            Message::BulkString(Some(RedisString::from("hello\r\nwith\r\nnewline"))),
            Message::SimpleString("blah".to_string()),
        ]),
        b"*4\r\n*1\r\n+nested\r\n+OK\r\n$20\r\nhello\r\nwith\r\nnewline\r\n+blah\r\n",
    );
}

#[test]
fn bulk_string_constructor_holds_the_text_bytes() {
    assert_eq!(
        Message::bulk_string("PING"),
        Message::BulkString(Some(RedisString::from(vec![80u8, 73, 78, 71])))
    );
}

#[test]
fn empty_bulk_string_round_trip() {
    assert_message_round_trip(
        Message::BulkString(Some(RedisString::from(""))),
        b"$0\r\n\r\n",
    );
}

#[test]
fn null_and_empty_bulk_strings_differ() {
    let null = decode_one(b"$-1\r\n").unwrap().unwrap();
    let empty = decode_one(b"$0\r\n\r\n").unwrap().unwrap();
    assert_eq!(null, Message::BulkString(None));
    assert_eq!(empty, Message::BulkString(Some(RedisString::from(""))));
    assert_ne!(null, empty);
}

#[test]
fn empty_array_decodes_and_reencodes() {
    let (message, used) = Message::parse_resp(b"*0\r\n").unwrap().unwrap();
    assert_eq!(message, Message::Array(Vec::new()));
    assert_eq!(used, 4);
    let mut out = Vec::new();
    message.serialize_resp(&mut out);
    assert_eq!(out, b"*0\r\n");
}

#[test]
fn serialize_appends_to_what_is_there() {
    let mut out = b"+OK\r\n".to_vec();
    Message::BulkString(None).serialize_resp(&mut out);
    assert_eq!(out, b"+OK\r\n$-1\r\n");
}

#[test]
fn lengths_are_written_in_decimal_without_leading_zeros() {
    let mut out = Vec::new();
    Message::BulkString(Some(RedisString::from(vec![b'x'; 1234]))).serialize_resp(&mut out);
    assert_eq!(&out[..7], b"$1234\r\n");
    assert_eq!(out.len(), 7 + 1234 + 2);

    let mut out = Vec::new();
    Message::Array(vec![Message::BulkString(None); 10]).serialize_resp(&mut out);
    assert_eq!(&out[..5], b"*10\r\n");
    assert_eq!(out.len(), 5 + 10 * 5);
}

#[test]
fn decoder_reads_one_message_and_counts_its_bytes() {
    let input = b"+OK\r\n$5\r\nhello\r\n";
    let (first, used) = Message::parse_resp(input).unwrap().unwrap();
    assert_eq!(first, Message::SimpleString("OK".to_string()));
    assert_eq!(used, 5);
    let (second, used2) = Message::parse_resp(&input[used..]).unwrap().unwrap();
    assert_eq!(second, Message::BulkString(Some(RedisString::from("hello"))));
    assert_eq!(used2, 11);
    assert_eq!(Message::parse_resp(&input[used + used2..]), Ok(None));
}

#[test]
fn decoder_accepts_signs_and_leading_zeros_and_encoder_is_canonical() {
    let (message, used) = Message::parse_resp(b"$+005\r\nhello\r\n").unwrap().unwrap();
    assert_eq!(message, Message::BulkString(Some(RedisString::from("hello"))));
    assert_eq!(used, 14);
    let mut out = Vec::new();
    message.serialize_resp(&mut out);
    assert_eq!(out, b"$5\r\nhello\r\n");
    assert_eq!(decode_one(&out), Ok(Some(message)));

    assert_eq!(
        decode_one(b"*+01\r\n+a\r\n"),
        Ok(Some(Message::Array(vec![Message::SimpleString("a".to_string())])))
    );
    assert_eq!(
        decode_one(b"$-0\r\n\r\n"),
        Ok(Some(Message::BulkString(Some(RedisString::from("")))))
    );
    assert_eq!(decode_one(b"$-01\r\n"), Ok(Some(Message::BulkString(None))));
}

#[test]
fn simple_string_text_is_utf8() {
    assert_eq!(
        decode_one(b"+caf\xC3\xA9\r\n"),
        Ok(Some(Message::SimpleString("caf\u{e9}".to_string())))
    );
    assert_message_round_trip(
        Message::SimpleString("caf\u{e9} \u{1F600}".to_string()),
        "+caf\u{e9} \u{1F600}\r\n".as_bytes(),
    );
    assert_eq!(decode_one(b"+caf\xC3\r\n"), Err(DecodeError::InvalidText));
    assert_eq!(decode_one(b"-\xFF\r\n"), Err(DecodeError::InvalidText));
}

#[test]
fn empty_simple_string_and_error() {
    assert_message_round_trip(Message::SimpleString(String::new()), b"+\r\n");
    assert_message_round_trip(Message::Error(String::new()), b"-\r\n");
}

#[test]
fn unterminated_line_is_an_error() {
    assert_eq!(decode_one(b"+OK"), Err(DecodeError::UnterminatedLine));
    assert_eq!(decode_one(b"+OK\r"), Err(DecodeError::UnterminatedLine));
    assert_eq!(decode_one(b"$"), Err(DecodeError::UnterminatedLine));
}

#[test]
fn lone_line_feed_is_an_error() {
    assert_eq!(decode_one(b"+OK\n"), Err(DecodeError::MissingCrlf));
    assert_eq!(decode_one(b"\n"), Err(DecodeError::MissingCrlf));
    assert_eq!(decode_one(b"*1\n+OK\r\n"), Err(DecodeError::MissingCrlf));
}

#[test]
fn unknown_type_byte_is_an_error() {
    assert_eq!(decode_one(b":12\r\n"), Err(DecodeError::InvalidType));
    assert_eq!(decode_one(b"OK\r\n"), Err(DecodeError::InvalidType));
    assert_eq!(decode_one(b"\r\n"), Err(DecodeError::InvalidType));
}

#[test]
fn carriage_return_inside_text_is_an_error() {
    assert_eq!(decode_one(b"+a\rb\r\n"), Err(DecodeError::InvalidText));
    assert_eq!(decode_one(b"-a\r\r\n"), Err(DecodeError::InvalidText));
}

#[test]
fn bad_bulk_lengths_are_errors() {
    assert_eq!(decode_one(b"$\r\n"), Err(DecodeError::InvalidBulkLength));
    assert_eq!(decode_one(b"$abc\r\n"), Err(DecodeError::InvalidBulkLength));
    assert_eq!(decode_one(b"$-2\r\n"), Err(DecodeError::InvalidBulkLength));
    assert_eq!(decode_one(b"$-\r\n"), Err(DecodeError::InvalidBulkLength));
    assert_eq!(decode_one(b"$+\r\n"), Err(DecodeError::InvalidBulkLength));
    assert_eq!(decode_one(b"$5 \r\nhello\r\n"), Err(DecodeError::InvalidBulkLength));
    assert_eq!(
        decode_one(b"$536870913\r\n"),
        Err(DecodeError::InvalidBulkLength)
    );
    assert_eq!(
        decode_one(b"$99999999999999999999999999\r\n"),
        Err(DecodeError::InvalidBulkLength)
    );
}

#[test]
fn largest_bulk_length_is_accepted_as_a_length() {
    assert_eq!(decode_one(b"$536870912\r\nabc"), Err(DecodeError::TruncatedBulk));
}

#[test]
fn truncated_bulk_is_an_error() {
    assert_eq!(decode_one(b"$5\r\nhel"), Err(DecodeError::TruncatedBulk));
    assert_eq!(decode_one(b"$5\r\nhello"), Err(DecodeError::TruncatedBulk));
    assert_eq!(decode_one(b"$5\r\nhello\r"), Err(DecodeError::TruncatedBulk));
}

#[test]
fn bulk_must_be_followed_by_crlf() {
    assert_eq!(decode_one(b"$5\r\nhelloXY"), Err(DecodeError::MissingBulkCrlf));
    assert_eq!(decode_one(b"$5\r\nhello\n\n"), Err(DecodeError::MissingBulkCrlf));
    assert_eq!(decode_one(b"$5\r\nhello\r\r"), Err(DecodeError::MissingBulkCrlf));
    assert_eq!(decode_one(b"$3\r\nhello\r\n"), Err(DecodeError::MissingBulkCrlf));
}

#[test]
fn bad_array_lengths_are_errors() {
    assert_eq!(decode_one(b"*\r\n"), Err(DecodeError::InvalidArrayLength));
    assert_eq!(decode_one(b"*-1\r\n"), Err(DecodeError::InvalidArrayLength));
    assert_eq!(decode_one(b"*x\r\n"), Err(DecodeError::InvalidArrayLength));
    assert_eq!(
        decode_one(b"*99999999999999999999999999\r\n"),
        Err(DecodeError::InvalidArrayLength)
    );
}

#[test]
fn truncated_array_names_the_missing_element() {
    assert_eq!(decode_one(b"*2\r\n+a\r\n"), Err(DecodeError::TruncatedArray(1)));
    assert_eq!(decode_one(b"*1\r\n"), Err(DecodeError::TruncatedArray(0)));
    assert_eq!(
        decode_one(b"*2\r\n*1\r\n+a\r\n*3\r\n+b\r\n+c\r\n"),
        Err(DecodeError::TruncatedArray(2))
    );
    assert_eq!(
        decode_one(b"*18446744073709551615\r\n+a\r\n"),
        Err(DecodeError::TruncatedArray(1))
    );
}

#[test]
fn error_inside_an_array_is_the_error_of_the_array() {
    assert_eq!(decode_one(b"*2\r\n+a\r\n$-7\r\n"), Err(DecodeError::InvalidBulkLength));
    assert_eq!(decode_one(b"*1\r\n+a"), Err(DecodeError::UnterminatedLine));
}

#[test]
fn truncation_errors_are_told_apart() {
    assert!(DecodeError::UnterminatedLine.is_truncation());
    assert!(DecodeError::TruncatedBulk.is_truncation());
    assert!(DecodeError::TruncatedArray(3).is_truncation());
    assert!(!DecodeError::MissingCrlf.is_truncation());
    assert!(!DecodeError::InvalidType.is_truncation());
    assert!(!DecodeError::InvalidText.is_truncation());
    assert!(!DecodeError::InvalidBulkLength.is_truncation());
    assert!(!DecodeError::InvalidArrayLength.is_truncation());
    assert!(!DecodeError::MissingBulkCrlf.is_truncation());
}

#[test]
fn decode_error_wording() {
    assert_eq!(
        DecodeError::TruncatedArray(12).message(),
        "truncated array element 12"
    );
    assert_eq!(DecodeError::TruncatedArray(0).message(), "truncated array element 0");
    assert_eq!(
        DecodeError::UnterminatedLine.message(),
        "header line is not terminated"
    );
    assert_eq!(
        DecodeError::MissingCrlf.message(),
        "header line does not end with CRLF"
    );
    assert_eq!(DecodeError::InvalidType.message(), "invalid message start");
    assert_eq!(
        DecodeError::InvalidText.message(),
        "invalid text in simple string or error"
    );
    assert_eq!(
        DecodeError::InvalidBulkLength.message(),
        "invalid bulk string length"
    );
    assert_eq!(DecodeError::InvalidArrayLength.message(), "invalid array length");
    assert_eq!(DecodeError::TruncatedBulk.message(), "truncated bulk string");
    assert_eq!(
        DecodeError::MissingBulkCrlf.message(),
        "bulk string is not followed by CRLF"
    );
}

#[test]
fn binary_bulk_string_round_trip() {
    let bytes: Vec<u8> = (0u8..=255).collect();
    let mut expected = b"$256\r\n".to_vec();
    expected.extend_from_slice(&bytes);
    expected.extend_from_slice(b"\r\n");
    assert_message_round_trip(
        Message::BulkString(Some(RedisString::from(bytes))),
        &expected,
    );
}

#[test]
fn deeper_nesting_round_trip() {
    let inner = Message::Array(vec![
        Message::BulkString(None),
        Message::Array(Vec::new()),
        Message::Error("e".to_string()),
    ]);
    let outer = Message::Array(vec![inner.clone(), Message::Array(vec![inner])]);
    assert_message_round_trip(
        outer,
        b"*2\r\n*3\r\n$-1\r\n*0\r\n-e\r\n*1\r\n*3\r\n$-1\r\n*0\r\n-e\r\n",
    );
}

#[test]
fn clone_of_a_message_is_equal() {
    let message = Message::Array(vec![
        Message::SimpleString("a".to_string()),
        Message::BulkString(Some(RedisString::from(vec![0u8, 255]))),
        Message::Array(vec![Message::Error("e".to_string()), Message::BulkString(None)]),
    ]);
    assert_eq!(message.clone(), message);
}

#[test]
fn reader_reads_on_only_where_more_bytes_may_help() {
    assert!(wants_more(&Message::parse_resp(b"")));
    assert!(wants_more(&Message::parse_resp(b"+O")));
    assert!(wants_more(&Message::parse_resp(b"$5\r\nhel")));
    assert!(wants_more(&Message::parse_resp(b"*2\r\n+a\r\n")));
    assert!(!wants_more(&Message::parse_resp(b"+OK\r\n")));
    assert!(!wants_more(&Message::parse_resp(b"+OK\r\n+more")));
    assert!(!wants_more(&Message::parse_resp(b"+OK\n")));
    assert!(!wants_more(&Message::parse_resp(b"?\r\n")));
}

#[test]
fn what_is_decoded_stands_when_more_bytes_follow() {
    let whole = b"*2\r\n$3\r\nfoo\r\n-bar\r\n+next\r\n$-1\r\n";
    let (message, used) = Message::parse_resp(&whole[..19]).unwrap().unwrap();
    assert_eq!(used, 19);
    for end in 19..=whole.len() {
        assert_eq!(
            Message::parse_resp(&whole[..end]),
            Ok(Some((message.clone(), 19)))
        );
    }
    for end in 1..19 {
        let early = Message::parse_resp(&whole[..end]);
        assert!(wants_more(&early));
    }
    let broken = b"$3\r\nfooXY";
    assert_eq!(Message::parse_resp(broken), Err(DecodeError::MissingBulkCrlf));
    assert_eq!(
        Message::parse_resp(b"$3\r\nfooXY\r\n"),
        Err(DecodeError::MissingBulkCrlf)
    );
}

#[test]
fn different_messages_have_different_encodings() {
    let messages = vec![
        Message::BulkString(None),
        Message::BulkString(Some(RedisString::from(""))),
        Message::SimpleString(String::new()),
        Message::Error(String::new()),
        Message::Array(Vec::new()),
        Message::Array(vec![Message::BulkString(None)]),
        Message::SimpleString("-1".to_string()),
        Message::BulkString(Some(RedisString::from("-1"))),
    ];
    let mut encodings: Vec<Vec<u8>> = Vec::new();
    for message in &messages {
        let mut out = Vec::new();
        message.serialize_resp(&mut out);
        assert!(!encodings.contains(&out));
        encodings.push(out);
    }
}

#[test]
fn large_messages_round_trip() {
    let body = vec![b'\n'; 100_000];
    let mut expected = b"$100000\r\n".to_vec();
    expected.extend_from_slice(&body);
    expected.extend_from_slice(b"\r\n");
    assert_message_round_trip(Message::BulkString(Some(RedisString::from(body))), &expected);

    let elements = vec![Message::SimpleString("x".to_string()); 10_000];
    let mut expected = b"*10000\r\n".to_vec();
    for _ in 0..10_000 {
        expected.extend_from_slice(b"+x\r\n");
    }
    assert_message_round_trip(Message::Array(elements), &expected);
}
