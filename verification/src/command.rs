//! The command grammar: commands and responses, and how each maps to and
//! from a message.

use vstd::prelude::*;
use vstd::utf8::*;
use crate::resp::{clone_messages, lemma_array_view, views_of, Message, MessageView};
use crate::string::RedisString;
use crate::text::one_line;

verus! {

/// A command that a client sends.
#[derive(Debug, PartialEq, Eq)]
pub enum Command {
    Ping,
    Get(Get),
    SetValue(SetValue),
    /// A command with a name that this library does not know: the whole
    /// array as it was received.
    RawCommand(Vec<Message>),
}

/// The arguments of `GET`.
#[derive(Debug, PartialEq, Eq)]
pub struct Get {
    pub key: RedisString,
}

/// The arguments of `SET`.
#[derive(Debug, PartialEq, Eq)]
pub struct SetValue {
    pub key: RedisString,
    pub value: RedisString,
}

/// The mathematical value of a [`Command`].
pub enum CommandView {
    Ping,
    Get(Seq<u8>),
    SetValue(Seq<u8>, Seq<u8>),
    RawCommand(Seq<MessageView>),
}

impl View for Command {
    type V = CommandView;

    open spec fn view(&self) -> CommandView {
        match self {
            Command::Ping => CommandView::Ping,
            Command::Get(get) => CommandView::Get(get.key@),
            Command::SetValue(set) => CommandView::SetValue(set.key@, set.value@),
            Command::RawCommand(msgs) => CommandView::RawCommand(views_of(msgs@)),
        }
    }
}

impl Clone for Get {
    fn clone(&self) -> (copy: Self)
        ensures
            copy.key@ == self.key@,
    {
        Get { key: self.key.clone() }
    }
}

impl Clone for SetValue {
    fn clone(&self) -> (copy: Self)
        ensures
            copy.key@ == self.key@,
            copy.value@ == self.value@,
    {
        SetValue { key: self.key.clone(), value: self.value.clone() }
    }
}

impl Clone for Command {
    fn clone(&self) -> (copy: Self)
        ensures
            copy@ == self@,
    {
        match self {
            Command::Ping => Command::Ping,
            Command::Get(get) => Command::Get(get.clone()),
            Command::SetValue(set) => Command::SetValue(set.clone()),
            Command::RawCommand(msgs) => Command::RawCommand(clone_messages(msgs)),
        }
    }
}

/// Why a message is not a command.
#[derive(Clone, Copy, Debug, PartialEq, Eq, Structural)]
pub enum CommandError {
    /// The message is not an array.
    NotArray,
    /// The array is empty.
    Empty,
    /// The first element is neither a simple string nor a non-null bulk
    /// string.
    InvalidName,
    /// `PING` with arguments.
    PingArguments,
    /// `GET` with anything but one non-null bulk string.
    GetArguments,
    /// `SET` with anything but two non-null bulk strings.
    SetArguments,
}

/// The wording of a command error.
pub open spec fn command_error_text(e: CommandError) -> Seq<char> {
    match e {
        CommandError::NotArray => "commands must be an array"@,
        CommandError::Empty => "commands must have at least one element"@,
        CommandError::InvalidName => "command name must be bulk or simple string"@,
        CommandError::PingArguments => "PING takes no arguments"@,
        CommandError::GetArguments => "GET must have a single key argument"@,
        CommandError::SetArguments => "SET must have a key and value argument"@,
    }
}

/// The wording of a command error holds neither CR nor LF.
pub proof fn lemma_command_error_text_one_line(e: CommandError)
    ensures
        one_line(command_error_text(e)),
{
    reveal_strlit("commands must be an array");
    reveal_strlit("commands must have at least one element");
    reveal_strlit("command name must be bulk or simple string");
    reveal_strlit("PING takes no arguments");
    reveal_strlit("GET must have a single key argument");
    reveal_strlit("SET must have a key and value argument");
}

impl CommandError {
    /// The wording of this error.
    pub fn message(&self) -> (text: String)
        ensures
            text@ == command_error_text(*self),
    {
        match self {
            CommandError::NotArray => String::from_str("commands must be an array"),
            CommandError::Empty => String::from_str("commands must have at least one element"),
            CommandError::InvalidName => String::from_str(
                "command name must be bulk or simple string",
            ),
            CommandError::PingArguments => String::from_str("PING takes no arguments"),
            CommandError::GetArguments => String::from_str("GET must have a single key argument"),
            CommandError::SetArguments => String::from_str(
                "SET must have a key and value argument",
            ),
        }
    }
}

/// The bytes of `PING`.
pub open spec fn ping_name() -> Seq<u8> {
    encode_utf8("PING"@)
}

/// The bytes of `GET`.
pub open spec fn get_name() -> Seq<u8> {
    encode_utf8("GET"@)
}

/// The bytes of `SET`.
pub open spec fn set_name() -> Seq<u8> {
    encode_utf8("SET"@)
}

/// The three names, byte by byte.
pub proof fn lemma_names()
    ensures
        ping_name() == seq![80u8, 73u8, 78u8, 71u8],
        get_name() == seq![71u8, 69u8, 84u8],
        set_name() == seq![83u8, 69u8, 84u8],
{
    reveal_strlit("PING");
    reveal_strlit("GET");
    reveal_strlit("SET");
    assert(is_ascii_chars("PING"@));
    assert(is_ascii_chars("GET"@));
    assert(is_ascii_chars("SET"@));
    is_ascii_chars_encode_utf8("PING"@);
    is_ascii_chars_encode_utf8("GET"@);
    is_ascii_chars_encode_utf8("SET"@);
    assert(ping_name() =~= seq![80u8, 73u8, 78u8, 71u8]);
    assert(get_name() =~= seq![71u8, 69u8, 84u8]);
    assert(set_name() =~= seq![83u8, 69u8, 84u8]);
}

/// The letter `a`.
pub const LOWER_A: u8 = 97;

/// The letter `z`.
pub const LOWER_Z: u8 = 122;

/// How far a lower-case letter stands from its upper-case form.
pub const CASE_GAP: u8 = 32;

/// The upper-case form of an ASCII lower-case letter; any other byte
/// unchanged.
pub open spec fn upper_byte(b: u8) -> u8 {
    if LOWER_A <= b <= LOWER_Z {
        (b - CASE_GAP) as u8
    } else {
        b
    }
}

/// `name` with its ASCII lower-case letters in upper case.
pub open spec fn upper(name: Seq<u8>) -> Seq<u8> {
    Seq::new(name.len(), |i: int| upper_byte(name[i]))
}

/// The bytes of the command name that a message holds: the UTF-8 bytes of a
/// simple string, or the bytes of a non-null bulk string.
pub open spec fn name_of(m: MessageView) -> Option<Seq<u8>> {
    match m {
        MessageView::SimpleString(s) => Some(encode_utf8(s)),
        MessageView::BulkString(Some(b)) => Some(b),
        _ => None,
    }
}

/// The message that stands for a command: an array of bulk strings that
/// starts with the command's name in upper case. An unknown command is the
/// array that it holds.
pub open spec fn encode_command(c: CommandView) -> MessageView {
    match c {
        CommandView::Ping => MessageView::Array(seq![MessageView::BulkString(Some(ping_name()))]),
        CommandView::Get(key) => MessageView::Array(
            seq![MessageView::BulkString(Some(get_name())), MessageView::BulkString(Some(key))],
        ),
        CommandView::SetValue(key, value) => MessageView::Array(
            seq![
                MessageView::BulkString(Some(set_name())),
                MessageView::BulkString(Some(key)),
                MessageView::BulkString(Some(value)),
            ],
        ),
        CommandView::RawCommand(msgs) => MessageView::Array(msgs),
    }
}

/// The command that a message stands for.
///
/// Only a non-empty array is a command. Its first element names it, without
/// regard to ASCII case. `PING` takes no argument, `GET` one non-null bulk
/// string, `SET` two. An array with any other name is an unknown command.
pub open spec fn parse_command(m: MessageView) -> Result<CommandView, CommandError> {
    match m {
        MessageView::Array(elems) => if elems.len() == 0 {
            Err(CommandError::Empty)
        } else {
            match name_of(elems[0]) {
                None => Err(CommandError::InvalidName),
                Some(name) => if upper(name) == ping_name() {
                    if elems.len() == 1 {
                        Ok(CommandView::Ping)
                    } else {
                        Err(CommandError::PingArguments)
                    }
                } else if upper(name) == get_name() {
                    if elems.len() == 2 && elems[1] is BulkString && elems[1]->BulkString_0 is Some {
                        Ok(CommandView::Get(elems[1]->BulkString_0->Some_0))
                    } else {
                        Err(CommandError::GetArguments)
                    }
                } else if upper(name) == set_name() {
                    if elems.len() == 3 && elems[1] is BulkString && elems[1]->BulkString_0 is Some
                        && elems[2] is BulkString && elems[2]->BulkString_0 is Some {
                        Ok(
                            CommandView::SetValue(
                                elems[1]->BulkString_0->Some_0,
                                elems[2]->BulkString_0->Some_0,
                            ),
                        )
                    } else {
                        Err(CommandError::SetArguments)
                    }
                } else {
                    Ok(CommandView::RawCommand(elems))
                },
            }
        },
        _ => Err(CommandError::NotArray),
    }
}

/// Whether the result `r` is what `expected` says.
pub open spec fn command_parsed_as(
    r: Result<Command, CommandError>,
    expected: Result<CommandView, CommandError>,
) -> bool {
    match expected {
        Ok(c) => r is Ok && r->Ok_0@ == c,
        Err(e) => r == Err::<Command, CommandError>(e),
    }
}

/// Which of the known names a name is.
enum Name {
    Ping,
    Get,
    SetValue,
    Other,
}

/// Whether `name` is `word` without regard to ASCII case; `word` is in
/// upper case.
fn name_is(name: &[u8], word: &[u8]) -> (same: bool)
    ensures
        same == (upper(name@) == word@),
{
    if name.len() != word.len() {
        return false;
    }
    let mut i: usize = 0;
    while i < name.len()
        invariant
            i <= name@.len(),
            name@.len() == word@.len(),
            forall|j: int| 0 <= j < i ==> upper_byte(name@[j]) == word@[j],
        decreases name@.len() - i,
    {
        let b: u8 = name[i];
        let u: u8 = if LOWER_A <= b && b <= LOWER_Z {
            b - CASE_GAP
        } else {
            b
        };
        if u != word[i] {
            assert(upper(name@)[i as int] != word@[i as int]);
            return false;
        }
        i += 1;
    }
    assert(upper(name@) =~= word@);
    true
}

/// Which of the known names `name` is, without regard to ASCII case.
fn classify(name: &[u8]) -> (which: Name)
    ensures
        which is Ping <==> upper(name@) == ping_name(),
        which is Get <==> upper(name@) == get_name(),
        which is SetValue <==> upper(name@) == set_name(),
{
    proof {
        lemma_names();
    }
    if name_is(name, "PING".as_bytes()) {
        Name::Ping
    } else if name_is(name, "GET".as_bytes()) {
        Name::Get
    } else if name_is(name, "SET".as_bytes()) {
        Name::SetValue
    } else {
        Name::Other
    }
}

/// The bytes of the command name that a message holds, if it holds one.
pub fn name_bytes(m: &Message) -> (name: Option<&[u8]>)
    ensures
        match name_of(m@) {
            Some(bytes) => name is Some && name->Some_0@ == bytes,
            None => name is None,
        },
{
    match m {
        Message::SimpleString(s) => Some(s.as_str().as_bytes()),
        Message::BulkString(Some(b)) => Some(b.as_bytes()),
        _ => None,
    }
}

impl Command {
    /// The message that stands for this command.
    pub fn to_resp(&self) -> (m: Message)
        ensures
            m@ == encode_command(self@),
    {
        let args: Vec<Message> = match self {
            Command::Ping => vec![Message::bulk_string("PING")],
            Command::Get(get) => vec![
                Message::bulk_string("GET"),
                Message::BulkString(Some(get.key.clone())),
            ],
            Command::SetValue(set) => vec![
                Message::bulk_string("SET"),
                Message::BulkString(Some(set.key.clone())),
                Message::BulkString(Some(set.value.clone())),
            ],
            Command::RawCommand(msgs) => clone_messages(msgs),
        };
        proof {
            lemma_array_view(args);
            assert(views_of(args@) =~= encode_command(self@)->Array_0);
        }
        Message::Array(args)
    }

    /// The command that `resp` stands for, or why it stands for none.
    pub fn parse_resp(resp: Message) -> (r: Result<Command, CommandError>)
        ensures
            command_parsed_as(r, parse_command(resp@)),
    {
        let elems: Vec<Message> = match resp {
            Message::Array(elems) => {
                proof {
                    lemma_array_view(elems);
                }
                elems
            },
            _ => {
                return Err(CommandError::NotArray);
            },
        };
        if elems.len() == 0 {
            return Err(CommandError::Empty);
        }
        assert(views_of(elems@)[0] == elems@[0]@);
        let which: Name = match name_bytes(&elems[0]) {
            Some(name) => classify(name),
            None => {
                return Err(CommandError::InvalidName);
            },
        };
        match which {
            Name::Ping => {
                if elems.len() == 1 {
                    Ok(Command::Ping)
                } else {
                    Err(CommandError::PingArguments)
                }
            },
            Name::Get => {
                if elems.len() != 2 {
                    return Err(CommandError::GetArguments);
                }
                assert(views_of(elems@)[1] == elems@[1]@);
                match &elems[1] {
                    Message::BulkString(Some(key)) => Ok(Command::Get(Get { key: key.clone() })),
                    _ => Err(CommandError::GetArguments),
                }
            },
            Name::SetValue => {
                if elems.len() != 3 {
                    return Err(CommandError::SetArguments);
                }
                assert(views_of(elems@)[1] == elems@[1]@);
                assert(views_of(elems@)[2] == elems@[2]@);
                match (&elems[1], &elems[2]) {
                    (Message::BulkString(Some(key)), Message::BulkString(Some(value))) => Ok(
                        Command::SetValue(SetValue { key: key.clone(), value: value.clone() }),
                    ),
                    _ => Err(CommandError::SetArguments),
                }
            },
            Name::Other => Ok(Command::RawCommand(elems)),
        }
    }
}

/// A response to a command.
#[derive(Debug, PartialEq, Eq)]
pub enum CommandResponse {
    Pong,
    Okay,
    Error(String),
    BulkString(Option<RedisString>),
}

/// The mathematical value of a [`CommandResponse`].
pub enum CommandResponseView {
    Pong,
    Okay,
    Error(Seq<char>),
    BulkString(Option<Seq<u8>>),
}

impl View for CommandResponse {
    type V = CommandResponseView;

    open spec fn view(&self) -> CommandResponseView {
        match self {
            CommandResponse::Pong => CommandResponseView::Pong,
            CommandResponse::Okay => CommandResponseView::Okay,
            CommandResponse::Error(e) => CommandResponseView::Error(e@),
            CommandResponse::BulkString(None) => CommandResponseView::BulkString(None),
            CommandResponse::BulkString(Some(b)) => CommandResponseView::BulkString(Some(b@)),
        }
    }
}

/// Why a message is not a response.
#[derive(Clone, Copy, Debug, PartialEq, Eq, Structural)]
pub enum ResponseError {
    /// A simple string other than `PONG` and `OK`.
    UnknownSimpleString,
    /// An array.
    ArrayResponse,
}

/// The wording of a response error.
pub open spec fn response_error_text(e: ResponseError) -> Seq<char> {
    match e {
        ResponseError::UnknownSimpleString => "unknown simple string response"@,
        ResponseError::ArrayResponse => "array response not supported for command responses"@,
    }
}

impl ResponseError {
    /// The wording of this error.
    pub fn message(&self) -> (text: String)
        ensures
            text@ == response_error_text(*self),
    {
        match self {
            ResponseError::UnknownSimpleString => String::from_str(
                "unknown simple string response",
            ),
            ResponseError::ArrayResponse => String::from_str(
                "array response not supported for command responses",
            ),
        }
    }
}

/// The message that stands for a response.
pub open spec fn encode_response(r: CommandResponseView) -> MessageView {
    match r {
        CommandResponseView::Pong => MessageView::SimpleString("PONG"@),
        CommandResponseView::Okay => MessageView::SimpleString("OK"@),
        CommandResponseView::Error(e) => MessageView::Error(e),
        CommandResponseView::BulkString(b) => MessageView::BulkString(b),
    }
}

/// The response that a message stands for.
pub open spec fn parse_response(m: MessageView) -> Result<CommandResponseView, ResponseError> {
    match m {
        MessageView::SimpleString(s) => if s == "PONG"@ {
            Ok(CommandResponseView::Pong)
        } else if s == "OK"@ {
            Ok(CommandResponseView::Okay)
        } else {
            Err(ResponseError::UnknownSimpleString)
        },
        MessageView::Error(e) => Ok(CommandResponseView::Error(e)),
        MessageView::BulkString(b) => Ok(CommandResponseView::BulkString(b)),
        MessageView::Array(_) => Err(ResponseError::ArrayResponse),
    }
}

/// Whether the result `r` is what `expected` says.
pub open spec fn response_parsed_as(
    r: Result<CommandResponse, ResponseError>,
    expected: Result<CommandResponseView, ResponseError>,
) -> bool {
    match expected {
        Ok(c) => r is Ok && r->Ok_0@ == c,
        Err(e) => r == Err::<CommandResponse, ResponseError>(e),
    }
}

impl CommandResponse {
    /// The message that stands for this response.
    pub fn to_resp(&self) -> (m: Message)
        ensures
            m@ == encode_response(self@),
    {
        match self {
            CommandResponse::Pong => Message::SimpleString(String::from_str("PONG")),
            CommandResponse::Okay => Message::SimpleString(String::from_str("OK")),
            CommandResponse::Error(e) => Message::Error(e.clone()),
            CommandResponse::BulkString(None) => Message::BulkString(None),
            CommandResponse::BulkString(Some(b)) => Message::BulkString(Some(b.clone())),
        }
    }

    /// The response that `resp` stands for, or why it stands for none.
    pub fn parse_resp(resp: Message) -> (r: Result<CommandResponse, ResponseError>)
        ensures
            response_parsed_as(r, parse_response(resp@)),
    {
        match resp {
            Message::SimpleString(s) => {
                if s == String::from_str("PONG") {
                    Ok(CommandResponse::Pong)
                } else if s == String::from_str("OK") {
                    Ok(CommandResponse::Okay)
                } else {
                    Err(ResponseError::UnknownSimpleString)
                }
            },
            Message::Error(e) => Ok(CommandResponse::Error(e)),
            Message::BulkString(None) => Ok(CommandResponse::BulkString(None)),
            Message::BulkString(Some(b)) => Ok(CommandResponse::BulkString(Some(b))),
            Message::Array(_) => Err(ResponseError::ArrayResponse),
        }
    }
}

/// Parsing inverts encoding for the three known commands.
pub proof fn lemma_command_round_trip(c: CommandView)
    requires
        !(c is RawCommand),
    ensures
        parse_command(encode_command(c)) == Ok::<CommandView, CommandError>(c),
{
    lemma_names();
    assert(upper(ping_name()) =~= ping_name());
    assert(upper(get_name()) =~= get_name());
    assert(upper(set_name()) =~= set_name());
}

/// Parsing inverts encoding for every response.
pub proof fn lemma_response_round_trip(r: CommandResponseView)
    ensures
        parse_response(encode_response(r)) == Ok::<CommandResponseView, ResponseError>(r),
{
    reveal_strlit("PONG");
    reveal_strlit("OK");
    assert("PONG"@.len() != "OK"@.len());
}

/// Encoding inverts parsing for every message that is a response.
pub proof fn lemma_response_reencode(m: MessageView)
    requires
        parse_response(m) is Ok,
    ensures
        encode_response(parse_response(m)->Ok_0) == m,
{
}

} // verus!
