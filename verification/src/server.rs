//! The command processor, which owns the key/value store, and the rules by
//! which a connection worker answers what it reads.

use vstd::prelude::*;
use crate::codec_laws::lemma_decode_encode;
use crate::command::{
    command_error_text, encode_command, encode_response, lemma_command_error_text_one_line,
    lemma_command_round_trip, lemma_response_round_trip, name_bytes, name_of, parse_command,
    parse_response,
    Command, CommandResponse, CommandResponseView, CommandView, Get, ResponseError, SetValue,
};
use crate::decode::{
    decode, decode_error_text, lemma_decode_error_text_one_line, DecodeError, Decoded,
};
use crate::resp::{encode, views_of, well_formed, Message, MessageView, MAX_BULK_LEN};
use crate::string::RedisString;
use crate::text::{
    ascii_text, lemma_one_line_concat, lemma_visible_one_line, one_line, printable,
    printable_string,
};

verus! {

/// One key with its value.
#[derive(Debug)]
struct Entry {
    key: RedisString,
    value: RedisString,
}

/// The command processor. It owns the key/value store: a mapping from byte
/// strings to byte strings, empty at first.
#[derive(Debug)]
pub struct ServerCore {
    /// The entries of the store; no two of them have the same key.
    entries: Vec<Entry>,
}

/// The keys and values of the given entries, in order.
spec fn pairs_of(entries: Seq<Entry>) -> Seq<(Seq<u8>, Seq<u8>)> {
    Seq::new(entries.len(), |i: int| (entries[i].key@, entries[i].value@))
}

/// Whether no two of the given pairs have the same key.
spec fn unique_keys(pairs: Seq<(Seq<u8>, Seq<u8>)>) -> bool {
    forall|i: int, j: int|
        0 <= i < pairs.len() && 0 <= j < pairs.len() && i != j ==> pairs[i].0 != pairs[j].0
}

/// Whether one of the given pairs has the key `key`.
spec fn has_key(pairs: Seq<(Seq<u8>, Seq<u8>)>, key: Seq<u8>) -> bool {
    exists|i: int| 0 <= i < pairs.len() && pairs[i].0 == key
}

/// The index of a pair with the key `key`.
spec fn index_of(pairs: Seq<(Seq<u8>, Seq<u8>)>, key: Seq<u8>) -> int {
    choose|i: int| 0 <= i < pairs.len() && pairs[i].0 == key
}

/// The mapping that the given pairs make up.
spec fn mapping_of(pairs: Seq<(Seq<u8>, Seq<u8>)>) -> Map<Seq<u8>, Seq<u8>> {
    Map::new(|key: Seq<u8>| has_key(pairs, key), |key: Seq<u8>| pairs[index_of(pairs, key)].1)
}

/// A pair is in the mapping that the pairs make up.
proof fn lemma_mapping_holds(pairs: Seq<(Seq<u8>, Seq<u8>)>, i: int)
    requires
        unique_keys(pairs),
        0 <= i < pairs.len(),
    ensures
        mapping_of(pairs).contains_key(pairs[i].0),
        mapping_of(pairs)[pairs[i].0] == pairs[i].1,
{
    assert(has_key(pairs, pairs[i].0));
}

/// Replacing the value of a pair replaces it in the mapping.
proof fn lemma_mapping_update(pairs: Seq<(Seq<u8>, Seq<u8>)>, i: int, value: Seq<u8>)
    requires
        unique_keys(pairs),
        0 <= i < pairs.len(),
    ensures
        unique_keys(pairs.update(i, (pairs[i].0, value))),
        mapping_of(pairs.update(i, (pairs[i].0, value))) == mapping_of(pairs).insert(
            pairs[i].0,
            value,
        ),
{
    let key = pairs[i].0;
    let after = pairs.update(i, (key, value));
    assert(unique_keys(after)) by {
        assert forall|a: int, b: int|
            0 <= a < after.len() && 0 <= b < after.len() && a != b implies after[a].0
            != after[b].0 by {
            assert(after[a].0 == pairs[a].0);
            assert(after[b].0 == pairs[b].0);
        }
    }
    assert forall|k: Seq<u8>| has_key(after, k) == has_key(pairs, k) by {
        if has_key(after, k) {
            let j = index_of(after, k);
            assert(pairs[j].0 == k);
        }
        if has_key(pairs, k) {
            let j = index_of(pairs, k);
            assert(after[j].0 == k);
        }
    }
    assert(has_key(pairs, key));
    assert forall|k: Seq<u8>| has_key(after, k) implies #[trigger] mapping_of(after)[k]
        == mapping_of(pairs).insert(key, value)[k] by {
        let j = index_of(after, k);
        assert(pairs[j].0 == k);
        if k != key {
            let j2 = index_of(pairs, k);
            assert(j == j2);
        }
    }
    assert(mapping_of(after) =~= mapping_of(pairs).insert(key, value));
}

/// Adding a pair with a new key adds it to the mapping.
proof fn lemma_mapping_push(pairs: Seq<(Seq<u8>, Seq<u8>)>, key: Seq<u8>, value: Seq<u8>)
    requires
        unique_keys(pairs),
        !has_key(pairs, key),
    ensures
        unique_keys(pairs.push((key, value))),
        mapping_of(pairs.push((key, value))) == mapping_of(pairs).insert(key, value),
{
    let after = pairs.push((key, value));
    assert(unique_keys(after)) by {
        assert forall|a: int, b: int|
            0 <= a < after.len() && 0 <= b < after.len() && a != b implies after[a].0
            != after[b].0 by {
            if a < pairs.len() {
                assert(after[a].0 == pairs[a].0);
            }
            if b < pairs.len() {
                assert(after[b].0 == pairs[b].0);
            }
        }
    }
    assert(after[pairs.len() as int].0 == key);
    assert forall|k: Seq<u8>| has_key(after, k) == (has_key(pairs, k) || k == key) by {
        if has_key(after, k) {
            let j = index_of(after, k);
            if j < pairs.len() {
                assert(pairs[j].0 == k);
            }
        }
        if has_key(pairs, k) {
            let j = index_of(pairs, k);
            assert(after[j].0 == k);
        }
    }
    assert forall|k: Seq<u8>| has_key(after, k) implies #[trigger] mapping_of(after)[k]
        == mapping_of(pairs).insert(key, value)[k] by {
        let j = index_of(after, k);
        if k != key {
            let j2 = index_of(pairs, k);
            assert(after[j2].0 == k);
            assert(j == j2);
        }
    }
    assert(mapping_of(after) =~= mapping_of(pairs).insert(key, value));
}

/// The text of the reply to an unknown command: that the command is
/// unknown, then its name in printable form. The name is that of the first
/// element, if there is one and it is a string.
pub open spec fn unknown_command_text(elems: Seq<MessageView>) -> Seq<char> {
    let name = if elems.len() > 0 && name_of(elems[0]) is Some {
        name_of(elems[0])->Some_0
    } else {
        Seq::empty()
    };
    "unknown command: "@ + ascii_text(printable(name))
}

/// The response that a store with the contents `store` gives to a command.
pub open spec fn response_to(store: Map<Seq<u8>, Seq<u8>>, c: CommandView) -> CommandResponseView {
    match c {
        CommandView::Ping => CommandResponseView::Pong,
        CommandView::Get(key) => CommandResponseView::BulkString(
            if store.contains_key(key) {
                Some(store[key])
            } else {
                None
            },
        ),
        CommandView::SetValue(_, _) => CommandResponseView::Okay,
        CommandView::RawCommand(elems) => CommandResponseView::Error(unknown_command_text(elems)),
    }
}

/// The contents of a store with the contents `store` after a command.
pub open spec fn store_after(store: Map<Seq<u8>, Seq<u8>>, c: CommandView) -> Map<
    Seq<u8>,
    Seq<u8>,
> {
    match c {
        CommandView::SetValue(key, value) => store.insert(key, value),
        _ => store,
    }
}

impl View for ServerCore {
    type V = Map<Seq<u8>, Seq<u8>>;

    closed spec fn view(&self) -> Map<Seq<u8>, Seq<u8>> {
        mapping_of(pairs_of(self.entries@))
    }
}

impl ServerCore {
    /// Whether the store is in order: it holds no key twice. Every
    /// processor that this library hands out is.
    pub closed spec fn wf(&self) -> bool {
        unique_keys(pairs_of(self.entries@))
    }

    /// A processor with an empty store.
    pub fn new() -> (core: ServerCore)
        ensures
            core.wf(),
            core@ == Map::<Seq<u8>, Seq<u8>>::empty(),
    {
        let core = ServerCore { entries: Vec::new() };
        assert(core@ =~= Map::<Seq<u8>, Seq<u8>>::empty()) by {
            assert forall|k: Seq<u8>| !has_key(pairs_of(core.entries@), k) by {}
        }
        core
    }

    /// The index of the entry with the key `key`, if there is one.
    fn find(&self, key: &RedisString) -> (found: Option<usize>)
        ensures
            match found {
                Some(i) => i < self.entries@.len() && self.entries@[i as int].key@ == key@,
                None => !has_key(pairs_of(self.entries@), key@),
            },
    {
        let mut i: usize = 0;
        while i < self.entries.len()
            invariant
                i <= self.entries@.len(),
                forall|j: int| 0 <= j < i ==> self.entries@[j].key@ != key@,
            decreases self.entries@.len() - i,
        {
            if self.entries[i].key == *key {
                return Some(i);
            }
            i += 1;
        }
        proof {
            let pairs = pairs_of(self.entries@);
            if has_key(pairs, key@) {
                let j = index_of(pairs, key@);
                assert(pairs[j].0 == self.entries@[j].key@);
            }
        }
        None
    }

    /// Applies one command to the store and gives the response to it.
    ///
    /// `PING` is answered by `Pong`. `GET` gives the value stored under the
    /// key, or the null bulk string. `SET` stores the value under the key,
    /// in place of any earlier one. An unknown command is answered by an
    /// error that names it.
    pub fn process_command(&mut self, command: Command) -> (response: CommandResponse)
        requires
            old(self).wf(),
        ensures
            final(self).wf(),
            response@ == response_to(old(self)@, command@),
            final(self)@ == store_after(old(self)@, command@),
    {
        let ghost pairs = pairs_of(self.entries@);
        match command {
            Command::Ping => CommandResponse::Pong,
            Command::Get(Get { key }) => {
                match self.find(&key) {
                    Some(i) => {
                        proof {
                            lemma_mapping_holds(pairs, i as int);
                        }
                        CommandResponse::BulkString(Some(self.entries[i].value.clone()))
                    },
                    None => CommandResponse::BulkString(None),
                }
            },
            Command::SetValue(SetValue { key, value }) => {
                match self.find(&key) {
                    Some(i) => {
                        proof {
                            lemma_mapping_update(pairs, i as int, value@);
                        }
                        self.entries.set(i, Entry { key, value });
                        assert(pairs_of(self.entries@) =~= pairs.update(
                            i as int,
                            (pairs[i as int].0, value@),
                        ));
                    },
                    None => {
                        proof {
                            lemma_mapping_push(pairs, key@, value@);
                        }
                        self.entries.push(Entry { key, value });
                        assert(pairs_of(self.entries@) =~= pairs.push((key@, value@)));
                    },
                }
                CommandResponse::Okay
            },
            Command::RawCommand(elems) => {
                assert(elems@.len() > 0 ==> views_of(elems@)[0] == elems@[0]@);
                let name: String = if elems.len() > 0 {
                    match name_bytes(&elems[0]) {
                        Some(bytes) => printable_string(bytes),
                        None => String::new(),
                    }
                } else {
                    String::new()
                };
                assert(ascii_text(printable(Seq::<u8>::empty())) =~= Seq::<char>::empty());
                let mut text = String::from_str("unknown command: ");
                text.append(name.as_str());
                CommandResponse::Error(text)
            },
        }
    }
}

/// Right after a `SET`, `GET` of the same key gives the value that was set,
/// whatever bytes key and value hold, none at all included; `GET` of any
/// other key gives what it gave before.
pub proof fn lemma_set_then_get(
    store: Map<Seq<u8>, Seq<u8>>,
    key: Seq<u8>,
    value: Seq<u8>,
    other: Seq<u8>,
)
    requires
        other != key,
    ensures
        response_to(store_after(store, CommandView::SetValue(key, value)), CommandView::Get(key))
            == CommandResponseView::BulkString(Some(value)),
        response_to(
            store_after(store, CommandView::SetValue(key, value)),
            CommandView::Get(other),
        ) == response_to(store, CommandView::Get(other)),
{
}

/// The store after the given commands, applied in order to an empty store.
pub open spec fn store_after_all(commands: Seq<CommandView>) -> Map<Seq<u8>, Seq<u8>>
    decreases commands.len(),
{
    if commands.len() == 0 {
        Map::empty()
    } else {
        store_after(store_after_all(commands.drop_last()), commands.last())
    }
}

/// The value that the last `SET` of `key` among the given commands gives
/// it, if there is such a `SET`.
pub open spec fn last_set(commands: Seq<CommandView>, key: Seq<u8>) -> Option<Seq<u8>>
    decreases commands.len(),
{
    if commands.len() == 0 {
        None
    } else {
        match commands.last() {
            CommandView::SetValue(k, v) => if k == key {
                Some(v)
            } else {
                last_set(commands.drop_last(), key)
            },
            _ => last_set(commands.drop_last(), key),
        }
    }
}

/// After any sequence of commands on an empty store, `GET` of a key gives
/// the value of the most recent `SET` of that key, or the null bulk string
/// if there was none.
pub proof fn lemma_get_gives_last_set(commands: Seq<CommandView>, key: Seq<u8>)
    ensures
        response_to(store_after_all(commands), CommandView::Get(key))
            == CommandResponseView::BulkString(last_set(commands, key)),
    decreases commands.len(),
{
    if commands.len() > 0 {
        lemma_get_gives_last_set(commands.drop_last(), key);
    }
}

/// Whether no value in the store is longer than a bulk string may be.
pub open spec fn values_fit(store: Map<Seq<u8>, Seq<u8>>) -> bool {
    forall|key: Seq<u8>| store.contains_key(key) ==> (#[trigger] store[key]).len() <= MAX_BULK_LEN
}

/// The text of the reply to an unknown command holds neither CR nor LF,
/// whatever bytes the name holds.
pub proof fn lemma_unknown_command_text_one_line(elems: Seq<MessageView>)
    ensures
        one_line(unknown_command_text(elems)),
{
    reveal_strlit("unknown command: ");
    let name = if elems.len() > 0 && name_of(elems[0]) is Some {
        name_of(elems[0])->Some_0
    } else {
        Seq::empty()
    };
    lemma_visible_one_line(printable(name));
    lemma_one_line_concat("unknown command: "@, ascii_text(printable(name)));
}

/// The response to a command that came as a message of the data model is
/// a message of the data model, and the store keeps to the limit on the
/// length of a value.
pub proof fn lemma_response_well_formed(store: Map<Seq<u8>, Seq<u8>>, m: MessageView)
    requires
        values_fit(store),
        well_formed(m),
        parse_command(m) is Ok,
    ensures
        well_formed(encode_response(response_to(store, parse_command(m)->Ok_0))),
        values_fit(store_after(store, parse_command(m)->Ok_0)),
{
    let c = parse_command(m)->Ok_0;
    let elems = m->Array_0;
    reveal_strlit("PONG");
    reveal_strlit("OK");
    match c {
        CommandView::RawCommand(raw) => {
            lemma_unknown_command_text_one_line(raw);
        },
        CommandView::SetValue(key, value) => {
            assert(well_formed(elems[2]));
        },
        _ => {},
    }
}

/// What a connection worker does next.
#[derive(Debug, PartialEq, Eq)]
pub enum WorkerAction {
    /// The stream ended between two messages: stop.
    Close,
    /// Send this response, then stop: the stream is at no message boundary.
    ReplyAndClose(CommandResponse),
    /// Send this response, then read on.
    Reply(CommandResponse),
    /// Hand this command to the processor, send its response, then read on.
    Dispatch(Command),
}

/// The mathematical value of a [`WorkerAction`].
pub enum WorkerActionView {
    Close,
    ReplyAndClose(CommandResponseView),
    Reply(CommandResponseView),
    Dispatch(CommandView),
}

impl View for WorkerAction {
    type V = WorkerActionView;

    open spec fn view(&self) -> WorkerActionView {
        match self {
            WorkerAction::Close => WorkerActionView::Close,
            WorkerAction::ReplyAndClose(r) => WorkerActionView::ReplyAndClose(r@),
            WorkerAction::Reply(r) => WorkerActionView::Reply(r@),
            WorkerAction::Dispatch(c) => WorkerActionView::Dispatch(c@),
        }
    }
}

/// What a worker does after the decoder has given `decoded`.
///
/// At the end of the stream it stops. A decode error is answered by an
/// error reply, after which it stops. A message that is no command is
/// answered by an error reply. A command goes to the processor.
pub open spec fn action_for(decoded: Result<Option<MessageView>, DecodeError>) -> WorkerActionView {
    match decoded {
        Ok(None) => WorkerActionView::Close,
        Err(e) => WorkerActionView::ReplyAndClose(
            CommandResponseView::Error("error parsing message: "@ + decode_error_text(e)),
        ),
        Ok(Some(m)) => match parse_command(m) {
            Ok(c) => WorkerActionView::Dispatch(c),
            Err(e) => WorkerActionView::Reply(
                CommandResponseView::Error("error parsing RESP: "@ + command_error_text(e)),
            ),
        },
    }
}

/// The value of what the decoder gave.
pub open spec fn decoded_view(decoded: Result<Option<Message>, DecodeError>) -> Result<
    Option<MessageView>,
    DecodeError,
> {
    match decoded {
        Ok(Some(m)) => Ok(Some(m@)),
        Ok(None) => Ok(None),
        Err(e) => Err(e),
    }
}

/// What a worker does after the decoder has given `decoded`.
pub fn next_action(decoded: Result<Option<Message>, DecodeError>) -> (action: WorkerAction)
    ensures
        action@ == action_for(decoded_view(decoded)),
{
    match decoded {
        Ok(None) => WorkerAction::Close,
        Err(e) => {
            let mut text = String::from_str("error parsing message: ");
            text.append(e.message().as_str());
            WorkerAction::ReplyAndClose(CommandResponse::Error(text))
        },
        Ok(Some(m)) => match Command::parse_resp(m) {
            Ok(c) => WorkerAction::Dispatch(c),
            Err(e) => {
                let mut text = String::from_str("error parsing RESP: ");
                text.append(e.message().as_str());
                WorkerAction::Reply(CommandResponse::Error(text))
            },
        },
    }
}

/// A reply that a worker gives by itself is a message of the data model.
pub proof fn lemma_reply_well_formed(decoded: Result<Option<MessageView>, DecodeError>)
    ensures
        match action_for(decoded) {
            WorkerActionView::Reply(r) => well_formed(encode_response(r)),
            WorkerActionView::ReplyAndClose(r) => well_formed(encode_response(r)),
            _ => true,
        },
{
    reveal_strlit("error parsing message: ");
    reveal_strlit("error parsing RESP: ");
    match decoded {
        Err(e) => {
            lemma_decode_error_text_one_line(e);
            lemma_one_line_concat("error parsing message: "@, decode_error_text(e));
        },
        Ok(Some(m)) => {
            match parse_command(m) {
                Err(e) => {
                    lemma_command_error_text_one_line(e);
                    lemma_one_line_concat("error parsing RESP: "@, command_error_text(e));
                },
                Ok(_) => {},
            }
        },
        Ok(None) => {},
    }
}

/// What a client sends for one of the three known commands, a worker reads
/// as that command and hands to the processor, whatever follows it on the
/// stream.
pub proof fn lemma_request_understood(c: CommandView, rest: Seq<u8>)
    requires
        !(c is RawCommand),
        well_formed(encode_command(c)),
    ensures
        decode(encode(encode_command(c)) + rest) == Decoded::Message(
            encode_command(c),
            encode(encode_command(c)).len() as int,
        ),
        action_for(Ok(Some(encode_command(c)))) == WorkerActionView::Dispatch(c),
{
    lemma_decode_encode(encode_command(c), rest);
    lemma_command_round_trip(c);
}

/// What the server sends for a response, a client reads as that response,
/// whatever follows it on the stream.
pub proof fn lemma_response_understood(r: CommandResponseView, rest: Seq<u8>)
    requires
        well_formed(encode_response(r)),
    ensures
        decode(encode(encode_response(r)) + rest) == Decoded::Message(
            encode_response(r),
            encode(encode_response(r)).len() as int,
        ),
        parse_response(encode_response(r)) == Ok::<CommandResponseView, ResponseError>(r),
{
    lemma_decode_encode(encode_response(r), rest);
    lemma_response_round_trip(r);
}

/// The source of connection identities: 0, 1, 2 and so on, none of them
/// twice.
#[derive(Debug)]
pub struct ConnectionIds {
    next: usize,
}

impl View for ConnectionIds {
    type V = nat;

    /// The number of identities given out so far, which is the next one.
    closed spec fn view(&self) -> nat {
        self.next as nat
    }
}

impl ConnectionIds {
    /// A source that has given out no identity yet.
    pub fn new() -> (ids: ConnectionIds)
        ensures
            ids@ == 0,
    {
        ConnectionIds { next: 0 }
    }

    /// The next identity: the number of identities given out before. Gives
    /// nothing once every machine word but the largest has been given out.
    pub fn next_id(&mut self) -> (id: Option<usize>)
        ensures
            old(self)@ < usize::MAX ==> id == Some(old(self)@ as usize) && final(self)@ == old(
                self,
            )@ + 1,
            old(self)@ >= usize::MAX ==> id.is_none() && final(self)@ == old(self)@,
    {
        if self.next < usize::MAX {
            let id: usize = self.next;
            self.next = id + 1;
            Some(id)
        } else {
            None
        }
    }
}

} // verus!
