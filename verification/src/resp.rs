//! The wire format: messages and their canonical encoding.

use vstd::prelude::*;
use vstd::utf8::*;
use crate::string::RedisString;
use crate::text::one_line;

verus! {

/// One message of the wire protocol.
#[derive(Debug, PartialEq, Eq)]
pub enum Message {
    /// A short text that holds neither CR nor LF.
    SimpleString(String),
    /// Like a simple string, but stands for an error reply.
    Error(String),
    /// A binary-safe byte string, or the distinguished null.
    BulkString(Option<RedisString>),
    /// An ordered sequence of messages; may be empty and may nest.
    Array(Vec<Message>),
}

/// The mathematical value of a [`Message`].
pub enum MessageView {
    SimpleString(Seq<char>),
    Error(Seq<char>),
    BulkString(Option<Seq<u8>>),
    Array(Seq<MessageView>),
}

/// The value of one message. The value of an array holds the values of its
/// elements; the bounds test there shows that the recursion ends, and no
/// index outside the array is ever looked at.
pub open spec fn message_view(m: Message) -> MessageView
    decreases m,
{
    match m {
        Message::SimpleString(s) => MessageView::SimpleString(s@),
        Message::Error(s) => MessageView::Error(s@),
        Message::BulkString(None) => MessageView::BulkString(None),
        Message::BulkString(Some(b)) => MessageView::BulkString(Some(b@)),
        Message::Array(v) => MessageView::Array(
            Seq::new(
                v@.len(),
                |i: int|
                    if 0 <= i < v@.len() {
                        message_view(v@[i])
                    } else {
                        MessageView::BulkString(None)
                    },
            ),
        ),
    }
}

/// The values of the given messages, in order.
pub open spec fn views_of(v: Seq<Message>) -> Seq<MessageView> {
    Seq::new(v.len(), |i: int| v[i]@)
}

/// The value of an array is the array of the values of its elements.
pub proof fn lemma_array_view(v: Vec<Message>)
    ensures
        Message::Array(v)@ == MessageView::Array(views_of(v@)),
{
    assert(Message::Array(v)@->Array_0 =~= views_of(v@));
}

/// A copy of each of the given messages, in order.
pub fn clone_messages(msgs: &Vec<Message>) -> (copies: Vec<Message>)
    ensures
        views_of(copies@) == views_of(msgs@),
    decreases msgs,
{
    let mut copies: Vec<Message> = Vec::new();
    let mut i: usize = 0;
    while i < msgs.len()
        invariant
            i <= msgs.len(),
            copies@.len() == i,
            forall|j: int| 0 <= j < i ==> copies@[j]@ == msgs@[j]@,
        decreases msgs.len() - i,
    {
        let copy = msgs[i].clone();
        copies.push(copy);
        i += 1;
    }
    assert(views_of(copies@) =~= views_of(msgs@));
    copies
}

impl Clone for Message {
    fn clone(&self) -> (copy: Self)
        ensures
            copy@ == self@,
        decreases self,
    {
        match self {
            Message::SimpleString(s) => Message::SimpleString(s.clone()),
            Message::Error(s) => Message::Error(s.clone()),
            Message::BulkString(None) => Message::BulkString(None),
            Message::BulkString(Some(b)) => Message::BulkString(Some(b.clone())),
            Message::Array(msgs) => {
                let copies = clone_messages(msgs);
                proof {
                    lemma_array_view(*msgs);
                    lemma_array_view(copies);
                }
                Message::Array(copies)
            },
        }
    }
}

impl View for Message {
    type V = MessageView;

    open spec fn view(&self) -> MessageView {
        message_view(*self)
    }
}

/// Carriage return.
pub const CR: u8 = 13;

/// Line feed.
pub const LF: u8 = 10;

/// `+`, which starts a simple string.
pub const PLUS: u8 = 43;

/// `-`, which starts an error, and is the minus sign.
pub const MINUS: u8 = 45;

/// `$`, which starts a bulk string.
pub const DOLLAR: u8 = 36;

/// `*`, which starts an array.
pub const STAR: u8 = 42;

/// The digit `0`.
pub const DIGIT_ZERO: u8 = 48;

/// The digit `1`.
pub const DIGIT_ONE: u8 = 49;

/// The digit `9`.
pub const DIGIT_NINE: u8 = 57;

/// The largest length of a bulk string: 512 MiB.
pub const MAX_BULK_LEN: usize = 536870912;

/// Whether a message is one of the data model: simple strings and errors
/// hold neither CR nor LF, a bulk string holds at most 512 MiB, an array
/// has no more elements than a machine word counts, and its elements are
/// such messages in turn.
pub open spec fn well_formed(m: MessageView) -> bool
    decreases m,
{
    match m {
        MessageView::SimpleString(s) => one_line(s),
        MessageView::Error(s) => one_line(s),
        MessageView::BulkString(None) => true,
        MessageView::BulkString(Some(b)) => b.len() <= MAX_BULK_LEN,
        MessageView::Array(ms) => ms.len() <= usize::MAX && forall|i: int|
            0 <= i < ms.len() ==> well_formed(#[trigger] ms[i]),
    }
}

/// The two bytes that end a line: CR, LF.
pub open spec fn crlf() -> Seq<u8> {
    seq![CR, LF]
}

/// The decimal digits of `n` in ASCII, without leading zeros.
pub open spec fn decimal(n: nat) -> Seq<u8>
    decreases n,
{
    if n < 10 {
        seq![(DIGIT_ZERO + n) as u8]
    } else {
        decimal(n / 10).push((DIGIT_ZERO + n % 10) as u8)
    }
}

/// The canonical encoding of a message.
pub open spec fn encode(m: MessageView) -> Seq<u8>
    decreases m,
{
    match m {
        MessageView::SimpleString(s) => seq![PLUS] + encode_utf8(s) + crlf(),
        MessageView::Error(s) => seq![MINUS] + encode_utf8(s) + crlf(),
        MessageView::BulkString(None) => seq![DOLLAR, MINUS, DIGIT_ONE] + crlf(),
        MessageView::BulkString(Some(b)) => seq![DOLLAR] + decimal(b.len()) + crlf() + b + crlf(),
        MessageView::Array(ms) => seq![STAR] + decimal(ms.len()) + crlf() + encode_all(ms),
    }
}

/// The encodings of the given messages, one after the other.
pub open spec fn encode_all(ms: Seq<MessageView>) -> Seq<u8>
    decreases ms,
{
    if ms.len() == 0 {
        Seq::empty()
    } else {
        encode_all(ms.drop_last()) + encode(ms.last())
    }
}

/// Appends the decimal digits of `n` to `out`.
pub(crate) fn write_decimal(n: usize, out: &mut Vec<u8>)
    ensures
        final(out)@ == old(out)@ + decimal(n as nat),
    decreases n,
{
    if n >= 10 {
        write_decimal(n / 10, out);
    }
    let digit: u8 = (n % 10) as u8;
    out.push(DIGIT_ZERO + digit);
    assert(final(out)@ =~= old(out)@ + decimal(n as nat));
}

/// Appends the bytes of `bytes` to `out`.
fn write_bytes(bytes: &[u8], out: &mut Vec<u8>)
    ensures
        final(out)@ == old(out)@ + bytes@,
{
    out.extend_from_slice(bytes);
    assert(final(out)@ =~= old(out)@ + bytes@);
}

impl Message {
    /// A non-null bulk string that holds the UTF-8 bytes of `s`.
    pub fn bulk_string(s: &str) -> (m: Message)
        ensures
            m@ == MessageView::BulkString(Some(encode_utf8(s@))),
    {
        Message::BulkString(Some(RedisString::from(s.as_bytes_vec())))
    }

    /// Appends the canonical encoding of this message to `writer`.
    pub fn serialize_resp(&self, writer: &mut Vec<u8>)
        ensures
            final(writer)@ == old(writer)@ + encode(self@),
        decreases self,
    {
        match self {
            Message::SimpleString(s) => {
                writer.push(PLUS);
                write_bytes(s.as_str().as_bytes(), writer);
                writer.push(CR);
                writer.push(LF);
                assert(final(writer)@ =~= old(writer)@ + encode(self@));
            },
            Message::Error(s) => {
                writer.push(MINUS);
                write_bytes(s.as_str().as_bytes(), writer);
                writer.push(CR);
                writer.push(LF);
                assert(final(writer)@ =~= old(writer)@ + encode(self@));
            },
            Message::BulkString(None) => {
                writer.push(DOLLAR);
                writer.push(MINUS);
                writer.push(DIGIT_ONE);
                writer.push(CR);
                writer.push(LF);
                assert(final(writer)@ =~= old(writer)@ + encode(self@));
            },
            Message::BulkString(Some(b)) => {
                writer.push(DOLLAR);
                write_decimal(b.len(), writer);
                writer.push(CR);
                writer.push(LF);
                write_bytes(b.as_bytes(), writer);
                writer.push(CR);
                writer.push(LF);
                assert(final(writer)@ =~= old(writer)@ + encode(self@));
            },
            Message::Array(msgs) => {
                writer.push(STAR);
                write_decimal(msgs.len(), writer);
                writer.push(CR);
                writer.push(LF);
                let ghost head = writer@;
                let ghost views = self@->Array_0;
                assert(head =~= old(writer)@ + (seq![STAR] + decimal(msgs@.len()) + crlf()));
                let mut i: usize = 0;
                while i < msgs.len()
                    invariant
                        i <= msgs.len(),
                        *self == Message::Array(*msgs),
                        views == self@->Array_0,
                        views.len() == msgs@.len(),
                        writer@ == head + encode_all(views.take(i as int)),
                    decreases msgs.len() - i,
                {
                    msgs[i].serialize_resp(writer);
                    proof {
                        let next = views.take(i + 1);
                        assert(next.drop_last() =~= views.take(i as int));
                        assert(next.last() == msgs@[i as int]@);
                        assert(writer@ =~= head + encode_all(next));
                    }
                    i += 1;
                }
                assert(views.take(i as int) =~= views);
                assert(final(writer)@ =~= old(writer)@ + encode(self@));
            },
        }
    }
}

} // verus!
