//! The decoder: what a byte sequence means as a message, and the parser
//! that computes it.

use vstd::prelude::*;
use vstd::slice::slice_subrange;
use vstd::utf8::*;
use crate::codec_laws::lemma_decimal;
use crate::resp::{
    decimal, views_of, write_decimal, Message, MessageView, CR, DIGIT_NINE, DIGIT_ZERO, DOLLAR,
    LF, MAX_BULK_LEN, MINUS, PLUS, STAR,
};
use crate::string::RedisString;
use crate::text::{
    ascii_string, ascii_text, lemma_one_line_concat, lemma_visible_one_line, one_line,
    string_from_utf8,
};

verus! {

/// Why a byte sequence is not a message.
#[derive(Clone, Copy, Debug, PartialEq, Eq, Structural)]
pub enum DecodeError {
    /// The input ends before the line feed of a header line.
    UnterminatedLine,
    /// A header line ends with a line feed that no carriage return precedes.
    MissingCrlf,
    /// A header line is empty or its first byte is none of `+`, `-`, `$`, `*`.
    InvalidType,
    /// The body of a simple string or of an error holds a carriage return or
    /// is not UTF-8.
    InvalidText,
    /// The length of a bulk string is no decimal number, or is neither -1 nor
    /// within 0 and 512 MiB.
    InvalidBulkLength,
    /// The length of an array is no unsigned decimal number that fits a
    /// machine word.
    InvalidArrayLength,
    /// The input ends before the body of a bulk string and its two closing
    /// bytes are complete.
    TruncatedBulk,
    /// The two bytes after the body of a bulk string are not CR, LF.
    MissingBulkCrlf,
    /// The input ends where the array element with this index should start.
    TruncatedArray(usize),
}

/// The wording of a decode error.
pub open spec fn decode_error_text(e: DecodeError) -> Seq<char> {
    match e {
        DecodeError::UnterminatedLine => "header line is not terminated"@,
        DecodeError::MissingCrlf => "header line does not end with CRLF"@,
        DecodeError::InvalidType => "invalid message start"@,
        DecodeError::InvalidText => "invalid text in simple string or error"@,
        DecodeError::InvalidBulkLength => "invalid bulk string length"@,
        DecodeError::InvalidArrayLength => "invalid array length"@,
        DecodeError::TruncatedBulk => "truncated bulk string"@,
        DecodeError::MissingBulkCrlf => "bulk string is not followed by CRLF"@,
        DecodeError::TruncatedArray(i) => "truncated array element "@ + ascii_text(
            decimal(i as nat),
        ),
    }
}

/// The wording of a decode error holds neither CR nor LF.
pub proof fn lemma_decode_error_text_one_line(e: DecodeError)
    ensures
        one_line(decode_error_text(e)),
{
    reveal_strlit("header line is not terminated");
    reveal_strlit("header line does not end with CRLF");
    reveal_strlit("invalid message start");
    reveal_strlit("invalid text in simple string or error");
    reveal_strlit("invalid bulk string length");
    reveal_strlit("invalid array length");
    reveal_strlit("truncated bulk string");
    reveal_strlit("bulk string is not followed by CRLF");
    reveal_strlit("truncated array element ");
    match e {
        DecodeError::TruncatedArray(i) => {
            lemma_decimal(i as nat);
            lemma_visible_one_line(decimal(i as nat));
            lemma_one_line_concat("truncated array element "@, ascii_text(decimal(i as nat)));
        },
        _ => {},
    }
}

/// Whether the error says that the input ended too early: more input
/// might have made a message of it.
pub open spec fn is_truncation(e: DecodeError) -> bool {
    e is UnterminatedLine || e is TruncatedBulk || e is TruncatedArray
}

impl DecodeError {
    /// Whether the error says that the input ended too early: more input
    /// might have made a message of it.
    pub fn is_truncation(&self) -> (truncated: bool)
        ensures
            truncated == is_truncation(*self),
    {
        match self {
            DecodeError::UnterminatedLine => true,
            DecodeError::TruncatedBulk => true,
            DecodeError::TruncatedArray(_) => true,
            _ => false,
        }
    }

    /// The wording of this error.
    pub fn message(&self) -> (text: String)
        ensures
            text@ == decode_error_text(*self),
    {
        match self {
            DecodeError::UnterminatedLine => String::from_str("header line is not terminated"),
            DecodeError::MissingCrlf => String::from_str("header line does not end with CRLF"),
            DecodeError::InvalidType => String::from_str("invalid message start"),
            DecodeError::InvalidText => String::from_str("invalid text in simple string or error"),
            DecodeError::InvalidBulkLength => String::from_str("invalid bulk string length"),
            DecodeError::InvalidArrayLength => String::from_str("invalid array length"),
            DecodeError::TruncatedBulk => String::from_str("truncated bulk string"),
            DecodeError::MissingBulkCrlf => String::from_str("bulk string is not followed by CRLF"),
            DecodeError::TruncatedArray(i) => {
                let mut digits: Vec<u8> = Vec::new();
                write_decimal(*i, &mut digits);
                proof {
                    lemma_decimal(*i as nat);
                    assert(digits@ =~= decimal(*i as nat));
                }
                let number = ascii_string(digits);
                let mut text = String::from_str("truncated array element ");
                text.append(number.as_str());
                text
            },
        }
    }
}

/// Whether a reader that got `decoded` from the bytes it holds should read
/// on before it settles: the bytes are none at all, or end too early for a
/// message.
pub fn wants_more(decoded: &Result<Option<(Message, usize)>, DecodeError>) -> (more: bool)
    ensures
        more == match *decoded {
            Ok(found) => found is None,
            Err(e) => is_truncation(e),
        },
{
    match decoded {
        Ok(None) => true,
        Ok(Some(_)) => false,
        Err(e) => e.is_truncation(),
    }
}

/// What a byte sequence decodes to.
pub enum Decoded {
    /// The input is empty: a clean end of stream.
    Eof,
    /// The input starts with a message, which takes up this many bytes.
    Message(MessageView, int),
    /// The input starts with something that is no message.
    Error(DecodeError),
}

/// The index of the first line feed in `b`, or the length of `b` if there is
/// none.
pub open spec fn first_lf(b: Seq<u8>) -> nat
    decreases b.len(),
{
    if b.len() == 0 || b[0] == LF {
        0
    } else {
        1 + first_lf(b.drop_first())
    }
}

/// Whether every byte of `d` is an ASCII digit.
pub open spec fn all_digits(d: Seq<u8>) -> bool {
    forall|i: int| 0 <= i < d.len() ==> DIGIT_ZERO <= #[trigger] d[i] <= DIGIT_NINE
}

/// The number that the ASCII digits `d` denote in base ten.
pub open spec fn digits_value(d: Seq<u8>) -> nat
    decreases d.len(),
{
    if d.len() == 0 {
        0
    } else {
        digits_value(d.drop_last()) * 10 + (d.last() - DIGIT_ZERO) as nat
    }
}

/// The number that `d` denotes, if `d` is one or more ASCII digits.
pub open spec fn unsigned_decimal(d: Seq<u8>) -> Option<nat> {
    if d.len() > 0 && all_digits(d) {
        Some(digits_value(d))
    } else {
        None
    }
}

/// `d` without its leading plus sign, if it has one.
pub open spec fn strip_plus(d: Seq<u8>) -> Seq<u8> {
    if d.len() > 0 && d[0] == PLUS {
        d.skip(1)
    } else {
        d
    }
}

/// The number that `d` denotes as a signed decimal: an optional sign, then
/// one or more digits.
pub open spec fn signed_decimal(d: Seq<u8>) -> Option<int> {
    if d.len() > 0 && d[0] == MINUS {
        match unsigned_decimal(d.skip(1)) {
            Some(v) => Some(-(v as int)),
            None => None,
        }
    } else {
        match unsigned_decimal(strip_plus(d)) {
            Some(v) => Some(v as int),
            None => None,
        }
    }
}

/// The element count that the header body `d` of an array gives: an optional
/// plus sign, then one or more digits, no more than a machine word holds.
pub open spec fn array_length(d: Seq<u8>) -> Option<nat> {
    match unsigned_decimal(strip_plus(d)) {
        Some(v) => if v <= usize::MAX {
            Some(v)
        } else {
            None
        },
        None => None,
    }
}

/// The text that the header body `d` of a simple string or of an error
/// gives: `d` read as UTF-8, if it is UTF-8 and holds no carriage return.
pub open spec fn text_of(d: Seq<u8>) -> Option<Seq<char>> {
    if valid_utf8(d) && !d.contains(CR) {
        Some(decode_utf8(d))
    } else {
        None
    }
}

/// What is left of `b` after its first `n` bytes.
pub open spec fn after(b: Seq<u8>, n: int) -> Seq<u8> {
    if 0 <= n <= b.len() {
        b.skip(n)
    } else {
        Seq::empty()
    }
}

/// What the start of `b` decodes to.
///
/// Empty input is the end of the stream. Otherwise a header line runs up to
/// the first line feed and must end with CR, LF. Its first byte gives the
/// kind of message and the rest, up to the CR, is the body of the header:
///
/// - `+` and `-`: the body is the text of a simple string or of an error.
/// - `$`: the body is a signed decimal. -1 stands for the null bulk string
///   and nothing follows. A length from 0 to 512 MiB is followed by that
///   many bytes and then by CR, LF. Any other length is an error.
/// - `*`: the body is an unsigned decimal, the number of elements, and the
///   elements follow one after the other.
pub open spec fn decode(b: Seq<u8>) -> Decoded
    decreases b.len(), 0nat,
{
    let k = first_lf(b) as int;
    if b.len() == 0 {
        Decoded::Eof
    } else if k >= b.len() {
        Decoded::Error(DecodeError::UnterminatedLine)
    } else if k == 0 || b[k - 1] != CR {
        Decoded::Error(DecodeError::MissingCrlf)
    } else if k == 1 {
        Decoded::Error(DecodeError::InvalidType)
    } else {
        let body = b.subrange(1, k - 1);
        let next = k + 1;
        if b[0] == PLUS {
            match text_of(body) {
                Some(s) => Decoded::Message(MessageView::SimpleString(s), next),
                None => Decoded::Error(DecodeError::InvalidText),
            }
        } else if b[0] == MINUS {
            match text_of(body) {
                Some(s) => Decoded::Message(MessageView::Error(s), next),
                None => Decoded::Error(DecodeError::InvalidText),
            }
        } else if b[0] == DOLLAR {
            match signed_decimal(body) {
                Some(len) => if len == -1 {
                    Decoded::Message(MessageView::BulkString(None), next)
                } else if len < 0 || len > MAX_BULK_LEN {
                    Decoded::Error(DecodeError::InvalidBulkLength)
                } else if b.len() < next + len + 2 {
                    Decoded::Error(DecodeError::TruncatedBulk)
                } else if b[next + len] != CR || b[next + len + 1] != LF {
                    Decoded::Error(DecodeError::MissingBulkCrlf)
                } else {
                    Decoded::Message(
                        MessageView::BulkString(Some(b.subrange(next, next + len))),
                        next + len + 2,
                    )
                },
                None => Decoded::Error(DecodeError::InvalidBulkLength),
            }
        } else if b[0] == STAR {
            match array_length(body) {
                Some(n) => match decode_elements(after(b, next), n, 0) {
                    Ok((ms, c)) => Decoded::Message(MessageView::Array(ms), next + c),
                    Err(e) => Decoded::Error(e),
                },
                None => Decoded::Error(DecodeError::InvalidArrayLength),
            }
        } else {
            Decoded::Error(DecodeError::InvalidType)
        }
    }
}

/// What the start of `b` decodes to as the elements of an array of `n`
/// elements from index `i` on: the elements and the bytes they take up, or
/// the first error. An input that ends where an element should start is an
/// error.
pub open spec fn decode_elements(b: Seq<u8>, n: nat, i: nat) -> Result<
    (Seq<MessageView>, int),
    DecodeError,
>
    decreases b.len(), n - i + 1,
{
    if i >= n {
        Ok((Seq::empty(), 0))
    } else {
        match decode(b) {
            Decoded::Eof => Err(DecodeError::TruncatedArray(i as usize)),
            Decoded::Error(e) => Err(e),
            Decoded::Message(m, c) => match decode_elements(after(b, c), n, i + 1) {
                Ok((ms, c2)) => Ok((seq![m] + ms, c + c2)),
                Err(e) => Err(e),
            },
        }
    }
}

/// Whether the parser's result `r` is what `d` says.
pub open spec fn parsed_as(r: Result<Option<(Message, usize)>, DecodeError>, d: Decoded) -> bool {
    match d {
        Decoded::Eof => r is Ok && r->Ok_0 is None,
        Decoded::Message(m, c) => {
            &&& r is Ok
            &&& r->Ok_0 is Some
            &&& r->Ok_0->Some_0.0@ == m
            &&& r->Ok_0->Some_0.1 == c
        },
        Decoded::Error(e) => r == Err::<Option<(Message, usize)>, DecodeError>(e),
    }
}

/// `r` with `ms` put before its elements and `c` added to its byte count.
spec fn prepend(
    ms: Seq<MessageView>,
    c: int,
    r: Result<(Seq<MessageView>, int), DecodeError>,
) -> Result<(Seq<MessageView>, int), DecodeError> {
    match r {
        Ok((ms2, c2)) => Ok((ms + ms2, c + c2)),
        Err(e) => Err(e),
    }
}

/// The first line feed is where a line feed stands with none before it.
pub proof fn lemma_first_lf(b: Seq<u8>, k: int)
    requires
        0 <= k <= b.len(),
        forall|j: int| 0 <= j < k ==> b[j] != LF,
        k < b.len() ==> b[k] == LF,
    ensures
        first_lf(b) == k,
    decreases k,
{
    if k > 0 {
        lemma_first_lf(b.drop_first(), k - 1);
    }
}

/// A prefix of a digit string denotes no more than the whole string.
pub proof fn lemma_digits_prefix(d: Seq<u8>, j: int)
    requires
        all_digits(d),
        0 <= j <= d.len(),
    ensures
        digits_value(d.take(j)) <= digits_value(d),
    decreases d.len(),
{
    if j == d.len() {
        assert(d.take(j) =~= d);
    } else {
        lemma_digits_prefix(d.drop_last(), j);
        assert(d.drop_last().take(j) =~= d.take(j));
    }
}

/// The index of the first line feed in `input`, or its length.
fn find_lf(input: &[u8]) -> (k: usize)
    ensures
        k == first_lf(input@),
        k <= input@.len(),
{
    let mut k: usize = 0;
    while k < input.len() && input[k] != LF
        invariant
            k <= input@.len(),
            forall|j: int| 0 <= j < k ==> input@[j] != LF,
        decreases input@.len() - k,
    {
        k += 1;
    }
    proof {
        lemma_first_lf(input@, k as int);
    }
    k
}

/// The number that the bytes of `input` from `from` up to `to` denote, if
/// they are one or more digits and denote no more than `limit`.
fn parse_digits(input: &[u8], from: usize, to: usize, limit: u64) -> (r: Option<u64>)
    requires
        from <= to <= input@.len(),
    ensures
        r == match unsigned_decimal(input@.subrange(from as int, to as int)) {
            Some(v) => if v <= limit {
                Some(v as u64)
            } else {
                None
            },
            None => None,
        },
{
    let ghost d = input@.subrange(from as int, to as int);
    if from == to {
        return None;
    }
    let mut acc: u64 = 0;
    let mut i: usize = from;
    assert(d.take(0) =~= Seq::<u8>::empty());
    while i < to
        invariant
            from <= i <= to <= input@.len(),
            d == input@.subrange(from as int, to as int),
            all_digits(d.take(i - from)),
            acc == digits_value(d.take(i - from)),
            acc <= limit,
        decreases to - i,
    {
        let c: u8 = input[i];
        let ghost longer = d.take(i - from + 1);
        proof {
            assert(longer.drop_last() =~= d.take(i - from));
            assert(longer.last() == c);
            assert(d[i - from] == c);
        }
        if c < DIGIT_ZERO || c > DIGIT_NINE {
            return None;
        }
        let x: u64 = (c - DIGIT_ZERO) as u64;
        if acc > limit / 10 || x > limit - acc * 10 {
            proof {
                assert(digits_value(longer) > limit);
                if all_digits(d) {
                    lemma_digits_prefix(d, i - from + 1);
                }
            }
            return None;
        }
        acc = acc * 10 + x;
        i += 1;
    }
    assert(d.take(to - from) =~= d);
    Some(acc)
}

/// The element count in the header body of an array.
fn parse_array_length(input: &[u8], from: usize, to: usize) -> (r: Option<usize>)
    requires
        from <= to <= input@.len(),
    ensures
        r == match array_length(input@.subrange(from as int, to as int)) {
            Some(n) => Some(n as usize),
            None => None,
        },
{
    let ghost d = input@.subrange(from as int, to as int);
    let start: usize = if from < to && input[from] == PLUS {
        from + 1
    } else {
        from
    };
    assert(strip_plus(d) =~= input@.subrange(start as int, to as int));
    match parse_digits(input, start, to, usize::MAX as u64) {
        Some(v) => Some(v as usize),
        None => None,
    }
}

/// The length in the header body of a bulk string: `Some(None)` for -1,
/// `Some(Some(n))` for a length within the limit, `None` for anything else.
fn parse_bulk_length(input: &[u8], from: usize, to: usize) -> (r: Option<Option<usize>>)
    requires
        from <= to <= input@.len(),
    ensures
        r == match signed_decimal(input@.subrange(from as int, to as int)) {
            Some(v) => if v == -1 {
                Some(None::<usize>)
            } else if 0 <= v <= MAX_BULK_LEN {
                Some(Some(v as usize))
            } else {
                None
            },
            None => None,
        },
{
    let ghost d = input@.subrange(from as int, to as int);
    if from < to && input[from] == MINUS {
        assert(d.skip(1) =~= input@.subrange(from + 1, to as int));
        match parse_digits(input, from + 1, to, 1) {
            Some(v) => if v == 1 {
                Some(None)
            } else {
                Some(Some(0))
            },
            None => None,
        }
    } else {
        let start: usize = if from < to && input[from] == PLUS {
            from + 1
        } else {
            from
        };
        assert(strip_plus(d) =~= input@.subrange(start as int, to as int));
        match parse_digits(input, start, to, MAX_BULK_LEN as u64) {
            Some(v) => Some(Some(v as usize)),
            None => None,
        }
    }
}

/// The text in the header body of a simple string or of an error.
fn parse_text(input: &[u8], from: usize, to: usize) -> (r: Option<String>)
    requires
        from <= to <= input@.len(),
    ensures
        match text_of(input@.subrange(from as int, to as int)) {
            Some(s) => r is Some && r->Some_0@ == s,
            None => r is None,
        },
{
    let ghost d = input@.subrange(from as int, to as int);
    let mut bytes: Vec<u8> = Vec::new();
    let mut i: usize = from;
    while i < to
        invariant
            from <= i <= to <= input@.len(),
            d == input@.subrange(from as int, to as int),
            bytes@ == d.take(i - from),
            !bytes@.contains(CR),
        decreases to - i,
    {
        let c: u8 = input[i];
        if c == CR {
            assert(d[i - from] == CR);
            return None;
        }
        bytes.push(c);
        proof {
            assert(bytes@ =~= d.take(i - from + 1));
            assert forall|j: int| 0 <= j < bytes@.len() implies bytes@[j] != CR by {
                if j < i - from {
                    assert(d.take(i - from)[j] == bytes@[j]);
                    assert(d.take(i - from).contains(bytes@[j]));
                }
            }
        }
        i += 1;
    }
    assert(bytes@ =~= d);
    match string_from_utf8(bytes) {
        Ok(s) => {
            proof {
                encode_utf8_valid_utf8(s@);
                encode_utf8_decode_utf8(s@);
            }
            Some(s)
        },
        Err(_) => None,
    }
}

impl Message {
    /// Decodes the message at the start of `input`.
    ///
    /// Returns `Ok(None)` where `input` is empty, else the message together
    /// with the number of bytes it takes up, or the reason why the input
    /// does not start with a message.
    pub fn parse_resp(input: &[u8]) -> (r: Result<Option<(Message, usize)>, DecodeError>)
        ensures
            parsed_as(r, decode(input@)),
            r is Ok && r->Ok_0 is None <==> input@.len() == 0,
            r is Ok && r->Ok_0 is Some ==> 0 < r->Ok_0->Some_0.1 <= input@.len(),
        decreases input@.len(),
    {
        let len: usize = input.len();
        if len == 0 {
            return Ok(None);
        }
        let k: usize = find_lf(input);
        if k >= len {
            return Err(DecodeError::UnterminatedLine);
        }
        if k == 0 || input[k - 1] != CR {
            return Err(DecodeError::MissingCrlf);
        }
        if k == 1 {
            return Err(DecodeError::InvalidType);
        }
        let kind: u8 = input[0];
        let next: usize = k + 1;
        if kind == PLUS {
            match parse_text(input, 1, k - 1) {
                Some(s) => Ok(Some((Message::SimpleString(s), next))),
                None => Err(DecodeError::InvalidText),
            }
        } else if kind == MINUS {
            match parse_text(input, 1, k - 1) {
                Some(s) => Ok(Some((Message::Error(s), next))),
                None => Err(DecodeError::InvalidText),
            }
        } else if kind == DOLLAR {
            match parse_bulk_length(input, 1, k - 1) {
                Some(None) => Ok(Some((Message::BulkString(None), next))),
                Some(Some(n)) => {
                    if len - next < n || len - next - n < 2 {
                        return Err(DecodeError::TruncatedBulk);
                    }
                    if input[next + n] != CR || input[next + n + 1] != LF {
                        return Err(DecodeError::MissingBulkCrlf);
                    }
                    let body = vstd::slice::slice_to_vec(slice_subrange(input, next, next + n));
                    Ok(Some((Message::BulkString(Some(RedisString::from(body))), next + n + 2)))
                },
                None => Err(DecodeError::InvalidBulkLength),
            }
        } else if kind == STAR {
            match parse_array_length(input, 1, k - 1) {
                Some(n) => {
                    let ghost b = input@;
                    let ghost target = decode_elements(after(b, next as int), n as nat, 0);
                    let mut msgs: Vec<Message> = Vec::new();
                    let mut pos: usize = next;
                    let mut i: usize = 0;
                    assert(views_of(msgs@) =~= Seq::<MessageView>::empty());
                    assert(Seq::<MessageView>::empty() + Seq::<MessageView>::empty()
                        =~= Seq::<MessageView>::empty());
                    while i < n
                        invariant
                            0 < next <= pos <= input@.len(),
                            i <= n,
                            b == input@,
                            msgs@.len() == i,
                            decode(b) == match target {
                                Ok((ms, c)) => Decoded::Message(MessageView::Array(ms), next + c),
                                Err(e) => Decoded::Error(e),
                            },
                            target == prepend(
                                views_of(msgs@),
                                pos - next,
                                decode_elements(after(b, pos as int), n as nat, i as nat),
                            ),
                        decreases n - i,
                    {
                        let rest = slice_subrange(input, pos, input.len());
                        assert(rest@ =~= after(b, pos as int));
                        let ghost before = views_of(msgs@);
                        match Message::parse_resp(rest) {
                            Ok(None) => {
                                return Err(DecodeError::TruncatedArray(i));
                            },
                            Err(e) => {
                                return Err(e);
                            },
                            Ok(Some((m, c))) => {
                                proof {
                                    assert(after(after(b, pos as int), c as int) =~= after(
                                        b,
                                        pos + c,
                                    ));
                                    let tail = decode_elements(
                                        after(b, pos + c),
                                        n as nat,
                                        (i + 1) as nat,
                                    );
                                    assert(decode_elements(after(b, pos as int), n as nat, i as nat)
                                        == prepend(seq![m@], c as int, tail));
                                    assert(views_of(msgs@.push(m)) =~= before + seq![m@]);
                                    match tail {
                                        Ok((ms2, c2)) => {
                                            assert(before + (seq![m@] + ms2) =~= (before
                                                + seq![m@]) + ms2);
                                        },
                                        Err(_) => {},
                                    }
                                }
                                msgs.push(m);
                                pos = pos + c;
                                i = i + 1;
                            },
                        }
                    }
                    proof {
                        assert(views_of(msgs@) + Seq::<MessageView>::empty() =~= views_of(msgs@));
                        assert(Message::Array(msgs)@->Array_0 =~= views_of(msgs@));
                    }
                    Ok(Some((Message::Array(msgs), pos)))
                },
                None => Err(DecodeError::InvalidArrayLength),
            }
        } else {
            Err(DecodeError::InvalidType)
        }
    }
}

} // verus!
