//! What holds of the encoder and the decoder together.

use vstd::prelude::*;
use vstd::utf8::*;
use crate::decode::{
    after, all_digits, array_length, decode, decode_elements, digits_value, first_lf,
    is_truncation, lemma_first_lf, signed_decimal, strip_plus, text_of, unsigned_decimal,
    DecodeError, Decoded,
};
use crate::resp::{
    crlf, decimal, encode, encode_all, well_formed, MessageView, CR, DIGIT_ONE, DOLLAR, LF,
    MAX_BULK_LEN, MINUS, PLUS, STAR,
};
use crate::text::one_line;

verus! {

/// The UTF-8 encoding of one character holds the ASCII byte `c` exactly
/// where the character is `c`.
proof fn lemma_scalar_ascii(v: u32, c: u8)
    requires
        is_scalar(v),
        c < 128,
    ensures
        encode_scalar(v).contains(c) <==> v == c as u32,
{
    let e = encode_scalar(v);
    assert(has_width_1_encoding(v) ==> (v & 0x7F) as u8 == v) by (bit_vector);
    assert((0xC0u8 | ((v >> 6) & 0x1F) as u8) >= 128) by (bit_vector);
    assert((0xE0u8 | ((v >> 12) & 0x0F) as u8) >= 128) by (bit_vector);
    assert((0xF0u8 | ((v >> 18) & 0x7) as u8) >= 128) by (bit_vector);
    assert((0x80u8 | (v & 0x3F) as u8) >= 128) by (bit_vector);
    assert((0x80u8 | ((v >> 6) & 0x3F) as u8) >= 128) by (bit_vector);
    assert((0x80u8 | ((v >> 12) & 0x3F) as u8) >= 128) by (bit_vector);
    if v == c as u32 {
        assert(e[0] == c);
    }
    if e.contains(c) {
        let i = choose|i: int| 0 <= i < e.len() && e[i] == c;
        assert(e[i] == c);
    }
}

/// The UTF-8 encoding of a text holds the ASCII byte `c` exactly where the
/// text holds the character `c`.
pub proof fn lemma_utf8_ascii(s: Seq<char>, c: u8)
    requires
        c < 128,
    ensures
        encode_utf8(s).contains(c) <==> s.contains(c as char),
    decreases s.len(),
{
    if s.len() > 0 {
        let tail = encode_utf8(s.drop_first());
        let head = encode_scalar(s[0] as u32);
        assert(encode_utf8(s) == head + tail);
        lemma_utf8_ascii(s.drop_first(), c);
        let first: char = s[0];
        let wanted: char = c as char;
        char_is_scalar(first);
        lemma_scalar_ascii(first as u32, c);
        assert(wanted as u32 == c as u32);
        char_u32_cast(first, first as u32);
        char_u32_cast(wanted, wanted as u32);
        assert(first as u32 == c as u32 <==> first == wanted);
        if encode_utf8(s).contains(c) {
            let i = choose|i: int| 0 <= i < (head + tail).len() && (head + tail)[i] == c;
            if i < head.len() {
                assert(head[i] == c);
                assert(s[0] == c as char);
            } else {
                assert(tail[i - head.len()] == c);
                let j = choose|j: int|
                    0 <= j < s.drop_first().len() && s.drop_first()[j] == c as char;
                assert(s[j + 1] == c as char);
            }
        }
        if s.contains(c as char) {
            let j = choose|j: int| 0 <= j < s.len() && s[j] == c as char;
            if j == 0 {
                let i = choose|i: int| 0 <= i < head.len() && head[i] == c;
                assert((head + tail)[i] == c);
            } else {
                assert(s.drop_first()[j - 1] == c as char);
                let i = choose|i: int| 0 <= i < tail.len() && tail[i] == c;
                assert((head + tail)[i + head.len()] == c);
            }
        }
    }
}

/// The canonical digits of `n` are one or more digits and denote `n`.
pub proof fn lemma_decimal(n: nat)
    ensures
        decimal(n).len() > 0,
        all_digits(decimal(n)),
        digits_value(decimal(n)) == n,
        unsigned_decimal(decimal(n)) == Some(n),
        signed_decimal(decimal(n)) == Some(n as int),
        strip_plus(decimal(n)) == decimal(n),
    decreases n,
{
    if n < 10 {
        assert(decimal(n).drop_last() =~= Seq::<u8>::empty());
        assert(digits_value(decimal(n).drop_last()) == 0);
    } else {
        lemma_decimal(n / 10);
        assert(decimal(n).drop_last() =~= decimal(n / 10));
        assert(decimal(n)[0] == decimal(n / 10)[0]);
    }
}

/// What the first line feed of a sequence is.
pub proof fn lemma_first_lf_is_first(b: Seq<u8>)
    ensures
        first_lf(b) <= b.len(),
        forall|j: int| 0 <= j < first_lf(b) ==> b[j] != LF,
        first_lf(b) < b.len() ==> b[first_lf(b) as int] == LF,
    decreases b.len(),
{
    if b.len() > 0 && b[0] != LF {
        lemma_first_lf_is_first(b.drop_first());
        assert forall|j: int| 0 <= j < first_lf(b) implies b[j] != LF by {
            if j > 0 {
                assert(b.drop_first()[j - 1] == b[j]);
            }
        }
    }
}

/// The encodings of a non-empty sequence of messages are the encoding of
/// the first, then those of the others.
pub proof fn lemma_encode_all_first(ms: Seq<MessageView>)
    requires
        ms.len() > 0,
    ensures
        encode_all(ms) == encode(ms[0]) + encode_all(ms.drop_first()),
    decreases ms.len(),
{
    if ms.len() == 1 {
        assert(ms.drop_last() =~= Seq::<MessageView>::empty());
        assert(ms.drop_first() =~= Seq::<MessageView>::empty());
        assert(encode_all(ms) =~= encode(ms[0]) + encode_all(ms.drop_first()));
    } else {
        lemma_encode_all_first(ms.drop_last());
        assert(ms.drop_last().drop_first() =~= ms.drop_first().drop_last());
        assert(ms.drop_first().last() == ms.last());
        assert(ms.drop_last()[0] == ms[0]);
        assert(encode_all(ms) =~= encode(ms[0]) + encode_all(ms.drop_first()));
    }
}

/// The header line `kind`, `body`, CR, LF at the start of `b` is found by
/// the decoder as such.
proof fn lemma_header(b: Seq<u8>, kind: u8, body: Seq<u8>, rest: Seq<u8>)
    requires
        b == seq![kind] + body + crlf() + rest,
        kind != LF,
        !body.contains(LF),
    ensures
        first_lf(b) == body.len() + 2,
        b[0] == kind,
        b[first_lf(b) - 1] == CR,
        b.subrange(1, first_lf(b) - 1) == body,
        after(b, (first_lf(b) + 1) as int) == rest,
        b.len() == body.len() + 3 + rest.len(),
{
    let k: int = (body.len() + 2) as int;
    assert forall|j: int| 0 <= j < k implies b[j] != LF by {
        if 1 <= j < k - 1 {
            assert(b[j] == body[j - 1]);
            assert(body.contains(body[j - 1]));
        }
    }
    lemma_first_lf(b, k);
    assert(b.subrange(1, k - 1) =~= body);
    assert(after(b, k + 1) =~= rest);
}

/// Decoding inverts encoding: the bytes that encode a message of the data
/// model, whatever follows them, decode to that message and to the number
/// of bytes of its encoding.
pub proof fn lemma_decode_encode(m: MessageView, rest: Seq<u8>)
    requires
        well_formed(m),
    ensures
        decode(encode(m) + rest) == Decoded::Message(m, encode(m).len() as int),
    decreases m,
{
    let b = encode(m) + rest;
    match m {
        MessageView::SimpleString(s) => {
            lemma_text_header(b, PLUS, s, rest);
        },
        MessageView::Error(s) => {
            lemma_text_header(b, MINUS, s, rest);
        },
        MessageView::BulkString(None) => {
            let body = seq![MINUS, DIGIT_ONE];
            assert(b =~= seq![DOLLAR] + body + crlf() + rest);
            lemma_header(b, DOLLAR, body, rest);
            let digits = body.skip(1);
            assert(digits.drop_last() =~= Seq::<u8>::empty());
            assert(digits_value(digits.drop_last()) == 0);
            assert(digits_value(digits) == 1);
            assert(signed_decimal(body) == Some(-1int));
        },
        MessageView::BulkString(Some(x)) => {
            let body = decimal(x.len());
            let tail = x + crlf() + rest;
            lemma_decimal(x.len());
            assert(b =~= seq![DOLLAR] + body + crlf() + tail);
            lemma_header(b, DOLLAR, body, tail);
            let next: int = (body.len() + 3) as int;
            assert(b[next + x.len()] == CR);
            assert(b[next + x.len() + 1] == LF);
            assert(b.subrange(next, next + x.len()) =~= x);
        },
        MessageView::Array(ms) => {
            let body = decimal(ms.len());
            let tail = encode_all(ms) + rest;
            lemma_decimal(ms.len());
            assert(b =~= seq![STAR] + body + crlf() + tail);
            lemma_header(b, STAR, body, tail);
            lemma_decode_encode_all(ms, rest, 0);
        },
    }
}

/// The header line of a simple string or of an error decodes to its text.
proof fn lemma_text_header(b: Seq<u8>, kind: u8, s: Seq<char>, rest: Seq<u8>)
    requires
        b == seq![kind] + encode_utf8(s) + crlf() + rest,
        kind != LF,
        one_line(s),
    ensures
        first_lf(b) == encode_utf8(s).len() + 2,
        b[0] == kind,
        b[first_lf(b) - 1] == CR,
        text_of(b.subrange(1, first_lf(b) - 1)) == Some(s),
        b.len() == encode_utf8(s).len() + 3 + rest.len(),
{
    let body = encode_utf8(s);
    lemma_utf8_ascii(s, LF);
    lemma_utf8_ascii(s, CR);
    assert(LF as char == '\n');
    assert(CR as char == '\r');
    lemma_header(b, kind, body, rest);
    encode_utf8_valid_utf8(s);
    encode_utf8_decode_utf8(s);
}

/// Decoding inverts encoding for the elements of an array: the encodings
/// of the last `ms.len()` elements of an array, whatever follows them,
/// decode to those elements.
pub proof fn lemma_decode_encode_all(ms: Seq<MessageView>, rest: Seq<u8>, i: nat)
    requires
        forall|j: int| 0 <= j < ms.len() ==> well_formed(#[trigger] ms[j]),
    ensures
        decode_elements(encode_all(ms) + rest, i + ms.len(), i) == Ok::<
            (Seq<MessageView>, int),
            crate::decode::DecodeError,
        >((ms, encode_all(ms).len() as int)),
    decreases ms,
{
    let n = i + ms.len();
    let b = encode_all(ms) + rest;
    if ms.len() == 0 {
        assert(ms =~= Seq::<MessageView>::empty());
    } else {
        let first = ms[0];
        let others = ms.drop_first();
        lemma_encode_all_first(ms);
        let tail = encode_all(others) + rest;
        assert(b =~= encode(first) + tail);
        lemma_decode_encode(first, tail);
        assert(after(b, encode(first).len() as int) =~= tail);
        assert forall|j: int| 0 <= j < others.len() implies well_formed(#[trigger] others[j]) by {
            assert(others[j] == ms[j + 1]);
        }
        lemma_decode_encode_all(others, rest, i + 1);
        assert(seq![first] + others =~= ms);
    }
}

/// A text that the decoder reads off a header line holds neither CR nor LF.
proof fn lemma_text_clean(b: Seq<u8>)
    requires
        2 <= first_lf(b) < b.len(),
        text_of(b.subrange(1, first_lf(b) - 1)) is Some,
    ensures
        one_line(text_of(b.subrange(1, first_lf(b) - 1))->Some_0),
{
    let body = b.subrange(1, first_lf(b) - 1);
    let s = decode_utf8(body);
    lemma_first_lf_is_first(b);
    decode_utf8_encode_utf8(body);
    lemma_utf8_ascii(s, LF);
    lemma_utf8_ascii(s, CR);
    assert(LF as char == '\n');
    assert(CR as char == '\r');
    if body.contains(LF) {
        let j = choose|j: int| 0 <= j < body.len() && body[j] == LF;
        assert(b[j + 1] == LF);
    }
}

/// What the decoder accepts is a message of the data model, and it takes up
/// at least one byte and no more than the input holds.
pub proof fn lemma_decode_well_formed(b: Seq<u8>)
    ensures
        match decode(b) {
            Decoded::Message(m, c) => well_formed(m) && 0 < c <= b.len(),
            _ => true,
        },
    decreases b.len(), 0nat,
{
    let k = first_lf(b) as int;
    lemma_first_lf_is_first(b);
    if b.len() > 0 && 2 <= k < b.len() && b[k - 1] == CR {
        let body = b.subrange(1, k - 1);
        if b[0] == PLUS || b[0] == MINUS {
            if text_of(body) is Some {
                lemma_text_clean(b);
            }
        } else if b[0] == STAR {
            match array_length(body) {
                Some(n) => {
                    lemma_decode_elements_well_formed(after(b, k + 1), n, 0);
                },
                None => {},
            }
        }
    }
}

/// What the decoder accepts as the elements of an array from index `i` on
/// are as many messages of the data model as the array still lacks, and
/// they take up no more bytes than the input holds.
pub proof fn lemma_decode_elements_well_formed(b: Seq<u8>, n: nat, i: nat)
    requires
        i <= n,
    ensures
        match decode_elements(b, n, i) {
            Ok((ms, c)) => {
                &&& ms.len() == n - i
                &&& 0 <= c <= b.len()
                &&& forall|j: int| 0 <= j < ms.len() ==> well_formed(#[trigger] ms[j])
            },
            Err(_) => true,
        },
    decreases b.len(), n - i + 1,
{
    if i < n {
        lemma_decode_well_formed(b);
        match decode(b) {
            Decoded::Message(m, c) => {
                lemma_decode_elements_well_formed(after(b, c), n, i + 1);
            },
            _ => {},
        }
    }
}

/// Whatever bytes decode to a message, the canonical encoding of that
/// message decodes to the same message.
pub proof fn lemma_decode_then_encode(b: Seq<u8>)
    requires
        decode(b) is Message,
    ensures
        decode(encode(decode(b)->Message_0)) == Decoded::Message(
            decode(b)->Message_0,
            encode(decode(b)->Message_0).len() as int,
        ),
{
    let m = decode(b)->Message_0;
    lemma_decode_well_formed(b);
    lemma_decode_encode(m, Seq::empty());
    assert(encode(m) + Seq::<u8>::empty() =~= encode(m));
}

/// No two messages of the data model have the same encoding: the null bulk
/// string and the empty one, for one, are told apart on the wire.
pub proof fn lemma_encode_injective(m1: MessageView, m2: MessageView)
    requires
        well_formed(m1),
        well_formed(m2),
        encode(m1) == encode(m2),
    ensures
        m1 == m2,
{
    lemma_decode_encode(m1, Seq::empty());
    lemma_decode_encode(m2, Seq::empty());
}

/// What the decoder makes of some bytes stands whatever follows them,
/// unless it is that they end too early: a message stays that message with
/// that many bytes, and any other error stays that error.
pub proof fn lemma_decode_settled(b: Seq<u8>, rest: Seq<u8>)
    ensures
        match decode(b) {
            Decoded::Eof => b.len() == 0,
            Decoded::Message(m, c) => decode(b + rest) == Decoded::Message(m, c),
            Decoded::Error(e) => !is_truncation(e) ==> decode(b + rest) == Decoded::Error(e),
        },
    decreases b.len(), 0nat,
{
    let k = first_lf(b) as int;
    let longer = b + rest;
    lemma_first_lf_is_first(b);
    if b.len() > 0 && k < b.len() {
        assert forall|j: int| 0 <= j < k implies longer[j] != LF by {
            assert(longer[j] == b[j]);
        }
        assert(longer[k] == b[k]);
        lemma_first_lf(longer, k);
        if 2 <= k && b[k - 1] == CR {
            assert(longer[k - 1] == b[k - 1]);
            assert(longer[0] == b[0]);
            assert(longer.subrange(1, k - 1) =~= b.subrange(1, k - 1));
            let body = b.subrange(1, k - 1);
            let next = k + 1;
            if b[0] == DOLLAR {
                match signed_decimal(body) {
                    Some(len) => {
                        if 0 <= len <= MAX_BULK_LEN && b.len() >= next + len + 2 {
                            assert(longer[next + len] == b[next + len]);
                            assert(longer[next + len + 1] == b[next + len + 1]);
                            assert(longer.subrange(next, next + len) =~= b.subrange(
                                next,
                                next + len,
                            ));
                        }
                    },
                    None => {},
                }
            } else if b[0] == STAR {
                match array_length(body) {
                    Some(n) => {
                        assert(after(longer, next) =~= after(b, next) + rest);
                        lemma_decode_elements_settled(after(b, next), rest, n, 0);
                    },
                    None => {},
                }
            }
        }
    }
}

/// What the decoder makes of some bytes as elements of an array stands
/// whatever follows them, unless it is that they end too early.
pub proof fn lemma_decode_elements_settled(b: Seq<u8>, rest: Seq<u8>, n: nat, i: nat)
    ensures
        match decode_elements(b, n, i) {
            Ok((ms, c)) => decode_elements(b + rest, n, i) == Ok::<
                (Seq<MessageView>, int),
                DecodeError,
            >((ms, c)),
            Err(e) => !is_truncation(e) ==> decode_elements(b + rest, n, i) == Err::<
                (Seq<MessageView>, int),
                DecodeError,
            >(e),
        },
    decreases b.len(), n - i + 1,
{
    if i < n {
        lemma_decode_settled(b, rest);
        lemma_decode_well_formed(b);
        match decode(b) {
            Decoded::Message(m, c) => {
                assert(after(b + rest, c) =~= after(b, c) + rest);
                lemma_decode_elements_settled(after(b, c), rest, n, i + 1);
            },
            _ => {},
        }
    }
}

} // verus!
