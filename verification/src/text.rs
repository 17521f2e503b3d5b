//! Texts: strings from bytes, and the wording of error replies.

use vstd::prelude::*;
use vstd::utf8::*;

verus! {

/// `FromUtf8Error` of std, the error of `String::from_utf8`. Nothing is
/// claimed of what it holds.
#[verifier::external_type_specification]
#[verifier::external_body]
pub struct ExFromUtf8Error(std::string::FromUtf8Error);

/// `String::from_utf8` of std. Taken on trust: it gives the string whose
/// UTF-8 bytes are `bytes`, and an error exactly where `bytes` is not
/// UTF-8.
#[verifier::external_body]
pub(crate) fn string_from_utf8(bytes: Vec<u8>) -> (r: Result<String, std::string::FromUtf8Error>)
    ensures
        match r {
            Ok(s) => encode_utf8(s@) == bytes@,
            Err(_) => !valid_utf8(bytes@),
        },
{
    String::from_utf8(bytes)
}

/// The first printable ASCII character, the space.
pub const FIRST_PRINTABLE: u8 = 32;

/// The last printable ASCII character, the tilde.
pub const LAST_PRINTABLE: u8 = 126;

/// The question mark, shown in place of a byte that cannot be printed.
pub const QUESTION_MARK: u8 = 63;

/// The characters that the ASCII bytes `bytes` stand for.
pub open spec fn ascii_text(bytes: Seq<u8>) -> Seq<char> {
    Seq::new(bytes.len(), |i: int| bytes[i] as char)
}

/// `bytes` with a question mark in place of each byte that is no printable
/// ASCII character.
pub open spec fn printable(bytes: Seq<u8>) -> Seq<u8> {
    Seq::new(
        bytes.len(),
        |i: int|
            if FIRST_PRINTABLE <= bytes[i] <= LAST_PRINTABLE {
                bytes[i]
            } else {
                QUESTION_MARK
            },
    )
}

/// ASCII bytes are the UTF-8 encoding of the characters they stand for.
pub proof fn lemma_ascii_text(bytes: Seq<u8>)
    requires
        forall|i: int| 0 <= i < bytes.len() ==> bytes[i] < 128,
    ensures
        encode_utf8(ascii_text(bytes)) == bytes,
        valid_utf8(bytes),
        decode_utf8(bytes) == ascii_text(bytes),
{
    let cs = ascii_text(bytes);
    assert(is_ascii_chars(cs));
    is_ascii_chars_encode_utf8(cs);
    assert(encode_utf8(cs) =~= bytes);
    encode_utf8_valid_utf8(cs);
    encode_utf8_decode_utf8(cs);
}

/// The string that the ASCII bytes `bytes` stand for.
pub fn ascii_string(bytes: Vec<u8>) -> (s: String)
    requires
        forall|i: int| 0 <= i < bytes@.len() ==> bytes@[i] < 128,
    ensures
        s@ == ascii_text(bytes@),
{
    proof {
        lemma_ascii_text(bytes@);
    }
    match string_from_utf8(bytes) {
        Ok(s) => {
            proof {
                encode_utf8_decode_utf8(s@);
            }
            s
        },
        // ASCII bytes are UTF-8: this arm is shown never to be taken.
        Err(_) => String::new(),
    }
}

/// The printable form of `bytes`, as a string.
pub fn printable_string(bytes: &[u8]) -> (s: String)
    ensures
        s@ == ascii_text(printable(bytes@)),
{
    let mut shown: Vec<u8> = Vec::new();
    let mut i: usize = 0;
    while i < bytes.len()
        invariant
            i <= bytes@.len(),
            shown@ == printable(bytes@).take(i as int),
        decreases bytes@.len() - i,
    {
        let b: u8 = bytes[i];
        if FIRST_PRINTABLE <= b && b <= LAST_PRINTABLE {
            shown.push(b);
        } else {
            shown.push(QUESTION_MARK);
        }
        assert(shown@ =~= printable(bytes@).take(i + 1));
        i += 1;
    }
    assert(shown@ =~= printable(bytes@));
    ascii_string(shown)
}

/// Whether a text holds neither CR nor LF.
pub open spec fn one_line(s: Seq<char>) -> bool {
    !s.contains('\r') && !s.contains('\n')
}

/// Two texts without CR and LF make one without them.
pub proof fn lemma_one_line_concat(a: Seq<char>, b: Seq<char>)
    requires
        one_line(a),
        one_line(b),
    ensures
        one_line(a + b),
{
    assert forall|i: int| 0 <= i < (a + b).len() implies (a + b)[i] != '\r' && (a + b)[i]
        != '\n' by {
        if i < a.len() {
            assert(a.contains(a[i]));
        } else {
            assert(b.contains(b[i - a.len()]));
        }
    }
}

/// The text of bytes that are all printable holds neither CR nor LF.
pub proof fn lemma_visible_one_line(bytes: Seq<u8>)
    requires
        forall|i: int|
            0 <= i < bytes.len() ==> FIRST_PRINTABLE <= #[trigger] bytes[i] <= LAST_PRINTABLE,
    ensures
        one_line(ascii_text(bytes)),
{
    assert forall|i: int| 0 <= i < bytes.len() implies ascii_text(bytes)[i] != '\r'
        && ascii_text(bytes)[i] != '\n' by {
        assert(FIRST_PRINTABLE <= bytes[i] <= LAST_PRINTABLE);
        assert('\r' as u32 == 13);
        assert('\n' as u32 == 10);
        assert((bytes[i] as char) as u32 == bytes[i] as u32);
    }
}

} // verus!
