//! Binary-safe byte strings, used as both keys and values.

use vstd::prelude::*;
use vstd::std_specs::cmp::PartialEqSpecImpl;
use vstd::std_specs::convert::{FromSpecImpl, TryFromSpecImpl};
use vstd::utf8::*;
use crate::text::string_from_utf8;

verus! {

/// A binary-safe byte string. Its view is the sequence of its bytes.
#[derive(Debug, Eq, Hash)]
pub struct RedisString(Vec<u8>);

impl View for RedisString {
    type V = Seq<u8>;

    closed spec fn view(&self) -> Seq<u8> {
        self.0@
    }
}

impl Clone for RedisString {
    fn clone(&self) -> (copy: Self)
        ensures
            copy@ == self@,
    {
        RedisString(self.0.clone())
    }
}

impl RedisString {
    /// The number of bytes held.
    pub fn len(&self) -> (n: usize)
        ensures
            n == self@.len(),
    {
        self.0.len()
    }

    /// The bytes held, unchanged.
    pub fn as_bytes(&self) -> (bytes: &[u8])
        ensures
            bytes@ == self@,
    {
        self.0.as_slice()
    }

}

impl PartialEq for RedisString {
    /// Byte-wise equality.
    fn eq(&self, other: &Self) -> (same: bool) {
        if self.0.len() != other.0.len() {
            return false;
        }
        let mut i: usize = 0;
        while i < self.0.len()
            invariant
                i <= self.0.len(),
                self.0.len() == other.0.len(),
                forall|j: int| 0 <= j < i ==> self.0@[j] == other.0@[j],
            decreases self.0.len() - i,
        {
            if self.0[i] != other.0[i] {
                return false;
            }
            i += 1;
        }
        assert(self.0@ =~= other.0@);
        true
    }
}

/// Two byte strings are equal where they hold the same bytes.
impl PartialEqSpecImpl for RedisString {
    open spec fn obeys_eq_spec() -> bool {
        true
    }

    open spec fn eq_spec(&self, other: &Self) -> bool {
        self@ == other@
    }
}

/// The text that stands for the given bytes in diagnostics: the bytes read
/// as UTF-8, with a replacement character for what is not UTF-8, then
/// quoted and escaped as a string literal.
pub uninterp spec fn lossy_debug_text(bytes: Seq<u8>) -> Seq<char>;

/// `String::from_utf8_lossy` of std, formatted by `Debug`. Taken on trust:
/// the text depends on the bytes alone.
#[verifier::external_body]
fn lossy_debug(bytes: &[u8]) -> (text: String)
    ensures
        text@ == lossy_debug_text(bytes@),
{
    format!("{:?}", String::from_utf8_lossy(bytes))
}

impl RedisString {
    /// The diagnostic text of this byte string. The bytes held stay as they
    /// are.
    pub fn debug_string(&self) -> (text: String)
        ensures
            text@ == lossy_debug_text(self@),
    {
        lossy_debug(self.0.as_slice())
    }
}

impl From<Vec<u8>> for RedisString {
    /// Wraps the given bytes, unchanged.
    fn from(v: Vec<u8>) -> (s: Self)
        ensures
            s@ == v@,
    {
        RedisString(v)
    }
}

/// What `from` gives is stated on `from` itself, over the view.
impl FromSpecImpl<Vec<u8>> for RedisString {
    open spec fn obeys_from_spec() -> bool {
        false
    }

    open spec fn from_spec(v: Vec<u8>) -> Self {
        arbitrary()
    }
}

impl From<&[u8]> for RedisString {
    /// A copy of the given bytes.
    fn from(v: &[u8]) -> (s: Self)
        ensures
            s@ == v@,
    {
        RedisString(vstd::slice::slice_to_vec(v))
    }
}

/// What `from` gives is stated on `from` itself, over the view.
impl FromSpecImpl<&[u8]> for RedisString {
    open spec fn obeys_from_spec() -> bool {
        false
    }

    open spec fn from_spec(v: &[u8]) -> Self {
        arbitrary()
    }
}

impl From<&str> for RedisString {
    /// The UTF-8 bytes of the given text.
    fn from(s: &str) -> (r: Self)
        ensures
            r@ == encode_utf8(s@),
    {
        RedisString(s.as_bytes_vec())
    }
}

/// What `from` gives is stated on `from` itself, over the view.
impl FromSpecImpl<&str> for RedisString {
    open spec fn obeys_from_spec() -> bool {
        false
    }

    open spec fn from_spec(s: &str) -> Self {
        arbitrary()
    }
}

impl From<String> for RedisString {
    /// The UTF-8 bytes of the given text.
    fn from(s: String) -> (r: Self)
        ensures
            r@ == encode_utf8(s@),
    {
        RedisString(s.as_str().as_bytes_vec())
    }
}

/// What `from` gives is stated on `from` itself, over the view.
impl FromSpecImpl<String> for RedisString {
    open spec fn obeys_from_spec() -> bool {
        false
    }

    open spec fn from_spec(s: String) -> Self {
        arbitrary()
    }
}

impl From<RedisString> for Vec<u8> {
    /// The bytes held, as a vector.
    fn from(s: RedisString) -> (bytes: Vec<u8>)
        ensures
            bytes@ == s@,
    {
        s.0
    }
}

/// What `from` gives is stated on `from` itself, over the view.
impl FromSpecImpl<RedisString> for Vec<u8> {
    open spec fn obeys_from_spec() -> bool {
        false
    }

    open spec fn from_spec(s: RedisString) -> Self {
        arbitrary()
    }
}

impl AsRef<[u8]> for RedisString {
    fn as_ref(&self) -> (bytes: &[u8])
        ensures
            bytes@ == self@,
    {
        self.0.as_slice()
    }
}

impl TryFrom<RedisString> for String {
    type Error = std::string::FromUtf8Error;

    /// The text that the bytes held encode as UTF-8, or an error where they
    /// are not UTF-8.
    fn try_from(s: RedisString) -> (text: Result<String, std::string::FromUtf8Error>)
        ensures
            match text {
                Ok(t) => encode_utf8(t@) == s@,
                Err(_) => !valid_utf8(s@),
            },
    {
        string_from_utf8(s.0)
    }
}

/// What `try_from` gives is stated on `try_from` itself, over the view.
impl TryFromSpecImpl<RedisString> for String {
    open spec fn obeys_try_from_spec() -> bool {
        false
    }

    open spec fn try_from_spec(s: RedisString) -> Result<String, std::string::FromUtf8Error> {
        arbitrary()
    }
}

} // verus!
