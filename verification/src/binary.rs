//! Base64, the form in which binary data travels inside text.
use vstd::prelude::*;
use vstd::utf8::*;

verus! {

/// Why a byte string is not base64.
#[derive(Clone, Copy, Debug, PartialEq, Eq, Structural)]
pub enum DecodeError {
    /// A byte outside the alphabet: its offset and the byte.
    InvalidByte(usize, u8),
    /// No input has that many symbols.
    InvalidLength,
    /// The last symbol holds bits that belong to no byte: its offset and the symbol.
    InvalidLastSymbol(usize, u8),
}

/// The base64 text of a byte string.
pub uninterp spec fn base64_text(data: Seq<u8>) -> Seq<char>;

/// What a byte string decodes to as base64.
pub uninterp spec fn base64_data(encoded: Seq<u8>) -> Result<Seq<u8>, DecodeError>;

/// Whether a text, taken as base64, stands for the given bytes.
pub open spec fn stands_for(text: Seq<char>, data: Seq<u8>) -> bool {
    base64_data(encode_utf8(text)) == Ok::<Seq<u8>, DecodeError>(data)
}

/// Whether a character is of the standard base64 alphabet or its padding.
pub open spec fn is_base64_char(c: char) -> bool {
    'A' <= c <= 'Z' || 'a' <= c <= 'z' || '0' <= c <= '9' || c == '+' || c == '/' || c == '='
}

/// Whether every character of a text is of the standard base64 alphabet or its padding.
pub open spec fn is_base64_text(s: Seq<char>) -> bool {
    forall|i: int| 0 <= i < s.len() ==> is_base64_char(#[trigger] s[i])
}

/// Calls `base64::encode`, which uses the standard alphabet with padding. The text is a function
/// of the data, stays within the alphabet, is empty only for no data, and decodes to the data. (The overflow that the crate
/// guards against needs a slice longer than any slice can be.)
#[verifier::external_body]
pub(crate) fn encode(data: &[u8]) -> (text: String)
    ensures
        text@ == base64_text(data@),
        is_base64_text(text@),
        data@.len() > 0 ==> text@.len() > 0,
        stands_for(text@, data@),
{
    ::base64::encode(data)
}

/// A decoder's result, with the bytes taken by their values.
pub open spec fn decoded(result: Result<Vec<u8>, DecodeError>) -> Result<Seq<u8>, DecodeError> {
    match result {
        Ok(data) => Ok(data@),
        Err(e) => Err(e),
    }
}

/// Calls `base64::decode`, which uses the standard alphabet; its error is taken over variant by
/// variant. The result is a function of the input, and nothing decodes to nothing.
#[verifier::external_body]
pub(crate) fn decode(encoded: &[u8]) -> (result: Result<Vec<u8>, DecodeError>)
    ensures
        decoded(result) == base64_data(encoded@),
        encoded@.len() == 0 ==> result is Ok,
        result matches Ok(data) ==> (encoded@.len() == 0 ==> data@.len() == 0),
{
    ::base64::decode(encoded).map_err(|e| match e {
        ::base64::DecodeError::InvalidByte(at, byte) => DecodeError::InvalidByte(at, byte),
        ::base64::DecodeError::InvalidLength => DecodeError::InvalidLength,
        ::base64::DecodeError::InvalidLastSymbol(at, byte) => DecodeError::InvalidLastSymbol(at, byte),
    })
}

/// The bytes of a base64 text are its characters one for one, and none is a control character.
pub proof fn lemma_base64_bytes(s: Seq<char>)
    requires
        is_base64_text(s),
    ensures
        encode_utf8(s).len() == s.len(),
        forall|i: int| 0 <= i < s.len() ==> #[trigger] encode_utf8(s)[i] == s[i] as u8,
        forall|i: int| 0 <= i < s.len() ==> #[trigger] encode_utf8(s)[i] >= 0x20,
{
    assert forall|i: int| 0 <= i < s.len() implies '\0' <= #[trigger] s[i] <= '\u{7f}' by {
        assert(is_base64_char(s[i]));
    }
    assert(is_ascii_chars(s));
    is_ascii_chars_encode_utf8(s);
    assert forall|i: int| 0 <= i < s.len() implies #[trigger] encode_utf8(s)[i] >= 0x20 by {
        assert(is_base64_char(s[i]));
    }
}

/// No two byte strings have the same base64 text.
pub proof fn law_base64_is_injective(text: Seq<char>, a: Seq<u8>, b: Seq<u8>)
    requires
        stands_for(text, a),
        stands_for(text, b),
    ensures
        a == b,
{
}

}
