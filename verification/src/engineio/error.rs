//! What can go wrong in the `engine.io` protocol.
use vstd::prelude::*;
use vstd::string::*;

use crate::binary::DecodeError;
use crate::text;

verus! {

/// An error of the `engine.io` protocol.
#[derive(Clone, Debug, PartialEq, Eq)]
#[non_exhaustive]
pub enum Error {
    InvalidPacketType(u8),
    InvalidPacket(),
    IncompletePacket(),
    InvalidBase64(DecodeError),
    InvalidHandShake(String),
    Utf8Error(String),
    InvalidHttpResponseStatus(u16),
    InvalidUrl(),
    InvalidUrlScheme(String),
    IllegalWebsocketUpgrade(),
    IllegalActionBeforeOpen(),
}

/// The message of a base64 error.
pub open spec fn decode_error_text(e: DecodeError) -> Seq<char> {
    match e {
        DecodeError::InvalidByte(at, byte) => "Invalid byte "@ + text::decimal(byte as nat)
            + ", offset "@ + text::decimal(at as nat) + "."@,
        DecodeError::InvalidLength => "Encoded text cannot have a 6-bit remainder."@,
        DecodeError::InvalidLastSymbol(at, byte) => "Invalid last symbol "@ + text::decimal(
            byte as nat,
        ) + ", offset "@ + text::decimal(at as nat) + "."@,
    }
}

/// The message of an error.
pub open spec fn error_text(e: Error) -> Seq<char> {
    match e {
        Error::InvalidPacketType(b) => "Invalid packet type: "@ + text::decimal(b as nat),
        Error::InvalidPacket() => "Invalid packet"@,
        Error::IncompletePacket() => "Incomplete packet"@,
        Error::InvalidBase64(d) => "Invalid base 64: "@ + decode_error_text(d),
        Error::InvalidHandShake(reason) => "Invalid hand shake: "@ + reason@,
        Error::Utf8Error(fault) => "Utf8 error: "@ + fault@,
        Error::InvalidHttpResponseStatus(status) => "Invalid http resposne status: "@
            + text::decimal(status as nat),
        Error::InvalidUrl() => "Invalid url"@,
        Error::InvalidUrlScheme(scheme) => "Invalid url scheme: "@ + scheme@,
        Error::IllegalWebsocketUpgrade() => "Server not allow upgrading to websocket"@,
        Error::IllegalActionBeforeOpen() => "Illegal action before open"@,
    }
}

impl DecodeError {
    /// The error's message.
    pub fn text(&self) -> (s: String)
        ensures
            s@ == decode_error_text(*self),
    {
        match self {
            DecodeError::InvalidByte(at, byte) => {
                let mut s = "Invalid byte ".to_owned();
                s.append(text::decimal_text(*byte as u64).as_str());
                s.append(", offset ");
                s.append(text::decimal_text(*at as u64).as_str());
                s.append(".");
                s
            },
            DecodeError::InvalidLength => "Encoded text cannot have a 6-bit remainder.".to_owned(),
            DecodeError::InvalidLastSymbol(at, byte) => {
                let mut s = "Invalid last symbol ".to_owned();
                s.append(text::decimal_text(*byte as u64).as_str());
                s.append(", offset ");
                s.append(text::decimal_text(*at as u64).as_str());
                s.append(".");
                s
            },
        }
    }
}

impl Error {
    /// The error's message.
    pub fn text(&self) -> (s: String)
        ensures
            s@ == error_text(*self),
    {
        match self {
            Error::InvalidPacketType(b) => {
                let mut s = "Invalid packet type: ".to_owned();
                s.append(text::decimal_text(*b as u64).as_str());
                s
            },
            Error::InvalidPacket() => "Invalid packet".to_owned(),
            Error::IncompletePacket() => "Incomplete packet".to_owned(),
            Error::InvalidBase64(d) => {
                let mut s = "Invalid base 64: ".to_owned();
                s.append(d.text().as_str());
                s
            },
            Error::InvalidHandShake(reason) => {
                let mut s = "Invalid hand shake: ".to_owned();
                s.append(reason.as_str());
                s
            },
            Error::Utf8Error(fault) => {
                let mut s = "Utf8 error: ".to_owned();
                s.append(fault.as_str());
                s
            },
            Error::InvalidHttpResponseStatus(status) => {
                let mut s = "Invalid http resposne status: ".to_owned();
                s.append(text::decimal_text(*status as u64).as_str());
                s
            },
            Error::InvalidUrl() => "Invalid url".to_owned(),
            Error::InvalidUrlScheme(scheme) => {
                let mut s = "Invalid url scheme: ".to_owned();
                s.append(scheme.as_str());
                s
            },
            Error::IllegalWebsocketUpgrade() => "Server not allow upgrading to websocket".to_owned(),
            Error::IllegalActionBeforeOpen() => "Illegal action before open".to_owned(),
        }
    }
}

/// The message of an error that has a detail ends with the detail, behind words that say what is
/// wrong; a number stands there as it is read.
pub proof fn law_message_tells_detail(b: u8, status: u16, d: DecodeError, reason: String)
    ensures
        error_text(Error::InvalidPacketType(b)).take(21) == "Invalid packet type: "@,
        text::number(error_text(Error::InvalidPacketType(b)).skip(21)) == Some(b as nat),
        error_text(Error::InvalidBase64(d)).take(17) == "Invalid base 64: "@,
        error_text(Error::InvalidBase64(d)).skip(17) == decode_error_text(d),
        error_text(Error::InvalidHandShake(reason)).take(20) == "Invalid hand shake: "@,
        error_text(Error::InvalidHandShake(reason)).skip(20) == reason@,
        error_text(Error::Utf8Error(reason)).take(12) == "Utf8 error: "@,
        error_text(Error::Utf8Error(reason)).skip(12) == reason@,
        error_text(Error::InvalidHttpResponseStatus(status)).take(30) == "Invalid http resposne status: "@,
        text::number(error_text(Error::InvalidHttpResponseStatus(status)).skip(30)) == Some(
            status as nat,
        ),
        error_text(Error::InvalidUrlScheme(reason)).take(20) == "Invalid url scheme: "@,
        error_text(Error::InvalidUrlScheme(reason)).skip(20) == reason@,
{
    reveal_strlit("Invalid packet type: ");
    reveal_strlit("Invalid base 64: ");
    reveal_strlit("Invalid hand shake: ");
    reveal_strlit("Utf8 error: ");
    reveal_strlit("Invalid http resposne status: ");
    reveal_strlit("Invalid url scheme: ");
    text::law_number_of_decimal(b as nat);
    text::law_number_of_decimal(status as nat);
    assert(error_text(Error::InvalidPacketType(b)).take(21) =~= "Invalid packet type: "@);
    assert(error_text(Error::InvalidPacketType(b)).skip(21) =~= text::decimal(b as nat));
    assert(error_text(Error::InvalidBase64(d)).take(17) =~= "Invalid base 64: "@);
    assert(error_text(Error::InvalidBase64(d)).skip(17) =~= decode_error_text(d));
    assert(error_text(Error::InvalidHandShake(reason)).take(20) =~= "Invalid hand shake: "@);
    assert(error_text(Error::InvalidHandShake(reason)).skip(20) =~= reason@);
    assert(error_text(Error::Utf8Error(reason)).take(12) =~= "Utf8 error: "@);
    assert(error_text(Error::Utf8Error(reason)).skip(12) =~= reason@);
    assert(error_text(Error::InvalidHttpResponseStatus(status)).take(30)
        =~= "Invalid http resposne status: "@);
    assert(error_text(Error::InvalidHttpResponseStatus(status)).skip(30) =~= text::decimal(
        status as nat,
    ));
    assert(error_text(Error::InvalidUrlScheme(reason)).take(20) =~= "Invalid url scheme: "@);
    assert(error_text(Error::InvalidUrlScheme(reason)).skip(20) =~= reason@);
}

/// The messages of the errors that have no detail.
pub proof fn law_plain_messages()
    ensures
        error_text(Error::InvalidPacket()) == "Invalid packet"@,
        error_text(Error::IncompletePacket()) == "Incomplete packet"@,
        error_text(Error::InvalidUrl()) == "Invalid url"@,
        error_text(Error::IllegalWebsocketUpgrade()) == "Server not allow upgrading to websocket"@,
        error_text(Error::IllegalActionBeforeOpen()) == "Illegal action before open"@,
        decode_error_text(DecodeError::InvalidLength) == "Encoded text cannot have a 6-bit remainder."@,
{
}

/// The message about a symbol of base64 tells the byte first, and then its offset.
pub proof fn law_symbol_is_told(at: usize, byte: u8)
    ensures
        ({
            let rest = text::decimal(byte as nat) + ", offset "@ + text::decimal(at as nat) + "."@;
            &&& decode_error_text(DecodeError::InvalidByte(at, byte)).take(13) == "Invalid byte "@
            &&& decode_error_text(DecodeError::InvalidByte(at, byte)).skip(13) == rest
            &&& decode_error_text(DecodeError::InvalidLastSymbol(at, byte)).take(20)
                == "Invalid last symbol "@
            &&& decode_error_text(DecodeError::InvalidLastSymbol(at, byte)).skip(20) == rest
        }),
{
    reveal_strlit("Invalid byte ");
    reveal_strlit("Invalid last symbol ");
    let rest = text::decimal(byte as nat) + ", offset "@ + text::decimal(at as nat) + "."@;
    assert(decode_error_text(DecodeError::InvalidByte(at, byte)).take(13) =~= "Invalid byte "@);
    assert(decode_error_text(DecodeError::InvalidByte(at, byte)).skip(13) =~= rest);
    assert(decode_error_text(DecodeError::InvalidLastSymbol(at, byte)).take(20)
        =~= "Invalid last symbol "@);
    assert(decode_error_text(DecodeError::InvalidLastSymbol(at, byte)).skip(20) =~= rest);
}

}
