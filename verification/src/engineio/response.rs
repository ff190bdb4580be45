//! HTTP responses of an `engine.io` server.
use vstd::prelude::*;
use vstd::string::*;
use vstd::utf8::*;

use crate::address;
use crate::text;

verus! {

/// A header line: a name and a value.
pub struct Header<'a> {
    pub name: &'a str,
    pub value: &'a str,
}

/// Whether a character can stand in the name of a header that this library writes.
pub open spec fn is_name_char(c: char) -> bool {
    'A' <= c <= 'Z' || 'a' <= c <= 'z' || '0' <= c <= '9' || c == '-'
}

/// Whether a header line can be written as it is.
pub open spec fn is_plain_header(name: Seq<char>, value: Seq<char>) -> bool {
    &&& 0 < name.len() <= 64
    &&& forall|i: int| 0 <= i < name.len() ==> is_name_char(#[trigger] name[i])
    &&& value.len() <= 1024
    &&& forall|i: int| 0 <= i < value.len() ==> ' ' <= #[trigger] value[i] <= '~'
}

/// A text with its ASCII capital letters made small.
pub open spec fn small_letters(s: Seq<char>) -> Seq<char> {
    s.map_values(|c: char| text::ascii_lowercase(c))
}

/// The head of a response: the texts of the version, the status and the header lines.
pub struct ResponseHead {
    pub version: String,
    pub status: String,
    pub headers: Vec<(String, String)>,
}

/// The reason that goes with a status.
pub uninterp spec fn reason_phrase(status: u16) -> Seq<char>;

/// The text of a status: its number and its reason.
pub open spec fn status_text(status: u16) -> Seq<char> {
    text::decimal(status as nat) + " "@ + reason_phrase(status)
}

/// Builds a response with `http::Response::builder` and reads back its version, its status and its
/// header lines. The crate accepts a status from 100 to 999, writes it as its number and its reason,
/// makes the letters of header names small, and hands out lines of different names in the order in which
/// they were put in.
#[verifier::external_body]
fn response_head(status: u16, a: Header, b: Header, c: Header) -> (head: ResponseHead)
    requires
        100 <= status <= 999,
        is_plain_header(a.name@, a.value@),
        is_plain_header(b.name@, b.value@),
        is_plain_header(c.name@, c.value@),
        small_letters(a.name@) != small_letters(b.name@),
        small_letters(a.name@) != small_letters(c.name@),
        small_letters(b.name@) != small_letters(c.name@),
    ensures
        head.version@ == "HTTP/1.1"@,
        head.status@ == text::decimal(status as nat) + " "@ + reason_phrase(status),
        status == 200 ==> head.status@ == "200 OK"@,
        status == 400 ==> head.status@ == "400 Bad Request"@,
        status == 500 ==> head.status@ == "500 Internal Server Error"@,
        address::pair_views(head.headers@) == seq![
            (small_letters(a.name@), a.value@),
            (small_letters(b.name@), b.value@),
            (small_letters(c.name@), c.value@),
        ],
{
    let builder = ::http::Response::builder().status(status).header(a.name, a.value);
    let response = builder.header(b.name, b.value).header(c.name, c.value).body(()).unwrap();
    let lines = response.headers().iter();
    ResponseHead {
        version: format!("{:?}", response.version()),
        status: format!("{}", response.status()),
        headers: lines.map(|(k, v)| (k.to_string(), v.to_str().unwrap().to_owned())).collect(),
    }
}

/// A header line as it is written.
pub open spec fn header_line(line: (Seq<char>, Seq<char>)) -> Seq<char> {
    line.0 + ": "@ + line.1 + "\r\n"@
}

/// Header lines as they are written.
pub open spec fn header_lines(lines: Seq<(Seq<char>, Seq<char>)>) -> Seq<char>
    decreases lines.len(),
{
    if lines.len() == 0 {
        Seq::empty()
    } else {
        header_lines(lines.drop_last()) + header_line(lines.last())
    }
}

/// The number of bytes of an optional body.
pub open spec fn body_len(body: Option<Seq<char>>) -> nat {
    match body {
        Some(body) => encode_utf8(body).len(),
        None => 0,
    }
}

/// What follows the header lines: an empty line and the body, or nothing.
pub open spec fn body_part(body: Option<Seq<char>>) -> Seq<char> {
    match body {
        Some(body) => "\r\n"@ + body,
        None => Seq::empty(),
    }
}

/// The header lines of a response.
pub open spec fn response_headers(body: Option<Seq<char>>) -> Seq<(Seq<char>, Seq<char>)> {
    seq![
        ("content-type"@, "text/plain; charset=UTF-8"@),
        ("connection"@, "Close"@),
        ("content-length"@, text::decimal(body_len(body))),
    ]
}

/// A response.
pub open spec fn response_text(status: u16, body: Option<Seq<char>>) -> Seq<char> {
    "HTTP/1.1"@ + " "@ + status_text(status) + "\r\n"@ + header_lines(response_headers(body))
        + body_part(body)
}

proof fn lemma_header_names()
    ensures
        small_letters("Content-Type"@) == "content-type"@,
        small_letters("Connection"@) == "connection"@,
        small_letters("Content-Length"@) == "content-length"@,
        "content-type"@.len() == 12,
        "connection"@.len() == 10,
        "content-length"@.len() == 14,
        is_plain_header("Content-Type"@, "text/plain; charset=UTF-8"@),
        is_plain_header("Connection"@, "Close"@),
{
    reveal_strlit("Content-Type");
    reveal_strlit("Connection");
    reveal_strlit("Content-Length");
    reveal_strlit("content-type");
    reveal_strlit("connection");
    reveal_strlit("content-length");
    reveal_strlit("text/plain; charset=UTF-8");
    reveal_strlit("Close");
    assert(small_letters("Content-Type"@) =~= "content-type"@);
    assert(small_letters("Connection"@) =~= "connection"@);
    assert(small_letters("Content-Length"@) =~= "content-length"@);
}

proof fn lemma_decimal_len(n: nat, digits: nat)
    requires
        n < vstd::arithmetic::power::pow(10, digits),
        digits > 0,
    ensures
        text::decimal(n).len() <= digits,
    decreases digits,
{
    vstd::arithmetic::power::lemma_pow1(10);
    if digits > 1 && n >= 10 {
        let before = vstd::arithmetic::power::pow(10, (digits - 1) as nat);
        reveal(vstd::arithmetic::power::pow);
        assert(vstd::arithmetic::power::pow(10, digits) == 10 * before);
        assert(n / 10 < before);
        lemma_decimal_len(n / 10, (digits - 1) as nat);
    }
}

/// A number that a `u64` can hold makes a header value.
proof fn lemma_length_header(n: u64)
    ensures
        is_plain_header("Content-Length"@, text::decimal(n as nat)),
{
    reveal_strlit("Content-Length");
    assert(vstd::arithmetic::power::pow(10, 20) > u64::MAX) by {
        reveal(vstd::arithmetic::power::pow);
        reveal_with_fuel(vstd::arithmetic::power::pow, 21);
    }
    lemma_decimal_len(n as nat, 20);
    text::lemma_decimal_digits(n as nat);
    let value = text::decimal(n as nat);
    assert forall|i: int| 0 <= i < value.len() implies ' ' <= #[trigger] value[i] <= '~' by {
        assert(text::is_digit(value[i]));
    }
}

/// Writes a response. Its length line holds the number of bytes of the body.
pub fn http_response(status: u16, body: Option<String>) -> (response: String)
    requires
        100 <= status <= 999,
    ensures
        response@ == response_text(status, text::text_view(body)),
        status == 200 ==> status_text(status) == "200 OK"@,
        status == 400 ==> status_text(status) == "400 Bad Request"@,
        status == 500 ==> status_text(status) == "500 Internal Server Error"@,
{
    let len: usize = match &body {
        None => 0,
        Some(body) => body.as_str().as_bytes().len(),
    };
    let len_text = text::decimal_text(len as u64);
    proof {
        lemma_header_names();
        lemma_length_header(len as u64);
    }
    let head = response_head(
        status,
        Header { name: "Content-Type", value: "text/plain; charset=UTF-8" },
        Header { name: "Connection", value: "Close" },
        Header { name: "Content-Length", value: len_text.as_str() },
    );
    let ghost lines = address::pair_views(head.headers@);
    assert(lines =~= response_headers(text::text_view(body)));

    let mut response = head.version;
    response.append(" ");
    response.append(head.status.as_str());
    response.append("\r\n");
    let ghost start = response@;
    let mut i: usize = 0;
    assert(start + header_lines(lines.take(0)) =~= start);
    while i < head.headers.len()
        invariant
            i <= head.headers@.len(),
            lines == address::pair_views(head.headers@),
            response@ == start + header_lines(lines.take(i as int)),
        decreases head.headers@.len() - i,
    {
        let line = &head.headers[i];
        assert(lines.take(i + 1).drop_last() =~= lines.take(i as int));
        assert(lines.take(i + 1).last() == (line.0@, line.1@));
        response.append(line.0.as_str());
        response.append(": ");
        response.append(line.1.as_str());
        response.append("\r\n");
        assert(response@ =~= start + (header_lines(lines.take(i as int)) + header_line(
            (line.0@, line.1@),
        )));
        i = i + 1;
    }
    assert(lines.take(i as int) =~= lines);
    match &body {
        Some(text) => {
            response.append("\r\n");
            response.append(text.as_str());
        },
        None => {},
    }
    assert(response@ =~= response_text(status, text::text_view(body)));
    response
}

/// How a response is laid out: the status line, three header lines, the last of which holds the
/// number of bytes of the body, and then, if there is a body, an empty line and the body.
pub proof fn law_response_layout(status: u16, body: Seq<char>)
    ensures
        response_text(status, None) == "HTTP/1.1 "@ + text::decimal(status as nat) + " "@ + reason_phrase(
            status,
        ) + "\r\ncontent-type: text/plain; charset=UTF-8\r\nconnection: Close\r\ncontent-length: 0\r\n"@,
        response_text(status, Some(body)) == "HTTP/1.1 "@ + text::decimal(status as nat) + " "@
            + reason_phrase(status)
            + "\r\ncontent-type: text/plain; charset=UTF-8\r\nconnection: Close\r\ncontent-length: "@
            + text::decimal(encode_utf8(body).len()) + "\r\n\r\n"@ + body,
{
    reveal_strlit("HTTP/1.1");
    reveal_strlit("HTTP/1.1 ");
    reveal_strlit(" ");
    reveal_strlit(": ");
    reveal_strlit("\r\n");
    reveal_strlit("\r\n\r\n");
    reveal_strlit("content-type");
    reveal_strlit("text/plain; charset=UTF-8");
    reveal_strlit("connection");
    reveal_strlit("Close");
    reveal_strlit("content-length");
    reveal_strlit("\r\ncontent-type: text/plain; charset=UTF-8\r\nconnection: Close\r\ncontent-length: ");
    reveal_strlit(
        "\r\ncontent-type: text/plain; charset=UTF-8\r\nconnection: Close\r\ncontent-length: 0\r\n",
    );
    let none: Option<Seq<char>> = None;
    lemma_three_lines(response_headers(none));
    lemma_three_lines(response_headers(Some(body)));
    assert("HTTP/1.1"@ + " "@ =~= "HTTP/1.1 "@);
    let fixed = "\r\n"@ + header_line(("content-type"@, "text/plain; charset=UTF-8"@)) + header_line(
        ("connection"@, "Close"@),
    ) + "content-length"@ + ": "@;
    assert(fixed
        =~= "\r\ncontent-type: text/plain; charset=UTF-8\r\nconnection: Close\r\ncontent-length: "@);
    assert(text::decimal(0) =~= seq!['0']);
    let start = "HTTP/1.1"@ + " "@ + status_text(status);
    assert(response_text(status, none) =~= start + (fixed + text::decimal(0) + "\r\n"@));
    assert(fixed + text::decimal(0) + "\r\n"@
        =~= "\r\ncontent-type: text/plain; charset=UTF-8\r\nconnection: Close\r\ncontent-length: 0\r\n"@);
    assert(response_text(status, Some(body)) =~= start + fixed + text::decimal(encode_utf8(body).len())
        + "\r\n"@ + ("\r\n"@ + body));
    assert("\r\n"@ + "\r\n"@ =~= "\r\n\r\n"@);
    assert(start =~= "HTTP/1.1 "@ + text::decimal(status as nat) + " "@ + reason_phrase(status));
    assert(response_text(status, Some(body)) =~= start + fixed + text::decimal(encode_utf8(body).len())
        + "\r\n\r\n"@ + body);
}

proof fn lemma_three_lines(lines: Seq<(Seq<char>, Seq<char>)>)
    requires
        lines.len() == 3,
    ensures
        header_lines(lines) == header_line(lines[0]) + header_line(lines[1]) + header_line(lines[2]),
{
    let two = lines.drop_last();
    let one = two.drop_last();
    let none = one.drop_last();
    assert(none =~= Seq::empty());
    assert(header_lines(none) =~= Seq::<char>::empty());
    assert(header_lines(one) =~= header_line(lines[0]));
    assert(header_lines(two) =~= header_line(lines[0]) + header_line(lines[1]));
}

}
