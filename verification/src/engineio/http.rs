//! HTTP as an `engine.io` server speaks it: what a request asks for, and what is answered.
use std::sync::Arc;

use vstd::prelude::*;
use vstd::slice::*;
use vstd::string::*;
use vstd::utf8::*;

use crate::address;
use crate::engineio::packet::Sid;
use crate::text;

verus! {

/// Limit for the number of header lines.
pub const MAX_HEADERS: usize = 124;

/// The head of a request.
#[derive(Clone, Debug)]
pub struct RequestHead {
    pub method: String,
    pub path: String,
    pub headers: Vec<(String, Vec<u8>)>,
    /// The offset at which the body starts.
    pub body_start: usize,
}

/// The value of a request's head.
pub struct RequestHeadView {
    pub method: Seq<char>,
    pub path: Seq<char>,
    pub headers: Seq<(Seq<char>, Seq<u8>)>,
    pub body_start: nat,
}

/// The values of header lines.
pub open spec fn header_views(headers: Seq<(String, Vec<u8>)>) -> Seq<(Seq<char>, Seq<u8>)> {
    headers.map_values(|h: (String, Vec<u8>)| (h.0@, h.1@))
}

impl View for RequestHead {
    type V = RequestHeadView;

    open spec fn view(&self) -> RequestHeadView {
        RequestHeadView {
            method: self.method@,
            path: self.path@,
            headers: header_views(self.headers@),
            body_start: self.body_start as nat,
        }
    }
}

/// The value of an optional head.
pub open spec fn head_view(head: Option<RequestHead>) -> Option<RequestHeadView> {
    match head {
        Some(head) => Some(head@),
        None => None,
    }
}

/// The head of the HTTP request at the start of a byte string, if it is whole and has no more than
/// the given number of header lines.
pub uninterp spec fn request_head(buf: Seq<u8>, max_headers: nat) -> Option<RequestHeadView>;

/// Calls `httparse::Request::parse` with room for the given number of header lines. A head comes
/// back where the parser reports one as complete, which then has a method and a path; the body
/// starts where the head ends.
#[verifier::external_body]
fn parse_head(buf: &[u8], max_headers: usize) -> (head: Option<RequestHead>)
    requires
        max_headers <= 0xffff,
    ensures
        head_view(head) == request_head(buf@, max_headers as nat),
        head matches Some(h) ==> h.body_start <= buf@.len(),
{
    let mut room = vec![httparse::EMPTY_HEADER; max_headers];
    let mut req = httparse::Request::new(&mut room);
    match req.parse(buf) {
        Ok(httparse::Status::Complete(body_start)) => Some(
            RequestHead {
                method: req.method?.to_owned(),
                path: req.path?.to_owned(),
                headers: req.headers.iter().map(|h| (h.name.to_owned(), h.value.to_vec())).collect(),
                body_start,
            },
        ),
        _ => None,
    }
}

/// What a request asks for.
#[derive(Debug)]
pub enum RequestType {
    WsUpgrade(Option<Sid>),
    PollingOpen,
    PollingGet(Sid),
    PollingPost(Sid, Vec<u8>),
}

/// The value of a request type.
pub enum RequestTypeView {
    WsUpgrade(Option<Seq<char>>),
    PollingOpen,
    PollingGet(Seq<char>),
    PollingPost(Seq<char>, Seq<u8>),
}

/// The value of an optional session identifier.
pub open spec fn sid_view(sid: Option<Sid>) -> Option<Seq<char>> {
    match sid {
        Some(sid) => Some(sid@),
        None => None,
    }
}

impl View for RequestType {
    type V = RequestTypeView;

    open spec fn view(&self) -> RequestTypeView {
        match self {
            RequestType::WsUpgrade(sid) => RequestTypeView::WsUpgrade(sid_view(*sid)),
            RequestType::PollingOpen => RequestTypeView::PollingOpen,
            RequestType::PollingGet(sid) => RequestTypeView::PollingGet(sid@),
            RequestType::PollingPost(sid, data) => RequestTypeView::PollingPost(sid@, data@),
        }
    }
}

/// The value of an optional request type.
pub open spec fn request_view(request: Option<RequestType>) -> Option<RequestTypeView> {
    match request {
        Some(request) => Some(request@),
        None => None,
    }
}

/// Whether a query asks for no other version of the protocol than the fourth.
pub open spec fn is_our_version(query: Seq<(Seq<char>, Seq<char>)>) -> bool {
    forall|i: int| 0 <= i < query.len() && (#[trigger] query[i]).0 == "EIO"@ ==> query[i].1 == "4"@
}

/// The session that a query names; the last name counts.
pub open spec fn query_sid(query: Seq<(Seq<char>, Seq<char>)>) -> Option<Seq<char>>
    decreases query.len(),
{
    if query.len() == 0 {
        None
    } else if query.last().0 == "sid"@ {
        Some(query.last().1)
    } else {
        query_sid(query.drop_last())
    }
}

/// What the header lines say.
pub enum HeaderNotice {
    /// The connection is to become a websocket.
    Upgrade,
    /// A length is no number.
    Invalid,
    /// The body has that many bytes.
    Length(nat),
}

/// The number of bytes that a header value announces.
pub open spec fn announced_length(value: Seq<u8>) -> Option<nat> {
    if !valid_utf8(value) {
        None
    } else {
        match text::number(decode_utf8(value)) {
            Some(n) if n <= usize::MAX => Some(n),
            _ => None,
        }
    }
}

/// What header lines say, read in order: the first request to upgrade or bad length decides, else
/// the last length counts.
pub open spec fn header_notice(
    headers: Seq<(Seq<char>, Seq<u8>)>,
    is_get: bool,
    length: nat,
) -> HeaderNotice
    decreases headers.len(),
{
    if headers.len() == 0 {
        HeaderNotice::Length(length)
    } else if headers[0].0 == "Upgrade"@ && is_get {
        HeaderNotice::Upgrade
    } else if headers[0].0 == "Content-Length"@ {
        match announced_length(headers[0].1) {
            None => HeaderNotice::Invalid,
            Some(n) => header_notice(headers.drop_first(), is_get, n),
        }
    } else {
        header_notice(headers.drop_first(), is_get, length)
    }
}

/// What a request's header lines say.
pub open spec fn head_notice(head: RequestHeadView) -> HeaderNotice {
    header_notice(head.headers, head.method == "GET"@, 0)
}

/// Whether the method and the query of a request are such that its header lines are read.
pub open spec fn is_admitted(
    head: RequestHeadView,
    query: Option<Seq<(Seq<char>, Seq<char>)>>,
) -> bool {
    &&& head.method == "GET"@ || head.method == "POST"@
    &&& query matches Some(pairs) && is_our_version(pairs)
}

/// Whether the body that a request announces, if it posts one, is there.
pub open spec fn has_body(
    head: RequestHeadView,
    query: Option<Seq<(Seq<char>, Seq<char>)>>,
    len: nat,
) -> bool {
    is_admitted(head, query) && head.method == "POST"@ ==> (head_notice(head) matches HeaderNotice::Length(
        n,
    ) ==> head.body_start + n <= len)
}

/// What a request with the given head and query asks for.
pub open spec fn classified(
    head: RequestHeadView,
    query: Option<Seq<(Seq<char>, Seq<char>)>>,
    buf: Seq<u8>,
) -> Option<RequestTypeView> {
    if !is_admitted(head, query) {
        None
    } else {
        let sid = query_sid(query->Some_0);
        match head_notice(head) {
            HeaderNotice::Invalid => None,
            HeaderNotice::Upgrade => Some(RequestTypeView::WsUpgrade(sid)),
            HeaderNotice::Length(n) => match sid {
                None => Some(RequestTypeView::PollingOpen),
                Some(sid) => if head.method == "POST"@ {
                    Some(
                        RequestTypeView::PollingPost(
                            sid,
                            buf.subrange(head.body_start as int, (head.body_start + n) as int),
                        ),
                    )
                } else {
                    Some(RequestTypeView::PollingGet(sid))
                },
            },
        }
    }
}

/// The URL that a request is for.
pub open spec fn request_url(addr: Seq<char>, path: Seq<char>) -> Seq<char> {
    "http://"@ + addr + path
}

/// Whether the body that a byte string's request announces, if it posts one, is there.
pub open spec fn request_is_whole(buf: Seq<u8>, addr: Seq<char>) -> bool {
    request_head(buf, MAX_HEADERS as nat) matches Some(head) ==> has_body(
        head,
        address::url_query(request_url(addr, head.path)),
        buf.len(),
    )
}

/// What the request at the start of a byte string asks for.
pub open spec fn requested(buf: Seq<u8>, addr: Seq<char>) -> Option<RequestTypeView> {
    match request_head(buf, MAX_HEADERS as nat) {
        None => None,
        Some(head) => classified(head, address::url_query(request_url(addr, head.path)), buf),
    }
}

/// Looks through a query for the version and the session. Nothing comes back for another version.
fn scan_query(query: &Vec<(String, String)>) -> (sid: Option<Option<Sid>>)
    ensures
        sid is Some <==> is_our_version(address::pair_views(query@)),
        sid matches Some(sid) ==> sid_view(sid) == query_sid(address::pair_views(query@)),
{
    let mut sid: Option<Sid> = None;
    let mut i: usize = 0;
    let ghost pairs = address::pair_views(query@);
    while i < query.len()
        invariant
            i <= query@.len(),
            pairs == address::pair_views(query@),
            is_our_version(pairs.take(i as int)),
            sid_view(sid) == query_sid(pairs.take(i as int)),
        decreases query@.len() - i,
    {
        let ghost before = pairs.take(i as int);
        let ghost after = pairs.take(i + 1);
        assert(after.drop_last() =~= before);
        assert(after.last() == pairs[i as int]);
        assert(pairs[i as int] == (query@[i as int].0@, query@[i as int].1@));
        let pair = &query[i];
        if text::same_text(pair.0.as_str(), "EIO") && !text::same_text(pair.1.as_str(), "4") {
            return None;
        }
        if text::same_text(pair.0.as_str(), "sid") {
            sid = Some(Arc::new(pair.1.clone()));
        }
        assert forall|j: int| 0 <= j < after.len() && (#[trigger] after[j]).0 == "EIO"@ implies after[j].1
            == "4"@ by {
            if j < before.len() {
                assert(after[j] == before[j]);
            }
        }
        i = i + 1;
    }
    assert(pairs.take(i as int) =~= pairs);
    Some(sid)
}

/// What [`scan_headers`] found.
enum HeaderScan {
    Upgrade,
    Invalid,
    Length(usize),
}

/// Reads the number of bytes that a header value announces.
fn read_length(value: &[u8]) -> (n: Option<usize>)
    ensures
        n matches Some(v) ==> announced_length(value@) == Some(v as nat),
        n is None ==> announced_length(value@) is None,
{
    match text::utf8_text(value) {
        Err(_) => None,
        Ok(s) => text::parse_usize(s.as_str()),
    }
}

/// Reads header lines in order.
fn scan_headers(headers: &Vec<(String, Vec<u8>)>, is_get: bool) -> (scan: HeaderScan)
    ensures
        match scan {
            HeaderScan::Upgrade => header_notice(header_views(headers@), is_get, 0) is Upgrade,
            HeaderScan::Invalid => header_notice(header_views(headers@), is_get, 0) is Invalid,
            HeaderScan::Length(n) => header_notice(header_views(headers@), is_get, 0)
                == HeaderNotice::Length(n as nat),
        },
{
    let mut length: usize = 0;
    let mut i: usize = 0;
    let ghost views = header_views(headers@);
    assert(views.skip(0) =~= views);
    while i < headers.len()
        invariant
            i <= headers@.len(),
            views == header_views(headers@),
            header_notice(views.skip(i as int), is_get, length as nat) == header_notice(views, is_get, 0),
        decreases headers@.len() - i,
    {
        let ghost rest = views.skip(i as int);
        assert(rest.drop_first() =~= views.skip(i + 1));
        assert(rest[0] == (headers@[i as int].0@, headers@[i as int].1@));
        let header = &headers[i];
        if is_get && text::same_text(header.0.as_str(), "Upgrade") {
            return HeaderScan::Upgrade;
        }
        if text::same_text(header.0.as_str(), "Content-Length") {
            length = match read_length(header.1.as_slice()) {
                Some(n) => n,
                None => {
                    return HeaderScan::Invalid;
                },
            };
        }
        i = i + 1;
    }
    assert(views.skip(i as int) =~= Seq::empty());
    HeaderScan::Length(length)
}

/// Why no request type was made out of a head.
enum Unclassified {
    /// The request is refused.
    Refused,
    /// The body that it posts is not there.
    Truncated,
}

/// Tells what a request with the given head and query asks for.
fn classify_parts(
    head: &RequestHead,
    query: &Option<Vec<(String, String)>>,
    buf: &[u8],
) -> (request: Result<RequestType, Unclassified>)
    requires
        head.body_start <= buf@.len(),
    ensures
        match request {
            Ok(request) => has_body(head@, address::query_view(*query), buf@.len()) && Some(request@)
                == classified(head@, address::query_view(*query), buf@),
            Err(Unclassified::Refused) => has_body(head@, address::query_view(*query), buf@.len())
                && classified(head@, address::query_view(*query), buf@) is None,
            Err(Unclassified::Truncated) => !has_body(
                head@,
                address::query_view(*query),
                buf@.len(),
            ),
        },
{
    proof {
        reveal_strlit("GET");
        reveal_strlit("POST");
    }
    assert("GET"@.len() != "POST"@.len());
    let is_get = text::same_text(head.method.as_str(), "GET");
    let is_post = text::same_text(head.method.as_str(), "POST");
    if !is_get && !is_post {
        return Err(Unclassified::Refused);
    }
    let query = match query {
        Some(query) => query,
        None => {
            return Err(Unclassified::Refused);
        },
    };
    let sid = match scan_query(query) {
        Some(sid) => sid,
        None => {
            return Err(Unclassified::Refused);
        },
    };
    match scan_headers(&head.headers, is_get) {
        HeaderScan::Upgrade => Ok(RequestType::WsUpgrade(sid)),
        HeaderScan::Invalid => Err(Unclassified::Refused),
        HeaderScan::Length(n) => {
            if is_post && n > buf.len() - head.body_start {
                return Err(Unclassified::Truncated);
            }
            match sid {
                None => Ok(RequestType::PollingOpen),
                Some(sid) => if is_post {
                    let body = slice_subrange(buf, head.body_start, head.body_start + n);
                    Ok(RequestType::PollingPost(sid, slice_to_vec(body)))
                } else {
                    Ok(RequestType::PollingGet(sid))
                },
            }
        },
    }
}

/// Tells what a request with the given head and query asks for. The body that it posts is there.
pub fn classify(
    head: &RequestHead,
    query: &Option<Vec<(String, String)>>,
    buf: &[u8],
) -> (request: Option<RequestType>)
    requires
        head.body_start <= buf@.len(),
        has_body(head@, address::query_view(*query), buf@.len()),
    ensures
        request_view(request) == classified(head@, address::query_view(*query), buf@),
{
    match classify_parts(head, query, buf) {
        Ok(request) => Some(request),
        Err(_) => None,
    }
}

/// The head and the query of the request at the start of a byte string.
fn read_request(buf: &[u8], addr: &str) -> (parts: Option<(RequestHead, Option<Vec<(String, String)>>)>)
    ensures
        parts is None <==> request_head(buf@, MAX_HEADERS as nat) is None,
        parts matches Some((head, query)) ==> {
            &&& request_head(buf@, MAX_HEADERS as nat) == Some(head@)
            &&& address::query_view(query) == address::url_query(request_url(addr@, head.path@))
            &&& head.body_start <= buf@.len()
        },
{
    match parse_head(buf, MAX_HEADERS) {
        None => None,
        Some(head) => {
            let mut url = "http://".to_owned();
            url.append(addr);
            url.append(head.path.as_str());
            let query = address::query_pairs(url.as_str());
            Some((head, query))
        },
    }
}

/// What was read of a request.
#[derive(Debug)]
pub enum ReadRequest {
    /// A request, or one that is refused.
    Whole(Option<RequestType>),
    /// A request that posts a body which is not all there.
    Truncated,
}

/// Tells what the request at the start of a byte string asks for, if the body that it posts is
/// there.
pub fn parse_request_type(buf: &[u8], addr: &str) -> (request: ReadRequest)
    ensures
        request is Truncated <==> !request_is_whole(buf@, addr@),
        request matches ReadRequest::Whole(r) ==> request_view(r) == requested(buf@, addr@),
{
    match read_request(buf, addr) {
        None => ReadRequest::Whole(None),
        Some((head, query)) => match classify_parts(&head, &query, buf) {
            Ok(request) => ReadRequest::Whole(Some(request)),
            Err(Unclassified::Refused) => ReadRequest::Whole(None),
            Err(Unclassified::Truncated) => ReadRequest::Truncated,
        },
    }
}

/// A query asks for another version if and only if one of its pairs does.
pub proof fn law_version_is_asked_for(query: Seq<(Seq<char>, Seq<char>)>)
    ensures
        !is_our_version(query) <==> exists|i: int|
            0 <= i < query.len() && (#[trigger] query[i]).0 == "EIO"@ && query[i].1 != "4"@,
{
}

/// The session of a query is the value of the last pair by the name of `sid`, wherever it stands;
/// there is none if and only if no pair goes by that name.
pub proof fn law_session_of_query(query: Seq<(Seq<char>, Seq<char>)>, i: int)
    requires
        0 <= i < query.len(),
    ensures
        query[i].0 == "sid"@ && (forall|j: int| i < j < query.len() ==> (#[trigger] query[j]).0 != "sid"@)
            ==> query_sid(query) == Some(query[i].1),
        query_sid(query) is None <==> forall|j: int| 0 <= j < query.len() ==> (#[trigger] query[j]).0
            != "sid"@,
        query_sid(Seq::empty()) is None,
    decreases query.len(),
{
    let before = query.drop_last();
    if query.last().0 != "sid"@ {
        if before.len() > 0 {
            let k = if i < before.len() { i } else { 0 };
            law_session_of_query(before, k);
        }
        assert forall|j: int| 0 <= j < before.len() implies before[j] == query[j] by {}
        if query_sid(query) is None {
            assert forall|j: int| 0 <= j < query.len() implies (#[trigger] query[j]).0 != "sid"@ by {
                if j < before.len() {
                    assert(before[j].0 != "sid"@);
                }
            }
        }
        if forall|j: int| 0 <= j < query.len() ==> (#[trigger] query[j]).0 != "sid"@ {
            assert forall|j: int| 0 <= j < before.len() implies (#[trigger] before[j]).0 != "sid"@ by {
                assert(query[j].0 != "sid"@);
            }
        }
        if query[i].0 == "sid"@ && (forall|j: int|
            i < j < query.len() ==> (#[trigger] query[j]).0 != "sid"@) {
            assert forall|j: int| i < j < before.len() implies (#[trigger] before[j]).0 != "sid"@ by {
                assert(query[j].0 != "sid"@);
            }
        }
    } else {
        assert(query[query.len() - 1].0 == "sid"@);
    }
}

/// A header line of another name than `Upgrade` and `Content-Length` makes no difference, wherever
/// it stands.
pub proof fn law_other_lines_say_nothing(
    headers: Seq<(Seq<char>, Seq<u8>)>,
    i: int,
    line: (Seq<char>, Seq<u8>),
    is_get: bool,
    length: nat,
)
    requires
        0 <= i <= headers.len(),
        line.0 != "Upgrade"@,
        line.0 != "Content-Length"@,
    ensures
        header_notice(headers.insert(i, line), is_get, length) == header_notice(headers, is_get, length),
    decreases headers.len(),
{
    let more = headers.insert(i, line);
    if i == 0 {
        assert(more.drop_first() =~= headers);
    } else {
        assert(more[0] == headers[0]);
        assert(more.drop_first() =~= headers.drop_first().insert(i - 1, line));
        law_other_lines_say_nothing(headers.drop_first(), i - 1, line, is_get, length);
        if headers[0].0 == "Content-Length"@ {
            match announced_length(headers[0].1) {
                Some(n) => {
                    law_other_lines_say_nothing(headers.drop_first(), i - 1, line, is_get, n);
                },
                None => {},
            }
        }
    }
}

/// A line that asks for an upgrade is heard if it comes with a GET, at any place, unless a length
/// before it is no number.
pub proof fn law_upgrade_line_is_heard(
    headers: Seq<(Seq<char>, Seq<u8>)>,
    i: int,
    is_get: bool,
    length: nat,
)
    requires
        0 <= i < headers.len(),
        headers[i].0 == "Upgrade"@,
        is_get,
        forall|j: int|
            0 <= j < i && (#[trigger] headers[j]).0 == "Content-Length"@ ==> announced_length(
                headers[j].1,
            ) is Some,
    ensures
        header_notice(headers, is_get, length) is Upgrade,
    decreases i,
{
    if i > 0 {
        let rest = headers.drop_first();
        assert forall|j: int| 0 <= j < i - 1 && (#[trigger] rest[j]).0 == "Content-Length"@ implies announced_length(
            rest[j].1,
        ) is Some by {
            assert(rest[j] == headers[j + 1]);
        }
        law_upgrade_line_is_heard(rest, i - 1, is_get, length);
        if headers[0].0 == "Content-Length"@ {
            law_upgrade_line_is_heard(rest, i - 1, is_get, announced_length(headers[0].1)->Some_0);
        }
    }
}

/// A line with a length that is no number is fatal at any place, unless an upgrade was asked for
/// before it.
pub proof fn law_bad_length_is_fatal(
    headers: Seq<(Seq<char>, Seq<u8>)>,
    i: int,
    is_get: bool,
    length: nat,
)
    requires
        0 <= i < headers.len(),
        headers[i].0 == "Content-Length"@,
        announced_length(headers[i].1) is None,
        is_get ==> forall|j: int| 0 <= j < i ==> (#[trigger] headers[j]).0 != "Upgrade"@,
    ensures
        header_notice(headers, is_get, length) is Invalid,
    decreases i,
{
    reveal_strlit("Upgrade");
    reveal_strlit("Content-Length");
    assert("Upgrade"@.len() == 7 && "Content-Length"@.len() == 14);
    if i > 0 {
        let rest = headers.drop_first();
        if is_get {
            assert(headers[0].0 != "Upgrade"@);
            assert forall|j: int| 0 <= j < i - 1 implies (#[trigger] rest[j]).0 != "Upgrade"@ by {
                assert(rest[j] == headers[j + 1]);
            }
        }
        law_bad_length_is_fatal(rest, i - 1, is_get, length);
        if headers[0].0 == "Content-Length"@ {
            match announced_length(headers[0].1) {
                Some(n) => {
                    law_bad_length_is_fatal(rest, i - 1, is_get, n);
                },
                None => {},
            }
        }
    }
}

/// Where no upgrade is asked for and each length is a number, the length of the last line that has
/// one counts, wherever it stands; without such a line it is the one that was assumed.
pub proof fn law_last_length_counts(
    headers: Seq<(Seq<char>, Seq<u8>)>,
    i: int,
    is_get: bool,
    length: nat,
)
    requires
        is_get ==> forall|j: int| 0 <= j < headers.len() ==> (#[trigger] headers[j]).0 != "Upgrade"@,
        forall|j: int|
            0 <= j < headers.len() && (#[trigger] headers[j]).0 == "Content-Length"@ ==> announced_length(
                headers[j].1,
            ) is Some,
        forall|j: int| i < j < headers.len() && 0 <= j ==> (#[trigger] headers[j]).0 != "Content-Length"@,
    ensures
        0 <= i < headers.len() && headers[i].0 == "Content-Length"@ ==> header_notice(
            headers,
            is_get,
            length,
        ) == HeaderNotice::Length(announced_length(headers[i].1)->Some_0),
        i < 0 ==> header_notice(headers, is_get, length) == HeaderNotice::Length(length),
    decreases headers.len(),
{
    if headers.len() > 0 {
        let rest = headers.drop_first();
        if is_get {
            assert(headers[0].0 != "Upgrade"@);
            assert forall|j: int| 0 <= j < rest.len() implies (#[trigger] rest[j]).0 != "Upgrade"@ by {
                assert(rest[j] == headers[j + 1]);
            }
        }
        assert forall|j: int| 0 <= j < rest.len() && (#[trigger] rest[j]).0 == "Content-Length"@ implies announced_length(
            rest[j].1,
        ) is Some by {
            assert(rest[j] == headers[j + 1]);
        }
        assert forall|j: int| i - 1 < j < rest.len() && 0 <= j implies (#[trigger] rest[j]).0
            != "Content-Length"@ by {
            assert(rest[j] == headers[j + 1]);
        }
        law_last_length_counts(rest, i - 1, is_get, length);
        if headers[0].0 == "Content-Length"@ {
            law_last_length_counts(rest, i - 1, is_get, announced_length(headers[0].1)->Some_0);
        }
    }
}

/// A length is announced by a value that is the text of a number, as far as a `usize` can hold it.
pub proof fn law_length_is_announced(value: Seq<u8>, text: Seq<char>)
    ensures
        value == encode_utf8(text) ==> announced_length(value) == match text::number(text) {
            Some(n) => if n <= usize::MAX {
                Some(n)
            } else {
                None
            },
            None => None,
        },
        !valid_utf8(value) ==> announced_length(value) is None,
{
    if value == encode_utf8(text) {
        encode_utf8_valid_utf8(text);
        encode_utf8_decode_utf8(text);
    }
}

/// Only a GET or a POST, for a URL that asks for no other version, is more than refused.
pub proof fn law_other_requests_are_refused(
    head: RequestHeadView,
    query: Option<Seq<(Seq<char>, Seq<char>)>>,
    buf: Seq<u8>,
)
    ensures
        head.method != "GET"@ && head.method != "POST"@ ==> classified(head, query, buf) is None,
        query is None ==> classified(head, query, buf) is None,
        query matches Some(pairs) ==> ((exists|i: int|
            0 <= i < pairs.len() && (#[trigger] pairs[i]).0 == "EIO"@ && pairs[i].1 != "4"@)
            ==> classified(head, query, buf) is None),
{
}

/// A GET with a line that asks for an upgrade, at any place, is one, with the session that the query
/// names, unless a length before the line is no number.
pub proof fn law_get_upgrades(
    head: RequestHeadView,
    pairs: Seq<(Seq<char>, Seq<char>)>,
    buf: Seq<u8>,
    i: int,
)
    requires
        head.method == "GET"@,
        forall|j: int| 0 <= j < pairs.len() && (#[trigger] pairs[j]).0 == "EIO"@ ==> pairs[j].1 == "4"@,
        0 <= i < head.headers.len(),
        head.headers[i].0 == "Upgrade"@,
        forall|j: int|
            0 <= j < i && (#[trigger] head.headers[j]).0 == "Content-Length"@ ==> announced_length(
                head.headers[j].1,
            ) is Some,
    ensures
        classified(head, Some(pairs), buf) == Some(RequestTypeView::WsUpgrade(query_sid(pairs))),
{
    law_upgrade_line_is_heard(head.headers, i, true, 0);
}

/// A GET without a line that asks for an upgrade, and with no length that is no number, polls the
/// session that the query names, or opens one where it names none; a POST without a session opens one
/// as well.
pub proof fn law_get_polls(head: RequestHeadView, pairs: Seq<(Seq<char>, Seq<char>)>, buf: Seq<u8>)
    requires
        head.method == "GET"@ || head.method == "POST"@,
        forall|j: int| 0 <= j < pairs.len() && (#[trigger] pairs[j]).0 == "EIO"@ ==> pairs[j].1 == "4"@,
        head.method == "GET"@ ==> forall|j: int|
            0 <= j < head.headers.len() ==> (#[trigger] head.headers[j]).0 != "Upgrade"@,
        forall|j: int|
            0 <= j < head.headers.len() && (#[trigger] head.headers[j]).0 == "Content-Length"@
                ==> announced_length(head.headers[j].1) is Some,
    ensures
        match query_sid(pairs) {
            None => classified(head, Some(pairs), buf) == Some(RequestTypeView::PollingOpen),
            Some(sid) => head.method == "GET"@ ==> classified(head, Some(pairs), buf) == Some(
                RequestTypeView::PollingGet(sid),
            ),
        },
{
    reveal_strlit("GET");
    reveal_strlit("POST");
    assert("GET"@.len() != "POST"@.len());
    lemma_lines_say_a_length(head.headers, head.method == "GET"@, 0);
}

proof fn lemma_lines_say_a_length(headers: Seq<(Seq<char>, Seq<u8>)>, is_get: bool, length: nat)
    requires
        is_get ==> forall|j: int| 0 <= j < headers.len() ==> (#[trigger] headers[j]).0 != "Upgrade"@,
        forall|j: int|
            0 <= j < headers.len() && (#[trigger] headers[j]).0 == "Content-Length"@ ==> announced_length(
                headers[j].1,
            ) is Some,
    ensures
        header_notice(headers, is_get, length) is Length,
    decreases headers.len(),
{
    if headers.len() > 0 {
        let rest = headers.drop_first();
        if is_get {
            assert(headers[0].0 != "Upgrade"@);
        }
        assert forall|j: int| 0 <= j < rest.len() implies rest[j] == headers[j + 1] by {}
        if is_get {
            assert forall|j: int| 0 <= j < rest.len() implies (#[trigger] rest[j]).0 != "Upgrade"@ by {
                assert(headers[j + 1].0 != "Upgrade"@);
            }
        }
        assert forall|j: int| 0 <= j < rest.len() && (#[trigger] rest[j]).0 == "Content-Length"@ implies announced_length(
            rest[j].1,
        ) is Some by {
            assert(announced_length(headers[j + 1].1) is Some);
        }
        lemma_lines_say_a_length(rest, is_get, length);
        if headers[0].0 == "Content-Length"@ {
            lemma_lines_say_a_length(rest, is_get, announced_length(headers[0].1)->Some_0);
        }
    }
}

/// A POST for a session carries as many bytes from the start of its body as the last of its length
/// lines says, wherever that line stands; without one it carries none. Lines that ask for an upgrade
/// are not heard. It is whole if and only if those bytes are there.
pub proof fn law_post_carries_its_body(
    head: RequestHeadView,
    pairs: Seq<(Seq<char>, Seq<char>)>,
    buf: Seq<u8>,
    sid: Seq<char>,
    i: int,
)
    requires
        head.method == "POST"@,
        forall|j: int| 0 <= j < pairs.len() && (#[trigger] pairs[j]).0 == "EIO"@ ==> pairs[j].1 == "4"@,
        query_sid(pairs) == Some(sid),
        forall|j: int|
            0 <= j < head.headers.len() && (#[trigger] head.headers[j]).0 == "Content-Length"@
                ==> announced_length(head.headers[j].1) is Some,
        i < head.headers.len(),
        i >= 0 ==> head.headers[i].0 == "Content-Length"@,
        forall|j: int|
            i < j < head.headers.len() && 0 <= j ==> (#[trigger] head.headers[j]).0 != "Content-Length"@,
    ensures
        ({
            let n = if i >= 0 {
                announced_length(head.headers[i].1)->Some_0
            } else {
                0
            };
            &&& has_body(head, Some(pairs), buf.len()) <==> head.body_start + n <= buf.len()
            &&& head.body_start + n <= buf.len() ==> (classified(head, Some(pairs), buf) matches Some(
                RequestTypeView::PollingPost(s, data),
            ) && s == sid && data.len() == n && (forall|k: int|
                0 <= k < n ==> #[trigger] data[k] == buf[head.body_start + k]))
        }),
{
    reveal_strlit("GET");
    reveal_strlit("POST");
    assert("GET"@.len() != "POST"@.len());
    law_last_length_counts(head.headers, i, false, 0);
}

/// A length that is no number, with no upgrade asked for by a GET before it, has the request refused.
pub proof fn law_bad_length_is_refused(
    head: RequestHeadView,
    query: Option<Seq<(Seq<char>, Seq<char>)>>,
    buf: Seq<u8>,
    i: int,
)
    requires
        0 <= i < head.headers.len(),
        head.headers[i].0 == "Content-Length"@,
        announced_length(head.headers[i].1) is None,
        head.method == "GET"@ ==> forall|j: int|
            0 <= j < i ==> (#[trigger] head.headers[j]).0 != "Upgrade"@,
    ensures
        classified(head, query, buf) is None,
{
    law_bad_length_is_fatal(head.headers, i, head.method == "GET"@, 0);
}

/// A request is for the URL whose host is the address that it came from, and whose path is the one
/// that it names.
pub proof fn law_url_of_request(addr: Seq<char>, path: Seq<char>)
    ensures
        request_url(addr, path).len() == 7 + addr.len() + path.len(),
        request_url(addr, path).take(7) == "http://"@,
        request_url(addr, path).subrange(7, 7int + addr.len()) == addr,
        request_url(addr, path).skip(7int + addr.len()) == path,
{
    reveal_strlit("http://");
    assert(request_url(addr, path).take(7) =~= "http://"@);
    assert(request_url(addr, path).subrange(7, 7int + addr.len()) =~= addr);
    assert(request_url(addr, path).skip(7int + addr.len()) =~= path);
}

/// The request at the start of a byte string is read with room for 124 header lines, for the URL of
/// the address that it came from; where no head is whole it asks for nothing, and is as whole as it
/// gets.
pub proof fn law_request_is_read(buf: Seq<u8>, addr: Seq<char>)
    ensures
        request_head(buf, 124) is None ==> requested(buf, addr) is None && request_is_whole(buf, addr),
        request_head(buf, 124) matches Some(head) ==> {
            let query = address::url_query("http://"@ + addr + head.path);
            &&& requested(buf, addr) == classified(head, query, buf)
            &&& request_is_whole(buf, addr) <==> has_body(head, query, buf.len())
        },
{
}

/// Only a request that posts waits for its body.
pub proof fn law_only_posts_have_bodies(
    head: RequestHeadView,
    query: Option<Seq<(Seq<char>, Seq<char>)>>,
    len: nat,
)
    ensures
        head.method != "POST"@ ==> has_body(head, query, len),
        query is None ==> has_body(head, query, len),
        query matches Some(pairs) ==> ((exists|i: int|
            0 <= i < pairs.len() && (#[trigger] pairs[i]).0 == "EIO"@ && pairs[i].1 != "4"@) ==> has_body(
            head,
            query,
            len,
        )),
{
}

/// The values of header lines stand in the places of the lines, one for each.
pub proof fn law_header_values_in_place(row: Seq<(String, Vec<u8>)>, i: int)
    requires
        0 <= i < row.len(),
    ensures
        header_views(row).len() == row.len(),
        header_views(row)[i] == (row[i].0@, row[i].1@),
{
}

}
