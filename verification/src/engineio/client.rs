//! How a client finds its way to a connection.
use vstd::prelude::*;
use vstd::string::*;
use vstd::utf8::*;

use crate::address;
use crate::address::{Address, AddressView, PartsView};
use crate::engineio::error::Error;
use crate::engineio::header::HeaderMap;
use crate::engineio::http;
use crate::engineio::packet;
use crate::engineio::packet::{HandshakePacket, Packet, PacketType, PacketView};
use crate::engineio::socket::{Socket, SocketView};
use crate::engineio::transports;
use crate::engineio::transports::ClientPollingTransport;
use crate::text;

verus! {

/// The version of the protocol.
pub const ENGINE_IO_VERSION: i32 = 4;

/// As many bytes as the version and the path need that a client adds to its URL, or more.
pub const VERSION_AND_PATH: usize = 32;

/// What a client knows before it is connected.
#[derive(Debug)]
pub struct ClientBuilder {
    url: Address,
    should_pong: bool,
    headers: Option<HeaderMap>,
    handshake: Option<HandshakePacket>,
    channel_size: usize,
}

/// The value of a [`ClientBuilder`].
pub struct ClientBuilderView {
    pub url: AddressView,
    pub should_pong: bool,
    pub headers: Option<Map<Seq<char>, Seq<char>>>,
    pub handshake: Option<HandshakePacket>,
    pub channel_size: usize,
}

/// The value of optional headers.
pub open spec fn header_map_view(headers: Option<HeaderMap>) -> Option<Map<Seq<char>, Seq<char>>> {
    match headers {
        Some(headers) => Some(headers@),
        None => None,
    }
}

impl View for ClientBuilder {
    type V = ClientBuilderView;

    closed spec fn view(&self) -> ClientBuilderView {
        ClientBuilderView {
            url: self.url@,
            should_pong: self.should_pong,
            headers: header_map_view(self.headers),
            handshake: self.handshake,
            channel_size: self.channel_size,
        }
    }
}

/// The URL that a client asks, given the one that it was made with: it names the version, and has
/// a path.
pub open spec fn client_url(url: AddressView) -> AddressView {
    address::with_default_path(address::with_pair(url, "EIO"@, "4"@), "/engine.io/"@)
}

/// Whether there is room in a URL for the version and the path that a client adds to it.
pub open spec fn has_client_room(url: AddressView) -> bool {
    let named = address::with_pair(url, "EIO"@, "4"@);
    &&& address::has_room(url, address::byte_len("EIO"@) + address::byte_len("4"@))
    &&& address::parts_of(url).path == seq!['/'] ==> address::has_room(
        named,
        address::byte_len("/engine.io/"@),
    )
}

/// What the first bytes that come hold of a handshake.
pub open spec fn handshake_data(first: Option<Seq<u8>>) -> Result<Seq<u8>, Error> {
    match first {
        None => Err(Error::IncompletePacket()),
        Some(bytes) => match packet::decoded_packet(bytes) {
            Ok(p) => Ok(p.data),
            Err(e) => Err(e),
        },
    }
}

/// Whether a handshake allows for a websocket.
pub open spec fn offers_websocket(upgrades: Seq<String>) -> bool {
    exists|i: int|
        0 <= i < upgrades.len() && text::lowercase((#[trigger] upgrades[i])@) == "websocket"@
}

/// Whether a client may change from polling to a websocket.
pub open spec fn may_upgrade(b: ClientBuilderView) -> bool {
    b.handshake matches Some(handshake) && offers_websocket(handshake.upgrades@)
}

/// The transports that a client can use.
#[derive(Copy, Clone, Debug, PartialEq, Eq, Structural)]
pub enum TransportChoice {
    Polling,
    Websocket,
}

/// How a client opens a websocket.
#[derive(Debug)]
pub struct WebsocketPlan {
    /// The URL under which it is opened.
    pub url: String,
    /// Whether it takes the place of polling; if not, the handshake is still to come.
    pub upgrade: bool,
}

impl ClientBuilder {
    /// Makes a client for a URL. It fails where the URL is too long.
    pub fn new(url: Address) -> (builder: Result<Self, Error>)
        ensures
            match builder {
                Ok(b) => has_client_room(url@) && b@ == (ClientBuilderView {
                    url: client_url(url@),
                    should_pong: true,
                    headers: None,
                    handshake: None,
                    channel_size: 100,
                }) && address::parts_of(b@.url) == (PartsView {
                    text: address::parts_of(b@.url).text,
                    path: address::default_path(address::parts_of(url@).path, "/engine.io/"@),
                    query: address::parts_of(url@).query.push(("EIO"@, "4"@)),
                    ..address::parts_of(url@)
                }),
                Err(e) => e == Error::InvalidUrl() && !has_client_room(url@),
            },
            address::has_room(url@, VERSION_AND_PATH as nat) ==> builder is Ok,
    {
        proof {
            reveal_strlit("4");
            reveal_strlit("EIO");
            reveal_strlit("/engine.io/");
            assert("4"@ =~= text::decimal(ENGINE_IO_VERSION as nat));
            assert(address::is_plain_path("/engine.io/"@));
            is_ascii_chars_encode_utf8("EIO"@);
            is_ascii_chars_encode_utf8("4"@);
            is_ascii_chars_encode_utf8("/engine.io/"@);
        }
        let version = text::decimal_text(ENGINE_IO_VERSION as u64);
        let url = match url.append_pair("EIO", version.as_str()) {
            Some(url) => url,
            None => {
                return Err(Error::InvalidUrl());
            },
        };
        // No path add engine.io
        match url.set_default_path("/engine.io/") {
            Some(url) => Ok(
                ClientBuilder {
                    url,
                    headers: None,
                    should_pong: true,
                    handshake: None,
                    channel_size: 100,
                },
            ),
            None => Err(Error::InvalidUrl()),
        }
    }

    /// Sets the headers that are sent along with every request.
    pub fn headers(self, headers: HeaderMap) -> (builder: Self)
        ensures
            builder@ == (ClientBuilderView { headers: Some(headers@), ..self@ }),
    {
        ClientBuilder { headers: Some(headers), ..self }
    }

    /// Sets the number of events that wait for the observer.
    pub fn channel_buf(self, size: usize) -> (builder: Self)
        ensures
            builder@ == (ClientBuilderView { channel_size: size, ..self@ }),
    {
        ClientBuilder { channel_size: size, ..self }
    }

    /// Sets whether pings are answered.
    pub fn should_pong(self, should_pong: bool) -> (builder: Self)
        ensures
            builder@ == (ClientBuilderView { should_pong, ..self@ }),
    {
        ClientBuilder { should_pong, ..self }
    }

    /// The URL that the client asks.
    pub fn url(&self) -> (url: &str)
        ensures
            url@ == address::parts_of(self@.url).text,
    {
        self.url.text()
    }

    /// The headers that are sent along with every request.
    pub fn header_map(&self) -> (headers: &Option<HeaderMap>)
        ensures
            header_map_view(*headers) == self@.headers,
    {
        &self.headers
    }

    /// The number of events that wait for the observer.
    pub fn channel_size(&self) -> (size: usize)
        ensures
            size == self@.channel_size,
    {
        self.channel_size
    }

    /// Whether the handshake is still to come.
    pub fn needs_handshake(&self) -> (needed: bool)
        ensures
            needed == (self@.handshake is None),
    {
        self.handshake.is_none()
    }

    /// Reads the first bytes that come: what they hold is to be read as a handshake.
    pub fn handshake_payload(first: Option<Vec<u8>>) -> (data: Result<Vec<u8>, Error>)
        ensures
            match data {
                Ok(data) => first matches Some(bytes) && handshake_data(Some(bytes@)) == Ok::<
                    Seq<u8>,
                    Error,
                >(data@),
                Err(e) => match first {
                    Some(bytes) => handshake_data(Some(bytes@)) == Err::<Seq<u8>, Error>(e),
                    None => handshake_data(None) == Err::<Seq<u8>, Error>(e),
                },
            },
    {
        match first {
            None => Err(Error::IncompletePacket()),
            Some(bytes) => match Packet::try_from(bytes) {
                Ok(packet) => Ok(packet.data),
                Err(e) => Err(e),
            },
        }
    }

    /// Takes the handshake, whose session the URL names from then on. There is no need to shake
    /// hands twice: a second handshake changes nothing.
    pub fn accept_handshake(&mut self, handshake: HandshakePacket) -> (result: Result<(), Error>)
        ensures
            old(self)@.handshake is Some ==> result is Ok && final(self)@ == old(self)@,
            old(self)@.handshake is None ==> if address::has_room(
                old(self)@.url,
                address::byte_len("sid"@) + address::byte_len(handshake.sid@),
            ) {
                &&& result is Ok
                &&& final(self)@ == (ClientBuilderView {
                    url: address::with_pair(old(self)@.url, "sid"@, handshake.sid@),
                    handshake: Some(handshake),
                    ..old(self)@
                })
                &&& address::parts_of(final(self)@.url) == (PartsView {
                    text: address::parts_of(final(self)@.url).text,
                    query: address::parts_of(old(self)@.url).query.push(("sid"@, handshake.sid@)),
                    ..address::parts_of(old(self)@.url)
                })
            } else {
                result == Err::<(), Error>(Error::InvalidUrl()) && final(self)@ == old(self)@
            },
    {
        // No need to handshake twice
        if self.handshake.is_some() {
            return Ok(());
        }
        // update the base_url with the new sid
        match self.url.append_pair("sid", handshake.sid.as_str()) {
            Some(url) => {
                self.url = url;
                self.handshake = Some(handshake);
                Ok(())
            },
            None => Err(Error::InvalidUrl()),
        }
    }

    /// Checks the handshake to see if websocket upgrades are allowed.
    pub fn websocket_upgrade(&self) -> (allowed: bool)
        ensures
            allowed == may_upgrade(self@),
    {
        match &self.handshake {
            None => false,
            Some(handshake) => {
                let mut i: usize = 0;
                while i < handshake.upgrades.len()
                    invariant
                        self.handshake == Some(*handshake),
                        i <= handshake.upgrades@.len(),
                        forall|j: int|
                            0 <= j < i ==> text::lowercase((#[trigger] handshake.upgrades@[j])@)
                                != "websocket"@,
                    decreases handshake.upgrades@.len() - i,
                {
                    let lower = text::to_lowercase(handshake.upgrades[i].as_str());
                    if text::same_text(lower.as_str(), "websocket") {
                        assert(text::lowercase(handshake.upgrades@[i as int]@) == "websocket"@);
                        return true;
                    }
                    i = i + 1;
                }
                false
            },
        }
    }

    /// Chooses a websocket if allowed, if not falls back to polling.
    pub fn build(&self) -> (choice: TransportChoice)
        ensures
            choice == if may_upgrade(self@) {
                TransportChoice::Websocket
            } else {
                TransportChoice::Polling
            },
    {
        if self.websocket_upgrade() {
            TransportChoice::Websocket
        } else {
            TransportChoice::Polling
        }
    }

    /// Plans a polling transport that then upgrades to a websocket.
    pub fn build_websocket_with_upgrade(&self) -> (plan: Result<WebsocketPlan, Error>)
        ensures
            !may_upgrade(self@) ==> (plan matches Err(e) && e == Error::IllegalWebsocketUpgrade()),
            may_upgrade(self@) ==> is_websocket_plan(self@, plan),
    {
        if self.websocket_upgrade() {
            self.build_websocket()
        } else {
            Err(Error::IllegalWebsocketUpgrade())
        }
    }

    /// Plans a websocket.
    pub fn build_websocket(&self) -> (plan: Result<WebsocketPlan, Error>)
        ensures
            is_websocket_plan(self@, plan),
    {
        let scheme = self.url.scheme();
        if !text::same_text(scheme, "http") && !text::same_text(scheme, "ws") {
            return Err(Error::InvalidUrlScheme(scheme.to_owned()));
        }
        match transports::websocket_url(&self.url) {
            Ok(url) => Ok(
                WebsocketPlan { url: url.text().to_owned(), upgrade: self.handshake.is_some() },
            ),
            Err(e) => Err(e),
        }
    }

    /// Makes the polling transport.
    pub fn build_polling(&self) -> (transport: Result<ClientPollingTransport, Error>)
        ensures
            transport is Ok <==> transports::has_polling_room(self@.url),
            transport matches Ok(t) ==> t@ == transports::polling_url(self@.url) && address::parts_of(t@)
                == (PartsView {
                text: address::parts_of(t@).text,
                query: address::parts_of(self@.url).query.push(("transport"@, "polling"@)),
                ..address::parts_of(self@.url)
            }),
            transport matches Err(e) ==> e == Error::InvalidUrl(),
            address::is_short(self@.url) ==> transport is Ok,
    {
        ClientPollingTransport::new(&self.url)
    }

    /// Makes the connection, once hands were shaken.
    pub fn into_socket(self, now: u64) -> (socket: Socket)
        requires
            self@.handshake is Some,
        ensures
            socket@ == (SocketView {
                connected: false,
                last_ping: now,
                last_pong: now,
                sid: self@.handshake->Some_0.sid@,
                server_end: false,
                should_pong: self@.should_pong,
                observed: true,
            }),
    {
        Socket::new(self.handshake.unwrap(), true, self.should_pong, false, now)
    }
}

/// Whether a result is what planning a websocket gives: the URL must have a scheme that can be
/// had without TLS, and must not be too long.
pub open spec fn is_websocket_plan(b: ClientBuilderView, plan: Result<WebsocketPlan, Error>) -> bool {
    let before = address::parts_of(b.url);
    let after = address::parts_of(transports::websocket_address(b.url));
    if before.scheme != "http"@ && before.scheme != "ws"@ {
        plan matches Err(e) && (e matches Error::InvalidUrlScheme(s) && s@ == before.scheme)
    } else if transports::has_websocket_room(b.url) {
        &&& plan matches Ok(p) && p.url@ == after.text && p.upgrade == (b.handshake is Some)
        &&& after == (PartsView {
            text: after.text,
            scheme: "ws"@,
            query: before.query.push(("transport"@, "websocket"@)),
            ..before
        })
    } else {
        (plan matches Err(e) && e == Error::InvalidUrl()) && !address::is_short(b.url)
    }
}

/// The handshake that a server sends, over a websocket or as the body of a response, is what a
/// client reads.
pub proof fn law_handshake_is_read_back(handshake: Seq<char>)
    ensures
        handshake_data(
            Some(encode_utf8(transports::packet_text(PacketType::Open, handshake))),
        ) == Ok::<Seq<u8>, Error>(encode_utf8(handshake)),
{
    transports::lemma_packet_text(PacketType::Open, handshake);
    packet::law_text_packet_is_read_back(
        PacketView { ptype: PacketType::Open, data: encode_utf8(handshake) },
    );
}

/// The query of the requests that a client makes while it polls: what its URL had, the version,
/// the session, the transport, and a hash of the time.
pub open spec fn polled_query(
    query: Seq<(Seq<char>, Seq<char>)>,
    sid: Seq<char>,
    hash: Seq<char>,
) -> Seq<(Seq<char>, Seq<char>)> {
    query.push(("EIO"@, "4"@)).push(("sid"@, sid)).push(("transport"@, "polling"@)).push(("t"@, hash))
}

/// A server finds in the query of a polling client the version that it speaks, unless the client's
/// own URL asked for another, and the client's session.
pub proof fn law_server_reads_client_query(
    query: Seq<(Seq<char>, Seq<char>)>,
    sid: Seq<char>,
    hash: Seq<char>,
)
    requires
        http::is_our_version(query),
    ensures
        http::is_our_version(polled_query(query, sid, hash)),
        http::query_sid(polled_query(query, sid, hash)) == Some(sid),
{
    reveal_strlit("EIO");
    reveal_strlit("sid");
    reveal_strlit("transport");
    reveal_strlit("t");
    let all = polled_query(query, sid, hash);
    assert("sid"@[0] == 's' && "EIO"@[0] == 'E');
    assert("EIO"@ != "sid"@);
    assert("transport"@.len() == 9 && "t"@.len() == 1 && "sid"@.len() == 3 && "EIO"@.len() == 3);
    assert forall|i: int| 0 <= i < all.len() && (#[trigger] all[i]).0 == "EIO"@ implies all[i].1
        == "4"@ by {
        if i < query.len() {
            assert(all[i] == query[i]);
        }
    }
    let one = all.drop_last();
    let two = one.drop_last();
    assert(one =~= query.push(("EIO"@, "4"@)).push(("sid"@, sid)).push(("transport"@, "polling"@)));
    assert(two =~= query.push(("EIO"@, "4"@)).push(("sid"@, sid)));
    assert(http::query_sid(two) == Some(sid));
    assert(http::query_sid(one) == Some(sid));
}

/// A client may upgrade if and only if hands were shaken and some offer, at any place, says
/// `websocket` once its letters are small.
pub proof fn law_upgrade_is_offered(b: ClientBuilderView)
    ensures
        b.handshake is None ==> !may_upgrade(b),
        b.handshake matches Some(handshake) ==> (may_upgrade(b) <==> exists|i: int|
            0 <= i < handshake.upgrades@.len() && text::lowercase((#[trigger] handshake.upgrades@[i])@)
                == "websocket"@),
{
}

/// The first bytes hold a handshake behind the character of their type; without bytes there is none.
pub proof fn law_handshake_behind_type(bytes: Seq<u8>)
    ensures
        handshake_data(None) == Err::<Seq<u8>, Error>(Error::IncompletePacket()),
        bytes.len() == 0 ==> handshake_data(Some(bytes)) == Err::<Seq<u8>, Error>(
            Error::IncompletePacket(),
        ),
        bytes.len() > 1 && 0x30 <= bytes[0] <= 0x36 ==> (handshake_data(Some(bytes)) matches Ok(data)
            && data.len() == bytes.len() - 1 && (forall|i: int|
            1 <= i < bytes.len() ==> data[i - 1] == #[trigger] bytes[i])),
        bytes.len() > 0 && bytes[0] > 0x36 && bytes[0] != 0x62 ==> handshake_data(Some(bytes)) == Err::<
            Seq<u8>,
            Error,
        >(Error::InvalidPacketType(bytes[0])),
{
    packet::law_packet_is_read(bytes);
}

/// The URL that a client asks is its own with the version behind the query, and with the path
/// `/engine.io/` in place of the root.
pub proof fn law_client_asks(url: AddressView)
    ensures
        client_url(url).source == url.source,
        client_url(url).changes.len() >= url.changes.len() + 1,
        client_url(url).changes.take(url.changes.len() as int) == url.changes,
        client_url(url).changes[url.changes.len() as int] == address::ChangeView::Pair("EIO"@, "4"@),
        ({
            let named = AddressView {
                source: url.source,
                changes: url.changes.push(address::ChangeView::Pair("EIO"@, "4"@)),
            };
            if address::parts_of(named).path == "/"@ {
                client_url(url).changes == named.changes.push(address::ChangeView::Path("/engine.io/"@))
            } else {
                client_url(url).changes == named.changes
            }
        }),
{
    reveal_strlit("/");
    assert("/"@ =~= seq!['/']);
    assert(client_url(url).changes.take(url.changes.len() as int) =~= url.changes);
}

/// A websocket is planned only for the schemes `http` and `ws`; another scheme is told in the error.
/// It takes the place of polling just where hands were shaken.
pub proof fn law_websocket_is_planned(b: ClientBuilderView, plan: Result<WebsocketPlan, Error>)
    requires
        is_websocket_plan(b, plan),
    ensures
        ({
            let before = address::parts_of(b.url);
            &&& before.scheme != "http"@ && before.scheme != "ws"@ <==> (plan matches Err(
                Error::InvalidUrlScheme(_),
            ))
            &&& plan matches Err(Error::InvalidUrlScheme(s)) ==> s@ == before.scheme
            &&& (before.scheme == "http"@ || before.scheme == "ws"@) && address::is_short(b.url)
                ==> plan is Ok
            &&& plan matches Ok(p) ==> {
                let after = address::parts_of(transports::websocket_address(b.url));
                &&& p.upgrade <==> b.handshake is Some
                &&& p.url@ == after.text
                &&& after.scheme == "ws"@
                &&& after.port == before.port
                &&& after.path == before.path
                &&& after.query.last() == ("transport"@, "websocket"@)
                &&& after.query.drop_last() == before.query
            }
        }),
{
    if plan is Ok {
        let after = address::parts_of(transports::websocket_address(b.url));
        assert(after.query.drop_last() =~= address::parts_of(b.url).query);
    }
}

/// How many bytes a client adds to its URL at most: there is room just where as many are left.
pub proof fn law_room_for_client(url: AddressView)
    ensures
        has_client_room(url) ==> encode_utf8(address::parts_of(url).text).len() + 20 <= 0xffff_ffff,
        address::parts_of(url).path != "/"@ ==> (has_client_room(url) <==> encode_utf8(
            address::parts_of(url).text,
        ).len() + 20 <= 0xffff_ffff),
{
    reveal_strlit("/");
    assert("/"@ =~= seq!['/']);
    reveal_strlit("EIO");
    reveal_strlit("4");
    is_ascii_chars_encode_utf8("EIO"@);
    is_ascii_chars_encode_utf8("4"@);
}

}
