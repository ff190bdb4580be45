//! URLs: texts, and the changes that are made to what they parse to.
use vstd::prelude::*;
use vstd::string::*;
use vstd::utf8::*;

use crate::text;

verus! {

/// The number of bytes that a changed URL may have: the `url` crate keeps offsets in 32 bits, and
/// gives up beyond.
pub const URL_LIMIT: u32 = 0xffff_ffff;

/// The port of a server whose address names none.
pub const DEFAULT_PORT: u16 = 80;

/// The number of bytes of a text.
pub open spec fn byte_len(s: Seq<char>) -> nat {
    encode_utf8(s).len()
}

/// A change of a URL.
#[derive(Debug)]
pub enum Change {
    /// A key-value pair is added to the query.
    Pair(String, String),
    /// The path is replaced.
    Path(String),
    /// The scheme is replaced.
    Scheme(String),
    /// The port is replaced.
    Port(u16),
}

/// The value of a [`Change`].
pub enum ChangeView {
    Pair(Seq<char>, Seq<char>),
    Path(Seq<char>),
    Scheme(Seq<char>),
    Port(u16),
}

impl View for Change {
    type V = ChangeView;

    open spec fn view(&self) -> ChangeView {
        match self {
            Change::Pair(key, value) => ChangeView::Pair(key@, value@),
            Change::Path(path) => ChangeView::Path(path@),
            Change::Scheme(scheme) => ChangeView::Scheme(scheme@),
            Change::Port(port) => ChangeView::Port(*port),
        }
    }
}

/// The values of changes.
pub open spec fn change_views(changes: Seq<Change>) -> Seq<ChangeView> {
    changes.map_values(|c: Change| c@)
}

/// The number of bytes of the texts that a change brings.
pub open spec fn change_len(change: ChangeView) -> nat {
    match change {
        ChangeView::Pair(key, value) => byte_len(key) + byte_len(value),
        ChangeView::Path(path) => byte_len(path),
        ChangeView::Scheme(scheme) => byte_len(scheme),
        ChangeView::Port(_) => 0,
    }
}

/// What is read of a URL.
#[derive(Debug)]
pub struct Parts {
    /// The URL as a text.
    pub text: String,
    pub scheme: String,
    /// The port, if it is another than the default port of the scheme.
    pub port: Option<u16>,
    pub path: String,
    /// The key-value pairs of the query, in order.
    pub query: Vec<(String, String)>,
}

/// The value of [`Parts`].
pub struct PartsView {
    pub text: Seq<char>,
    pub scheme: Seq<char>,
    pub port: Option<u16>,
    pub path: Seq<char>,
    pub query: Seq<(Seq<char>, Seq<char>)>,
}

impl View for Parts {
    type V = PartsView;

    open spec fn view(&self) -> PartsView {
        PartsView {
            text: self.text@,
            scheme: self.scheme@,
            port: self.port,
            path: self.path@,
            query: pair_views(self.query@),
        }
    }
}

/// The value of optional parts.
pub open spec fn parts_view(parts: Option<Parts>) -> Option<PartsView> {
    match parts {
        Some(parts) => Some(parts@),
        None => None,
    }
}

/// The values of key-value pairs.
pub open spec fn pair_views(pairs: Seq<(String, String)>) -> Seq<(Seq<char>, Seq<char>)> {
    pairs.map_values(|p: (String, String)| (p.0@, p.1@))
}

/// The values of optional key-value pairs.
pub open spec fn query_view(pairs: Option<Vec<(String, String)>>) -> Option<Seq<(Seq<char>, Seq<char>)>> {
    match pairs {
        Some(pairs) => Some(pair_views(pairs@)),
        None => None,
    }
}

/// The URL that a text parses to, after changes; none where the text is no URL, or where one of the
/// changes cannot be made.
pub uninterp spec fn url_parts(source: Seq<char>, changes: Seq<ChangeView>) -> Option<PartsView>;

/// Whether a scheme is one of the web.
pub open spec fn is_web(scheme: Seq<char>) -> bool {
    scheme == "http"@ || scheme == "https"@ || scheme == "ws"@ || scheme == "wss"@
}

/// The default port of a scheme of the web.
pub open spec fn scheme_port(scheme: Seq<char>) -> u16 {
    if scheme == "https"@ || scheme == "wss"@ {
        443
    } else {
        80
    }
}

/// The port that a URL of the web leads to.
pub open spec fn web_port(parts: PartsView) -> u16 {
    match parts.port {
        Some(port) => port,
        None => scheme_port(parts.scheme),
    }
}

/// Whether a path stands in a URL as it is written: it starts with a slash, has only small letters
/// and dots besides slashes, and no slash in it is followed by another one or by a dot.
pub open spec fn is_plain_path(path: Seq<char>) -> bool {
    &&& path.len() > 0
    &&& path[0] == '/'
    &&& forall|i: int|
        0 <= i < path.len() ==> 'a' <= (#[trigger] path[i]) <= 'z' || path[i] == '.' || path[i] == '/'
    &&& forall|i: int, j: int|
        0 <= i < path.len() && j == i + 1 && j < path.len() && (#[trigger] path[i]) == '/' ==> (
        #[trigger] path[j]) != '/' && path[j] != '.'
}

/// Whether a URL, as a text, can grow by texts of some bytes. Percent-encoding makes three bytes of
/// one, and a few more set the texts off.
pub open spec fn leaves_room(text: Seq<char>, bytes: nat) -> bool {
    byte_len(text) + 3 * bytes + 8 <= URL_LIMIT
}

/// Whether there is room for each of a row of changes, when it is its turn.
pub open spec fn all_fit(source: Seq<char>, changes: Seq<ChangeView>) -> bool
    decreases changes.len(),
{
    changes.len() == 0 || {
        &&& all_fit(source, changes.drop_last())
        &&& url_parts(source, changes.drop_last()) matches Some(before) ==> leaves_room(
            before.text,
            change_len(changes.last()),
        )
    }
}

/// What is known of a URL after a change, given what it was before. A pair comes last in the query,
/// and the rest stays. Another path leaves the rest as it is, and stands there as it is written if
/// it is plain and took the place of the root. Another scheme, if the URL can have it, leaves path
/// and query as they are; `ws` can be had in place of `http`, and leaves the port too. A URL of the
/// web can have any port, which leaves the rest as it is. The URL grows by what the change brings.
pub open spec fn follows(before: PartsView, change: ChangeView, after: Option<PartsView>) -> bool {
    &&& match change {
        ChangeView::Pair(key, value) => after matches Some(a) && a.scheme == before.scheme && a.port
            == before.port && a.path == before.path && a.query == before.query.push((key, value)),
        ChangeView::Path(path) => after matches Some(a) && a.scheme == before.scheme && a.port
            == before.port && a.query == before.query && (is_plain_path(path) && before.path
            == seq!['/'] ==> a.path == path),
        ChangeView::Scheme(scheme) => {
            &&& after matches Some(a) ==> a.path == before.path && a.query == before.query
            &&& scheme == "ws"@ && (before.scheme == "http"@ || before.scheme == "ws"@) ==> (
            after matches Some(a) && a.scheme == "ws"@ && a.port == before.port)
        },
        ChangeView::Port(port) => is_web(before.scheme) ==> (after matches Some(a) && a.scheme
            == before.scheme && web_port(a) == port && a.path == before.path && a.query
            == before.query),
    }
    &&& after matches Some(a) ==> byte_len(a.text) <= byte_len(before.text) + 3 * change_len(change) + 8
}

/// Calls `url::Url::parse`, makes the changes one after the other to the URL that comes out, by
/// `append_pair` on `Url::query_pairs_mut`, `Url::set_path`, `Url::set_scheme` and `Url::set_port`,
/// and reads the result by `Url::scheme`, `Url::port`, `Url::path` and `Url::query_pairs`, which
/// decodes the query as `application/x-www-form-urlencoded`. Of what the last of the changes does,
/// [`follows`] says all that is claimed.
#[verifier::external_body]
fn apply(source: &str, changes: &Vec<Change>) -> (parts: Option<Parts>)
    requires
        all_fit(source@, change_views(changes@)),
    ensures
        parts_view(parts) == url_parts(source@, change_views(changes@)),
        changes@.len() > 0 && url_parts(source@, change_views(changes@).drop_last()) is None ==> parts is None,
        changes@.len() > 0 && url_parts(source@, change_views(changes@).drop_last()) is Some ==> follows(
            url_parts(source@, change_views(changes@).drop_last())->Some_0,
            change_views(changes@).last(),
            parts_view(parts),
        ),
{
    let mut url = ::url::Url::parse(source).ok()?;
    for change in changes {
        match change {
            Change::Pair(key, value) => { url.query_pairs_mut().append_pair(key, value); },
            Change::Path(path) => url.set_path(path),
            Change::Scheme(scheme) => url.set_scheme(scheme).ok()?,
            Change::Port(port) => url.set_port(Some(*port)).ok()?,
        }
    }
    let query = url.query_pairs().map(|(k, v)| (k.into_owned(), v.into_owned())).collect();
    let scheme = url.scheme().to_owned();
    Some(Parts { scheme, port: url.port(), path: url.path().to_owned(), query, text: url.into() })
}

/// A URL: the text that it was parsed from, and the changes that were made since.
#[derive(Debug)]
pub struct Address {
    source: String,
    changes: Vec<Change>,
    parts: Parts,
}

/// The value of an [`Address`].
pub struct AddressView {
    pub source: Seq<char>,
    pub changes: Seq<ChangeView>,
}

impl View for Address {
    type V = AddressView;

    closed spec fn view(&self) -> AddressView {
        AddressView { source: self.source@, changes: change_views(self.changes@) }
    }
}

/// The URL that a text parses to, as it is.
pub open spec fn unchanged(source: Seq<char>) -> AddressView {
    AddressView { source, changes: Seq::empty() }
}

/// Whether a text parses as a URL.
pub open spec fn is_url(source: Seq<char>) -> bool {
    url_parts(source, Seq::empty()) is Some
}

/// The key-value pairs in the query of the URL that a text parses to.
pub open spec fn url_query(source: Seq<char>) -> Option<Seq<(Seq<char>, Seq<char>)>> {
    match url_parts(source, Seq::empty()) {
        Some(parts) => Some(parts.query),
        None => None,
    }
}

/// What is read of a URL.
pub open spec fn parts_of(address: AddressView) -> PartsView {
    url_parts(address.source, address.changes)->Some_0
}

/// A URL with one more change.
pub open spec fn with_change(address: AddressView, change: ChangeView) -> AddressView {
    AddressView { changes: address.changes.push(change), ..address }
}

/// Whether a URL can grow by texts of some bytes.
pub open spec fn has_room(address: AddressView, bytes: nat) -> bool {
    leaves_room(parts_of(address).text, bytes)
}

/// Whether a URL leaves room for all that a client adds to it besides the name of its session.
pub open spec fn is_short(address: AddressView) -> bool {
    byte_len(parts_of(address).text) + 0x1000 <= URL_LIMIT
}

/// Whether a changed URL is longer than it was by no more than texts of some bytes account for.
pub open spec fn grows(before: AddressView, after: AddressView, bytes: nat) -> bool {
    byte_len(parts_of(after).text) <= byte_len(parts_of(before).text) + 3 * bytes + 8
}

/// A URL with a key-value pair added to its query.
pub open spec fn with_pair(address: AddressView, key: Seq<char>, value: Seq<char>) -> AddressView {
    with_change(address, ChangeView::Pair(key, value))
}

/// A URL with a default path in place of the root.
pub open spec fn with_default_path(address: AddressView, path: Seq<char>) -> AddressView {
    if parts_of(address).path == seq!['/'] {
        with_change(address, ChangeView::Path(path))
    } else {
        address
    }
}

/// A path, or a default in place of the root.
pub open spec fn default_path(path: Seq<char>, default: Seq<char>) -> Seq<char> {
    if path == seq!['/'] {
        default
    } else {
        path
    }
}

/// A text from its first colon on.
pub open spec fn from_colon(s: Seq<char>) -> Seq<char>
    decreases s.len(),
{
    if s.len() == 0 || s[0] == ':' {
        s
    } else {
        from_colon(s.drop_first())
    }
}

/// A URL of the web with `http` for its scheme. The scheme of a URL ends at the first colon.
pub open spec fn as_http(source: Seq<char>) -> Seq<char> {
    "http"@ + from_colon(source)
}

/// The port that a URL of the web names, or else 80, whatever its scheme is. With `http` for its
/// scheme, a URL whose port is not to be seen names none, or 80.
pub open spec fn port_or_default(source: Seq<char>) -> u16 {
    match url_parts(as_http(source), Seq::empty()) {
        Some(parts) => match parts.port {
            Some(port) => port,
            None => DEFAULT_PORT,
        },
        None => DEFAULT_PORT,
    }
}

/// The URL that a text parses to, with the port that it names, or else 80, if it is one of the web.
pub open spec fn with_default_port(source: Seq<char>) -> AddressView {
    if is_web(parts_of(unchanged(source)).scheme) {
        with_change(unchanged(source), ChangeView::Port(port_or_default(source)))
    } else {
        unchanged(source)
    }
}

/// Copies changes.
fn clone_changes(changes: &Vec<Change>) -> (copies: Vec<Change>)
    ensures
        change_views(copies@) == change_views(changes@),
{
    let mut copies: Vec<Change> = Vec::new();
    let mut i: usize = 0;
    while i < changes.len()
        invariant
            i <= changes@.len(),
            copies@.len() == i,
            forall|j: int| 0 <= j < i ==> (#[trigger] copies@[j])@ == changes@[j]@,
        decreases changes@.len() - i,
    {
        let copy = match &changes[i] {
            Change::Pair(key, value) => Change::Pair(key.clone(), value.clone()),
            Change::Path(path) => Change::Path(path.clone()),
            Change::Scheme(scheme) => Change::Scheme(scheme.clone()),
            Change::Port(port) => Change::Port(*port),
        };
        copies.push(copy);
        i = i + 1;
    }
    assert(change_views(copies@) =~= change_views(changes@));
    copies
}

/// Writes a URL of the web with `http` for its scheme.
fn http_form(source: &str) -> (form: String)
    ensures
        form@ == as_http(source@),
{
    let len: usize = source.unicode_len();
    let mut i: usize = 0;
    assert(source@.skip(0) =~= source@);
    while i < len && source.get_char(i) != ':'
        invariant
            i <= len,
            len == source@.len(),
            from_colon(source@) == from_colon(source@.skip(i as int)),
        decreases len - i,
    {
        assert(source@.skip(i as int).drop_first() =~= source@.skip(i + 1));
        i = i + 1;
    }
    assert(source@.subrange(i as int, len as int) =~= source@.skip(i as int));
    let mut form = "http".to_owned();
    form.append(source.substring_char(i, len));
    form
}

/// Reads the key-value pairs in the query of the URL that a text parses to.
pub fn query_pairs(source: &str) -> (pairs: Option<Vec<(String, String)>>)
    ensures
        query_view(pairs) == url_query(source@),
{
    match Address::parse(source) {
        Some(address) => Some(address.into_query()),
        None => None,
    }
}

impl Address {
    #[verifier::type_invariant]
    spec fn well_formed(self) -> bool {
        &&& all_fit(self.source@, change_views(self.changes@))
        &&& url_parts(self.source@, change_views(self.changes@)) == Some(self.parts@)
    }

    /// Parses a text.
    pub fn parse(source: &str) -> (address: Option<Address>)
        ensures
            address is Some <==> is_url(source@),
            address matches Some(a) ==> a@ == unchanged(source@),
    {
        let changes: Vec<Change> = Vec::new();
        assert(change_views(changes@) =~= Seq::<ChangeView>::empty());
        match apply(source, &changes) {
            Some(parts) => Some(Address { source: source.to_owned(), changes, parts }),
            None => None,
        }
    }

    /// Parses the address of a server: a URL of the web that names no port gets the port 80.
    pub fn parse_server(source: &str) -> (address: Option<Address>)
        ensures
            address is Some <==> is_url(source@) && (is_web(parts_of(unchanged(source@)).scheme)
                ==> has_room(unchanged(source@), 0)),
            address matches Some(a) ==> {
                let before = parts_of(unchanged(source@));
                let after = parts_of(a@);
                &&& a@ == with_default_port(source@)
                &&& after.scheme == before.scheme
                &&& after.path == before.path
                &&& after.query == before.query
                &&& if is_web(before.scheme) {
                    web_port(after) == port_or_default(source@)
                } else {
                    after.port == before.port
                }
                &&& grows(unchanged(source@), a@, 0)
            },
    {
        let address = match Address::parse(source) {
            Some(address) => address,
            None => {
                return None;
            },
        };
        let scheme = address.scheme();
        let web = text::same_text(scheme, "http") || text::same_text(scheme, "https")
            || text::same_text(scheme, "ws") || text::same_text(scheme, "wss");
        if !web {
            return Some(address);
        }
        let named: Option<u16> = match Address::parse(http_form(source).as_str()) {
            Some(form) => form.port(),
            None => None,
        };
        let port: u16 = match named {
            Some(port) => port,
            None => DEFAULT_PORT,
        };
        address.changed(Change::Port(port))
    }

    /// The URL as a text.
    pub fn text(&self) -> (text: &str)
        ensures
            text@ == parts_of(self@).text,
    {
        proof {
            use_type_invariant(self);
        }
        self.parts.text.as_str()
    }

    /// The scheme.
    pub fn scheme(&self) -> (scheme: &str)
        ensures
            scheme@ == parts_of(self@).scheme,
    {
        proof {
            use_type_invariant(self);
        }
        self.parts.scheme.as_str()
    }

    /// The port, if it is another than the default port of the scheme.
    pub fn port(&self) -> (port: Option<u16>)
        ensures
            port == parts_of(self@).port,
    {
        proof {
            use_type_invariant(self);
        }
        self.parts.port
    }

    /// The path.
    pub fn path(&self) -> (path: &str)
        ensures
            path@ == parts_of(self@).path,
    {
        proof {
            use_type_invariant(self);
        }
        self.parts.path.as_str()
    }

    /// The key-value pairs of the query, in order.
    pub fn into_query(self) -> (query: Vec<(String, String)>)
        ensures
            pair_views(query@) == parts_of(self@).query,
    {
        proof {
            use_type_invariant(&self);
        }
        self.parts.query
    }

    /// Whether there is room for texts of some bytes.
    fn fits(&self, bytes: u128) -> (fits: bool)
        requires
            bytes <= 2 * usize::MAX,
        ensures
            fits == has_room(self@, bytes as nat),
    {
        proof {
            use_type_invariant(self);
        }
        let before: usize = self.parts.text.as_str().as_bytes().len();
        before as u128 + 3 * bytes + 8 <= URL_LIMIT as u128
    }

    /// Makes a change, if there is room for it and the URL can have it.
    fn changed(&self, change: Change) -> (address: Option<Address>)
        ensures
            address is Some <==> has_room(self@, change_len(change@)) && url_parts(
                self@.source,
                self@.changes.push(change@),
            ) is Some,
            address matches Some(a) ==> a@ == with_change(self@, change@),
            has_room(self@, change_len(change@)) ==> follows(
                parts_of(self@),
                change@,
                url_parts(self@.source, self@.changes.push(change@)),
            ),
    {
        proof {
            use_type_invariant(self);
        }
        let bytes: u128 = match &change {
            Change::Pair(key, value) => key.as_str().as_bytes().len() as u128
                + value.as_str().as_bytes().len() as u128,
            Change::Path(path) => path.as_str().as_bytes().len() as u128,
            Change::Scheme(scheme) => scheme.as_str().as_bytes().len() as u128,
            Change::Port(_) => 0,
        };
        if !self.fits(bytes) {
            return None;
        }
        let mut changes = clone_changes(&self.changes);
        let ghost before = change_views(self.changes@);
        changes.push(change);
        proof {
            assert(change_views(changes@) =~= before.push(change@));
            assert(before.push(change@).drop_last() =~= before);
        }
        match apply(self.source.as_str(), &changes) {
            Some(parts) => Some(Address { source: self.source.clone(), changes, parts }),
            None => None,
        }
    }

    /// Adds a key-value pair to the query.
    pub fn append_pair(&self, key: &str, value: &str) -> (address: Option<Address>)
        ensures
            address is Some <==> has_room(self@, byte_len(key@) + byte_len(value@)),
            address matches Some(a) ==> a@ == with_pair(self@, key@, value@) && parts_of(a@) == (
            PartsView {
                text: parts_of(a@).text,
                query: parts_of(self@).query.push((key@, value@)),
                ..parts_of(self@)
            }) && grows(self@, a@, byte_len(key@) + byte_len(value@)),
    {
        self.changed(Change::Pair(key.to_owned(), value.to_owned()))
    }

    /// Gives a URL whose path is the root another path.
    pub fn set_default_path(self, default: &str) -> (address: Option<Address>)
        ensures
            address is Some <==> parts_of(self@).path != seq!['/'] || has_room(
                self@,
                byte_len(default@),
            ),
            address matches Some(a) ==> {
                let before = parts_of(self@);
                let after = parts_of(a@);
                &&& a@ == with_default_path(self@, default@)
                &&& after.scheme == before.scheme
                &&& after.port == before.port
                &&& after.query == before.query
                &&& is_plain_path(default@) ==> after.path == default_path(before.path, default@)
                &&& grows(self@, a@, byte_len(default@))
            },
    {
        proof {
            reveal_strlit("/");
            assert("/"@ =~= seq!['/']);
        }
        if text::same_text(self.path(), "/") {
            self.changed(Change::Path(default.to_owned()))
        } else {
            Some(self)
        }
    }

    /// Gives the URL another scheme.
    pub fn change_scheme(&self, scheme: &str) -> (address: Option<Address>)
        ensures
            address is Some <==> has_room(self@, byte_len(scheme@)) && url_parts(
                self@.source,
                self@.changes.push(ChangeView::Scheme(scheme@)),
            ) is Some,
            address matches Some(a) ==> a@ == with_change(self@, ChangeView::Scheme(scheme@)) && parts_of(
                a@,
            ).path == parts_of(self@).path && parts_of(a@).query == parts_of(self@).query && grows(
                self@,
                a@,
                byte_len(scheme@),
            ),
            becomes_ws(self@, scheme@) ==> (address is Some <==> has_room(self@, byte_len(scheme@))),
            address matches Some(a) ==> (becomes_ws(self@, scheme@) ==> parts_of(a@).scheme == "ws"@
                && parts_of(a@).port == parts_of(self@).port),
    {
        self.changed(Change::Scheme(scheme.to_owned()))
    }

    /// Puts the hash of the current time into the query, so that no cache answers.
    pub fn append_hash(&self, now: &str) -> (address: Option<Address>)
        ensures
            address is Some <==> has_room(self@, byte_len("t"@) + byte_len(hash_text(now@))),
            address matches Some(a) ==> a@ == with_pair(self@, "t"@, hash_text(now@)) && parts_of(a@)
                == (PartsView {
                text: parts_of(a@).text,
                query: parts_of(self@).query.push(("t"@, hash_text(now@))),
                ..parts_of(self@)
            }),
    {
        let hash: u32 = adler32(now.as_bytes());
        self.append_pair("t", text::decimal_text(hash as u64).as_str())
    }
}

/// Whether the scheme of a URL is to become `ws`, from one that can be had without TLS.
pub open spec fn becomes_ws(address: AddressView, scheme: Seq<char>) -> bool {
    scheme == "ws"@ && (parts_of(address).scheme == "http"@ || parts_of(address).scheme == "ws"@)
}

/// The first half of an Adler-32 hash.
pub open spec fn adler_a(s: Seq<u8>) -> nat
    decreases s.len(),
{
    if s.len() == 0 {
        1
    } else {
        (adler_a(s.drop_last()) + s.last() as nat) % 65521
    }
}

/// The second half of an Adler-32 hash.
pub open spec fn adler_b(s: Seq<u8>) -> nat
    decreases s.len(),
{
    if s.len() == 0 {
        0
    } else {
        (adler_b(s.drop_last()) + adler_a(s)) % 65521
    }
}

/// The Adler-32 hash.
pub open spec fn adler(s: Seq<u8>) -> nat {
    adler_b(s) * 65536 + adler_a(s)
}

/// Calls `adler32::adler32` on bytes in memory, which cannot fail to be read: the Adler-32 hash.
#[verifier::external_body]
fn adler32(bytes: &[u8]) -> (hash: u32)
    ensures
        hash == adler(bytes@),
{
    ::adler32::adler32(bytes).unwrap()
}

/// The query value that tells one request from another: the hash of the time's text.
pub open spec fn hash_text(now: Seq<char>) -> Seq<char> {
    text::decimal(adler(encode_utf8(now)))
}

/// What follows a scheme starts at the first colon of a URL, wherever it stands, and takes in all that
/// comes behind it; with `http` before it the URL has that scheme.
pub proof fn law_scheme_is_replaced(source: Seq<char>, i: int)
    ensures
        0 <= i < source.len() && source[i] == ':' && (forall|j: int|
            0 <= j < i ==> #[trigger] source[j] != ':') ==> {
            &&& as_http(source).len() == 4 + source.len() - i
            &&& as_http(source).take(4) == "http"@
            &&& as_http(source).skip(4) == source.skip(i)
        },
        !source.contains(':') ==> as_http(source) == "http"@,
{
    reveal_strlit("http");
    if 0 <= i < source.len() && source[i] == ':' && (forall|j: int|
        0 <= j < i ==> #[trigger] source[j] != ':') {
        lemma_from_colon(source, i);
        assert(as_http(source).take(4) =~= "http"@);
        assert(as_http(source).skip(4) =~= source.skip(i));
    }
    if !source.contains(':') {
        lemma_no_colon(source);
        assert(as_http(source) =~= "http"@);
    }
}

proof fn lemma_from_colon(s: Seq<char>, i: int)
    requires
        0 <= i < s.len(),
        s[i] == ':',
        forall|j: int| 0 <= j < i ==> #[trigger] s[j] != ':',
    ensures
        from_colon(s) == s.skip(i),
    decreases i,
{
    if i == 0 {
        assert(s.skip(0) =~= s);
    } else {
        let rest = s.drop_first();
        assert(s[0] != ':');
        assert forall|j: int| 0 <= j < i - 1 implies #[trigger] rest[j] != ':' by {
            assert(s[j + 1] != ':');
        }
        lemma_from_colon(rest, i - 1);
        assert(rest.skip(i - 1) =~= s.skip(i));
    }
}

proof fn lemma_no_colon(s: Seq<char>)
    requires
        !s.contains(':'),
    ensures
        from_colon(s).len() == 0,
    decreases s.len(),
{
    if s.len() > 0 {
        assert(s.contains(s[0]));
        assert forall|j: int| 0 <= j < s.drop_first().len() implies s.drop_first()[j] != ':' by {
            assert(s.contains(s[j + 1]));
        }
        lemma_no_colon(s.drop_first());
    }
}

/// The port of a server's address is the one that it names, seen as `http`, and else 80.
pub proof fn law_port_of_address(source: Seq<char>, port: u16)
    ensures
        url_parts("http"@ + from_colon(source), Seq::empty()) matches Some(parts) ==> (parts.port == Some(
            port,
        ) ==> port_or_default(source) == port) && (parts.port is None ==> port_or_default(source) == 80),
        url_parts("http"@ + from_colon(source), Seq::empty()) is None ==> port_or_default(source) == 80,
{
}

/// The port that a URL of the web leads to is the one that it shows, and else 443 under TLS and 80
/// without.
pub proof fn law_port_of_web(parts: PartsView, port: u16)
    ensures
        parts.port == Some(port) ==> web_port(parts) == port,
        parts.port is None && (parts.scheme == "https"@ || parts.scheme == "wss"@) ==> web_port(parts) == 443,
        parts.port is None && (parts.scheme == "http"@ || parts.scheme == "ws"@) ==> web_port(parts) == 80,
        is_web(parts.scheme) <==> parts.scheme == "http"@ || parts.scheme == "https"@ || parts.scheme
            == "ws"@ || parts.scheme == "wss"@,
{
    reveal_strlit("http");
    reveal_strlit("ws");
    reveal_strlit("https");
    reveal_strlit("wss");
    assert("http"@.len() == 4 && "ws"@.len() == 2 && "https"@.len() == 5 && "wss"@.len() == 3);
}

/// The changes of a URL are made behind those that were made before, and its text stays what it was
/// parsed from: a pair is always added, a default path only in place of the root, and a default port
/// only to a URL of the web.
pub proof fn law_changes_are_made_last(
    address: AddressView,
    key: Seq<char>,
    value: Seq<char>,
    path: Seq<char>,
    source: Seq<char>,
)
    ensures
        unchanged(source).source == source,
        unchanged(source).changes.len() == 0,
        with_pair(address, key, value).source == address.source,
        with_pair(address, key, value).changes == address.changes.push(ChangeView::Pair(key, value)),
        with_default_path(address, path).source == address.source,
        parts_of(address).path == "/"@ ==> with_default_path(address, path).changes
            == address.changes.push(ChangeView::Path(path)),
        parts_of(address).path != "/"@ ==> with_default_path(address, path) == address,
        path != "/"@ ==> default_path(path, value) == path,
        default_path("/"@, value) == value,
        with_default_port(source).source == source,
        is_web(parts_of(unchanged(source)).scheme) ==> with_default_port(source).changes == seq![
            ChangeView::Port(port_or_default(source)),
        ],
        !is_web(parts_of(unchanged(source)).scheme) ==> with_default_port(source).changes.len() == 0,
{
    reveal_strlit("/");
    assert("/"@ =~= seq!['/']);
    assert(Seq::<ChangeView>::empty().push(ChangeView::Port(port_or_default(source))) =~= seq![
        ChangeView::Port(port_or_default(source)),
    ]);
}

/// There is room in a URL for texts of some bytes just where three times as many, and eight, are left
/// of what 32 bits can count.
pub proof fn law_room_in_url(address: AddressView, bytes: nat)
    ensures
        has_room(address, bytes) <==> encode_utf8(parts_of(address).text).len() + 3 * bytes + 8
            <= 0xffff_ffff,
        is_short(address) ==> has_room(address, 1024),
{
}

/// The value that tells requests apart is a text that is read as the hash of the time's bytes.
pub proof fn law_hash_is_a_number(now: Seq<char>)
    ensures
        text::number(hash_text(now)) == Some(adler(encode_utf8(now))),
{
    text::law_number_of_decimal(adler(encode_utf8(now)));
}

/// The values of key-value pairs stand in the places of the pairs, one for each.
pub proof fn law_pair_values_in_place(row: Seq<(String, String)>, i: int)
    requires
        0 <= i < row.len(),
    ensures
        pair_views(row).len() == row.len(),
        pair_views(row)[i] == (row[i].0@, row[i].1@),
{
}

/// The values of changes stand in the places of the changes, one for each.
pub proof fn law_change_values_in_place(row: Seq<Change>, i: int)
    requires
        0 <= i < row.len(),
    ensures
        change_views(row).len() == row.len(),
        change_views(row)[i] == row[i]@,
{
}

}
