//! The identifiers of clients, which tell the `engine.io` session that a client belongs to.
use std::sync::Arc;

use vstd::prelude::*;
use vstd::string::*;
use vstd::utf8::*;

use crate::binary;
use crate::binary::DecodeError;
use crate::engineio::packet::Sid;
use crate::engineio::server;
use crate::text;

verus! {

/// What stands before the first hyphen of a text; all of it where there is none.
pub open spec fn before_hyphen(s: Seq<char>) -> Seq<char>
    decreases s.len(),
{
    if s.len() == 0 || s[0] == '-' {
        Seq::empty()
    } else {
        seq![s[0]] + before_hyphen(s.drop_first())
    }
}

/// The session that a decoded identifier names.
pub open spec fn session_in(decoded: Result<Seq<u8>, DecodeError>) -> Option<Seq<char>> {
    match decoded {
        Err(_) => None,
        Ok(data) => if valid_utf8(data) {
            Some(before_hyphen(decode_utf8(data)))
        } else {
            None
        },
    }
}

/// The session that an identifier names.
pub open spec fn session_of(sid: Seq<char>) -> Option<Seq<char>> {
    session_in(binary::base64_data(encode_utf8(sid)))
}

/// What an identifier is made of: the session, a hyphen, and a number.
pub open spec fn sid_source(engine_sid: Seq<char>, seq: usize) -> Seq<char> {
    engine_sid + "-"@ + text::decimal(seq as nat)
}

/// A source of identifiers.
#[derive(Debug)]
pub struct SidGenerator {
    seq: usize,
}

impl View for SidGenerator {
    type V = usize;

    closed spec fn view(&self) -> usize {
        self.seq
    }
}

impl Default for SidGenerator {
    fn default() -> (generator: Self)
        ensures
            generator@ == 0,
    {
        SidGenerator { seq: 0 }
    }
}

/// What stands before the first hyphen comes out whatever follows the hyphen.
proof fn lemma_before_hyphen(a: Seq<char>, b: Seq<char>)
    ensures
        before_hyphen(a + "-"@ + b) == before_hyphen(a),
    decreases a.len(),
{
    reveal_strlit("-");
    let all = a + "-"@ + b;
    if a.len() == 0 {
        assert(all[0] == '-');
    } else {
        assert(all[0] == a[0]);
        assert(all.drop_first() =~= a.drop_first() + "-"@ + b);
        lemma_before_hyphen(a.drop_first(), b);
    }
}

/// A text without a hyphen stands before any hyphen as a whole.
proof fn lemma_no_hyphen(a: Seq<char>)
    requires
        !a.contains('-'),
    ensures
        before_hyphen(a) == a,
    decreases a.len(),
{
    if a.len() > 0 {
        assert(a.contains(a[0]));
        assert forall|i: int| 0 <= i < a.drop_first().len() implies a.drop_first()[i] != '-' by {
            assert(a.contains(a[i + 1]));
        }
        lemma_no_hyphen(a.drop_first());
        assert(seq![a[0]] + a.drop_first() =~= a);
    }
}

/// Reads the session out of a decoded identifier.
pub fn session_in_decoded(decoded: Result<Vec<u8>, DecodeError>) -> (session: Option<Sid>)
    ensures
        crate::engineio::http::sid_view(session) == session_in(binary::decoded(decoded)),
{
    let data = match decoded {
        Ok(data) => data,
        Err(_) => {
            return None;
        },
    };
    let source = match text::utf8_text(data.as_slice()) {
        Ok(source) => source,
        Err(_) => {
            return None;
        },
    };
    let s = source.as_str();
    let len: usize = s.unicode_len();
    let mut i: usize = 0;
    assert(s@.skip(0) =~= s@);
    assert(s@.take(0) + before_hyphen(s@.skip(0)) =~= before_hyphen(s@));
    while i < len && s.get_char(i) != '-'
        invariant
            i <= len,
            len == s@.len(),
            s@.take(i as int) + before_hyphen(s@.skip(i as int)) == before_hyphen(s@),
        decreases len - i,
    {
        proof {
            let rest = s@.skip(i as int);
            assert(rest[0] == s@[i as int]);
            assert(rest.drop_first() =~= s@.skip(i + 1));
            assert(s@.take(i + 1) + before_hyphen(s@.skip(i + 1)) =~= s@.take(i as int) + (seq![rest[0]]
                + before_hyphen(rest.drop_first())));
        }
        i = i + 1;
    }
    proof {
        let rest = s@.skip(i as int);
        assert(rest.len() == 0 || rest[0] == '-');
        assert(s@.take(i as int) + before_hyphen(rest) =~= s@.subrange(0, i as int));
    }
    Some(Arc::new(s.substring_char(0, i).to_owned()))
}

impl SidGenerator {
    /// Makes an identifier for a client of a session. The session is found again in it, up to a
    /// hyphen in its own identifier.
    pub fn generate(&mut self, engine_sid: &Sid) -> (sid: Sid)
        ensures
            final(self)@ == server::following(old(self)@),
            old(self)@ < usize::MAX ==> final(self)@ == old(self)@ + 1,
            old(self)@ == usize::MAX ==> final(self)@ == 0,
            sid@ == binary::base64_text(encode_utf8(sid_source(engine_sid@, old(self)@))),
            binary::stands_for(sid@, encode_utf8(sid_source(engine_sid@, old(self)@))),
            session_of(sid@) == Some(before_hyphen(engine_sid@)),
            !engine_sid@.contains('-') ==> session_of(sid@) == Some(engine_sid@),
    {
        let mut source = engine_sid.as_str().to_owned();
        source.append("-");
        source.append(text::decimal_text(self.seq as u64).as_str());
        self.seq = self.seq.wrapping_add(1);
        proof {
            encode_utf8_valid_utf8(source@);
            encode_utf8_decode_utf8(source@);
            lemma_before_hyphen(engine_sid@, text::decimal(old(self)@ as nat));
            if !engine_sid@.contains('-') {
                lemma_no_hyphen(engine_sid@);
            }
        }
        Arc::new(binary::encode(source.as_str().as_bytes()))
    }

    /// Finds the session that an identifier names.
    pub fn decode(sid: &Sid) -> (session: Option<Sid>)
        ensures
            crate::engineio::http::sid_view(session) == session_of(sid@),
    {
        session_in_decoded(binary::decode(sid.as_str().as_bytes()))
    }
}

/// An identifier that an `engine.io` server made holds no hyphen, so a client's identifier made of
/// it always leads back to it.
pub proof fn law_engine_sid_is_found(engine_sid: Seq<char>, seq: usize, sid: Seq<char>)
    requires
        binary::is_base64_text(engine_sid),
        binary::stands_for(sid, encode_utf8(sid_source(engine_sid, seq))),
    ensures
        session_of(sid) == Some(engine_sid),
{
    assert forall|i: int| 0 <= i < engine_sid.len() implies engine_sid[i] != '-' by {
        assert(binary::is_base64_char(engine_sid[i]));
    }
    let source = sid_source(engine_sid, seq);
    encode_utf8_valid_utf8(source);
    encode_utf8_decode_utf8(source);
    lemma_before_hyphen(engine_sid, text::decimal(seq as nat));
    lemma_no_hyphen(engine_sid);
}

/// Texts of a hyphen and a number at their ends are the same only where both parts are.
proof fn lemma_source_is_injective(a: Seq<char>, m: usize, b: Seq<char>, n: usize)
    requires
        sid_source(a, m) == sid_source(b, n),
    ensures
        a == b,
        m == n,
{
    reveal_strlit("-");
    let x = text::decimal(m as nat);
    let y = text::decimal(n as nat);
    let s = sid_source(a, m);
    text::lemma_decimal_digits(m as nat);
    text::lemma_decimal_digits(n as nat);
    let heads = (a + "-"@, b + "-"@);
    assert(s == heads.0 + x && s == heads.1 + y);
    assert(heads.0.len() == a.len() + 1 && heads.1.len() == b.len() + 1);
    assert(s.len() == a.len() + 1 + x.len() && s.len() == b.len() + 1 + y.len());
    assert(x.len() > 0 && y.len() > 0);
    assert(s[a.len() as int] == heads.0[a.len() as int]);
    assert(s[b.len() as int] == heads.1[b.len() as int]);
    if a.len() < b.len() {
        assert((heads.0 + x)[b.len() as int] == x[b.len() - a.len() - 1]);
        assert(text::is_digit(x[b.len() - a.len() - 1]));
    }
    if b.len() < a.len() {
        assert((heads.1 + y)[a.len() as int] == y[a.len() - b.len() - 1]);
        assert(text::is_digit(y[a.len() - b.len() - 1]));
    }
    assert(a =~= s.take(a.len() as int));
    assert(b =~= s.take(b.len() as int));
    assert(x =~= s.skip(a.len() as int + 1));
    assert(y =~= s.skip(b.len() as int + 1));
    text::law_decimal_is_injective(m as nat, n as nat);
}

/// Identifiers that were made for different sessions, or of different numbers, differ.
pub proof fn law_client_sids_differ(
    sid1: Seq<char>,
    engine_sid1: Seq<char>,
    seq1: usize,
    sid2: Seq<char>,
    engine_sid2: Seq<char>,
    seq2: usize,
)
    requires
        binary::stands_for(sid1, encode_utf8(sid_source(engine_sid1, seq1))),
        binary::stands_for(sid2, encode_utf8(sid_source(engine_sid2, seq2))),
        engine_sid1 != engine_sid2 || seq1 != seq2,
    ensures
        sid1 != sid2,
{
    if sid1 == sid2 {
        text::lemma_utf8_injective(sid_source(engine_sid1, seq1), sid_source(engine_sid2, seq2));
        lemma_source_is_injective(engine_sid1, seq1, engine_sid2, seq2);
    }
}

/// The identifiers that one source hands out are different, for the same session or for others,
/// unless more calls lie between them than there are numbers.
pub proof fn law_handed_out_client_sids_differ(
    seq: usize,
    first: nat,
    sid1: Seq<char>,
    engine_sid1: Seq<char>,
    second: nat,
    sid2: Seq<char>,
    engine_sid2: Seq<char>,
)
    requires
        first < second,
        second - first <= usize::MAX,
        binary::stands_for(
            sid1,
            encode_utf8(sid_source(engine_sid1, server::number_after(seq, first))),
        ),
        binary::stands_for(
            sid2,
            encode_utf8(sid_source(engine_sid2, server::number_after(seq, second))),
        ),
    ensures
        sid1 != sid2,
{
    server::law_numbers_differ(seq, first, second);
    law_client_sids_differ(
        sid1,
        engine_sid1,
        server::number_after(seq, first),
        sid2,
        engine_sid2,
        server::number_after(seq, second),
    );
}

/// An identifier is made of the session, a hyphen, and a text that is read as the number.
pub proof fn law_client_sid_source(engine_sid: Seq<char>, seq: usize)
    ensures
        sid_source(engine_sid, seq).len() > engine_sid.len(),
        sid_source(engine_sid, seq).take(engine_sid.len() as int) == engine_sid,
        sid_source(engine_sid, seq)[engine_sid.len() as int] == '-',
        text::number(sid_source(engine_sid, seq).skip(engine_sid.len() as int + 1)) == Some(seq as nat),
{
    reveal_strlit("-");
    let s = sid_source(engine_sid, seq);
    assert(s.take(engine_sid.len() as int) =~= engine_sid);
    assert(s.skip(engine_sid.len() as int + 1) =~= text::decimal(seq as nat));
    text::law_number_of_decimal(seq as nat);
}

/// The session in decoded data is what stands before the first hyphen of their text, or all of it
/// where there is none. Data that are no text, and those that could not be decoded, hold none.
pub proof fn law_session_in_data(s: Seq<char>, i: int, data: Seq<u8>, e: DecodeError)
    ensures
        0 <= i < s.len() && s[i] == '-' && (forall|j: int| 0 <= j < i ==> #[trigger] s[j] != '-')
            ==> session_in(Ok(encode_utf8(s))) == Some(s.take(i)),
        !s.contains('-') ==> session_in(Ok(encode_utf8(s))) == Some(s),
        !valid_utf8(data) ==> session_in(Ok(data)) is None,
        session_in(Err(e)) is None,
{
    encode_utf8_valid_utf8(s);
    encode_utf8_decode_utf8(s);
    if !s.contains('-') {
        lemma_no_hyphen(s);
    }
    if 0 <= i < s.len() && s[i] == '-' && (forall|j: int| 0 <= j < i ==> #[trigger] s[j] != '-') {
        reveal_strlit("-");
        let a = s.take(i);
        let b = s.skip(i + 1);
        assert(s =~= a + "-"@ + b);
        lemma_before_hyphen(a, b);
        assert(!a.contains('-')) by {
            assert forall|j: int| 0 <= j < a.len() implies a[j] != '-' by {
                assert(s[j] != '-');
            }
        }
        lemma_no_hyphen(a);
    }
}

}
