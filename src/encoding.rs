use crate::configuration::{servers_view, Configuration, Server, ServerSuffrage, ServerView};
use vstd::prelude::*;
use vstd::utf8::{decode_utf8, encode_utf8, encode_utf8_decode_utf8, encode_utf8_valid_utf8, valid_utf8};

verus! {

// A configuration is stored as its servers one after another. Each server is
// a suffrage tag byte, then its id, then its address; each text is the length
// of its UTF-8 bytes as 8 little-endian bytes, then those bytes.

/// The byte that stands for a suffrage.
pub open spec fn suffrage_tag(s: ServerSuffrage) -> u8 {
    match s {
        ServerSuffrage::Voter => 0,
        ServerSuffrage::Nonvoter => 1,
        ServerSuffrage::Staging => 2,
    }
}

/// The suffrage that a byte stands for, if any.
pub open spec fn suffrage_from_tag(t: u8) -> Option<ServerSuffrage> {
    if t == 0 {
        Some(ServerSuffrage::Voter)
    } else if t == 1 {
        Some(ServerSuffrage::Nonvoter)
    } else if t == 2 {
        Some(ServerSuffrage::Staging)
    } else {
        None
    }
}

/// The 8 little-endian bytes of a number.
pub open spec fn le_bytes(n: u64) -> Seq<u8> {
    seq![
        (n & 0xff) as u8,
        ((n >> 8u64) & 0xff) as u8,
        ((n >> 16u64) & 0xff) as u8,
        ((n >> 24u64) & 0xff) as u8,
        ((n >> 32u64) & 0xff) as u8,
        ((n >> 40u64) & 0xff) as u8,
        ((n >> 48u64) & 0xff) as u8,
        ((n >> 56u64) & 0xff) as u8,
    ]
}

/// The number whose little-endian bytes start `b`.
pub open spec fn le_value(b: Seq<u8>) -> u64 {
    (b[0] as u64) | ((b[1] as u64) << 8u64) | ((b[2] as u64) << 16u64) | ((b[3] as u64) << 24u64)
        | ((b[4] as u64) << 32u64) | ((b[5] as u64) << 40u64) | ((b[6] as u64) << 48u64) | ((
    b[7] as u64) << 56u64)
}

/// A text as its byte length followed by its UTF-8 bytes.
pub open spec fn encode_text(chars: Seq<char>) -> Seq<u8> {
    le_bytes(encode_utf8(chars).len() as u64) + encode_utf8(chars)
}

/// The bytes of one server.
pub open spec fn encode_server(s: ServerView) -> Seq<u8> {
    seq![suffrage_tag(s.suffrage)] + encode_text(s.id) + encode_text(s.addr)
}

/// The bytes of a sequence of servers.
pub open spec fn encode_servers(s: Seq<ServerView>) -> Seq<u8>
    decreases s.len(),
{
    if s.len() == 0 {
        Seq::empty()
    } else {
        encode_server(s[0]) + encode_servers(s.drop_first())
    }
}

/// Reads a text at `pos`: its characters and the position after it.
pub open spec fn parse_text(b: Seq<u8>, pos: int) -> Option<(Seq<char>, int)> {
    if pos < 0 || pos + 8 > b.len() {
        None
    } else {
        let end = pos + 8 + le_value(b.subrange(pos, pos + 8)) as int;
        if end > b.len() {
            None
        } else if valid_utf8(b.subrange(pos + 8, end)) {
            Some((decode_utf8(b.subrange(pos + 8, end)), end))
        } else {
            None
        }
    }
}

/// Reads servers from `pos` to the end of `b`.
pub open spec fn parse_servers(b: Seq<u8>, pos: int) -> Option<Seq<ServerView>>
    decreases b.len() - pos,
{
    if pos < 0 || pos >= b.len() {
        Some(Seq::empty())
    } else {
        match suffrage_from_tag(b[pos]) {
            None => None,
            Some(suffrage) => match parse_text(b, pos + 1) {
                None => None,
                Some((id, p1)) => match parse_text(b, p1) {
                    None => None,
                    Some((addr, p2)) => match parse_servers(b, p2) {
                        None => None,
                        Some(rest) => Some(
                            seq![ServerView { suffrage: suffrage, id: id, addr: addr }] + rest,
                        ),
                    },
                },
            },
        }
    }
}

/// The servers a byte string decodes to.
pub open spec fn decode_servers(b: Seq<u8>) -> Option<Seq<ServerView>> {
    parse_servers(b, 0)
}

/// `rest` with `acc` in front, where `rest` was read.
pub open spec fn prefixed(acc: Seq<ServerView>, rest: Option<Seq<ServerView>>) -> Option<
    Seq<ServerView>,
> {
    match rest {
        Some(r) => Some(acc + r),
        None => None,
    }
}

/// Whether every text of the servers has a byte length that 8 bytes can hold.
pub open spec fn encodable(s: Seq<ServerView>) -> bool {
    forall|i: int|
        0 <= i < s.len() ==> encode_utf8(#[trigger] s[i].id).len() <= u64::MAX && encode_utf8(
            s[i].addr,
        ).len() <= u64::MAX
}

proof fn lemma_le_round_trip(n: u64)
    ensures
        le_value(le_bytes(n)) == n,
{
    let b = le_bytes(n);
    let (b0, b1, b2, b3, b4, b5, b6, b7) = (b[0], b[1], b[2], b[3], b[4], b[5], b[6], b[7]);
    assert((b0 as u64) | ((b1 as u64) << 8u64) | ((b2 as u64) << 16u64) | ((b3 as u64) << 24u64)
        | ((b4 as u64) << 32u64) | ((b5 as u64) << 40u64) | ((b6 as u64) << 48u64) | ((b7 as u64)
        << 56u64) == n) by (bit_vector)
        requires
            b0 == (n & 0xff) as u8,
            b1 == ((n >> 8u64) & 0xff) as u8,
            b2 == ((n >> 16u64) & 0xff) as u8,
            b3 == ((n >> 24u64) & 0xff) as u8,
            b4 == ((n >> 32u64) & 0xff) as u8,
            b5 == ((n >> 40u64) & 0xff) as u8,
            b6 == ((n >> 48u64) & 0xff) as u8,
            b7 == ((n >> 56u64) & 0xff) as u8,
    ;
}

proof fn lemma_parse_text(b: Seq<u8>, pos: int, chars: Seq<char>)
    requires
        0 <= pos,
        pos + encode_text(chars).len() <= b.len(),
        b.subrange(pos, pos + encode_text(chars).len()) == encode_text(chars),
        encode_utf8(chars).len() <= u64::MAX,
    ensures
        parse_text(b, pos) == Some((chars, pos + encode_text(chars).len())),
{
    let u = encode_utf8(chars);
    let t = encode_text(chars);
    let n = u.len() as u64;
    assert(b.subrange(pos, pos + 8) =~= le_bytes(n)) by {
        assert forall|k: int| 0 <= k < 8 implies b.subrange(pos, pos + 8)[k] == le_bytes(n)[k] by {
            assert(b.subrange(pos, pos + t.len())[k] == t[k]);
        }
    }
    lemma_le_round_trip(n);
    assert(b.subrange(pos + 8, pos + 8 + u.len()) =~= u) by {
        assert forall|k: int| 0 <= k < u.len() implies b.subrange(pos + 8, pos + 8 + u.len())[k]
            == u[k] by {
            assert(b.subrange(pos, pos + t.len())[8 + k] == t[8 + k]);
        }
    }
    encode_utf8_valid_utf8(chars);
    encode_utf8_decode_utf8(chars);
}

proof fn lemma_parse_one(b: Seq<u8>, pos: int, x: ServerView)
    requires
        0 <= pos,
        pos + encode_server(x).len() <= b.len(),
        b.subrange(pos, pos + encode_server(x).len()) == encode_server(x),
        encode_utf8(x.id).len() <= u64::MAX,
        encode_utf8(x.addr).len() <= u64::MAX,
    ensures
        parse_servers(b, pos) == prefixed(
            seq![x],
            parse_servers(b, pos + encode_server(x).len()),
        ),
{
    let e = encode_server(x);
    let ti = encode_text(x.id);
    let ta = encode_text(x.addr);
    assert(b.subrange(pos, pos + e.len())[0] == e[0]);
    assert(b[pos] == suffrage_tag(x.suffrage));
    assert(suffrage_from_tag(suffrage_tag(x.suffrage)) == Some(x.suffrage));
    assert(b.subrange(pos + 1, pos + 1 + ti.len()) =~= ti) by {
        assert forall|k: int| 0 <= k < ti.len() implies b.subrange(pos + 1, pos + 1 + ti.len())[k]
            == ti[k] by {
            assert(b.subrange(pos, pos + e.len())[1 + k] == e[1 + k]);
        }
    }
    lemma_parse_text(b, pos + 1, x.id);
    let p1 = pos + 1 + ti.len();
    assert(b.subrange(p1, p1 + ta.len()) =~= ta) by {
        assert forall|k: int| 0 <= k < ta.len() implies b.subrange(p1, p1 + ta.len())[k]
            == ta[k] by {
            assert(b.subrange(pos, pos + e.len())[1 + ti.len() + k] == e[1 + ti.len() + k]);
        }
    }
    lemma_parse_text(b, p1, x.addr);
    let p2 = p1 + ta.len();
    assert(p2 == pos + e.len());
    assert(seq![ServerView { suffrage: x.suffrage, id: x.id, addr: x.addr }] == seq![x]);
}

proof fn lemma_parse_after(p: Seq<u8>, s: Seq<ServerView>)
    requires
        encodable(s),
    ensures
        parse_servers(p + encode_servers(s), p.len() as int) == Some(s),
    decreases s.len(),
{
    let b = p + encode_servers(s);
    if s.len() == 0 {
        assert(s =~= Seq::<ServerView>::empty());
    } else {
        let x = s[0];
        let rest = s.drop_first();
        let e = encode_server(x);
        let q = p + e;
        let er = encode_servers(rest);
        assert(encode_servers(s) == e + er);
        assert(b =~= q + er);
        assert(encodable(rest)) by {
            assert forall|i: int| 0 <= i < rest.len() implies encode_utf8(#[trigger] rest[i].id).len()
                <= u64::MAX && encode_utf8(rest[i].addr).len() <= u64::MAX by {
                assert(rest[i] == s[i + 1]);
            }
        }
        lemma_parse_after(q, rest);
        let pos = p.len() as int;
        assert(b.subrange(pos, pos + e.len()) =~= e);
        assert(encode_utf8(s[0].id).len() <= u64::MAX);
        lemma_parse_one(b, pos, x);
        assert(seq![x] + rest =~= s);
    }
}

/// Decoding the bytes that encoding produced gives back the same servers, in
/// the same order, with the same suffrage.
pub proof fn lemma_encoding_round_trip(s: Seq<ServerView>)
    requires
        encodable(s),
    ensures
        decode_servers(encode_servers(s)) == Some(s),
{
    lemma_parse_after(Seq::empty(), s);
    assert(Seq::<u8>::empty() + encode_servers(s) =~= encode_servers(s));
}

proof fn lemma_encode_push(a: Seq<ServerView>, x: ServerView)
    ensures
        encode_servers(a.push(x)) == encode_servers(a) + encode_server(x),
    decreases a.len(),
{
    if a.len() == 0 {
        assert(a.push(x).drop_first() =~= Seq::<ServerView>::empty());
        assert(a.push(x)[0] == x);
        assert(encode_servers(a.push(x).drop_first()) == Seq::<u8>::empty());
        assert(encode_servers(a) == Seq::<u8>::empty());
        assert(encode_servers(a.push(x)) =~= encode_servers(a) + encode_server(x));
    } else {
        lemma_encode_push(a.drop_first(), x);
        assert(a.push(x).drop_first() =~= a.drop_first().push(x));
        assert(a.push(x)[0] == a[0]);
        assert(encode_servers(a.push(x)) == encode_server(a[0]) + encode_servers(
            a.drop_first().push(x),
        ));
        assert(encode_servers(a) == encode_server(a[0]) + encode_servers(a.drop_first()));
        assert(encode_servers(a.push(x)) =~= encode_servers(a) + encode_server(x));
    }
}

/// Relies on std::str::from_utf8: it accepts exactly the byte strings that are
/// valid UTF-8, and the text it returns holds the characters they encode.
#[verifier::external_body]
fn string_from_utf8(b: &[u8]) -> (r: Option<String>)
    ensures
        r is Some <==> valid_utf8(b@),
        r matches Some(s) ==> s@ == decode_utf8(b@),
{
    match std::str::from_utf8(b) {
        Ok(s) => Some(s.to_string()),
        Err(_) => None,
    }
}

fn push_u64_le(out: &mut Vec<u8>, n: u64)
    ensures
        final(out)@ == old(out)@ + le_bytes(n),
{
    out.push((n & 0xff) as u8);
    out.push(((n >> 8u64) & 0xff) as u8);
    out.push(((n >> 16u64) & 0xff) as u8);
    out.push(((n >> 24u64) & 0xff) as u8);
    out.push(((n >> 32u64) & 0xff) as u8);
    out.push(((n >> 40u64) & 0xff) as u8);
    out.push(((n >> 48u64) & 0xff) as u8);
    out.push(((n >> 56u64) & 0xff) as u8);
    assert(final(out)@ =~= old(out)@ + le_bytes(n));
}

fn push_text(out: &mut Vec<u8>, s: &String)
    ensures
        final(out)@ == old(out)@ + encode_text(s@),
{
    let b = s.as_str().as_bytes();
    assert(b@ == encode_utf8(s@));
    push_u64_le(out, b.len() as u64);
    let ghost start = out@;
    let n = b.len();
    let mut i: usize = 0;
    while i < n
        invariant
            n == b@.len(),
            0 <= i <= n,
            out@ == start + b@.subrange(0, i as int),
        decreases n - i,
    {
        out.push(b[i]);
        i += 1;
        assert(out@ =~= start + b@.subrange(0, i as int));
    }
    assert(b@.subrange(0, n as int) =~= b@);
}

fn read_u64_le(b: &[u8], pos: usize) -> (r: u64)
    requires
        pos + 8 <= b@.len(),
    ensures
        r == le_value(b@.subrange(pos as int, pos + 8)),
{
    let ghost w = b@.subrange(pos as int, pos + 8);
    assert(w[0] == b@[pos as int] && w[1] == b@[pos + 1] && w[2] == b@[pos + 2] && w[3] == b@[pos
        + 3] && w[4] == b@[pos + 4] && w[5] == b@[pos + 5] && w[6] == b@[pos + 6] && w[7] == b@[pos
        + 7]);
    (b[pos] as u64) | ((b[pos + 1] as u64) << 8u64) | ((b[pos + 2] as u64) << 16u64) | ((b[pos
        + 3] as u64) << 24u64) | ((b[pos + 4] as u64) << 32u64) | ((b[pos + 5] as u64) << 40u64)
        | ((b[pos + 6] as u64) << 48u64) | ((b[pos + 7] as u64) << 56u64)
}

fn read_text(b: &[u8], pos: usize) -> (r: Option<(String, usize)>)
    ensures
        match r {
            Some((s, end)) => parse_text(b@, pos as int) == Some((s@, end as int)),
            None => parse_text(b@, pos as int) is None,
        },
{
    if pos > b.len() || b.len() - pos < 8 {
        return None;
    }
    let n = read_u64_le(b, pos);
    let start = pos + 8;
    if n > (b.len() - start) as u64 {
        return None;
    }
    let end = start + n as usize;
    let mut bytes: Vec<u8> = Vec::new();
    let mut i: usize = start;
    while i < end
        invariant
            start <= i <= end <= b@.len(),
            bytes@ == b@.subrange(start as int, i as int),
        decreases end - i,
    {
        bytes.push(b[i]);
        i += 1;
        assert(bytes@ =~= b@.subrange(start as int, i as int));
    }
    match string_from_utf8(bytes.as_slice()) {
        Some(s) => Some((s, end)),
        None => None,
    }
}

impl Configuration {
    /// The bytes of this configuration, for snapshots and persistence.
    pub fn encode_configuration(&self) -> (r: Vec<u8>)
        ensures
            r@ == encode_servers(self@),
    {
        let ghost s = self@;
        let mut out: Vec<u8> = Vec::new();
        let n = self.servers.len();
        let mut i: usize = 0;
        assert(s.subrange(0, 0) =~= Seq::<ServerView>::empty());
        while i < n
            invariant
                n == self.servers.len(),
                s == self@,
                0 <= i <= n,
                out@ == encode_servers(s.subrange(0, i as int)),
            decreases n - i,
        {
            let server = &self.servers[i];
            let tag: u8 = match server.suffrage {
                ServerSuffrage::Voter => 0,
                ServerSuffrage::Nonvoter => 1,
                ServerSuffrage::Staging => 2,
            };
            let ghost before = out@;
            out.push(tag);
            push_text(&mut out, &server.id);
            push_text(&mut out, &server.addr);
            proof {
                assert(out@ =~= before + encode_server(s[i as int]));
                lemma_encode_push(s.subrange(0, i as int), s[i as int]);
                assert(s.subrange(0, i + 1) =~= s.subrange(0, i as int).push(s[i as int]));
            }
            i += 1;
        }
        assert(s.subrange(0, n as int) =~= s);
        out
    }

    /// The configuration these bytes encode, or `None` where they are not
    /// such an encoding.
    pub fn decode_configuration(bytes: &[u8]) -> (r: Option<Configuration>)
        ensures
            match r {
                Some(c) => decode_servers(bytes@) == Some(c@),
                None => decode_servers(bytes@) is None,
            },
    {
        let ghost b = bytes@;
        let mut servers: Vec<Server> = Vec::new();
        let mut pos: usize = 0;
        assert(Seq::<ServerView>::empty() + parse_servers(b, 0)->0 =~= parse_servers(b, 0)->0)
            by {
            if parse_servers(b, 0) is Some {
            }
        };
        while pos < bytes.len()
            invariant
                b == bytes@,
                pos <= b.len(),
                prefixed(servers_view(servers@), parse_servers(b, pos as int)) == parse_servers(
                    b,
                    0,
                ),
            decreases b.len() - pos,
        {
            let tag = bytes[pos];
            let suffrage = if tag == 0 {
                ServerSuffrage::Voter
            } else if tag == 1 {
                ServerSuffrage::Nonvoter
            } else if tag == 2 {
                ServerSuffrage::Staging
            } else {
                return None;
            };
            let (id, p1) = match read_text(bytes, pos + 1) {
                Some(x) => x,
                None => {
                    return None;
                },
            };
            let (addr, p2) = match read_text(bytes, p1) {
                Some(x) => x,
                None => {
                    return None;
                },
            };
            let ghost acc = servers_view(servers@);
            let ghost sv = ServerView { suffrage: suffrage, id: id@, addr: addr@ };
            servers.push(Server { suffrage, id, addr });
            proof {
                assert(servers_view(servers@) =~= acc.push(sv));
                if let Some(r) = parse_servers(b, p2 as int) {
                    assert(acc + (seq![sv] + r) =~= acc.push(sv) + r);
                }
            }
            pos = p2;
        }
        let c = Configuration { servers };
        assert(c@ + Seq::<ServerView>::empty() =~= c@);
        Some(c)
    }
}

} // verus!
