//! Requests and their framing on a byte stream.
//!
//! Every request, once encoded, is followed by four zero bytes, so that
//! requests sent back to back can be told apart.

use vstd::prelude::*;
use crate::aux::Direction;

verus! {

/// The kinds of requests a client sends.
#[derive(Debug, Clone, Copy, PartialEq, Eq, Structural)]
pub enum RequestKind {
    /// Join the game; must come first.
    Connect,
    /// Leave the game; must come last.
    Disconnect,
    /// Ask for the grid.
    GetGrid,
    /// Turn the client's snake.
    ChangeDirection(Direction),
}

/// A request: who sends it and what it asks.
#[derive(Debug)]
pub struct Request {
    /// The client's name, as the client knows it.
    pub client: String,
    /// What the client asks.
    pub kind: RequestKind,
}

impl Request {
    /// Return a new request.
    pub fn new(client: String, kind: RequestKind) -> (r: Self)
        ensures
            r.client@ == client@,
            r.kind == kind,
    {
        Self { client, kind }
    }

    /// Return the client's name.
    pub fn client(&self) -> (r: String)
        ensures
            r@ == self.client@,
    {
        self.client.clone()
    }
}

impl Clone for Request {
    fn clone(&self) -> (r: Self)
        ensures
            r.client@ == self.client@,
            r.kind == self.kind,
    {
        Request { client: self.client.clone(), kind: self.kind }
    }
}

/// The number of zero bytes that end a request.
pub const SENTINEL_LEN: usize = 4;

/// Whether four zero bytes start at `i`.
pub open spec fn sentinel_at(b: Seq<u8>, i: int) -> bool {
    &&& 0 <= i
    &&& i + 4 <= b.len()
    &&& b[i] == 0
    &&& b[i + 1] == 0
    &&& b[i + 2] == 0
    &&& b[i + 3] == 0
}

/// The sentinel.
pub open spec fn sentinel() -> Seq<u8> {
    seq![0u8, 0u8, 0u8, 0u8]
}

/// `s` without its leading zero bytes.
pub open spec fn trim_front(s: Seq<u8>) -> Seq<u8>
    decreases s.len(),
{
    if s.len() > 0 && s[0] == 0 {
        trim_front(s.drop_first())
    } else {
        s
    }
}

/// `s` without its trailing zero bytes.
pub open spec fn trim_back(s: Seq<u8>) -> Seq<u8>
    decreases s.len(),
{
    if s.len() > 0 && s.last() == 0 {
        trim_back(s.drop_last())
    } else {
        s
    }
}

/// `s` without its leading and trailing zero bytes.
pub open spec fn trim_zeros(s: Seq<u8>) -> Seq<u8> {
    trim_back(trim_front(s))
}

/// The fragment `cur` once trimmed, unless nothing is left of it.
pub open spec fn emit(cur: Seq<u8>) -> Seq<Seq<u8>> {
    if trim_zeros(cur).len() > 0 {
        seq![trim_zeros(cur)]
    } else {
        Seq::empty()
    }
}

/// The fragments of `b`, where `cur` is what was read of the current fragment
/// before `b`: the bytes are split at each sentinel, from left to right, each
/// piece is trimmed of zero bytes and empty pieces are dropped.
pub open spec fn frames_from(b: Seq<u8>, cur: Seq<u8>) -> Seq<Seq<u8>>
    decreases b.len(),
{
    if b.len() == 0 {
        emit(cur)
    } else if sentinel_at(b, 0) {
        emit(cur) + frames_from(b.skip(4), Seq::empty())
    } else {
        frames_from(b.skip(1), cur.push(b[0]))
    }
}

/// The fragments of a buffer.
pub open spec fn frames(b: Seq<u8>) -> Seq<Seq<u8>> {
    frames_from(b, Seq::empty())
}

/// The payloads, each followed by the sentinel, back to back.
pub open spec fn framed(ps: Seq<Seq<u8>>) -> Seq<u8>
    decreases ps.len(),
{
    if ps.len() == 0 {
        Seq::empty()
    } else {
        ps[0] + sentinel() + framed(ps.drop_first())
    }
}

/// The contents of byte vectors.
pub open spec fn byte_views(v: Seq<Vec<u8>>) -> Seq<Seq<u8>> {
    v.map_values(|x: Vec<u8>| x@)
}

/// Whether a payload can be framed: it is not empty and holds no zero byte.
pub open spec fn frameable(p: Seq<u8>) -> bool {
    p.len() > 0 && forall|k: int| 0 <= k < p.len() ==> #[trigger] p[k] != 0
}

proof fn lemma_trim_front_at(s: Seq<u8>, a: int)
    requires
        0 <= a <= s.len(),
        forall|k: int| 0 <= k < a ==> s[k] == 0,
        a == s.len() || s[a] != 0,
    ensures
        trim_front(s) == s.skip(a),
    decreases a,
{
    if a > 0 {
        lemma_trim_front_at(s.drop_first(), a - 1);
        assert(s.drop_first().skip(a - 1) =~= s.skip(a));
    } else {
        assert(s.skip(0) =~= s);
    }
}

proof fn lemma_trim_back_at(s: Seq<u8>, e: int)
    requires
        0 <= e <= s.len(),
        forall|k: int| e <= k < s.len() ==> s[k] == 0,
        e == 0 || s[e - 1] != 0,
    ensures
        trim_back(s) == s.take(e),
    decreases s.len() - e,
{
    if e < s.len() {
        lemma_trim_back_at(s.drop_last(), e);
        assert(s.drop_last().take(e) =~= s.take(e));
    } else {
        assert(s.take(e) =~= s);
    }
}

/// Return the bytes of `v` without its leading and trailing zero bytes.
fn trim_zero_bytes(v: &Vec<u8>) -> (r: Vec<u8>)
    ensures
        r@ == trim_zeros(v@),
{
    let n = v.len();
    let mut a: usize = 0;
    while a < n && v[a] == 0
        invariant
            n == v@.len(),
            a <= n,
            forall|k: int| 0 <= k < a ==> v@[k] == 0,
        decreases n - a,
    {
        a += 1;
    }
    let mut e: usize = n;
    while e > a && v[e - 1] == 0
        invariant
            n == v@.len(),
            a <= e <= n,
            forall|k: int| e <= k < n ==> v@[k] == 0,
        decreases e,
    {
        e -= 1;
    }
    let mut r: Vec<u8> = Vec::new();
    let mut k: usize = a;
    while k < e
        invariant
            a <= k <= e,
            e <= n,
            n == v@.len(),
            r@ =~= v@.subrange(a as int, k as int),
        decreases e - k,
    {
        r.push(v[k]);
        k += 1;
    }
    proof {
        lemma_trim_front_at(v@, a as int);
        let t = v@.skip(a as int);
        if a < n {
            assert(v@[a as int] != 0);
            assert(e > a);
        }
        assert forall|k: int| e - a <= k < t.len() implies t[k] == 0 by {
            assert(t[k] == v@[k + a]);
        }
        if e > a {
            assert(t[e - a - 1] == v@[e - 1]);
        }
        lemma_trim_back_at(t, e - a);
        assert(t.take(e - a) =~= v@.subrange(a as int, e as int));
    }
    r
}

/// Split a buffer read from the stream into the encoded requests it holds:
/// split at each sentinel, trim zero bytes off each piece, drop empty pieces.
pub fn split_frames(buf: &[u8]) -> (r: Vec<Vec<u8>>)
    ensures
        byte_views(r@) == frames(buf@),
{
    let n = buf.len();
    let mut out: Vec<Vec<u8>> = Vec::new();
    let mut cur: Vec<u8> = Vec::new();
    let mut i: usize = 0;
    proof {
        assert(buf@.skip(0) =~= buf@);
        assert(byte_views(out@) =~= Seq::<Seq<u8>>::empty());
    }
    while i < n
        invariant
            n == buf@.len(),
            i <= n,
            frames(buf@) == byte_views(out@) + frames_from(buf@.skip(i as int), cur@),
        decreases n - i,
    {
        let ghost rest = buf@.skip(i as int);
        if n - i >= 4 && buf[i] == 0 && buf[i + 1] == 0 && buf[i + 2] == 0 && buf[i + 3] == 0 {
            proof {
                assert(sentinel_at(rest, 0));
                assert(rest.skip(4) =~= buf@.skip(i + 4));
            }
            let t = trim_zero_bytes(&cur);
            let ghost before = byte_views(out@);
            if t.len() > 0 {
                out.push(t);
                proof {
                    assert(byte_views(out@) =~= before + emit(cur@));
                }
            } else {
                proof {
                    assert(emit(cur@) =~= Seq::<Seq<u8>>::empty());
                    assert(before + emit(cur@) =~= before);
                }
            }
            proof {
                assert(frames(buf@) =~= byte_views(out@) + frames_from(buf@.skip(i + 4), Seq::empty()));
            }
            cur = Vec::new();
            i += 4;
        } else {
            proof {
                assert(!sentinel_at(rest, 0));
                assert(rest.skip(1) =~= buf@.skip(i + 1));
            }
            cur.push(buf[i]);
            i += 1;
        }
    }
    let t = trim_zero_bytes(&cur);
    let ghost before = byte_views(out@);
    proof {
        assert(buf@.skip(n as int) =~= Seq::<u8>::empty());
    }
    if t.len() > 0 {
        out.push(t);
        proof {
            assert(byte_views(out@) =~= before + emit(cur@));
        }
    } else {
        proof {
            assert(before + emit(cur@) =~= before);
        }
    }
    out
}

/// Return the payloads, each followed by the sentinel, back to back.
pub fn encode_frames(payloads: &Vec<Vec<u8>>) -> (r: Vec<u8>)
    ensures
        r@ == framed(byte_views(payloads@)),
{
    let ghost ps = byte_views(payloads@);
    let mut out: Vec<u8> = Vec::new();
    let mut k: usize = 0;
    proof {
        assert(ps.skip(0) =~= ps);
    }
    while k < payloads.len()
        invariant
            ps == byte_views(payloads@),
            k <= payloads@.len(),
            framed(ps) == out@ + framed(ps.skip(k as int)),
        decreases payloads@.len() - k,
    {
        let p = &payloads[k];
        proof {
            assert(ps.skip(k as int).drop_first() =~= ps.skip(k + 1));
            assert(ps.skip(k as int)[0] == p@);
        }
        let mut m: usize = 0;
        let ghost start = out@;
        while m < p.len()
            invariant
                m <= p@.len(),
                out@ =~= start + p@.take(m as int),
            decreases p@.len() - m,
        {
            out.push(p[m]);
            m += 1;
        }
        let mut z: usize = 0;
        while z < SENTINEL_LEN
            invariant
                z <= 4,
                out@ =~= start + p@ + sentinel().take(z as int),
            decreases 4 - z,
        {
            out.push(0);
            z += 1;
        }
        proof {
            assert(p@.take(m as int) =~= p@);
            assert(sentinel().take(4) =~= sentinel());
            assert(framed(ps) =~= out@ + framed(ps.skip(k + 1)));
        }
        k += 1;
    }
    proof {
        assert(ps.skip(k as int) =~= Seq::<Seq<u8>>::empty());
        assert(out@ + Seq::<u8>::empty() =~= out@);
    }
    out
}

/// Reading a payload with no zero byte adds it to the current fragment.
proof fn lemma_frames_through(p: Seq<u8>, rest: Seq<u8>, cur: Seq<u8>)
    requires
        forall|k: int| 0 <= k < p.len() ==> #[trigger] p[k] != 0,
    ensures
        frames_from(p + rest, cur) == frames_from(rest, cur + p),
    decreases p.len(),
{
    if p.len() == 0 {
        assert(p + rest =~= rest);
        assert(cur + p =~= cur);
    } else {
        let b = p + rest;
        assert(b[0] == p[0]);
        assert(!sentinel_at(b, 0));
        assert(b.skip(1) =~= p.skip(1) + rest);
        lemma_frames_through(p.skip(1), rest, cur.push(p[0]));
        assert(cur.push(p[0]) + p.skip(1) =~= cur + p);
    }
}

/// Encoding payloads back to back, each followed by the sentinel, then
/// splitting the bytes gives back exactly the payloads, in order, provided
/// each is non-empty and holds no zero byte (as an encoded request does not).
pub proof fn lemma_framing_round_trip(ps: Seq<Seq<u8>>)
    requires
        forall|k: int| 0 <= k < ps.len() ==> frameable(#[trigger] ps[k]),
    ensures
        frames(framed(ps)) == ps,
    decreases ps.len(),
{
    if ps.len() == 0 {
        assert(trim_zeros(Seq::<u8>::empty()) =~= Seq::<u8>::empty());
        assert(frames(framed(ps)) =~= ps);
    } else {
        let p = ps[0];
        let tail = ps.drop_first();
        assert forall|k: int| 0 <= k < tail.len() implies frameable(#[trigger] tail[k]) by {
            assert(tail[k] == ps[k + 1]);
        }
        lemma_framing_round_trip(tail);
        assert(frameable(p));
        let after = sentinel() + framed(tail);
        assert(framed(ps) =~= p + after);
        lemma_frames_through(p, after, Seq::empty());
        assert(Seq::<u8>::empty() + p =~= p);
        assert(sentinel_at(after, 0));
        assert(after.skip(4) =~= framed(tail));
        lemma_trim_front_at(p, 0);
        assert(p.skip(0) =~= p);
        lemma_trim_back_at(p, p.len() as int);
        assert(p.take(p.len() as int) =~= p);
        assert(emit(p) =~= seq![p]);
        assert(seq![p] + tail =~= ps);
    }
}

} // verus!
