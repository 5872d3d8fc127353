//! Byte layouts on the wire: little-endian integers, the fixed-size header,
//! and consensus messages.

use vstd::prelude::*;
use crate::ordering::SeqNo;
use crate::message::{
    Digest, Signature, Header, ConsensusMessage, ConsensusMessageKind, RequestMessage, StoredRequestMessage,
};

verus! {

/// `256^n`.
pub open spec fn pow256(n: nat) -> nat
    decreases n,
{
    if n == 0 {
        1
    } else {
        256 * pow256((n - 1) as nat)
    }
}

/// The `n` little-endian bytes of `v`.
pub open spec fn le_bytes(v: nat, n: nat) -> Seq<u8>
    decreases n,
{
    if n == 0 {
        Seq::empty()
    } else {
        seq![(v % 256) as u8] + le_bytes(v / 256, (n - 1) as nat)
    }
}

/// The number that little-endian bytes `s` spell.
pub open spec fn from_le(s: Seq<u8>) -> nat
    decreases s.len(),
{
    if s.len() == 0 {
        0
    } else {
        s[0] as nat + 256 * from_le(s.drop_first())
    }
}

pub proof fn lemma_le_bytes_len(v: nat, n: nat)
    ensures
        le_bytes(v, n).len() == n,
    decreases n,
{
    if n > 0 {
        lemma_le_bytes_len(v / 256, (n - 1) as nat);
    }
}

pub proof fn lemma_pow256_positive(n: nat)
    ensures
        pow256(n) >= 1,
    decreases n,
{
    if n > 0 {
        lemma_pow256_positive((n - 1) as nat);
    }
}

/// Reading back `n` little-endian bytes gives the number, if it fits.
pub proof fn lemma_from_le_bytes(v: nat, n: nat)
    requires
        v < pow256(n),
    ensures
        from_le(le_bytes(v, n)) == v,
    decreases n,
{
    if n > 0 {
        let s = le_bytes(v, n);
        lemma_le_bytes_len(v / 256, (n - 1) as nat);
        assert(s.drop_first() =~= le_bytes(v / 256, (n - 1) as nat));
        assert(v / 256 < pow256((n - 1) as nat)) by (nonlinear_arith)
            requires
                v < 256 * pow256((n - 1) as nat),
        {
        }
        lemma_from_le_bytes(v / 256, (n - 1) as nat);
        assert(v == v % 256 + 256 * (v / 256)) by (nonlinear_arith);
    }
}

/// What `n` bytes spell is below `256^n`.
pub proof fn lemma_from_le_bound(s: Seq<u8>)
    ensures
        from_le(s) < pow256(s.len()),
    decreases s.len(),
{
    if s.len() > 0 {
        lemma_from_le_bound(s.drop_first());
        let a = s[0] as nat;
        let b = from_le(s.drop_first());
        let p = pow256(s.drop_first().len());
        assert(a + 256 * b < 256 * p) by (nonlinear_arith)
            requires
                a < 256,
                b < p,
        {
        }
    }
}

pub proof fn lemma_pow256_values()
    ensures
        pow256(1) == 0x100,
        pow256(4) == 0x1_0000_0000,
        pow256(8) == 0x1_0000_0000_0000_0000,
{
    reveal_with_fuel(pow256, 9);
}

/// Appends the `n` little-endian bytes of `v`.
pub fn put_uint(out: &mut Vec<u8>, v: u64, n: usize)
    requires
        n <= 8,
        (v as nat) < pow256(n as nat),
    ensures
        final(out)@ == old(out)@ + le_bytes(v as nat, n as nat),
{
    let mut x: u64 = v;
    let mut k: usize = 0;
    while k < n
        invariant
            k <= n,
            out@ + le_bytes(x as nat, (n - k) as nat) == old(out)@ + le_bytes(v as nat, n as nat),
        decreases n - k,
    {
        let ghost before = out@;
        out.push((x % 256) as u8);
        proof {
            let m = (n - k) as nat;
            assert(le_bytes(x as nat, m) == seq![((x as nat) % 256) as u8] + le_bytes((x as nat) / 256, (m - 1) as nat));
            assert(out@ + le_bytes((x / 256) as nat, (m - 1) as nat) =~= before + le_bytes(x as nat, m));
        }
        x = x / 256;
        k += 1;
    }
    proof {
        assert(le_bytes(x as nat, 0) =~= Seq::<u8>::empty());
        assert(out@ =~= out@ + le_bytes(x as nat, 0));
    }
}

/// The number spelled by `n` little-endian bytes of `b` from `start` on.
pub fn get_uint(b: &[u8], start: usize, n: usize) -> (r: u64)
    requires
        n <= 8,
        start + n <= b@.len(),
    ensures
        r as nat == from_le(b@.subrange(start as int, start + n)),
{
    let len = b.len();
    let mut acc: u64 = 0;
    let mut k: usize = n;
    proof {
        assert(b@.subrange(start + n, start + n) =~= Seq::<u8>::empty());
    }
    while k > 0
        invariant
            k <= n,
            n <= 8,
            start + n <= b@.len(),
            len == b@.len(),
            acc as nat == from_le(b@.subrange(start + k, start + n)),
        decreases k,
    {
        let ghost tail = b@.subrange(start + k, start + n);
        let ghost s = b@.subrange(start + k - 1, start + n);
        proof {
            assert(s.drop_first() =~= tail);
            lemma_from_le_bound(tail);
            lemma_pow256_values();
            lemma_pow_mono((n - k) as nat, 7);
            assert(tail.len() == n - k);
            assert((acc as nat) * 256 + 255 < 0x1_0000_0000_0000_0000) by (nonlinear_arith)
                requires
                    (acc as nat) < pow256((n - k) as nat),
                    pow256((n - k) as nat) <= pow256(7),
                    pow256(8) == 256 * pow256(7),
                    pow256(8) == 0x1_0000_0000_0000_0000,
            {
            }
        }
        acc = acc * 256 + b[start + k - 1] as u64;
        k -= 1;
    }
    acc
}

pub proof fn lemma_pow_mono(a: nat, b: nat)
    requires
        a <= b,
    ensures
        pow256(a) <= pow256(b),
    decreases b,
{
    if a < b {
        lemma_pow_mono(a, (b - 1) as nat);
        lemma_pow256_positive((b - 1) as nat);
    }
}

/// The size of an encoded header in bytes.
pub const HEADER_LENGTH: usize = 116;

/// Why bytes could not be read back.
#[derive(Clone, Copy, PartialEq, Eq, Structural, Debug)]
pub enum WireError {
    /// A header of the wrong length.
    MalformedHeader,
    /// A message that does not follow the layout.
    MalformedMessage,
}

/// The 32 bytes of a digest: its four words, little-endian.
pub open spec fn digest_bytes(d: Digest) -> Seq<u8> {
    le_bytes(d.w0 as nat, 8) + le_bytes(d.w1 as nat, 8) + le_bytes(d.w2 as nat, 8) + le_bytes(d.w3 as nat, 8)
}

/// The digest that 32 bytes spell.
pub open spec fn digest_of_bytes(b: Seq<u8>) -> Digest {
    Digest {
        w0: from_le(b.subrange(0, 8)) as u64,
        w1: from_le(b.subrange(8, 16)) as u64,
        w2: from_le(b.subrange(16, 24)) as u64,
        w3: from_le(b.subrange(24, 32)) as u64,
    }
}

/// The layout of a header: `from`, `to` (4 bytes each), `nonce` (8), the
/// payload digest (32), the signature (64) and the payload length (4).
pub open spec fn header_bytes(h: Header) -> Seq<u8> {
    le_bytes(h.from as nat, 4) + le_bytes(h.to as nat, 4) + le_bytes(h.nonce as nat, 8)
        + digest_bytes(h.digest) + digest_bytes(h.signature.lo) + digest_bytes(h.signature.hi)
        + le_bytes(h.length as nat, 4)
}

/// The header that `HEADER_LENGTH` bytes spell.
pub open spec fn header_of_bytes(b: Seq<u8>) -> Header {
    Header {
        from: from_le(b.subrange(0, 4)) as u32,
        to: from_le(b.subrange(4, 8)) as u32,
        nonce: from_le(b.subrange(8, 16)) as u64,
        digest: digest_of_bytes(b.subrange(16, 48)),
        signature: Signature { lo: digest_of_bytes(b.subrange(48, 80)), hi: digest_of_bytes(b.subrange(80, 112)) },
        length: from_le(b.subrange(112, 116)) as u32,
    }
}

proof fn lemma_digest_round_trip(d: Digest)
    ensures
        digest_bytes(d).len() == 32,
        digest_of_bytes(digest_bytes(d)) == d,
{
    lemma_pow256_values();
    let b = digest_bytes(d);
    lemma_le_bytes_len(d.w0 as nat, 8);
    lemma_le_bytes_len(d.w1 as nat, 8);
    lemma_le_bytes_len(d.w2 as nat, 8);
    lemma_le_bytes_len(d.w3 as nat, 8);
    assert(b.subrange(0, 8) =~= le_bytes(d.w0 as nat, 8));
    assert(b.subrange(8, 16) =~= le_bytes(d.w1 as nat, 8));
    assert(b.subrange(16, 24) =~= le_bytes(d.w2 as nat, 8));
    assert(b.subrange(24, 32) =~= le_bytes(d.w3 as nat, 8));
    lemma_from_le_bytes(d.w0 as nat, 8);
    lemma_from_le_bytes(d.w1 as nat, 8);
    lemma_from_le_bytes(d.w2 as nat, 8);
    lemma_from_le_bytes(d.w3 as nat, 8);
}

/// A header written out and read back is the same header, and takes
/// exactly `HEADER_LENGTH` bytes.
pub proof fn lemma_header_round_trip(h: Header)
    ensures
        header_bytes(h).len() == HEADER_LENGTH,
        header_of_bytes(header_bytes(h)) == h,
{
    lemma_pow256_values();
    let b = header_bytes(h);
    lemma_le_bytes_len(h.from as nat, 4);
    lemma_le_bytes_len(h.to as nat, 4);
    lemma_le_bytes_len(h.nonce as nat, 8);
    lemma_le_bytes_len(h.length as nat, 4);
    lemma_digest_round_trip(h.digest);
    lemma_digest_round_trip(h.signature.lo);
    lemma_digest_round_trip(h.signature.hi);
    assert(b.subrange(0, 4) =~= le_bytes(h.from as nat, 4));
    assert(b.subrange(4, 8) =~= le_bytes(h.to as nat, 4));
    assert(b.subrange(8, 16) =~= le_bytes(h.nonce as nat, 8));
    assert(b.subrange(16, 48) =~= digest_bytes(h.digest));
    assert(b.subrange(48, 80) =~= digest_bytes(h.signature.lo));
    assert(b.subrange(80, 112) =~= digest_bytes(h.signature.hi));
    assert(b.subrange(112, 116) =~= le_bytes(h.length as nat, 4));
    lemma_from_le_bytes(h.from as nat, 4);
    lemma_from_le_bytes(h.to as nat, 4);
    lemma_from_le_bytes(h.nonce as nat, 8);
    lemma_from_le_bytes(h.length as nat, 4);
}

/// Appends the 32 bytes of `d`.
pub fn put_digest(out: &mut Vec<u8>, d: &Digest)
    ensures
        final(out)@ == old(out)@ + digest_bytes(*d),
{
    proof {
        lemma_pow256_values();
    }
    put_uint(out, d.w0, 8);
    put_uint(out, d.w1, 8);
    put_uint(out, d.w2, 8);
    put_uint(out, d.w3, 8);
    proof {
        assert(out@ =~= old(out)@ + digest_bytes(*d));
    }
}

/// The digest spelled by the 32 bytes of `b` from `start` on.
pub fn get_digest(b: &[u8], start: usize) -> (r: Digest)
    requires
        start + 32 <= b@.len(),
    ensures
        r == digest_of_bytes(b@.subrange(start as int, start + 32)),
{
    let _len = b.len();
    let ghost s = b@.subrange(start as int, start + 32);
    let w0 = get_uint(b, start, 8);
    let w1 = get_uint(b, start + 8, 8);
    let w2 = get_uint(b, start + 16, 8);
    let w3 = get_uint(b, start + 24, 8);
    proof {
        assert(s.subrange(0, 8) =~= b@.subrange(start as int, start + 8));
        assert(s.subrange(8, 16) =~= b@.subrange(start + 8, start + 16));
        assert(s.subrange(16, 24) =~= b@.subrange(start + 16, start + 24));
        assert(s.subrange(24, 32) =~= b@.subrange(start + 24, start + 32));
    }
    Digest { w0, w1, w2, w3 }
}

impl Header {
    /// Appends the `HEADER_LENGTH` bytes of this header.
    pub fn serialize_into(&self, out: &mut Vec<u8>)
        ensures
            final(out)@ == old(out)@ + header_bytes(*self),
    {
        proof {
            lemma_pow256_values();
        }
        put_uint(out, self.from as u64, 4);
        put_uint(out, self.to as u64, 4);
        put_uint(out, self.nonce, 8);
        put_digest(out, &self.digest);
        put_digest(out, &self.signature.lo);
        put_digest(out, &self.signature.hi);
        put_uint(out, self.length as u64, 4);
        proof {
            assert(out@ =~= old(out)@ + header_bytes(*self));
        }
    }

    /// Reads a header from exactly `HEADER_LENGTH` bytes.
    pub fn deserialize_from(b: &[u8]) -> (r: Result<Header, WireError>)
        ensures
            b@.len() == HEADER_LENGTH ==> r == Ok::<Header, WireError>(header_of_bytes(b@)),
            b@.len() != HEADER_LENGTH ==> r == Err::<Header, WireError>(WireError::MalformedHeader),
    {
        if b.len() != HEADER_LENGTH {
            return Err(WireError::MalformedHeader);
        }
        let h = read_header(b, 0);
        proof {
            assert(b@.subrange(0, 116) =~= b@);
        }
        Ok(h)
    }
}

/// The header spelled by the `HEADER_LENGTH` bytes of `b` from `start` on.
pub fn read_header(b: &[u8], start: usize) -> (r: Header)
    requires
        start + HEADER_LENGTH <= b@.len(),
    ensures
        r == header_of_bytes(b@.subrange(start as int, start + HEADER_LENGTH)),
{
    let _len = b.len();
    let ghost s = b@.subrange(start as int, start + 116);
    proof {
        lemma_pow256_values();
        lemma_from_le_bound(b@.subrange(start as int, start + 4));
        lemma_from_le_bound(b@.subrange(start + 4, start + 8));
        lemma_from_le_bound(b@.subrange(start + 112, start + 116));
    }
    let from = get_uint(b, start, 4) as u32;
    let to = get_uint(b, start + 4, 4) as u32;
    let nonce = get_uint(b, start + 8, 8);
    let digest = get_digest(b, start + 16);
    let lo = get_digest(b, start + 48);
    let hi = get_digest(b, start + 80);
    let length = get_uint(b, start + 112, 4) as u32;
    proof {
        assert(s.subrange(0, 4) =~= b@.subrange(start as int, start + 4));
        assert(s.subrange(4, 8) =~= b@.subrange(start + 4, start + 8));
        assert(s.subrange(8, 16) =~= b@.subrange(start + 8, start + 16));
        assert(s.subrange(16, 48) =~= b@.subrange(start + 16, start + 48));
        assert(s.subrange(48, 80) =~= b@.subrange(start + 48, start + 80));
        assert(s.subrange(80, 112) =~= b@.subrange(start + 80, start + 112));
        assert(s.subrange(112, 116) =~= b@.subrange(start + 112, start + 116));
    }
    Header { from, to, nonce, digest, signature: Signature { lo, hi }, length }
}

/// A client request as the wire sees it.
pub struct RequestView {
    pub header: Header,
    pub session: u32,
    pub op_id: u32,
    pub operation: Seq<u8>,
}

/// What a consensus message says, as the wire sees it.
pub enum KindView {
    PrePrepare(Seq<RequestView>),
    Prepare(Digest),
    Commit(Digest),
}

/// A consensus message as the wire sees it.
pub struct MessageView {
    pub seq: u32,
    pub view: u32,
    pub kind: KindView,
}

pub open spec fn request_view(r: StoredRequestMessage) -> RequestView {
    RequestView {
        header: r.header,
        session: r.message.session_id.value,
        op_id: r.message.operation_id.value,
        operation: r.message.operation@,
    }
}

pub open spec fn requests_view(rs: Seq<StoredRequestMessage>) -> Seq<RequestView> {
    rs.map_values(|r: StoredRequestMessage| request_view(r))
}

pub open spec fn message_view(m: ConsensusMessage) -> MessageView {
    MessageView {
        seq: m.seq.value,
        view: m.view.value,
        kind: match m.kind {
            ConsensusMessageKind::PrePrepare(rs) => KindView::PrePrepare(requests_view(rs@)),
            ConsensusMessageKind::Prepare(d) => KindView::Prepare(d),
            ConsensusMessageKind::Commit(d) => KindView::Commit(d),
        },
    }
}

/// Bytes of a request before its operation: header, session, place in the
/// session, and the operation's length.
pub const REQUEST_PREFIX: usize = 128;

/// The layout of a request: header, session and place (4 bytes each), the
/// operation's length (4) and the operation.
pub open spec fn request_bytes(r: RequestView) -> Seq<u8> {
    header_bytes(r.header) + le_bytes(r.session as nat, 4) + le_bytes(r.op_id as nat, 4)
        + le_bytes(r.operation.len(), 4) + r.operation
}

/// The requests laid out one after the other.
pub open spec fn requests_bytes(rs: Seq<RequestView>) -> Seq<u8>
    decreases rs.len(),
{
    if rs.len() == 0 {
        Seq::empty()
    } else {
        request_bytes(rs[0]) + requests_bytes(rs.drop_first())
    }
}

/// The layout of a consensus message: sequence number and view (4 bytes
/// each), a tag (0 pre-prepare, 1 prepare, 2 commit), then for a
/// pre-prepare the number of requests (4) and the requests, for a vote the
/// digest (32).
pub open spec fn message_bytes(m: MessageView) -> Seq<u8> {
    le_bytes(m.seq as nat, 4) + le_bytes(m.view as nat, 4) + match m.kind {
        KindView::PrePrepare(rs) => seq![0u8] + le_bytes(rs.len(), 4) + requests_bytes(rs),
        KindView::Prepare(d) => seq![1u8] + digest_bytes(d),
        KindView::Commit(d) => seq![2u8] + digest_bytes(d),
    }
}

/// Whether every length of `m` fits the 4 bytes the layout gives it.
pub open spec fn encodable(m: MessageView) -> bool {
    match m.kind {
        KindView::PrePrepare(rs) => rs.len() < 0x1_0000_0000
            && forall|i: int| 0 <= i < rs.len() ==> #[trigger] rs[i].operation.len() < 0x1_0000_0000,
        _ => true,
    }
}

/// Reads one request from the front of `b`: the request and the bytes it took.
pub open spec fn parse_request(b: Seq<u8>) -> Option<(RequestView, nat)> {
    if b.len() < REQUEST_PREFIX {
        None
    } else {
        let n = from_le(b.subrange(124, 128));
        if b.len() < REQUEST_PREFIX + n {
            None
        } else {
            Some((RequestView {
                header: header_of_bytes(b.subrange(0, 116)),
                session: from_le(b.subrange(116, 120)) as u32,
                op_id: from_le(b.subrange(120, 124)) as u32,
                operation: b.subrange(128, 128 + n as int),
            }, (REQUEST_PREFIX + n) as nat))
        }
    }
}

/// Reads exactly `count` requests that fill all of `b`.
pub open spec fn parse_requests(b: Seq<u8>, count: nat) -> Option<Seq<RequestView>>
    decreases count,
{
    if count == 0 {
        if b.len() == 0 { Some(Seq::empty()) } else { None }
    } else {
        match parse_request(b) {
            None => None,
            Some((r, used)) => match parse_requests(b.subrange(used as int, b.len() as int), (count - 1) as nat) {
                Some(rest) => Some(seq![r] + rest),
                None => None,
            },
        }
    }
}

/// Reads a consensus message that fills all of `b`.
pub open spec fn parse_message(b: Seq<u8>) -> Option<MessageView> {
    if b.len() < 9 {
        None
    } else {
        let seq = from_le(b.subrange(0, 4)) as u32;
        let view = from_le(b.subrange(4, 8)) as u32;
        if b[8] == 0u8 {
            if b.len() < 13 {
                None
            } else {
                match parse_requests(b.subrange(13, b.len() as int), from_le(b.subrange(9, 13))) {
                    Some(rs) => Some(MessageView { seq, view, kind: KindView::PrePrepare(rs) }),
                    None => None,
                }
            }
        } else if b[8] == 1u8 && b.len() == 41 {
            Some(MessageView { seq, view, kind: KindView::Prepare(digest_of_bytes(b.subrange(9, 41))) })
        } else if b[8] == 2u8 && b.len() == 41 {
            Some(MessageView { seq, view, kind: KindView::Commit(digest_of_bytes(b.subrange(9, 41))) })
        } else {
            None
        }
    }
}

proof fn lemma_request_round_trip(r: RequestView, rest: Seq<u8>)
    requires
        r.operation.len() < 0x1_0000_0000,
    ensures
        request_bytes(r).len() == REQUEST_PREFIX + r.operation.len(),
        parse_request(request_bytes(r) + rest) == Some((r, request_bytes(r).len())),
{
    lemma_pow256_values();
    let b = request_bytes(r) + rest;
    lemma_header_round_trip(r.header);
    lemma_le_bytes_len(r.session as nat, 4);
    lemma_le_bytes_len(r.op_id as nat, 4);
    lemma_le_bytes_len(r.operation.len(), 4);
    assert(b.subrange(0, 116) =~= header_bytes(r.header));
    assert(b.subrange(116, 120) =~= le_bytes(r.session as nat, 4));
    assert(b.subrange(120, 124) =~= le_bytes(r.op_id as nat, 4));
    assert(b.subrange(124, 128) =~= le_bytes(r.operation.len(), 4));
    lemma_from_le_bytes(r.session as nat, 4);
    lemma_from_le_bytes(r.op_id as nat, 4);
    lemma_from_le_bytes(r.operation.len(), 4);
    assert(b.subrange(128, 128 + r.operation.len() as int) =~= r.operation);
}

proof fn lemma_requests_round_trip(rs: Seq<RequestView>)
    requires
        forall|i: int| 0 <= i < rs.len() ==> #[trigger] rs[i].operation.len() < 0x1_0000_0000,
    ensures
        parse_requests(requests_bytes(rs), rs.len()) == Some(rs),
    decreases rs.len(),
{
    if rs.len() > 0 {
        let tail = rs.drop_first();
        assert forall|i: int| 0 <= i < tail.len() implies #[trigger] tail[i].operation.len() < 0x1_0000_0000 by {
            assert(tail[i] == rs[i + 1]);
        }
        lemma_requests_round_trip(tail);
        assert(rs[0].operation.len() < 0x1_0000_0000);
        lemma_request_round_trip(rs[0], requests_bytes(tail));
        let b = requests_bytes(rs);
        let used = request_bytes(rs[0]).len();
        assert(b.subrange(used as int, b.len() as int) =~= requests_bytes(tail));
        assert(seq![rs[0]] + tail =~= rs);
    }
}

/// A consensus message written out and read back says the same.
pub proof fn lemma_message_round_trip(m: MessageView)
    requires
        encodable(m),
    ensures
        parse_message(message_bytes(m)) == Some(m),
{
    lemma_pow256_values();
    let b = message_bytes(m);
    lemma_le_bytes_len(m.seq as nat, 4);
    lemma_le_bytes_len(m.view as nat, 4);
    assert(b.subrange(0, 4) =~= le_bytes(m.seq as nat, 4));
    assert(b.subrange(4, 8) =~= le_bytes(m.view as nat, 4));
    lemma_from_le_bytes(m.seq as nat, 4);
    lemma_from_le_bytes(m.view as nat, 4);
    match m.kind {
        KindView::PrePrepare(rs) => {
            lemma_le_bytes_len(rs.len(), 4);
            assert(b[8] == 0u8);
            assert(b.subrange(9, 13) =~= le_bytes(rs.len(), 4));
            lemma_from_le_bytes(rs.len(), 4);
            assert(b.subrange(13, b.len() as int) =~= requests_bytes(rs));
            lemma_requests_round_trip(rs);
        },
        KindView::Prepare(d) => {
            lemma_digest_round_trip(d);
            assert(b[8] == 1u8);
            assert(b.subrange(9, 41) =~= digest_bytes(d));
        },
        KindView::Commit(d) => {
            lemma_digest_round_trip(d);
            assert(b[8] == 2u8);
            assert(b.subrange(9, 41) =~= digest_bytes(d));
        },
    }
}

proof fn lemma_requests_bytes_push(rs: Seq<RequestView>, r: RequestView)
    ensures
        requests_bytes(rs.push(r)) == requests_bytes(rs) + request_bytes(r),
    decreases rs.len(),
{
    if rs.len() == 0 {
        assert(rs.push(r).drop_first() =~= Seq::<RequestView>::empty());
        assert(requests_bytes(Seq::<RequestView>::empty()) =~= Seq::<u8>::empty());
        assert(rs.push(r)[0] == r);
        assert(requests_bytes(rs.push(r)) =~= request_bytes(r) + requests_bytes(Seq::<RequestView>::empty()));
        assert(requests_bytes(rs.push(r)) =~= request_bytes(r));
    } else {
        assert(rs.push(r).drop_first() =~= rs.drop_first().push(r));
        lemma_requests_bytes_push(rs.drop_first(), r);
        assert(requests_bytes(rs.push(r)) =~= requests_bytes(rs) + request_bytes(r));
    }
}

/// Appends the bytes of one request.
fn write_request(w: &mut Vec<u8>, r: &StoredRequestMessage)
    requires
        r.message.operation@.len() < 0x1_0000_0000,
    ensures
        final(w)@ == old(w)@ + request_bytes(request_view(*r)),
{
    proof {
        lemma_pow256_values();
    }
    r.header.serialize_into(w);
    put_uint(w, r.message.session_id.value as u64, 4);
    put_uint(w, r.message.operation_id.value as u64, 4);
    let op = &r.message.operation;
    put_uint(w, op.len() as u64, 4);
    let ghost mid = w@;
    let mut i: usize = 0;
    while i < op.len()
        invariant
            i <= op@.len(),
            w@ == mid + op@.subrange(0, i as int),
        decreases op@.len() - i,
    {
        w.push(op[i]);
        i += 1;
    }
    proof {
        assert(op@.subrange(0, op@.len() as int) =~= op@);
        assert(w@ =~= old(w)@ + request_bytes(request_view(*r)));
    }
}

/// Appends the bytes of `message` to `w`, or fails, writing nothing, when a
/// length of it does not fit in 32 bits.
pub fn serialize_consensus(w: &mut Vec<u8>, message: &ConsensusMessage) -> (r: Result<(), WireError>)
    ensures
        encodable(message_view(*message)) ==> r is Ok && final(w)@ == old(w)@ + message_bytes(message_view(*message)),
        !encodable(message_view(*message)) ==> r == Err::<(), WireError>(WireError::MalformedMessage) && final(w)@ == old(w)@,
{
    proof {
        lemma_pow256_values();
    }
    if let ConsensusMessageKind::PrePrepare(rs) = &message.kind {
        if rs.len() > 0xFFFF_FFFF {
            return Err(WireError::MalformedMessage);
        }
        let mut i: usize = 0;
        while i < rs.len()
            invariant
                i <= rs@.len(),
                message_view(*message).kind == KindView::PrePrepare(requests_view(rs@)),
                forall|j: int| 0 <= j < i ==> #[trigger] rs@[j].message.operation@.len() < 0x1_0000_0000,
            decreases rs@.len() - i,
        {
            if rs[i].message.operation.len() > 0xFFFF_FFFF {
                proof {
                    let v = requests_view(rs@);
                    assert(v[i as int].operation.len() >= 0x1_0000_0000);
                        assert(message_view(*message).kind == KindView::PrePrepare(v));
                    assert(!encodable(message_view(*message)));
                }
                return Err(WireError::MalformedMessage);
            }
            i += 1;
        }
        proof {
            let v = requests_view(rs@);
            assert forall|j: int| 0 <= j < v.len() implies #[trigger] v[j].operation.len() < 0x1_0000_0000 by {
                assert(rs@[j].message.operation@.len() < 0x1_0000_0000);
            }
        }
    }
    put_uint(w, message.seq.value as u64, 4);
    put_uint(w, message.view.value as u64, 4);
    match &message.kind {
        ConsensusMessageKind::PrePrepare(rs) => {
            w.push(0u8);
            put_uint(w, rs.len() as u64, 4);
            let ghost mid = w@;
            let ghost v = requests_view(rs@);
            let mut i: usize = 0;
            proof {
                assert(v.subrange(0, 0) =~= Seq::<RequestView>::empty());
                assert(mid + requests_bytes(v.subrange(0, 0)) =~= mid);
            }
            while i < rs.len()
                invariant
                    i <= rs@.len(),
                    v == requests_view(rs@),
                    forall|j: int| 0 <= j < rs@.len() ==> #[trigger] rs@[j].message.operation@.len() < 0x1_0000_0000,
                    w@ == mid + requests_bytes(v.subrange(0, i as int)),
                decreases rs@.len() - i,
            {
                let ghost before = w@;
                write_request(w, &rs[i]);
                proof {
                    assert(v.subrange(0, i as int + 1) =~= v.subrange(0, i as int).push(v[i as int]));
                    lemma_requests_bytes_push(v.subrange(0, i as int), v[i as int]);
                    assert(w@ =~= mid + requests_bytes(v.subrange(0, i as int + 1)));
                }
                i += 1;
            }
            proof {
                assert(v.subrange(0, v.len() as int) =~= v);
                assert(w@ =~= old(w)@ + message_bytes(message_view(*message)));
            }
        },
        ConsensusMessageKind::Prepare(d) => {
            w.push(1u8);
            put_digest(w, d);
            proof {
                assert(w@ =~= old(w)@ + message_bytes(message_view(*message)));
            }
        },
        ConsensusMessageKind::Commit(d) => {
            w.push(2u8);
            put_digest(w, d);
            proof {
                assert(w@ =~= old(w)@ + message_bytes(message_view(*message)));
            }
        },
    }
    Ok(())
}

/// Reads one request from `b` at `pos`: the request and the bytes it took.
fn read_request(b: &[u8], pos: usize) -> (r: Option<(StoredRequestMessage, usize)>)
    requires
        pos <= b@.len(),
    ensures
        match r {
            Some((req, used)) => parse_request(b@.subrange(pos as int, b@.len() as int)) == Some((request_view(req), used as nat))
                && pos + used <= b@.len(),
            None => parse_request(b@.subrange(pos as int, b@.len() as int)).is_none(),
        },
{
    let len = b.len();
    let ghost t = b@.subrange(pos as int, len as int);
    if len - pos < REQUEST_PREFIX {
        return None;
    }
    proof {
        lemma_pow256_values();
        lemma_from_le_bound(b@.subrange(pos + 116, pos + 120));
        lemma_from_le_bound(b@.subrange(pos + 120, pos + 124));
        lemma_from_le_bound(b@.subrange(pos + 124, pos + 128));
        assert(t.subrange(0, 116) =~= b@.subrange(pos as int, pos + 116));
        assert(t.subrange(116, 120) =~= b@.subrange(pos + 116, pos + 120));
        assert(t.subrange(120, 124) =~= b@.subrange(pos + 120, pos + 124));
        assert(t.subrange(124, 128) =~= b@.subrange(pos + 124, pos + 128));
    }
    let header = read_header(b, pos);
    let session = get_uint(b, pos + 116, 4) as u32;
    let op_id = get_uint(b, pos + 120, 4) as u32;
    let n = get_uint(b, pos + 124, 4) as usize;
    if len - pos - REQUEST_PREFIX < n {
        return None;
    }
    let start = pos + REQUEST_PREFIX;
    let mut op: Vec<u8> = Vec::new();
    let mut i: usize = 0;
    while i < n
        invariant
            i <= n,
            start + n <= b@.len(),
            len == b@.len(),
            op@ == b@.subrange(start as int, start + i),
        decreases n - i,
    {
        op.push(b[start + i]);
        proof {
            assert(b@.subrange(start as int, start + i + 1) =~= b@.subrange(start as int, start + i).push(b@[start + i]));
        }
        i += 1;
    }
    proof {
        assert(t.subrange(128, 128 + n as int) =~= b@.subrange(start as int, start + n));
    }
    let req = StoredRequestMessage {
        header,
        message: RequestMessage::new(SeqNo::new(session), SeqNo::new(op_id), op),
    };
    Some((req, REQUEST_PREFIX + n))
}

/// Reads a consensus message that fills all of `b`: the message that
/// `parse_message` finds there, or an error when it finds none.
pub fn deserialize_consensus(b: &[u8]) -> (r: Result<ConsensusMessage, WireError>)
    ensures
        match parse_message(b@) {
            Some(v) => r is Ok && message_view(r->Ok_0) == v,
            None => r == Err::<ConsensusMessage, WireError>(WireError::MalformedMessage),
        },
{
    let len = b.len();
    if len < 9 {
        return Err(WireError::MalformedMessage);
    }
    proof {
        lemma_pow256_values();
        lemma_from_le_bound(b@.subrange(0, 4));
        lemma_from_le_bound(b@.subrange(4, 8));
    }
    let seq = SeqNo::new(get_uint(b, 0, 4) as u32);
    let view = SeqNo::new(get_uint(b, 4, 4) as u32);
    let tag = b[8];
    if tag == 0u8 {
        if len < 13 {
            return Err(WireError::MalformedMessage);
        }
        let count = get_uint(b, 9, 4);
        let ghost whole = b@.subrange(13, len as int);
        let mut reqs: Vec<StoredRequestMessage> = Vec::new();
        let mut pos: usize = 13;
        let mut k: u64 = 0;
        proof {
            assert(b@.subrange(pos as int, len as int) =~= whole);
            assert(requests_view(reqs@) =~= Seq::<RequestView>::empty());
            lemma_from_le_bound(b@.subrange(9, 13));
        }
        while k < count
            invariant
                13 <= pos <= len,
                len == b@.len(),
                k <= count,
                count as nat == from_le(b@.subrange(9, 13)),
                b@[8] == 0u8,
                whole == b@.subrange(13, len as int),
                parse_requests(whole, count as nat) == match parse_requests(b@.subrange(pos as int, len as int), (count - k) as nat) {
                    Some(rest) => Some(requests_view(reqs@) + rest),
                    None => None,
                },
            decreases count - k,
        {
            let ghost t = b@.subrange(pos as int, len as int);
            match read_request(b, pos) {
                None => {
                    proof {
                        assert(parse_requests(t, (count - k) as nat).is_none());
                        assert(parse_requests(whole, count as nat).is_none());
                        assert(b@[8] == 0u8);
                        assert(parse_message(b@).is_none());
                    }
                    return Err(WireError::MalformedMessage);
                },
                Some((req, used)) => {
                    let ghost before = requests_view(reqs@);
                    proof {
                        assert(t.subrange(used as int, t.len() as int) =~= b@.subrange(pos + used, len as int));
                    }
                    reqs.push(req);
                    proof {
                        assert(requests_view(reqs@) =~= before.push(request_view(req)));
                        let rest = parse_requests(b@.subrange(pos + used, len as int), (count - k - 1) as nat);
                        if rest.is_some() {
                            assert(before + (seq![request_view(req)] + rest.unwrap())
                                =~= before.push(request_view(req)) + rest.unwrap());
                        }
                    }
                    pos = pos + used;
                },
            }
            k += 1;
        }
        if pos != len {
            proof {
                assert(b@.subrange(pos as int, len as int).len() > 0);
            }
            return Err(WireError::MalformedMessage);
        }
        proof {
            assert(b@.subrange(pos as int, len as int) =~= Seq::<u8>::empty());
        }
        let m = ConsensusMessage::new(seq, view, ConsensusMessageKind::PrePrepare(reqs));
        return Ok(m);
    }
    if len != 41 || (tag != 1u8 && tag != 2u8) {
        return Err(WireError::MalformedMessage);
    }
    let d = get_digest(b, 9);
    if tag == 1u8 {
        Ok(ConsensusMessage::new(seq, view, ConsensusMessageKind::Prepare(d)))
    } else {
        Ok(ConsensusMessage::new(seq, view, ConsensusMessageKind::Commit(d)))
    }
}

} // verus!
