//! Wire framing: each frame is a four-byte big-endian length followed by
//! exactly that many payload bytes.
use vstd::prelude::*;

verus! {

/// Width of the length prefix in bytes.
pub const LENGTH_PREFIX_BYTES: usize = 4;

/// Largest payload length that the prefix can carry.
pub const MAX_PAYLOAD_LEN: u64 = 0xffff_ffff;

/// The unsigned big-endian value of the first four bytes of `s`.
pub open spec fn be_u32_value(s: Seq<u8>) -> int
    recommends
        s.len() >= 4,
{
    s[0] * 0x100_0000 + s[1] * 0x1_0000 + s[2] * 0x100 + s[3]
}

/// The four big-endian bytes of `n`, for `0 <= n < 2^32`.
pub open spec fn be_u32_bytes(n: int) -> Seq<u8> {
    seq![
        (n / 0x100_0000) as u8,
        ((n / 0x1_0000) % 0x100) as u8,
        ((n / 0x100) % 0x100) as u8,
        (n % 0x100) as u8,
    ]
}

/// The wire form of one frame carrying `p`.
pub open spec fn frame_bytes(p: Seq<u8>) -> Seq<u8> {
    be_u32_bytes(p.len() as int) + p
}

/// Decoding a length prefix gives back the length that was encoded.
pub proof fn lemma_prefix_round_trip(n: int)
    requires
        0 <= n <= MAX_PAYLOAD_LEN,
    ensures
        be_u32_bytes(n).len() == 4,
        be_u32_value(be_u32_bytes(n)) == n,
{
    let a = n / 0x100_0000;
    let b = n / 0x1_0000;
    let c = n / 0x100;
    vstd::arithmetic::div_mod::lemma_fundamental_div_mod(n, 0x100);
    vstd::arithmetic::div_mod::lemma_fundamental_div_mod(c, 0x100);
    vstd::arithmetic::div_mod::lemma_fundamental_div_mod(b, 0x100);
    vstd::arithmetic::div_mod::lemma_div_denominator(n, 0x100, 0x100);
    vstd::arithmetic::div_mod::lemma_div_denominator(n, 0x1_0000, 0x100);
    assert(b == c / 0x100);
    assert(a == b / 0x100);
    assert(0 <= a < 0x100) by {
        vstd::arithmetic::div_mod::lemma_div_is_ordered(n, MAX_PAYLOAD_LEN as int, 0x100_0000);
    }
    vstd::arithmetic::div_mod::lemma_mod_bound(n, 0x100);
    vstd::arithmetic::div_mod::lemma_mod_bound(c, 0x100);
    vstd::arithmetic::div_mod::lemma_mod_bound(b, 0x100);
    assert(c >= 0 && b >= 0) by {
        vstd::arithmetic::div_mod::lemma_div_pos_is_pos(n, 0x100);
        vstd::arithmetic::div_mod::lemma_div_pos_is_pos(n, 0x1_0000);
    }
}

/// The four big-endian bytes of `len`.
pub fn length_prefix(len: u32) -> (r: [u8; 4])
    ensures
        r@ == be_u32_bytes(len as int),
{
    let r = [
        (len / 0x100_0000) as u8,
        ((len / 0x1_0000) % 0x100) as u8,
        ((len / 0x100) % 0x100) as u8,
        (len % 0x100) as u8,
    ];
    assert(r@ =~= be_u32_bytes(len as int));
    r
}

/// The length that a four-byte big-endian prefix declares.
pub fn prefix_value(b0: u8, b1: u8, b2: u8, b3: u8) -> (r: u32)
    ensures
        r == be_u32_value(seq![b0, b1, b2, b3]),
{
    (b0 as u32) * 0x100_0000 + (b1 as u32) * 0x1_0000 + (b2 as u32) * 0x100 + (b3 as u32)
}

/// Whether `s` begins with a whole frame: a prefix and every payload byte it declares.
pub open spec fn frame_complete(s: Seq<u8>) -> bool {
    s.len() >= 4 && s.len() - 4 >= be_u32_value(s)
}

/// Where the frame at the start of `s` ends.
pub open spec fn frame_end(s: Seq<u8>) -> int {
    4 + be_u32_value(s)
}

/// Splits `s` into the whole frames at its start, in order, and the bytes
/// after the last of them.
pub open spec fn split_frames(s: Seq<u8>) -> (Seq<Seq<u8>>, Seq<u8>)
    decreases s.len(),
{
    if frame_complete(s) {
        let rest = split_frames(s.subrange(frame_end(s), s.len() as int));
        (seq![s.subrange(4, frame_end(s))] + rest.0, rest.1)
    } else {
        (Seq::empty(), s)
    }
}

/// The wire form of the frames `ps`, one after another.
pub open spec fn concat_frames(ps: Seq<Seq<u8>>) -> Seq<u8>
    decreases ps.len(),
{
    if ps.len() == 0 {
        Seq::empty()
    } else {
        frame_bytes(ps[0]) + concat_frames(ps.drop_first())
    }
}

/// Whether every payload of `ps` fits the length prefix.
pub open spec fn all_encodable(ps: Seq<Seq<u8>>) -> bool {
    forall|i: int| 0 <= i < ps.len() ==> #[trigger] ps[i].len() <= MAX_PAYLOAD_LEN
}

/// Why a payload cannot be framed.
#[derive(Debug, PartialEq, Eq, Structural)]
pub enum FrameError {
    /// The payload is longer than the prefix can express.
    PayloadTooLarge { len: usize },
}

/// The bytes `buf[from..to]` in a vector of their own.
fn copy_range(buf: &[u8], from: usize, to: usize) -> (r: Vec<u8>)
    requires
        from <= to <= buf@.len(),
    ensures
        r@ == buf@.subrange(from as int, to as int),
{
    let mut r: Vec<u8> = Vec::new();
    let mut i: usize = from;
    while i < to
        invariant
            from <= i <= to <= buf@.len(),
            r@ == buf@.subrange(from as int, i as int),
        decreases to - i,
    {
        r.push(buf[i]);
        i = i + 1;
        assert(r@ =~= buf@.subrange(from as int, i as int));
    }
    r
}

/// Frames `payload`: its length as four big-endian bytes, then the payload.
/// A payload longer than the prefix can express is refused, never truncated.
pub fn encode_frame(payload: &[u8]) -> (r: Result<Vec<u8>, FrameError>)
    ensures
        payload@.len() <= MAX_PAYLOAD_LEN ==> (r matches Ok(v) && v@ == frame_bytes(payload@)),
        payload@.len() > MAX_PAYLOAD_LEN ==> (r matches Err(FrameError::PayloadTooLarge { len })
            && len == payload@.len()),
{
    let len = payload.len();
    if len as u64 > MAX_PAYLOAD_LEN {
        return Err(FrameError::PayloadTooLarge { len });
    }
    let prefix = length_prefix(len as u32);
    let mut out: Vec<u8> = Vec::new();
    out.push(prefix[0]);
    out.push(prefix[1]);
    out.push(prefix[2]);
    out.push(prefix[3]);
    let mut i: usize = 0;
    while i < len
        invariant
            i <= len == payload@.len(),
            out@ == prefix@ + payload@.subrange(0, i as int),
        decreases len - i,
    {
        out.push(payload[i]);
        i = i + 1;
        assert(out@ =~= prefix@ + payload@.subrange(0, i as int));
    }
    assert(payload@.subrange(0, len as int) =~= payload@);
    Ok(out)
}

/// Decodes the frame that starts at `start` in `buf`: its payload and the
/// position just past it, or `None` while the frame is not whole.
pub fn decode_frame(buf: &[u8], start: usize) -> (r: Option<(Vec<u8>, usize)>)
    requires
        start <= buf@.len(),
    ensures
        ({
            let s = buf@.subrange(start as int, buf@.len() as int);
            &&& r is Some <==> frame_complete(s)
            &&& r matches Some((p, next)) ==> p@ == s.subrange(4, frame_end(s)) && next == start
                + frame_end(s)
        }),
{
    let ghost s = buf@.subrange(start as int, buf@.len() as int);
    let avail = buf.len() - start;
    if avail < LENGTH_PREFIX_BYTES {
        return None;
    }
    let n = prefix_value(buf[start], buf[start + 1], buf[start + 2], buf[start + 3]);
    assert(be_u32_value(seq![buf@[start as int], buf@[start + 1], buf@[start + 2], buf@[start + 3]])
        == be_u32_value(s));
    if avail - LENGTH_PREFIX_BYTES < n as usize {
        return None;
    }
    let end = start + LENGTH_PREFIX_BYTES + n as usize;
    let payload = copy_range(buf, start + LENGTH_PREFIX_BYTES, end);
    assert(payload@ =~= s.subrange(4, frame_end(s)));
    Some((payload, end))
}

/// A frame's encoding starts with a whole frame whose payload is that frame's,
/// and what follows it is left as it was.
proof fn lemma_frame_then_rest(p: Seq<u8>, rest: Seq<u8>)
    requires
        p.len() <= MAX_PAYLOAD_LEN,
    ensures
        ({
            let s = frame_bytes(p) + rest;
            &&& frame_complete(s)
            &&& frame_end(s) == 4 + p.len()
            &&& s.subrange(4, frame_end(s)) == p
            &&& s.subrange(frame_end(s), s.len() as int) == rest
        }),
{
    lemma_prefix_round_trip(p.len() as int);
    let s = frame_bytes(p) + rest;
    assert(be_u32_value(s) == be_u32_value(be_u32_bytes(p.len() as int)));
    assert(s.subrange(4, frame_end(s)) =~= p);
    assert(s.subrange(frame_end(s), s.len() as int) =~= rest);
}

/// Round trip: decoding the encoding of a payload that fits the prefix finds
/// one whole frame that spans the encoding exactly and carries that payload.
pub proof fn lemma_round_trip(p: Seq<u8>)
    requires
        p.len() <= MAX_PAYLOAD_LEN,
    ensures
        frame_complete(frame_bytes(p)),
        frame_end(frame_bytes(p)) == frame_bytes(p).len(),
        frame_bytes(p).subrange(4, frame_end(frame_bytes(p))) == p,
        split_frames(frame_bytes(p)) == (seq![p], Seq::<u8>::empty()),
{
    lemma_split_concat(seq![p], Seq::empty());
    assert(concat_frames(seq![p]) =~= frame_bytes(p) + Seq::<u8>::empty()) by {
        assert(concat_frames(seq![p].drop_first()) == Seq::<u8>::empty());
    }
    assert(frame_bytes(p) + Seq::<u8>::empty() =~= frame_bytes(p));
    lemma_frame_then_rest(p, Seq::empty());
}

/// Decoding a stream made of whole frames followed by an incomplete tail
/// yields exactly those frames, in order, and stops at the tail: each frame
/// consumes its own bytes and no more.
pub proof fn lemma_split_concat(ps: Seq<Seq<u8>>, tail: Seq<u8>)
    requires
        all_encodable(ps),
        !frame_complete(tail),
    ensures
        split_frames(concat_frames(ps) + tail) == (ps, tail),
    decreases ps.len(),
{
    if ps.len() == 0 {
        assert(concat_frames(ps) + tail =~= tail);
        assert(ps =~= Seq::<Seq<u8>>::empty());
    } else {
        let rest = ps.drop_first();
        assert(all_encodable(rest)) by {
            assert forall|i: int| 0 <= i < rest.len() implies #[trigger] rest[i].len()
                <= MAX_PAYLOAD_LEN by {
                assert(rest[i] == ps[i + 1]);
            }
        }
        lemma_split_concat(rest, tail);
        assert(ps[0].len() <= MAX_PAYLOAD_LEN);
        let after = concat_frames(rest) + tail;
        lemma_frame_then_rest(ps[0], after);
        assert(concat_frames(ps) + tail =~= frame_bytes(ps[0]) + after);
        assert(seq![ps[0]] + rest =~= ps);
    }
}

/// What `split_frames` leaves over never starts with a whole frame.
pub proof fn lemma_split_leaves_partial(s: Seq<u8>)
    ensures
        !frame_complete(split_frames(s).1),
    decreases s.len(),
{
    if frame_complete(s) {
        lemma_split_leaves_partial(s.subrange(frame_end(s), s.len() as int));
    }
}

/// Decoding does not depend on where reads split the stream: decoding `x`,
/// then decoding what it left together with `y`, finds the same frames and
/// leaves the same bytes as decoding `x + y` at once.
pub proof fn lemma_split_chunks(x: Seq<u8>, y: Seq<u8>)
    ensures
        split_frames(x + y).0 == split_frames(x).0 + split_frames(split_frames(x).1 + y).0,
        split_frames(x + y).1 == split_frames(split_frames(x).1 + y).1,
    decreases x.len(),
{
    if frame_complete(x) {
        let xy = x + y;
        let end = frame_end(x);
        assert(be_u32_value(xy) == be_u32_value(x));
        assert(frame_complete(xy));
        let xr = x.subrange(end, x.len() as int);
        assert(xy.subrange(end, xy.len() as int) =~= xr + y);
        assert(xy.subrange(4, end) =~= x.subrange(4, end));
        lemma_split_chunks(xr, y);
        assert(seq![x.subrange(4, end)] + split_frames(xr).0 + split_frames(
            split_frames(xr).1 + y,
        ).0 =~= seq![x.subrange(4, end)] + (split_frames(xr).0 + split_frames(
            split_frames(xr).1 + y,
        ).0));
    } else {
        assert(Seq::<Seq<u8>>::empty() + split_frames(x + y).0 =~= split_frames(x + y).0);
    }
}

/// The contents of a sequence of byte vectors.
pub open spec fn payload_views(v: Seq<Vec<u8>>) -> Seq<Seq<u8>> {
    v.map_values(|x: Vec<u8>| x@)
}

/// How a byte stream ended, as seen by the decoder.
#[derive(Debug, Clone, Copy, PartialEq, Eq, Structural)]
pub enum StreamEnd {
    /// The stream ended on a frame boundary: the peer closed gracefully.
    Clean,
    /// The stream ended inside a length prefix.
    TruncatedPrefix,
    /// The stream ended inside a payload.
    TruncatedPayload,
}

impl StreamEnd {
    /// Whether this ending is a fault worth a warning: only a truncation is.
    pub fn is_truncated(&self) -> (r: bool)
        ensures
            r <==> *self != StreamEnd::Clean,
    {
        !matches!(self, StreamEnd::Clean)
    }
}

/// Incremental decoder for one direction of a byte stream: bytes go in as
/// they arrive, whole frames come out in order, and a partial frame waits for
/// the rest of its bytes.
pub struct FrameDecoder {
    buffer: Vec<u8>,
}

impl FrameDecoder {
    /// The bytes received and not yet part of a whole frame.
    pub closed spec fn pending(&self) -> Seq<u8> {
        self.buffer@
    }

    /// No whole frame is held back.
    pub open spec fn wf(&self) -> bool {
        !frame_complete(self.pending())
    }

    pub fn new() -> (r: FrameDecoder)
        ensures
            r.pending() == Seq::<u8>::empty(),
            r.wf(),
    {
        FrameDecoder { buffer: Vec::new() }
    }

    /// Takes the next bytes of the stream and returns the frames that are now
    /// whole, in stream order.
    pub fn receive(&mut self, bytes: &[u8]) -> (frames: Vec<Vec<u8>>)
        ensures
            payload_views(frames@) == split_frames(old(self).pending() + bytes@).0,
            final(self).pending() == split_frames(old(self).pending() + bytes@).1,
            final(self).wf(),
    {
        let ghost all = self.buffer@ + bytes@;
        let mut i: usize = 0;
        while i < bytes.len()
            invariant
                i <= bytes@.len(),
                self.buffer@ == old(self).buffer@ + bytes@.subrange(0, i as int),
            decreases bytes@.len() - i,
        {
            self.buffer.push(bytes[i]);
            i = i + 1;
            assert(self.buffer@ =~= old(self).buffer@ + bytes@.subrange(0, i as int));
        }
        assert(bytes@.subrange(0, bytes@.len() as int) =~= bytes@);
        let data = self.buffer.as_slice();
        assert(data@ == all);
        let mut frames: Vec<Vec<u8>> = Vec::new();
        let mut pos: usize = 0;
        assert(all.subrange(0, all.len() as int) =~= all);
        assert(payload_views(frames@) + split_frames(all).0 =~= split_frames(all).0);
        loop
            invariant
                data@ == all,
                pos <= data@.len(),
                split_frames(all) == (payload_views(frames@) + split_frames(
                    all.subrange(pos as int, all.len() as int),
                ).0, split_frames(all.subrange(pos as int, all.len() as int)).1),
            ensures
                pos <= data@.len(),
                !frame_complete(all.subrange(pos as int, all.len() as int)),
                split_frames(all) == (payload_views(frames@) + split_frames(
                    all.subrange(pos as int, all.len() as int),
                ).0, split_frames(all.subrange(pos as int, all.len() as int)).1),
            decreases data@.len() - pos,
        {
            let ghost t = all.subrange(pos as int, all.len() as int);
            match decode_frame(data, pos) {
                Some((payload, next)) => {
                    proof {
                        assert(t.subrange(frame_end(t), t.len() as int) =~= all.subrange(
                            next as int,
                            all.len() as int,
                        ));
                        let t2 = all.subrange(next as int, all.len() as int);
                        assert(payload_views(frames@.push(payload)) =~= payload_views(frames@)
                            + seq![payload@]);
                        assert(payload_views(frames@) + split_frames(t).0 =~= payload_views(
                            frames@,
                        ) + seq![payload@] + split_frames(t2).0);
                    }
                    frames.push(payload);
                    pos = next;
                },
                None => {
                    break ;
                },
            }
        }
        let ghost t = all.subrange(pos as int, all.len() as int);
        assert(payload_views(frames@) + Seq::<Seq<u8>>::empty() =~= payload_views(frames@));
        let rest = copy_range(data, pos, data.len());
        self.buffer = rest;
        proof {
            lemma_split_leaves_partial(all);
        }
        frames
    }

    /// Classifies the end of the stream from what is still pending.
    pub fn end_of_stream(&self) -> (r: StreamEnd)
        ensures
            r == StreamEnd::Clean <==> self.pending().len() == 0,
            r == StreamEnd::TruncatedPrefix <==> 0 < self.pending().len() < 4,
            r == StreamEnd::TruncatedPayload <==> self.pending().len() >= 4,
    {
        let n = self.buffer.len();
        if n == 0 {
            StreamEnd::Clean
        } else if n < LENGTH_PREFIX_BYTES {
            StreamEnd::TruncatedPrefix
        } else {
            StreamEnd::TruncatedPayload
        }
    }
}

} // verus!
