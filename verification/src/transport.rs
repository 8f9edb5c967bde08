use vstd::prelude::*;
use vstd::bytes::{spec_u32_from_le_bytes, spec_u32_to_le_bytes, u32_from_le_bytes, u32_to_le_bytes};

verus! {

/// Why no message could be read.
#[derive(Debug)]
pub enum ReadError {
    /// The other side closed the stream.
    Closed,
    /// The stream failed, or a frame did not hold a message.
    Error(String),
}

/// The bytes of one frame: the payload's length, four bytes little endian,
/// then the payload. The length is taken modulo 2^32, as on the wire.
pub open spec fn frame_bytes(payload: Seq<u8>) -> Seq<u8> {
    spec_u32_to_le_bytes(payload.len() as u32) + payload
}

/// The bytes a reader holds and has not handed out yet, with the header of
/// the frame it is in the middle of, if it read one already.
pub open spec fn pending(length: Option<u32>, buf: Seq<u8>) -> Seq<u8> {
    match length {
        Some(l) => spec_u32_to_le_bytes(l) + buf,
        None => buf,
    }
}

/// The reader's state once it has read a header, where one is complete.
pub open spec fn header_read(length: Option<u32>, buf: Seq<u8>) -> (Option<u32>, Seq<u8>) {
    if length is None && buf.len() >= 4 {
        (Some(spec_u32_from_le_bytes(buf.take(4))), buf.skip(4))
    } else {
        (length, buf)
    }
}

/// The frame that a step of reading hands out, if the whole of it is there.
pub open spec fn frame_taken(length: Option<u32>, buf: Seq<u8>) -> Option<Seq<u8>> {
    let (l, b) = header_read(length, buf);
    match l {
        Some(n) => if b.len() >= n {
            Some(b.take(n as int))
        } else {
            None
        },
        None => None,
    }
}

/// The reader's state after a step of reading.
pub open spec fn after_take(length: Option<u32>, buf: Seq<u8>) -> (Option<u32>, Seq<u8>) {
    let (l, b) = header_read(length, buf);
    match l {
        Some(n) => if b.len() >= n {
            (None, b.skip(n as int))
        } else {
            (l, b)
        },
        None => (l, b),
    }
}

/// Cuts a byte stream into frames: each a length, four bytes little endian,
/// then that many bytes of payload.
pub struct FrameReader {
    length: Option<u32>,
    buf: Vec<u8>,
}

impl FrameReader {
    /// The length of the frame whose header was read, if one was.
    pub closed spec fn spec_length(&self) -> Option<u32> {
        self.length
    }

    /// The bytes after the last header or frame handed out.
    pub closed spec fn spec_buf(&self) -> Seq<u8> {
        self.buf@
    }

    /// A reader that has seen nothing.
    pub fn new() -> (r: Self)
        ensures
            r.spec_length() is None,
            r.spec_buf() == Seq::<u8>::empty(),
    {
        FrameReader { length: None, buf: Vec::new() }
    }

    /// Hands the reader the bytes that came next on the stream.
    pub fn feed(&mut self, bytes: &[u8])
        ensures
            final(self).spec_length() == old(self).spec_length(),
            final(self).spec_buf() == old(self).spec_buf() + bytes@,
    {
        let mut i: usize = 0;
        while i < bytes.len()
            invariant
                i <= bytes@.len(),
                self.length == old(self).length,
                self.buf@ == old(self).buf@ + bytes@.take(i as int),
            decreases bytes@.len() - i,
        {
            self.buf.push(bytes[i]);
            i = i + 1;
            assert(self.buf@ =~= old(self).buf@ + bytes@.take(i as int));
        }
        assert(bytes@.take(i as int) =~= bytes@);
    }

    /// Reads the header of the next frame if it is complete, then hands out
    /// a copy of the frame's payload if all of it is there. The frame stays
    /// pending until `consume` removes it.
    pub fn look(&mut self) -> (r: Option<Vec<u8>>)
        ensures
            r matches Some(v) ==> frame_taken(old(self).spec_length(), old(self).spec_buf()) == Some(
                v@,
            ),
            r is None ==> frame_taken(old(self).spec_length(), old(self).spec_buf()) is None,
            (final(self).spec_length(), final(self).spec_buf()) == header_read(
                old(self).spec_length(),
                old(self).spec_buf(),
            ),
    {
        if self.length.is_none() && self.buf.len() >= 4 {
            let rest = self.buf.split_off(4);
            let n = u32_from_le_bytes(self.buf.as_slice());
            assert(self.buf@ =~= old(self).buf@.take(4));
            assert(rest@ =~= old(self).buf@.skip(4));
            self.length = Some(n);
            self.buf = rest;
        }
        match self.length {
            None => None,
            Some(n) => {
                let l = n as usize;
                if self.buf.len() < l {
                    None
                } else {
                    let mut frame: Vec<u8> = Vec::with_capacity(l);
                    let mut i: usize = 0;
                    while i < l
                        invariant
                            i <= l,
                            l <= self.buf@.len(),
                            frame@ == self.buf@.take(i as int),
                        decreases l - i,
                    {
                        frame.push(self.buf[i]);
                        i = i + 1;
                        assert(frame@ =~= self.buf@.take(i as int));
                    }
                    Some(frame)
                }
            },
        }
    }

    /// Removes the frame that `look` handed out, with its header.
    pub fn consume(&mut self)
        requires
            frame_taken(old(self).spec_length(), old(self).spec_buf()) is Some,
        ensures
            (final(self).spec_length(), final(self).spec_buf()) == after_take(
                old(self).spec_length(),
                old(self).spec_buf(),
            ),
    {
        if self.length.is_none() && self.buf.len() >= 4 {
            let rest = self.buf.split_off(4);
            assert(rest@ =~= old(self).buf@.skip(4));
            self.length = Some(u32_from_le_bytes(self.buf.as_slice()));
            assert(self.buf@ =~= old(self).buf@.take(4));
            self.buf = rest;
        }
        if let Some(n) = self.length {
            let rest = self.buf.split_off(n as usize);
            self.buf = rest;
            self.length = None;
        }
    }

    /// Reads the header of the next frame if it is complete, then hands out
    /// the frame's payload if all of it is there.
    pub fn take_frame(&mut self) -> (r: Option<Vec<u8>>)
        ensures
            r matches Some(v) ==> frame_taken(old(self).spec_length(), old(self).spec_buf()) == Some(
                v@,
            ),
            r is None ==> frame_taken(old(self).spec_length(), old(self).spec_buf()) is None,
            (final(self).spec_length(), final(self).spec_buf()) == after_take(
                old(self).spec_length(),
                old(self).spec_buf(),
            ),
    {
        if self.length.is_none() && self.buf.len() >= 4 {
            let rest = self.buf.split_off(4);
            let n = u32_from_le_bytes(self.buf.as_slice());
            assert(self.buf@ =~= old(self).buf@.take(4));
            assert(rest@ =~= old(self).buf@.skip(4));
            self.length = Some(n);
            self.buf = rest;
        }
        match self.length {
            None => None,
            Some(n) => {
                let l = n as usize;
                if self.buf.len() < l {
                    None
                } else {
                    let mut frame = self.buf.split_off(l);
                    std::mem::swap(&mut frame, &mut self.buf);
                    self.length = None;
                    Some(frame)
                }
            },
        }
    }
}

/// One frame that carries `payload`: its length, four bytes little endian,
/// then the payload itself.
pub fn encode_frame(payload: &[u8]) -> (r: Vec<u8>)
    ensures
        r@ == frame_bytes(payload@),
{
    let n = payload.len() as u32;
    let mut r = u32_to_le_bytes(n);
    let mut i: usize = 0;
    while i < payload.len()
        invariant
            i <= payload@.len(),
            n == payload@.len() as u32,
            r@ == spec_u32_to_le_bytes(n) + payload@.take(i as int),
        decreases payload@.len() - i,
    {
        r.push(payload[i]);
        i = i + 1;
        assert(r@ =~= spec_u32_to_le_bytes(n) + payload@.take(i as int));
    }
    assert(payload@.take(i as int) =~= payload@);
    r
}

/// A step of reading loses no byte and makes none up: what was pending is
/// the frame handed out, if any, followed by what is pending after.
pub proof fn law_take_keeps_bytes(length: Option<u32>, buf: Seq<u8>)
    ensures
        ({
            let (l2, b2) = after_take(length, buf);
            match frame_taken(length, buf) {
                Some(p) => pending(length, buf) == frame_bytes(p) + pending(l2, b2),
                None => pending(length, buf) == pending(l2, b2),
            }
        }),
{
    vstd::bytes::lemma_auto_spec_u32_to_from_le_bytes();
    let (l1, b1) = header_read(length, buf);
    if length is None && buf.len() >= 4 {
        assert(spec_u32_to_le_bytes(spec_u32_from_le_bytes(buf.take(4))) == buf.take(4));
        assert(buf.take(4) + buf.skip(4) =~= buf);
    }
    assert(pending(l1, b1) == pending(length, buf));
    match l1 {
        Some(n) => {
            if b1.len() >= n {
                let p = b1.take(n as int);
                assert(p.len() == n);
                assert((p.len() as u32) == n);
                assert(b1.take(n as int) + b1.skip(n as int) =~= b1);
                assert(frame_bytes(p) + b1.skip(n as int) =~= spec_u32_to_le_bytes(n) + b1);
            }
        },
        None => {},
    }
}

/// Feeding bytes adds them at the end of what is pending, whatever the
/// reader is in the middle of: bytes can come in pieces of any size.
pub proof fn law_feed_appends(length: Option<u32>, buf: Seq<u8>, bytes: Seq<u8>)
    ensures
        pending(length, buf + bytes) == pending(length, buf) + bytes,
{
    match length {
        Some(l) => {
            assert(spec_u32_to_le_bytes(l) + (buf + bytes) =~= spec_u32_to_le_bytes(l) + buf + bytes);
        },
        None => {},
    }
}

/// What is written as a frame is read back whole: when the bytes pending in
/// a reader start with the frame of `payload`, the next step of reading
/// hands out `payload` and leaves the rest pending.
pub proof fn law_frame_round_trip(length: Option<u32>, buf: Seq<u8>, payload: Seq<u8>, rest: Seq<u8>)
    requires
        payload.len() <= u32::MAX,
        pending(length, buf) == frame_bytes(payload) + rest,
    ensures
        frame_taken(length, buf) == Some(payload),
        ({
            let (l2, b2) = after_take(length, buf);
            pending(l2, b2) == rest
        }),
{
    vstd::bytes::lemma_auto_spec_u32_to_from_le_bytes();
    let n = payload.len() as u32;
    assert(n == payload.len());
    let head = spec_u32_to_le_bytes(n);
    let all = frame_bytes(payload) + rest;
    assert(all.take(4) =~= head);
    assert(all.skip(4) =~= payload + rest);
    let (l1, b1) = header_read(length, buf);
    match length {
        Some(l) => {
            assert((spec_u32_to_le_bytes(l) + buf).take(4) =~= spec_u32_to_le_bytes(l));
            assert((spec_u32_to_le_bytes(l) + buf).skip(4) =~= buf);
            assert(spec_u32_to_le_bytes(l) == head);
            assert(spec_u32_from_le_bytes(spec_u32_to_le_bytes(l)) == l);
            assert(l == n);
            assert(buf =~= payload + rest);
        },
        None => {
            assert(buf == all);
            assert(l1 == Some(spec_u32_from_le_bytes(head)));
            assert(b1 =~= payload + rest);
        },
    }
    assert(l1 == Some(n));
    assert(b1 =~= payload + rest);
    assert(b1.take(n as int) =~= payload);
    assert(b1.skip(n as int) =~= rest);
}

/// Reading a header changes nothing of what comes next: the frame that a
/// look hands out is the one a step of reading would, and removing it then
/// leaves the reader where that step would.
pub proof fn law_look_then_consume(length: Option<u32>, buf: Seq<u8>)
    ensures
        ({
            let (l1, b1) = header_read(length, buf);
            &&& frame_taken(l1, b1) == frame_taken(length, buf)
            &&& after_take(l1, b1) == after_take(length, buf)
        }),
{
}

/// What a reader hands out when each of `pieces` is fed to it in turn and
/// a step of reading follows each: the answer of each step, then the
/// reader's state at the end.
pub open spec fn read_run(length: Option<u32>, buf: Seq<u8>, pieces: Seq<Seq<u8>>) -> (
    Seq<Option<Seq<u8>>>,
    Option<u32>,
    Seq<u8>,
)
    decreases pieces.len(),
{
    if pieces.len() == 0 {
        (Seq::empty(), length, buf)
    } else {
        let fed = buf + pieces[0];
        let (l2, b2) = after_take(length, fed);
        let (outs, l3, b3) = read_run(l2, b2, pieces.drop_first());
        (seq![frame_taken(length, fed)] + outs, l3, b3)
    }
}

proof fn lemma_flatten_nonempty(pieces: Seq<Seq<u8>>)
    requires
        pieces.len() > 0,
        pieces.last().len() > 0,
    ensures
        pieces.flatten().len() > 0,
    decreases pieces.len(),
{
    if pieces.len() > 1 && pieces[0].len() == 0 {
        assert(pieces.drop_first().last() == pieces.last());
        lemma_flatten_nonempty(pieces.drop_first());
    }
}

/// A step of reading on bytes that are a proper start of a frame hands out
/// nothing.
proof fn lemma_no_frame_from_a_part(length: Option<u32>, buf: Seq<u8>, payload: Seq<u8>, more: Seq<u8>)
    requires
        payload.len() <= u32::MAX,
        more.len() > 0,
        pending(length, buf) + more == frame_bytes(payload),
    ensures
        frame_taken(length, buf) is None,
{
    vstd::bytes::lemma_auto_spec_u32_to_from_le_bytes();
    law_take_keeps_bytes(length, buf);
    if let Some(p) = frame_taken(length, buf) {
        let (l2, b2) = after_take(length, buf);
        let all = frame_bytes(payload);
        let pend = pending(length, buf);
        let hp = spec_u32_to_le_bytes(p.len() as u32);
        let ha = spec_u32_to_le_bytes(payload.len() as u32);
        assert(p.len() <= u32::MAX);
        assert(pend == frame_bytes(p) + pending(l2, b2));
        assert(hp.len() == 4 && ha.len() == 4);
        assert(pend.len() >= 4 + p.len());
        assert(all.len() == pend.len() + more.len());
        assert(all.take(4) =~= ha);
        assert(all.take(4) =~= pend.take(4));
        assert(pend.take(4) =~= hp);
        assert(spec_u32_from_le_bytes(hp) == p.len() as u32);
        assert(spec_u32_from_le_bytes(ha) == payload.len() as u32);
        assert(p.len() == payload.len());
        assert(all.len() == 4 + payload.len());
    }
}

proof fn lemma_read_run(length: Option<u32>, buf: Seq<u8>, pieces: Seq<Seq<u8>>, payload: Seq<u8>)
    requires
        payload.len() <= u32::MAX,
        pieces.len() > 0,
        pieces.last().len() > 0,
        pending(length, buf) + pieces.flatten() == frame_bytes(payload),
    ensures
        ({
            let (outs, l, b) = read_run(length, buf, pieces);
            &&& outs.len() == pieces.len()
            &&& forall|i: int| 0 <= i < outs.len() - 1 ==> #[trigger] outs[i] is None
            &&& outs.last() == Some(payload)
            &&& pending(l, b) == Seq::<u8>::empty()
        }),
    decreases pieces.len(),
{
    let fed = buf + pieces[0];
    law_feed_appends(length, buf, pieces[0]);
    let rest = pieces.drop_first();
    assert(pieces.flatten() == pieces[0] + rest.flatten());
    assert(pending(length, fed) + rest.flatten() =~= frame_bytes(payload));
    let (l2, b2) = after_take(length, fed);
    if pieces.len() == 1 {
        assert(rest.flatten() =~= Seq::<u8>::empty());
        assert(pending(length, fed) =~= frame_bytes(payload) + Seq::<u8>::empty());
        law_frame_round_trip(length, fed, payload, Seq::empty());
        let (outs, l3, b3) = read_run(length, buf, pieces);
        assert(read_run(l2, b2, rest) == (Seq::<Option<Seq<u8>>>::empty(), l2, b2));
        assert(outs =~= seq![Some(payload)]);
    } else {
        assert(rest.last() == pieces.last());
        lemma_flatten_nonempty(rest);
        lemma_no_frame_from_a_part(length, fed, payload, rest.flatten());
        law_take_keeps_bytes(length, fed);
        lemma_read_run(l2, b2, rest, payload);
        let (outs, l3, b3) = read_run(length, buf, pieces);
        let (outs2, l4, b4) = read_run(l2, b2, rest);
        assert(outs == seq![frame_taken(length, fed)] + outs2);
        assert forall|i: int| 0 <= i < outs.len() - 1 implies #[trigger] outs[i] is None by {
            if i > 0 {
                assert(outs[i] == outs2[i - 1]);
            }
        }
    }
}

/// A frame is taken back whole however its bytes come: fed to a new reader
/// in pieces, with a step of reading after each piece, the steps hand out
/// nothing until the last piece, which gives the payload and leaves the
/// reader as new.
pub proof fn law_frame_fed_in_pieces(pieces: Seq<Seq<u8>>, payload: Seq<u8>)
    requires
        payload.len() <= u32::MAX,
        pieces.len() > 0,
        pieces.last().len() > 0,
        pieces.flatten() == frame_bytes(payload),
    ensures
        ({
            let (outs, l, b) = read_run(None, Seq::empty(), pieces);
            &&& outs.len() == pieces.len()
            &&& forall|i: int| 0 <= i < outs.len() - 1 ==> #[trigger] outs[i] is None
            &&& outs.last() == Some(payload)
            &&& l is None
            &&& b == Seq::<u8>::empty()
        }),
{
    assert(pending(None, Seq::<u8>::empty()) + pieces.flatten() =~= frame_bytes(payload));
    lemma_read_run(None, Seq::empty(), pieces, payload);
    let (outs, l, b) = read_run(None, Seq::empty(), pieces);
    if let Some(x) = l {
        vstd::bytes::lemma_auto_spec_u32_to_from_le_bytes();
        assert(spec_u32_to_le_bytes(x).len() == 4);
        assert(pending(l, b).len() >= 4);
    }
}

} // verus!
