//! The read side of a connection: buffering received bytes and splitting them into messages.
use vstd::prelude::*;

use super::{frame, frames, lemma_frame_at, lemma_frames_prefix, plain_message, zeros, Error, BUFFER_SIZE, MAX_BUFFER_SIZE};
use crate::json::put;

verus! {

/// The abstract state of the read side.
pub struct ReadView {
    /// The buffer.
    pub buf: Seq<u8>,
    /// The end of the bytes received so far.
    pub read_pos: nat,
    /// The start of the next message to hand out; 0 when the buffer must be refilled first.
    pub msg_pos: nat,
    /// One past the terminator of the last message handed out.
    pub last_msg_end: nat,
    /// The end of the received bytes when the last message was handed out.
    pub last_read_end: nat,
}

/// The positions lie within the buffer, in order.
pub open spec fn read_wf(s: ReadView) -> bool {
    &&& s.msg_pos <= s.read_pos <= s.buf.len()
    &&& s.last_msg_end <= s.last_read_end <= s.buf.len()
    &&& BUFFER_SIZE <= s.buf.len() < MAX_BUFFER_SIZE + BUFFER_SIZE
}

/// The state after the socket delivered `data`, and what is reported: `Ok(true)` once the last
/// byte received closes a message, `Ok(false)` when more must be read.
///
/// The data lands at the read position. A full buffer grows by [`BUFFER_SIZE`] zero bytes, or is
/// refused with [`Error::BufferOverflow`] once it has reached [`MAX_BUFFER_SIZE`]; a NUL is then
/// written just past the data, so that a burst always ends with two NULs.
pub open spec fn after_read(s: ReadView, data: Seq<u8>) -> (ReadView, Result<bool, Error>) {
    if data.len() == 0 {
        (s, Err(Error::UnexpectedEof))
    } else {
        let rp = s.read_pos + data.len();
        let written = put(s.buf, s.read_pos as int, data);
        if rp == s.buf.len() && rp >= MAX_BUFFER_SIZE {
            (ReadView { buf: written, read_pos: rp, ..s }, Err(Error::BufferOverflow))
        } else {
            let grown = if rp == s.buf.len() {
                written + zeros(BUFFER_SIZE as nat)
            } else {
                written
            };
            (ReadView { buf: grown.update(rp as int, 0u8), read_pos: rp, ..s }, Ok(data.last() == 0u8))
        }
    }
}

/// The state after the message at the message position was taken, its JSON text being `offset`
/// bytes long: the message position moves past its terminator, unless the byte after that is a
/// NUL too, which ends the burst and resets both positions.
pub open spec fn after_consume(s: ReadView, offset: nat) -> ReadView {
    let null = s.msg_pos + offset;
    let s1 = ReadView { last_msg_end: null + 1, last_read_end: s.read_pos, ..s };
    if s.buf[null + 1int] == 0u8 {
        ReadView { read_pos: 0, msg_pos: 0, ..s1 }
    } else {
        ReadView { msg_pos: null + 1, ..s1 }
    }
}

/// The read side of a connection: its buffer and positions.
#[derive(Debug)]
pub struct ReadState {
    buffer: Vec<u8>,
    read_pos: usize,
    msg_pos: usize,
    last_msg_end: usize,
    last_read_end: usize,
}

impl View for ReadState {
    type V = ReadView;

    closed spec fn view(&self) -> ReadView {
        ReadView {
            buf: self.buffer@,
            read_pos: self.read_pos as nat,
            msg_pos: self.msg_pos as nat,
            last_msg_end: self.last_msg_end as nat,
            last_read_end: self.last_read_end as nat,
        }
    }
}

fn push_zeros(v: &mut Vec<u8>, n: usize)
    ensures
        final(v)@ == old(v)@ + zeros(n as nat),
{
    let mut i: usize = 0;
    while i < n
        invariant
            i <= n,
            v@ == old(v)@ + zeros(i as nat),
        decreases n - i,
    {
        v.push(0u8);
        i = i + 1;
        assert(v@ =~= old(v)@ + zeros(i as nat));
    }
}

impl ReadState {
    /// An empty read side, with a buffer of [`BUFFER_SIZE`] zero bytes.
    pub fn new() -> (r: Self)
        ensures
            read_wf(r@),
            r@ == (ReadView { buf: zeros(BUFFER_SIZE as nat), read_pos: 0, msg_pos: 0, last_msg_end: 0, last_read_end: 0 }),
    {
        let mut buffer: Vec<u8> = Vec::new();
        push_zeros(&mut buffer, BUFFER_SIZE);
        proof {
            assert(buffer@ =~= zeros(BUFFER_SIZE as nat));
        }
        ReadState { buffer, read_pos: 0, msg_pos: 0, last_msg_end: 0, last_read_end: 0 }
    }

    /// Whether the socket must be read before a message can be handed out: no message is left
    /// from the last burst.
    pub fn needs_read(&self) -> (r: bool)
        ensures
            r == (self@.msg_pos == 0),
    {
        self.msg_pos == 0
    }

    /// How many bytes the next socket read may deliver: the room left in the buffer.
    pub fn spare_len(&self) -> (r: usize)
        requires
            read_wf(self@),
        ensures
            r == self@.buf.len() - self@.read_pos,
    {
        self.buffer.len() - self.read_pos
    }

    /// Takes in what one socket read delivered.
    pub fn read_from_socket(&mut self, data: &[u8]) -> (r: Result<bool, Error>)
        requires
            read_wf(old(self)@),
            data@.len() <= old(self)@.buf.len() - old(self)@.read_pos,
        ensures
            (final(self)@, r) == after_read(old(self)@, data@),
            r != Err::<bool, Error>(Error::BufferOverflow) ==> read_wf(final(self)@),
            r matches Ok(_) ==> final(self)@.read_pos < final(self)@.buf.len(),
    {
        let n = data.len();
        if n == 0 {
            return Err(Error::UnexpectedEof);
        }
        let ghost s0 = self@;
        let start = self.read_pos;
        let mut i: usize = 0;
        while i < n
            invariant
                n == data@.len(),
                start == s0.read_pos,
                self.read_pos == s0.read_pos,
                self.msg_pos == s0.msg_pos,
                self.last_msg_end == s0.last_msg_end,
                self.last_read_end == s0.last_read_end,
                start + n <= self.buffer@.len(),
                self.buffer@.len() == s0.buf.len(),
                self.buffer@.len() < MAX_BUFFER_SIZE + BUFFER_SIZE,
                i <= n,
                self.buffer@ == put(s0.buf, start as int, data@.take(i as int)),
            decreases n - i,
        {
            self.buffer.set(start + i, data[i]);
            assert(self.buffer@ =~= put(s0.buf, start as int, data@.take(i + 1)));
            i = i + 1;
        }
        assert(data@.take(n as int) =~= data@);
        self.read_pos = start + n;
        if self.read_pos == self.buffer.len() {
            if self.read_pos >= MAX_BUFFER_SIZE {
                return Err(Error::BufferOverflow);
            }
            push_zeros(&mut self.buffer, BUFFER_SIZE);
        }
        let rp = self.read_pos;
        self.buffer.set(rp, 0u8);
        let complete = self.buffer[rp - 1] == 0u8;
        proof {
            assert(self.buffer@[rp - 1] == data@.last());
        }
        Ok(complete)
    }

    /// The bytes from the next message on, up to the end of the buffer.
    pub fn pending(&self) -> (r: &[u8])
        requires
            read_wf(self@),
        ensures
            r@ == self@.buf.skip(self@.msg_pos as int),
    {
        vstd::slice::slice_subrange(self.buffer.as_slice(), self.msg_pos, self.buffer.len())
    }

    /// Whether a message whose JSON text is `offset` bytes long can be taken: its terminator lies
    /// within the bytes received.
    pub fn can_consume(&self, offset: usize) -> (r: bool)
        requires
            read_wf(self@),
        ensures
            r == (self@.msg_pos + offset < self@.read_pos && self@.read_pos < self@.buf.len()),
    {
        offset < self.read_pos - self.msg_pos && self.read_pos < self.buffer.len()
    }

    /// Takes the message at the message position, whose JSON text is `offset` bytes long, and
    /// returns its bytes.
    pub fn read_message(&mut self, offset: usize) -> (r: Vec<u8>)
        requires
            read_wf(old(self)@),
            old(self)@.msg_pos + offset < old(self)@.read_pos,
            old(self)@.read_pos < old(self)@.buf.len(),
        ensures
            final(self)@ == after_consume(old(self)@, offset as nat),
            read_wf(final(self)@),
            r@ == old(self)@.buf.subrange(old(self)@.msg_pos as int, old(self)@.msg_pos + offset),
    {
        let null_index = self.msg_pos + offset;
        let message = vstd::slice::slice_to_vec(
            vstd::slice::slice_subrange(self.buffer.as_slice(), self.msg_pos, null_index),
        );
        self.last_msg_end = null_index + 1;
        self.last_read_end = self.read_pos;
        if self.buffer[null_index + 1] == 0u8 {
            self.read_pos = 0;
            self.msg_pos = 0;
        } else {
            self.msg_pos = null_index + 1;
        }
        message
    }

    /// The bytes received after the terminator of the last message handed out: what a peer that
    /// switched protocols sent beyond its last Varlink message.
    pub fn leftover(&self) -> (r: Vec<u8>)
        requires
            read_wf(self@),
        ensures
            r@ == self@.buf.subrange(self@.last_msg_end as int, self@.last_read_end as int),
    {
        vstd::slice::slice_to_vec(
            vstd::slice::slice_subrange(self.buffer.as_slice(), self.last_msg_end, self.last_read_end),
        )
    }
}

/// The state after taking, one after the other, the first `n` of `msgs`, each by its length.
pub open spec fn consume_all(s: ReadView, msgs: Seq<Seq<u8>>, n: nat) -> ReadView
    decreases n,
{
    if n == 0 {
        s
    } else {
        after_consume(consume_all(s, msgs, (n - 1) as nat), msgs[n - 1].len())
    }
}

proof fn lemma_consume_keeps_buf(s: ReadView, msgs: Seq<Seq<u8>>, n: nat)
    ensures
        consume_all(s, msgs, n).buf == s.buf,
    decreases n,
{
    if n > 0 {
        lemma_consume_keeps_buf(s, msgs, (n - 1) as nat);
    }
}

/// Messages framed by a writer and received in one burst come back out of the read side one by
/// one, each exactly as it was framed, in order; the burst ends, resetting the positions, right
/// after the last of them.
///
/// Starting from a read side with nothing pending, once the frames of `msgs` were delivered and
/// the first `i` messages taken, the message position is at the start of message `i`'s frame (the
/// bytes there are that frame), and taking it moves on to the next frame, or resets the positions
/// when it was the last.
pub proof fn lemma_framing_round_trip(s: ReadView, msgs: Seq<Seq<u8>>, i: nat)
    requires
        read_wf(s),
        s.read_pos == 0,
        s.msg_pos == 0,
        msgs.len() >= 1,
        forall|k: int| 0 <= k < msgs.len() ==> plain_message(#[trigger] msgs[k]),
        frames(msgs).len() < s.buf.len(),
        i < msgs.len(),
    ensures
        ({
            let r = after_read(s, frames(msgs));
            let t = consume_all(r.0, msgs, i);
            &&& r.1 == Ok::<bool, Error>(true)
            &&& t.msg_pos == frames(msgs.take(i as int)).len()
            &&& t.read_pos == frames(msgs).len()
            &&& t.buf.subrange(t.msg_pos as int, (t.msg_pos + msgs[i as int].len() + 1) as int) == frame(msgs[i as int])
            &&& t.msg_pos + msgs[i as int].len() < t.read_pos
            &&& t.read_pos < t.buf.len()
            &&& i + 1 < msgs.len() ==> after_consume(t, msgs[i as int].len()).msg_pos == frames(msgs.take(i + 1int)).len()
            &&& i + 1 == msgs.len() ==> after_consume(t, msgs[i as int].len()).msg_pos == 0
                && after_consume(t, msgs[i as int].len()).read_pos == 0
        }),
    decreases i,
{
    let data = frames(msgs);
    let r = after_read(s, data);
    let buf = r.0.buf;
    lemma_frames_prefix(msgs, msgs.len() - 1);
    assert(msgs.take(msgs.len() - 1 + 1) =~= msgs);
    lemma_frame_at(msgs, msgs.len() - 1);
    assert(data.len() > 0);
    assert(data.last() == 0u8) by {
        assert(data == frames(msgs.take(msgs.len() - 1)) + frame(msgs[msgs.len() - 1]));
    }
    assert(buf == put(s.buf, 0, data).update(data.len() as int, 0u8));
    assert forall|j: int| 0 <= j < data.len() implies #[trigger] buf[j] == data[j] by {}
    assert(buf[data.len() as int] == 0u8);
    if i > 0 {
        lemma_framing_round_trip(s, msgs, (i - 1) as nat);
    } else {
        assert(msgs.take(0) =~= Seq::<Seq<u8>>::empty());
    }
    let t = consume_all(r.0, msgs, i);
    lemma_consume_keeps_buf(r.0, msgs, i);
    let ii = i as int;
    lemma_frame_at(msgs, ii);
    lemma_frames_prefix(msgs, ii + 1);
    let p: int = frames(msgs.take(ii)).len() as int;
    let m = msgs[ii];
    let ml: int = m.len() as int;
    assert(plain_message(m));
    assert(t.buf == buf);
    assert(frames(msgs).subrange(p, p + ml + 1) == frame(m));
    assert(t.buf.subrange(p, p + ml + 1) =~= frame(m)) by {
        assert forall|j: int| 0 <= j < ml + 1 implies #[trigger] t.buf.subrange(p, p + ml + 1)[j] == frame(m)[j] by {
            assert(t.buf[p + j] == data[p + j]);
            assert(data.subrange(p, p + ml + 1)[j] == data[p + j]);
        }
    }
    if ii + 1 < msgs.len() {
        let next = msgs[ii + 1];
        let nl: int = next.len() as int;
        assert(plain_message(next));
        lemma_frame_at(msgs, ii + 1);
        lemma_frames_prefix(msgs, ii + 2);
        let q: int = frames(msgs.take(ii + 1)).len() as int;
        assert(q == p + ml + 1);
        assert(frames(msgs).subrange(q, q + nl + 1) == frame(next));
        assert(data[q] == frame(next)[0]) by {
            assert(data.subrange(q, q + nl + 1)[0] == data[q]);
        }
        assert(t.buf[p + ml + 1] != 0u8);
    } else {
        assert(msgs.take(ii + 1) =~= msgs);
        assert(p + ml + 1 == data.len());
    }
}

/// A read keeps every byte received so far and appends what the socket delivered: after any read
/// that is not refused, the read position has moved past the data, the buffer up to it is the
/// buffer up to the old read position followed by the data, in order, a NUL follows, and the
/// message position is where it was. So the bytes from the message position to the read position
/// are those received since the last burst ended, however many reads brought them and however
/// often the buffer grew.
pub proof fn lemma_read_keeps_bytes(s: ReadView, data: Seq<u8>)
    requires
        read_wf(s),
        data.len() <= s.buf.len() - s.read_pos,
    ensures
        ({
            let (t, r) = after_read(s, data);
            &&& r is Ok <==> (data.len() > 0 && !(s.read_pos + data.len() == s.buf.len() && s.buf.len() >= MAX_BUFFER_SIZE))
            &&& r is Ok ==> {
                &&& t.read_pos == s.read_pos + data.len()
                &&& t.msg_pos == s.msg_pos
                &&& t.read_pos < t.buf.len()
                &&& t.buf.subrange(0, t.read_pos as int) == s.buf.subrange(0, s.read_pos as int) + data
                &&& t.buf.subrange(t.msg_pos as int, t.read_pos as int) == s.buf.subrange(s.msg_pos as int, s.read_pos as int) + data
                &&& t.buf[t.read_pos as int] == 0u8
                &&& r == Ok::<bool, Error>(data.last() == 0u8)
                &&& read_wf(t)
            }
        }),
{
    let (t, r) = after_read(s, data);
    if data.len() > 0 && r is Ok {
        let rp = s.read_pos + data.len();
        let written = put(s.buf, s.read_pos as int, data);
        assert(written.len() == s.buf.len());
        assert forall|k: int| 0 <= k < rp implies #[trigger] t.buf[k] == (s.buf.subrange(0, s.read_pos as int) + data)[k] by {
            if k < s.read_pos {
                assert(written[k] == s.buf[k]);
            } else {
                assert(written[k] == data[k - s.read_pos]);
            }
        }
        assert(t.buf.subrange(0, t.read_pos as int) =~= s.buf.subrange(0, s.read_pos as int) + data);
        assert(t.buf.subrange(t.msg_pos as int, t.read_pos as int) =~= t.buf.subrange(0, t.read_pos as int).subrange(s.msg_pos as int, t.read_pos as int));
        assert(s.buf.subrange(s.msg_pos as int, s.read_pos as int) + data =~= (s.buf.subrange(0, s.read_pos as int) + data).subrange(s.msg_pos as int, t.read_pos as int));
    }
}

} // verus!
