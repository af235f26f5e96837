//! The write side of a connection: framing serialized messages into one buffer and planning
//! their sending, with the file descriptors some of them carry.
use std::collections::VecDeque;
use vstd::prelude::*;

use super::{frame, frames, zeros, Error, BUFFER_SIZE, MAX_BUFFER_SIZE};
use crate::json::put;

verus! {

broadcast use vstd::std_specs::vecdeque::group_vec_dequeue_axioms;

/// The abstract state of the write side.
pub struct WriteView {
    /// The buffer.
    pub buf: Seq<u8>,
    /// The end of the framed messages waiting to be sent.
    pub pos: nat,
    /// The (offset, length) of each waiting message that carries file descriptors, in order.
    pub spans: Seq<(usize, usize)>,
}

/// The spans are non-empty, in order, apart, and end by `end`.
pub open spec fn spans_ok(spans: Seq<(usize, usize)>, end: nat) -> bool
    decreases spans.len(),
{
    if spans.len() == 0 {
        true
    } else {
        let last = spans.last();
        &&& last.1 > 0
        &&& last.0 + last.1 <= end
        &&& spans_ok(spans.drop_last(), last.0 as nat)
    }
}

/// The write side's invariant: the waiting messages lie within the buffer, and the spans of those
/// with file descriptors within them.
pub open spec fn write_wf(s: WriteView) -> bool {
    &&& s.pos <= s.buf.len()
    &&& BUFFER_SIZE <= s.buf.len() < MAX_BUFFER_SIZE + BUFFER_SIZE
    &&& spans_ok(s.spans, s.pos)
}

/// The buffer after growing by [`BUFFER_SIZE`] zero bytes, or the refusal once it reached
/// [`MAX_BUFFER_SIZE`].
pub open spec fn grown(buf: Seq<u8>) -> Result<Seq<u8>, Error> {
    if buf.len() >= MAX_BUFFER_SIZE {
        Err(Error::BufferOverflow)
    } else {
        Ok(buf + zeros(BUFFER_SIZE as nat))
    }
}

/// The state after a serialized message `msg` is framed at the write position, and the span it
/// took; a message with file descriptors has its span recorded.
///
/// The terminating NUL goes right after the message; when the message fills the buffer to its
/// end, the buffer grows first, and if it may not, the message stays written but not framed.
pub open spec fn after_push(s: WriteView, msg: Seq<u8>, has_fds: bool) -> (WriteView, Result<(usize, usize), Error>) {
    let start = s.pos;
    let end = start + msg.len();
    let written = put(s.buf, start as int, msg);
    if end == s.buf.len() && written.len() >= MAX_BUFFER_SIZE {
        (WriteView { buf: written, ..s }, Err(Error::BufferOverflow))
    } else {
        let room = if end == s.buf.len() {
            written + zeros(BUFFER_SIZE as nat)
        } else {
            written
        };
        let span = (start as usize, (msg.len() + 1) as usize);
        (
            WriteView {
                buf: room.update(end as int, 0u8),
                pos: end + 1,
                spans: if has_fds {
                    s.spans.push(span)
                } else {
                    s.spans
                },
            },
            Ok(span),
        )
    }
}

/// One write of a flush: the bytes `start..end` of the buffer, with the next batch of file
/// descriptors or without any.
#[derive(Debug, Clone, Copy, PartialEq, Eq)]
pub struct Chunk {
    pub start: usize,
    pub end: usize,
    pub with_fds: bool,
}

/// Where the bytes sent for the spans end.
pub open spec fn spans_end(spans: Seq<(usize, usize)>) -> nat {
    if spans.len() == 0 {
        0
    } else {
        (spans.last().0 + spans.last().1) as nat
    }
}

/// The writes that send everything up to the end of the last span: the bytes before each span
/// without file descriptors, when there are any, then the span's message with them.
pub open spec fn span_chunks(spans: Seq<(usize, usize)>) -> Seq<Chunk>
    decreases spans.len(),
{
    if spans.len() == 0 {
        Seq::empty()
    } else {
        let before = spans_end(spans.drop_last());
        let last = spans.last();
        let gap = if before < last.0 {
            seq![Chunk { start: before as usize, end: last.0, with_fds: false }]
        } else {
            Seq::empty()
        };
        span_chunks(spans.drop_last()) + gap + seq![Chunk { start: last.0, end: (last.0 + last.1) as usize, with_fds: true }]
    }
}

/// The writes of a flush: nothing when nothing waits; otherwise the span writes, then the rest in
/// one write without file descriptors.
pub open spec fn flush_chunks(spans: Seq<(usize, usize)>, pos: nat) -> Seq<Chunk> {
    if pos == 0 {
        Seq::empty()
    } else {
        let sent = spans_end(spans);
        span_chunks(spans) + if sent < pos {
            seq![Chunk { start: sent as usize, end: pos as usize, with_fds: false }]
        } else {
            Seq::empty()
        }
    }
}

/// The write side of a connection: its buffer, the end of what waits to be sent, and the spans of
/// the waiting messages that carry file descriptors.
#[derive(Debug)]
pub struct WriteState {
    buffer: Vec<u8>,
    pos: usize,
    spans: VecDeque<(usize, usize)>,
}

impl View for WriteState {
    type V = WriteView;

    closed spec fn view(&self) -> WriteView {
        WriteView { buf: self.buffer@, pos: self.pos as nat, spans: self.spans@ }
    }
}

/// What the write side makes of one attempt to serialize a message into its spare room.
#[derive(Debug, PartialEq, Eq)]
pub enum EnqueueStep {
    /// The buffer grew; serialize again.
    Retry,
    /// The message is framed at `offset`, taking `len` bytes with its terminator.
    Queued { offset: usize, len: usize },
}

fn push_zeros(v: &mut Vec<u8>, n: usize)
    ensures
        final(v)@ == old(v)@ + zeros(n as nat),
{
    let mut i: usize = 0;
    while i < n
        invariant
            i <= n,
            v@ == old(v)@ + zeros(i as nat),
        decreases n - i,
    {
        v.push(0u8);
        i = i + 1;
        assert(v@ =~= old(v)@ + zeros(i as nat));
    }
}

proof fn lemma_spans_ok_weaken(spans: Seq<(usize, usize)>, a: nat, b: nat)
    requires
        spans_ok(spans, a),
        a <= b,
    ensures
        spans_ok(spans, b),
    decreases spans.len(),
{
}

proof fn lemma_spans_end_bound(spans: Seq<(usize, usize)>, end: nat)
    requires
        spans_ok(spans, end),
    ensures
        spans_end(spans) <= end,
{
}

impl WriteState {
    /// An empty write side, with a buffer of [`BUFFER_SIZE`] zero bytes.
    pub fn new() -> (r: Self)
        ensures
            write_wf(r@),
            r@ == (WriteView { buf: zeros(BUFFER_SIZE as nat), pos: 0, spans: Seq::empty() }),
    {
        let mut buffer: Vec<u8> = Vec::new();
        push_zeros(&mut buffer, BUFFER_SIZE);
        proof {
            assert(buffer@ =~= zeros(BUFFER_SIZE as nat));
        }
        WriteState { buffer, pos: 0, spans: VecDeque::new() }
    }

    /// The end of the framed messages waiting to be sent.
    pub fn position(&self) -> (r: usize)
        ensures
            r == self@.pos,
    {
        self.pos
    }

    /// The bytes waiting to be sent.
    pub fn bytes(&self, start: usize, end: usize) -> (r: &[u8])
        requires
            write_wf(self@),
            start <= end <= self@.pos,
        ensures
            r@ == self@.buf.subrange(start as int, end as int),
    {
        vstd::slice::slice_subrange(self.buffer.as_slice(), start, end)
    }

    /// How many bytes a message serialized next may take: the room after the write position.
    pub fn spare_len(&self) -> (r: usize)
        requires
            write_wf(self@),
        ensures
            r == self@.buf.len() - self@.pos,
    {
        self.buffer.len() - self.pos
    }

    /// Grows the buffer by [`BUFFER_SIZE`] zero bytes, unless it has reached [`MAX_BUFFER_SIZE`].
    pub fn grow_buffer(&mut self) -> (r: Result<(), Error>)
        requires
            write_wf(old(self)@),
        ensures
            write_wf(final(self)@),
            final(self)@.pos == old(self)@.pos,
            final(self)@.spans == old(self)@.spans,
            match grown(old(self)@.buf) {
                Ok(b) => r is Ok && final(self)@.buf == b,
                Err(e) => r == Err::<(), Error>(e) && final(self)@.buf == old(self)@.buf,
            },
    {
        if self.buffer.len() >= MAX_BUFFER_SIZE {
            return Err(Error::BufferOverflow);
        }
        push_zeros(&mut self.buffer, BUFFER_SIZE);
        Ok(())
    }

    /// Frames a serialized message at the write position.
    pub fn push_message(&mut self, msg: &[u8], has_fds: bool) -> (r: Result<(usize, usize), Error>)
        requires
            write_wf(old(self)@),
            msg@.len() <= old(self)@.buf.len() - old(self)@.pos,
        ensures
            (final(self)@, r) == after_push(old(self)@, msg@, has_fds),
            r is Ok ==> write_wf(final(self)@),
            r is Err ==> final(self)@.pos == old(self)@.pos && final(self)@.spans == old(self)@.spans,
            final(self)@.buf.len() >= old(self)@.buf.len(),
            final(self)@.buf.len() < MAX_BUFFER_SIZE + BUFFER_SIZE,
    {
        let ghost s0 = self@;
        let start = self.pos;
        let n = msg.len();
        let mut i: usize = 0;
        while i < n
            invariant
                n == msg@.len(),
                start == s0.pos,
                self.pos == s0.pos,
                self.spans@ == s0.spans,
                start + n <= self.buffer@.len(),
                self.buffer@.len() == s0.buf.len(),
                self.buffer@.len() < MAX_BUFFER_SIZE + BUFFER_SIZE,
                i <= n,
                self.buffer@ == put(s0.buf, start as int, msg@.take(i as int)),
            decreases n - i,
        {
            self.buffer.set(start + i, msg[i]);
            assert(self.buffer@ =~= put(s0.buf, start as int, msg@.take(i + 1)));
            i = i + 1;
        }
        assert(msg@.take(n as int) =~= msg@);
        let end = start + n;
        if end == self.buffer.len() {
            if self.buffer.len() >= MAX_BUFFER_SIZE {
                return Err(Error::BufferOverflow);
            }
            push_zeros(&mut self.buffer, BUFFER_SIZE);
        }
        self.buffer.set(end, 0u8);
        self.pos = end + 1;
        if has_fds {
            self.spans.push_back((start, n + 1));
            proof {
                assert(self.spans@.drop_last() =~= s0.spans);
                lemma_spans_ok_weaken(s0.spans, s0.pos, s0.pos);
            }
        } else {
            proof {
                lemma_spans_ok_weaken(s0.spans, s0.pos, (end + 1) as nat);
            }
        }
        Ok((start, n + 1))
    }

    /// What to do after an attempt to serialize a message into the spare room: grow the buffer
    /// and try again when it did not fit, give up when the value cannot be JSON, frame the message
    /// when it was written.
    pub fn enqueue_step(&mut self, outcome: Result<&[u8], crate::json::Error>, has_fds: bool) -> (r: Result<EnqueueStep, Error>)
        requires
            write_wf(old(self)@),
            outcome matches Ok(m) ==> m@.len() <= old(self)@.buf.len() - old(self)@.pos,
        ensures
            final(self)@.buf.len() < MAX_BUFFER_SIZE + BUFFER_SIZE,
            match outcome {
                Err(crate::json::Error::BufferTooSmall) => match grown(old(self)@.buf) {
                    Ok(b) => r == Ok::<EnqueueStep, Error>(EnqueueStep::Retry) && final(self)@ == (WriteView { buf: b, ..old(self)@ }),
                    Err(e) => r == Err::<EnqueueStep, Error>(e) && final(self)@ == old(self)@,
                },
                Err(crate::json::Error::KeyMustBeAString) => r matches Err(Error::Json(m)) && m@ == "key must be a string"@
                    && final(self)@ == old(self)@,
                Ok(m) => {
                    let (after, res) = after_push(old(self)@, m@, has_fds);
                    &&& final(self)@ == after
                    &&& match res {
                        Ok(span) => r == Ok::<EnqueueStep, Error>(EnqueueStep::Queued { offset: span.0, len: span.1 }),
                        Err(e) => r == Err::<EnqueueStep, Error>(e),
                    }
                },
            },
            r is Ok ==> write_wf(final(self)@),
    {
        match outcome {
            Err(crate::json::Error::BufferTooSmall) => {
                let g = self.grow_buffer();
                match g {
                    Ok(()) => Ok(EnqueueStep::Retry),
                    Err(e) => Err(e),
                }
            },
            Err(crate::json::Error::KeyMustBeAString) => Err(Error::Json(String::from_str("key must be a string"))),
            Ok(msg) => {
                let p = self.push_message(msg, has_fds);
                match p {
                    Ok((offset, len)) => Ok(EnqueueStep::Queued { offset, len }),
                    Err(e) => Err(e),
                }
            },
        }
    }

    /// The writes that send what waits, in order.
    pub fn flush_plan(&self) -> (r: Vec<Chunk>)
        requires
            write_wf(self@),
        ensures
            r@ == flush_chunks(self@.spans, self@.pos),
    {
        if self.pos == 0 {
            return Vec::new();
        }
        let mut out: Vec<Chunk> = Vec::new();
        let mut sent: usize = 0;
        let mut k: usize = 0;
        let ghost spans = self.spans@;
        proof {
            assert(spans.take(0) =~= Seq::<(usize, usize)>::empty());
            lemma_spans_prefix(spans, 0, self.pos as nat);
        }
        while k < self.spans.len()
            invariant
                spans == self.spans@,
                write_wf(self@),
                k <= spans.len(),
                out@ == span_chunks(spans.take(k as int)),
                sent == spans_end(spans.take(k as int)),
                sent <= self.pos,
                spans_ok(spans.take(k as int), spans_start_after(spans, k as int, self.pos as nat)),
            decreases spans.len() - k,
        {
            proof {
                lemma_spans_prefix(spans, k + 1, self.pos as nat);
                assert(spans.take(k + 1).drop_last() =~= spans.take(k as int));
                assert(spans.take(k + 1).last() == spans[k as int]);
            }
            let (offset, len) = self.spans[k];
            if sent < offset {
                out.push(Chunk { start: sent, end: offset, with_fds: false });
            }
            out.push(Chunk { start: offset, end: offset + len, with_fds: true });
            sent = offset + len;
            k = k + 1;
            proof {
                assert(out@ =~= span_chunks(spans.take(k as int)));
            }
        }
        proof {
            assert(spans.take(k as int) =~= spans);
        }
        if sent < self.pos {
            out.push(Chunk { start: sent, end: self.pos, with_fds: false });
        }
        proof {
            assert(out@ =~= flush_chunks(spans, self.pos as nat));
        }
        out
    }

    /// Takes the span of the first waiting message with file descriptors, as its descriptors are
    /// sent.
    pub fn pop_span(&mut self) -> (r: Option<(usize, usize)>)
        requires
            write_wf(old(self)@),
        ensures
            old(self)@.spans.len() == 0 ==> r is None && final(self)@ == old(self)@,
            old(self)@.spans.len() > 0 ==> r == Some(old(self)@.spans[0])
                && final(self)@ == (WriteView { spans: old(self)@.spans.drop_first(), ..old(self)@ }),
            write_wf(final(self)@),
    {
        let ghost s0 = self@.spans;
        let first = self.spans.pop_front();
        proof {
            if s0.len() > 0 {
                assert(self.spans@ =~= s0.drop_first());
                lemma_spans_drop_first(s0, self.pos as nat);
            }
        }
        first
    }

    /// Marks everything waiting as sent.
    pub fn flushed(&mut self)
        requires
            write_wf(old(self)@),
        ensures
            final(self)@ == (WriteView { buf: old(self)@.buf, pos: 0, spans: Seq::empty() }),
            write_wf(final(self)@),
    {
        self.pos = 0;
        self.spans.clear();
    }
}

/// Where the span after the first `k` starts, or `end` when there is none.
pub open spec fn spans_start_after(spans: Seq<(usize, usize)>, k: int, end: nat) -> nat {
    if k < spans.len() {
        spans[k].0 as nat
    } else {
        end
    }
}

proof fn lemma_spans_within(spans: Seq<(usize, usize)>, end: nat)
    requires
        spans_ok(spans, end),
    ensures
        forall|j: int| 0 <= j < spans.len() ==> #[trigger] spans[j].0 + spans[j].1 <= end,
    decreases spans.len(),
{
    if spans.len() > 0 {
        lemma_spans_within(spans.drop_last(), spans.last().0 as nat);
        assert forall|j: int| 0 <= j < spans.len() implies #[trigger] spans[j].0 + spans[j].1 <= end by {
            if j < spans.len() - 1 {
                assert(spans[j] == spans.drop_last()[j]);
            }
        }
    }
}

proof fn lemma_spans_prefix(spans: Seq<(usize, usize)>, k: int, end: nat)
    requires
        spans_ok(spans, end),
        0 <= k <= spans.len(),
    ensures
        spans_ok(spans.take(k), spans_start_after(spans, k, end)),
        spans_end(spans.take(k)) <= spans_start_after(spans, k, end),
        spans_start_after(spans, k, end) <= end,
        k < spans.len() ==> spans[k].1 > 0 && spans[k].0 + spans[k].1 <= spans_start_after(spans, k + 1, end),
    decreases spans.len(),
{
    lemma_spans_within(spans, end);
    if k == spans.len() {
        assert(spans.take(k) =~= spans);
        lemma_spans_end_bound(spans, end);
    } else {
        let rest = spans.drop_last();
        lemma_spans_prefix(rest, k, spans.last().0 as nat);
        assert(rest.take(k) =~= spans.take(k));
        if k < spans.len() - 1 {
            assert(rest[k] == spans[k]);
            assert(spans_start_after(rest, k, spans.last().0 as nat) == spans_start_after(spans, k, end));
            if k + 1 < spans.len() - 1 {
                assert(rest[k + 1] == spans[k + 1]);
            }
        } else {
            assert(spans_start_after(rest, k, spans.last().0 as nat) == spans.last().0);
        }
    }
}

proof fn lemma_spans_drop_first(spans: Seq<(usize, usize)>, end: nat)
    requires
        spans_ok(spans, end),
        spans.len() > 0,
    ensures
        spans_ok(spans.drop_first(), end),
    decreases spans.len(),
{
    if spans.len() > 1 {
        lemma_spans_drop_first(spans.drop_last(), spans.last().0 as nat);
        assert(spans.drop_first().drop_last() =~= spans.drop_last().drop_first());
        assert(spans.drop_first().last() == spans.last());
    }
}

/// Framing a message after the framed messages `msgs` leaves the frames of `msgs` followed by
/// the new one waiting: what a flush sends is the messages enqueued since the last flush, each
/// with its terminator, in order.
pub proof fn lemma_push_frames(s: WriteView, msgs: Seq<Seq<u8>>, msg: Seq<u8>, has_fds: bool)
    requires
        write_wf(s),
        s.buf.take(s.pos as int) == frames(msgs),
        msg.len() <= s.buf.len() - s.pos,
        after_push(s, msg, has_fds).1 is Ok,
    ensures
        after_push(s, msg, has_fds).0.buf.take(after_push(s, msg, has_fds).0.pos as int) == frames(msgs.push(msg)),
{
    let t = after_push(s, msg, has_fds).0;
    assert(msgs.push(msg).drop_last() =~= msgs);
    assert(t.buf.take(t.pos as int) =~= frames(msgs) + frame(msg));
}

/// The chunks `c` cover `from..to` one after another, none of them empty.
pub open spec fn tiles(c: Seq<Chunk>, from: nat, to: nat) -> bool {
    &&& c.len() == 0 ==> from == to
    &&& c.len() > 0 ==> c[0].start == from && c.last().end == to
    &&& forall|k: int| 0 <= k < c.len() ==> #[trigger] c[k].start < c[k].end
    &&& forall|k: int| 0 <= k < c.len() - 1 ==> #[trigger] c[k].end == c[k + 1].start
}

proof fn lemma_tiles_concat(a: Seq<Chunk>, b: Seq<Chunk>, x: nat, y: nat, z: nat)
    requires
        tiles(a, x, y),
        tiles(b, y, z),
    ensures
        tiles(a + b, x, z),
{
    if a.len() == 0 {
        assert(a + b =~= b);
    } else if b.len() == 0 {
        assert(a + b =~= a);
    } else {
        let c = a + b;
        assert forall|k: int| 0 <= k < c.len() implies #[trigger] c[k].start < c[k].end by {
            if k < a.len() {
                assert(c[k] == a[k]);
            } else {
                assert(c[k] == b[k - a.len()]);
            }
        }
        assert forall|k: int| 0 <= k < c.len() - 1 implies #[trigger] c[k].end == c[k + 1].start by {
            if k < a.len() - 1 {
                assert(c[k] == a[k] && c[k + 1] == a[k + 1]);
            } else if k == a.len() - 1 {
                assert(c[k] == a.last() && c[k + 1] == b[0]);
            } else {
                assert(c[k] == b[k - a.len()] && c[k + 1] == b[k + 1 - a.len()]);
            }
        }
        assert(c.last() == b.last());
    }
}

proof fn lemma_tiles_single(ch: Chunk)
    requires
        ch.start < ch.end,
    ensures
        tiles(seq![ch], ch.start as nat, ch.end as nat),
        with_fds_spans(seq![ch]) == if ch.with_fds {
            seq![(ch.start, (ch.end - ch.start) as usize)]
        } else {
            Seq::<(usize, usize)>::empty()
        },
{
    assert(seq![ch].drop_last() =~= Seq::<Chunk>::empty());
    assert(with_fds_spans(Seq::<Chunk>::empty()) =~= Seq::<(usize, usize)>::empty());
    assert(with_fds_spans(seq![ch].drop_last()) =~= Seq::<(usize, usize)>::empty());
    if ch.with_fds {
        assert(Seq::<(usize, usize)>::empty().push((ch.start, (ch.end - ch.start) as usize)) =~= seq![(ch.start, (ch.end - ch.start) as usize)]);
    }
}

/// The writes a flush performs tile the waiting bytes: they start at 0, each starts where the one
/// before ended, none is empty, the last ends at the write position; and the ones that carry file
/// descriptors are exactly the recorded spans, in order.
pub proof fn lemma_flush_tiles(s: WriteView)
    requires
        write_wf(s),
    ensures
        tiles(flush_chunks(s.spans, s.pos), 0, s.pos),
        with_fds_spans(flush_chunks(s.spans, s.pos)) == s.spans,
{
    lemma_spans_end_bound(s.spans, s.pos);
    if s.pos == 0 {
        assert(s.spans.len() == 0) by {
            if s.spans.len() > 0 {
                lemma_spans_within(s.spans, s.pos);
                assert(s.spans.last().1 > 0);
                assert(s.spans[s.spans.len() - 1].0 + s.spans[s.spans.len() - 1].1 <= 0);
            }
        }
    } else {
        lemma_span_chunks_tile(s.spans, s.pos);
        let sc = span_chunks(s.spans);
        let sent = spans_end(s.spans);
        let c = flush_chunks(s.spans, s.pos);
        if sent < s.pos {
            let ch = Chunk { start: sent as usize, end: s.pos as usize, with_fds: false };
            lemma_tiles_single(ch);
            lemma_tiles_concat(sc, seq![ch], 0, sent, s.pos);
            lemma_with_fds_concat(sc, seq![ch]);
            assert(c == sc + seq![ch]);
            assert(with_fds_spans(c) =~= s.spans);
        } else {
            assert(c =~= sc);
        }
    }
}

/// The spans of the chunks that carry file descriptors, in order.
pub open spec fn with_fds_spans(c: Seq<Chunk>) -> Seq<(usize, usize)>
    decreases c.len(),
{
    if c.len() == 0 {
        Seq::empty()
    } else {
        let rest = with_fds_spans(c.drop_last());
        if c.last().with_fds {
            rest.push((c.last().start, (c.last().end - c.last().start) as usize))
        } else {
            rest
        }
    }
}

proof fn lemma_with_fds_concat(a: Seq<Chunk>, b: Seq<Chunk>)
    ensures
        with_fds_spans(a + b) == with_fds_spans(a) + with_fds_spans(b),
    decreases b.len(),
{
    if b.len() == 0 {
        assert(a + b =~= a);
        assert(with_fds_spans(a) + with_fds_spans(b) =~= with_fds_spans(a));
    } else {
        lemma_with_fds_concat(a, b.drop_last());
        assert((a + b).drop_last() =~= a + b.drop_last());
        assert(with_fds_spans(a + b) =~= with_fds_spans(a) + with_fds_spans(b));
    }
}

proof fn lemma_span_chunks_tile(spans: Seq<(usize, usize)>, end: nat)
    requires
        spans_ok(spans, end),
        end <= usize::MAX,
    ensures
        tiles(span_chunks(spans), 0, spans_end(spans)),
        with_fds_spans(span_chunks(spans)) == spans,
    decreases spans.len(),
{
    if spans.len() > 0 {
        let rest = spans.drop_last();
        let last = spans.last();
        lemma_span_chunks_tile(rest, last.0 as nat);
        lemma_spans_end_bound(rest, last.0 as nat);
        let before = spans_end(rest);
        let rc = span_chunks(rest);
        let lch = Chunk { start: last.0, end: (last.0 + last.1) as usize, with_fds: true };
        lemma_tiles_single(lch);
        if before < last.0 {
            let gch = Chunk { start: before as usize, end: last.0, with_fds: false };
            lemma_tiles_single(gch);
            lemma_tiles_concat(rc, seq![gch], 0, before, last.0 as nat);
            lemma_tiles_concat(rc + seq![gch], seq![lch], 0, last.0 as nat, spans_end(spans));
            lemma_with_fds_concat(rc, seq![gch]);
            lemma_with_fds_concat(rc + seq![gch], seq![lch]);
            assert(span_chunks(spans) == rc + seq![gch] + seq![lch]);
        } else {
            lemma_tiles_concat(rc, seq![lch], 0, before, spans_end(spans));
            lemma_with_fds_concat(rc, seq![lch]);
            assert(span_chunks(spans) =~= rc + seq![lch]);
        }
        assert(rest.push(last) =~= spans);
    }
}

} // verus!
