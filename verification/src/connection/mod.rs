//! The buffering and framing of a Varlink connection.
//!
//! Varlink messages travel as JSON objects, each terminated by a NUL byte. The read side buffers
//! what the socket delivers until at least one whole message is in, then hands out the messages
//! one by one; the write side frames serialized messages into one buffer and plans how to send
//! them, with the file descriptors that go along with some of them. The socket I/O itself is left
//! to the caller, which reports what it read and performs the writes the plan lists.
use vstd::prelude::*;

pub mod read;
pub mod write;

verus! {

/// The size of a connection buffer to begin with, and the step it grows by.
pub const BUFFER_SIZE: usize = 256;

/// The largest a connection buffer may grow to.
pub const MAX_BUFFER_SIZE: usize = 104857600;

/// What can go wrong on a connection's buffers.
#[derive(Debug, PartialEq, Eq)]
pub enum Error {
    /// The buffer would have to grow beyond its maximum size.
    BufferOverflow,
    /// The peer closed the connection before a whole message arrived.
    UnexpectedEof,
    /// A message could not be serialized to JSON.
    Json(String),
}

/// `n` zero bytes.
pub open spec fn zeros(n: nat) -> Seq<u8> {
    Seq::new(n, |i: int| 0u8)
}

/// A message framed for the wire: its bytes, then the terminating NUL.
pub open spec fn frame(m: Seq<u8>) -> Seq<u8> {
    m.push(0u8)
}

/// Messages framed one after another.
pub open spec fn frames(msgs: Seq<Seq<u8>>) -> Seq<u8>
    decreases msgs.len(),
{
    if msgs.len() == 0 {
        Seq::empty()
    } else {
        frames(msgs.drop_last()) + frame(msgs.last())
    }
}

/// A message that can be framed: not empty, and free of NUL bytes (as a JSON text is).
pub open spec fn plain_message(m: Seq<u8>) -> bool {
    &&& m.len() > 0
    &&& forall|j: int| 0 <= j < m.len() ==> #[trigger] m[j] != 0u8
}

/// The frames of the first `i` messages are the start of the frames of all of them.
pub proof fn lemma_frames_prefix(msgs: Seq<Seq<u8>>, i: int)
    requires
        0 <= i <= msgs.len(),
    ensures
        frames(msgs.take(i)).len() <= frames(msgs).len(),
        frames(msgs) == frames(msgs.take(i)) + frames(msgs.skip(i)),
    decreases msgs.len(),
{
    if i == msgs.len() {
        assert(msgs.take(i) =~= msgs);
        assert(msgs.skip(i) =~= Seq::<Seq<u8>>::empty());
        assert(frames(msgs) =~= frames(msgs.take(i)) + frames(msgs.skip(i)));
    } else {
        lemma_frames_prefix(msgs.drop_last(), i);
        assert(msgs.drop_last().take(i) =~= msgs.take(i));
        assert(msgs.skip(i).drop_last() =~= msgs.drop_last().skip(i));
        assert(msgs.skip(i).last() == msgs.last());
        assert(frames(msgs) =~= frames(msgs.take(i)) + frames(msgs.skip(i)));
    }
}

/// The frame of message `i` starts where the frames of the messages before it end.
pub proof fn lemma_frame_at(msgs: Seq<Seq<u8>>, i: int)
    requires
        0 <= i < msgs.len(),
    ensures
        frames(msgs.take(i + 1)) == frames(msgs.take(i)) + frame(msgs[i]),
        frames(msgs).subrange(
            frames(msgs.take(i)).len() as int,
            (frames(msgs.take(i)).len() + msgs[i].len() + 1) as int,
        ) == frame(msgs[i]),
{
    assert(msgs.take(i + 1).drop_last() =~= msgs.take(i));
    lemma_frames_prefix(msgs, i + 1);
    let a = frames(msgs.take(i));
    let b = frame(msgs[i]);
    let c = frames(msgs.skip(i + 1));
    assert(frames(msgs) == a + b + c);
    assert((a + b + c).subrange(a.len() as int, (a.len() + b.len()) as int) =~= b);
}

} // verus!
