//! Compact JSON written straight into a caller's byte slice.
//!
//! The writer never grows its buffer: a value that does not fit is refused with
//! [`Error::BufferTooSmall`], and everything written before the refusal stays where it was put.
use vstd::prelude::*;

pub mod format;
pub mod ser;

verus! {

/// Errors that can occur during serialization.
#[derive(Debug, Clone, Copy, PartialEq, Eq)]
pub enum Error {
    /// Key must be a string.
    KeyMustBeAString,
    /// Buffer is too small to hold the serialized value.
    BufferTooSmall,
}

/// The description of a serialization error.
pub open spec fn error_message(e: Error) -> Seq<char> {
    match e {
        Error::KeyMustBeAString => "key must be a string"@,
        Error::BufferTooSmall => "buffer too small"@,
    }
}

impl Error {
    /// The human-readable description of this error.
    pub fn message(&self) -> (r: String)
        ensures
            r@ == error_message(*self),
    {
        match self {
            Error::KeyMustBeAString => String::from_str("key must be a string"),
            Error::BufferTooSmall => String::from_str("buffer too small"),
        }
    }
}

/// `buf` with `bytes` laid over it from offset `at` on.
pub open spec fn put(buf: Seq<u8>, at: int, bytes: Seq<u8>) -> Seq<u8> {
    buf.take(at) + bytes + buf.skip(at + bytes.len())
}

/// A writer's state as (buffer contents, position) is consistent.
pub open spec fn fits(w: (Seq<u8>, nat)) -> bool {
    w.1 <= w.0.len()
}

/// Going from `before` to `after` wrote `out` at the position: all of it when `ok`, which is
/// exactly when it fits, and otherwise a proper prefix of it.
pub open spec fn emits(before: (Seq<u8>, nat), after: (Seq<u8>, nat), out: Seq<u8>, ok: bool) -> bool {
    &&& after.0.len() == before.0.len()
    &&& after.1 <= after.0.len()
    &&& (ok <==> before.1 + out.len() <= before.0.len())
    &&& ok ==> after.1 == before.1 + out.len() && after.0 == put(before.0, before.1 as int, out)
    &&& !ok ==> exists|k: nat|
        #![trigger out.take(k as int)]
        k < out.len() && after.1 == before.1 + k && after.0 == put(before.0, before.1 as int, out.take(k as int))
}

/// The outcome of a write: success, or a refusal for want of room.
pub open spec fn wrote(before: (Seq<u8>, nat), after: (Seq<u8>, nat), out: Seq<u8>, r: Result<(), Error>) -> bool {
    &&& emits(before, after, out, r is Ok)
    &&& r is Err ==> r == Err::<(), Error>(Error::BufferTooSmall)
}

proof fn lemma_put_put(buf: Seq<u8>, at: int, x: Seq<u8>, y: Seq<u8>)
    requires
        0 <= at,
        at + x.len() + y.len() <= buf.len(),
    ensures
        put(put(buf, at, x), at + x.len(), y) == put(buf, at, x + y),
{
    assert(put(put(buf, at, x), at + x.len(), y) =~= put(buf, at, x + y));
}

/// Writing nothing leaves the writer as it was.
pub proof fn lemma_emits_nothing(w: (Seq<u8>, nat))
    requires
        fits(w),
    ensures
        emits(w, w, Seq::empty(), true),
{
    assert(put(w.0, w.1 as int, Seq::empty()) =~= w.0);
}

/// Writing `done` and then `piece` writes their concatenation; a refusal of `piece` is a refusal
/// of anything that goes on from `done + piece`.
pub proof fn lemma_step(
    a: (Seq<u8>, nat),
    b: (Seq<u8>, nat),
    c: (Seq<u8>, nat),
    done: Seq<u8>,
    piece: Seq<u8>,
    ok: bool,
    total: Seq<u8>,
)
    requires
        fits(a),
        emits(a, b, done, true),
        emits(b, c, piece, ok),
        done.len() + piece.len() <= total.len(),
        total.take((done.len() + piece.len()) as int) == done + piece,
    ensures
        ok ==> emits(a, c, done + piece, true),
        !ok ==> emits(a, c, total, false),
{
    if ok {
        lemma_put_put(a.0, a.1 as int, done, piece);
    } else {
        let k = choose|k: nat|
            #![trigger piece.take(k as int)]
            k < piece.len() && c.1 == b.1 + k && c.0 == put(b.0, b.1 as int, piece.take(k as int));
        lemma_put_put(a.0, a.1 as int, done, piece.take(k as int));
        let kk = (done.len() + k) as nat;
        assert(total.take(kk as int) =~= done + piece.take(k as int)) by {
            assert(total.take(kk as int) =~= total.take((done.len() + piece.len()) as int).take(kk as int));
        }
        assert(kk < total.len());
    }
}

/// A writer into a byte slice that it never grows.
pub struct ByteSliceWriter<'a> {
    output: &'a mut [u8],
    pos: usize,
}

impl<'a> View for ByteSliceWriter<'a> {
    type V = (Seq<u8>, nat);

    /// The buffer's contents and the position of the next byte.
    closed spec fn view(&self) -> (Seq<u8>, nat) {
        (self.output@, self.pos as nat)
    }
}

impl<'a> ByteSliceWriter<'a> {
    /// A writer at the start of `output`.
    pub fn new(output: &'a mut [u8]) -> (r: Self)
        ensures
            r@ == (old(output)@, 0nat),
    {
        ByteSliceWriter { output, pos: 0 }
    }

    /// The number of bytes written so far.
    pub fn position(&self) -> (r: usize)
        ensures
            r == self@.1,
    {
        self.pos
    }

    /// Writes all of `buf`, or nothing when it does not fit.
    pub fn write_all(&mut self, buf: &[u8]) -> (r: Result<(), Error>)
        requires
            fits(old(self)@),
        ensures
            wrote(old(self)@, final(self)@, buf@, r),
            r is Err ==> final(self)@ == old(self)@,
    {
        let _ = self.output.len();
        if buf.len() > self.output.len() - self.pos {
            proof {
                assert(put(self.output@, self.pos as int, buf@.take(0)) =~= self.output@);
            }
            return Err(Error::BufferTooSmall);
        }
        let mut i: usize = 0;
        while i < buf.len()
            invariant
                self.pos + buf@.len() <= self.output@.len(),
                self.output@.len() <= usize::MAX,
                self.output@.len() == old(self).output@.len(),
                self.pos == old(self).pos,
                i <= buf@.len(),
                self.output@ == old(self).output@.take(self.pos as int) + buf@.take(i as int)
                    + old(self).output@.skip(self.pos + i as int),
            decreases buf@.len() - i,
        {
            let p = self.pos + i;
            self.output[p] = buf[i];
            assert(self.output@ =~= old(self).output@.take(self.pos as int) + buf@.take(i + 1)
                + old(self).output@.skip(self.pos + i + 1 as int));
            i = i + 1;
        }
        assert(buf@.take(i as int) =~= buf@);
        self.pos = self.pos + buf.len();
        Ok(())
    }
}

} // verus!
