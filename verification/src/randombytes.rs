//! The deterministic byte queue that stands in for the entropy source in
//! known-answer testing: bytes are pushed in, and pulled out in the same
//! order. Pulling more than was pushed is a caller error, reported
//! rather than invented.

use vstd::prelude::*;

verus! {

/// A first-in, first-out byte queue.
pub struct BufferRng {
    buf: Vec<u8>,
    pos: usize,
}

impl BufferRng {
    /// The bytes still available to pull, oldest first.
    pub closed spec fn available(&self) -> Seq<u8> {
        self.buf@.subrange(self.pos as int, self.buf@.len() as int)
    }

    pub closed spec fn wf(&self) -> bool {
        self.pos <= self.buf@.len()
    }

    /// An empty queue.
    pub fn new() -> (r: BufferRng)
        ensures
            r.wf(),
            r.available() == Seq::<u8>::empty(),
    {
        let r = BufferRng { buf: Vec::new(), pos: 0 };
        proof {
            assert(r.available() =~= Seq::<u8>::empty());
        }
        r
    }

    /// How many bytes can still be pulled.
    pub fn remaining(&self) -> (r: usize)
        requires
            self.wf(),
        ensures
            r == self.available().len(),
    {
        self.buf.len() - self.pos
    }

    /// Discard everything in the queue.
    pub fn reset(&mut self)
        ensures
            final(self).wf(),
            final(self).available() == Seq::<u8>::empty(),
    {
        self.buf = Vec::new();
        self.pos = 0;
        proof {
            assert(self.available() =~= Seq::<u8>::empty());
        }
    }
}

impl Default for BufferRng {
    fn default() -> (r: BufferRng)
        ensures
            r.wf(),
            r.available() == Seq::<u8>::empty(),
    {
        BufferRng::new()
    }
}

/// Append `bytes` to the back of the queue.
pub fn randombytes_push_to_queue(q: &mut BufferRng, bytes: &[u8])
    requires
        old(q).wf(),
    ensures
        final(q).wf(),
        final(q).available() == old(q).available() + bytes@,
{
    let n = bytes.len();
    for i in 0..n
        invariant
            q.wf(),
            n == bytes@.len(),
            q.available() == old(q).available() + bytes@.take(i as int),
    {
        let ghost before = q.available();
        q.buf.push(bytes[i]);
        proof {
            assert(q.available() =~= before + seq![bytes@[i as int]]);
            assert(q.available() =~= old(q).available() + bytes@.take(i + 1));
        }
    }
    proof {
        assert(bytes@.take(n as int) =~= bytes@);
    }
}

/// Append `bytes` to the back of the queue.
pub fn randombytes_push_bytes(q: &mut BufferRng, bytes: &[u8])
    requires
        old(q).wf(),
    ensures
        final(q).wf(),
        final(q).available() == old(q).available() + bytes@,
{
    randombytes_push_to_queue(q, bytes);
}

/// Pull `out.len()` bytes from the front of the queue; the queue must
/// hold enough, as running dry is a fatal test-harness error.
pub fn randombytes_from_queue(q: &mut BufferRng, out: &mut [u8])
    requires
        old(q).wf(),
        old(out)@.len() <= old(q).available().len(),
    ensures
        final(q).wf(),
        final(out)@ == old(q).available().take(old(out)@.len() as int),
        final(out)@.len() == old(out)@.len(),
        final(q).available() == old(q).available().skip(old(out)@.len() as int),
{
    let n = out.len();
    for i in 0..n
        invariant
            q.wf(),
            n == out@.len(),
            q.buf@ == old(q).buf@,
            q.pos == old(q).pos + i,
            n <= old(q).available().len(),
            forall|k: int| 0 <= k < i ==> out@[k] == old(q).available()[k],
    {
        let bl = q.buf.len();
        let b = q.buf[q.pos];
        q.pos = q.pos + 1;
        out[i] = b;
        proof {
            assert(b == old(q).available()[i as int]);
        }
    }
    proof {
        assert(q.available() =~= old(q).available().skip(n as int));
    }
    proof {
        assert(out@ =~= old(q).available().take(n as int));
    }
}

/// Pull bytes if the queue holds enough; report `false` and leave
/// everything unchanged otherwise.
pub fn get_random_bytes(q: &mut BufferRng, out: &mut [u8]) -> (ok: bool)
    requires
        old(q).wf(),
    ensures
        final(q).wf(),
        ok == (old(out)@.len() <= old(q).available().len()),
        ok ==> final(out)@ == old(q).available().take(old(out)@.len() as int),
        ok ==> final(q).available() == old(q).available().skip(old(out)@.len() as int),
        !ok ==> final(out)@ == old(out)@,
        !ok ==> final(q).available() == old(q).available(),
        final(out)@.len() == old(out)@.len(),
{
    if out.len() <= q.remaining() {
        randombytes_from_queue(q, out);
        true
    } else {
        false
    }
}

} // verus!
