//! The byte-producing side of the engine: a synchronous pull-based source of
//! bytes, and an in-memory implementation of it.

use vstd::prelude::*;
use vstd::pervasive::VecAdditionalExecFns;

verus! {

/// The underlying source failed while producing bytes.
///
/// The engine propagates this failure to its caller without retrying; bytes
/// pulled before the failing call remain buffered and consumable.
#[derive(Debug, Clone, Copy, PartialEq, Eq)]
pub struct SourceError;

/// A synchronous pull-based producer of bytes.
///
/// An implementation owns some stream of bytes, exposed to specifications as
/// `remaining()`. A call to `pull` writes a prefix of that stream into a
/// caller-supplied range of a byte store and reports how many bytes it
/// produced; producing zero bytes into a non-empty range signals end of
/// stream. A source whose `infallible()` holds never reports `SourceError`.
pub trait ByteSource: Sized {
    /// The bytes this source will still produce, in order.
    spec fn remaining(&self) -> Seq<u8>;

    /// Whether this source is known never to fail.
    spec fn infallible(&self) -> bool;

    /// Produce bytes into `dest[start..]`, returning the count produced.
    ///
    /// On success the produced bytes are the next bytes of the stream, the
    /// rest of `dest` is untouched, and the stream advances past exactly the
    /// produced bytes. A count of zero with room available means the stream
    /// is exhausted. On failure nothing is written and the stream does not
    /// advance.
    fn pull(&mut self, dest: &mut Vec<u8>, start: usize) -> (r: Result<usize, SourceError>)
        requires
            start <= old(dest)@.len(),
        ensures
            final(dest)@.len() == old(dest)@.len(),
            final(self).infallible() == old(self).infallible(),
            match r {
                Ok(n) => {
                    &&& n <= old(dest)@.len() - start
                    &&& n <= old(self).remaining().len()
                    &&& final(dest)@ == old(dest)@.take(start as int)
                        + old(self).remaining().take(n as int)
                        + old(dest)@.skip((start + n) as int)
                    &&& final(self).remaining() == old(self).remaining().skip(n as int)
                    &&& (n == 0 ==> old(self).remaining().len() == 0
                        || start == old(dest)@.len())
                },
                Err(_) => {
                    &&& final(dest)@ == old(dest)@
                    &&& final(self).remaining() == old(self).remaining()
                    &&& !old(self).infallible()
                },
            },
    ;
}

/// A [`ByteSource`] over an in-memory byte vector.
///
/// It produces the bytes of the vector in order and never fails, which makes
/// it the natural source for tests and for callers that already hold the
/// whole input.
pub struct SliceSource {
    data: Vec<u8>,
    pos: usize,
}

impl SliceSource {
    #[verifier::type_invariant]
    spec fn wf(self) -> bool {
        self.pos <= self.data@.len()
    }

    /// Creates a source that will produce exactly the bytes of `data`.
    pub fn new(data: Vec<u8>) -> (s: SliceSource)
        ensures
            s.remaining() == data@,
            s.infallible(),
    {
        SliceSource { data, pos: 0 }
    }
}

impl ByteSource for SliceSource {
    closed spec fn remaining(&self) -> Seq<u8> {
        self.data@.skip(self.pos as int)
    }

    closed spec fn infallible(&self) -> bool {
        true
    }

    fn pull(&mut self, dest: &mut Vec<u8>, start: usize) -> (r: Result<usize, SourceError>) {
        proof {
            use_type_invariant(&*self);
        }
        let room = dest.len() - start;
        let avail = self.data.len() - self.pos;
        let n = if room < avail {
            room
        } else {
            avail
        };
        let mut i: usize = 0;
        while i < n
            invariant
                i <= n,
                n <= dest@.len() - start,
                n <= self.data@.len() - self.pos,
                start <= dest@.len(),
                dest@.len() == old(dest)@.len(),
                dest@.len() <= usize::MAX,
                self.data@.len() <= usize::MAX,
                self == old(self),
                self.pos <= self.data@.len(),
                forall|j: int| 0 <= j < start ==> #[trigger] dest@[j] == old(dest)@[j],
                forall|j: int|
                    start <= j < start + i ==> #[trigger] dest@[j] == self.data@[self.pos + j
                        - start],
                forall|j: int| start + i <= j < dest@.len() ==> #[trigger] dest@[j] == old(dest)@[j],
            decreases n - i,
        {
            let b = self.data[self.pos + i];
            dest.set(start + i, b);
            i = i + 1;
        }
        proof {
            assert(dest@ =~= old(dest)@.take(start as int)
                + old(self).remaining().take(n as int)
                + old(dest)@.skip((start + n) as int));
        }
        self.pos = self.pos + n;
        proof {
            assert(self.remaining() =~= old(self).remaining().skip(n as int));
        }
        Ok(n)
    }
}

} // verus!
