//! The ensured-buffer engine: a byte store, two cursors delimiting the valid
//! region, and the fill/slide/consume operations over them.

use vstd::prelude::*;
use vstd::pervasive::VecAdditionalExecFns;
use vstd::math::max;
use vstd::math::min;
use vstd::slice::slice_subrange;

use crate::source::ByteSource;
use crate::source::SourceError;

verus! {

/// Default buffer capacity, in bytes.
pub const DEFAULT_BUFFER_SIZE: usize = 8 * 1024;

/// Default ensured size, in bytes.
pub const DEFAULT_ENSURED_BYTES: usize = 128;

/// The requested lookahead exceeds the fixed capacity of the store.
///
/// The engine never grows its store to satisfy an over-large request; a
/// caller that needs a larger lookahead must construct a reader with a larger
/// store. The reader's cursors are left untouched when this error is
/// reported.
#[derive(Debug, Clone, Copy, PartialEq, Eq)]
pub struct ExpectedSizeTooLargeError;

/// An error reported by a fill operation.
#[derive(Debug, Clone, Copy, PartialEq, Eq)]
pub enum FillError {
    /// The requested lookahead exceeds the capacity; see
    /// [`ExpectedSizeTooLargeError`]. The caller can recover, for example by
    /// rebuilding the reader with a larger store.
    ExpectedSizeTooLarge(ExpectedSizeTooLargeError),
    /// The underlying source failed. Bytes buffered before the failure
    /// remain valid and consumable.
    Source(SourceError),
}

/// A buffered reader that keeps at least its ensured size of bytes available
/// in the valid region, as long as the underlying source can still supply
/// them.
///
/// The reader owns a fixed-capacity byte store; `buffered()` names the bytes
/// already fetched but not yet consumed, `upstream()` the bytes the source
/// will still produce, and `stream()` their concatenation — every byte the
/// caller has not consumed yet. Filling moves bytes from `upstream()` into
/// `buffered()` without ever losing, duplicating or reordering any, and
/// consuming drops a prefix of `buffered()`.
pub struct EnsuredBufReader<R: ByteSource> {
    inner: R,
    buf: Vec<u8>,
    pos: usize,
    cap: usize,
    ensured_size: usize,
}

impl<R: ByteSource> EnsuredBufReader<R> {
    /// Well-formedness: the cursors delimit a region inside the store, and
    /// the ensured size is positive and no larger than the capacity.
    pub closed spec fn wf(self) -> bool {
        &&& self.pos <= self.cap <= self.buf@.len()
        &&& 1 <= self.ensured_size <= self.buf@.len()
    }

    /// The fixed capacity of the byte store.
    pub closed spec fn capacity(self) -> nat {
        self.buf@.len()
    }

    /// The configured ensured size.
    pub closed spec fn ensured(self) -> nat {
        self.ensured_size as nat
    }

    /// The valid region: bytes already fetched from the source but not yet
    /// consumed, in stream order.
    pub closed spec fn buffered(self) -> Seq<u8> {
        self.buf@.subrange(self.pos as int, self.cap as int)
    }

    /// The bytes the underlying source will still produce.
    pub closed spec fn upstream(self) -> Seq<u8> {
        self.inner.remaining()
    }

    /// Whether the underlying source is known never to fail.
    pub closed spec fn source_infallible(self) -> bool {
        self.inner.infallible()
    }

    /// Every byte not yet consumed: the valid region followed by what is
    /// still upstream.
    pub open spec fn stream(self) -> Seq<u8> {
        self.buffered() + self.upstream()
    }

    /// Creates a reader with the default capacity ([`DEFAULT_BUFFER_SIZE`])
    /// and the default ensured size ([`DEFAULT_ENSURED_BYTES`]).
    pub fn new(inner: R) -> (r: EnsuredBufReader<R>)
        ensures
            r.wf(),
            r.capacity() == DEFAULT_BUFFER_SIZE,
            r.ensured() == DEFAULT_ENSURED_BYTES,
            r.buffered() == Seq::<u8>::empty(),
            r.upstream() == inner.remaining(),
            r.stream() == inner.remaining(),
            r.source_infallible() == inner.infallible(),
    {
        EnsuredBufReader::with_capacity_and_ensured_size(
            DEFAULT_BUFFER_SIZE,
            DEFAULT_ENSURED_BYTES,
            inner,
        )
    }

    /// Creates a reader with the given `capacity` (floored at twice the
    /// default ensured size, so the invariant always holds) and the default
    /// ensured size ([`DEFAULT_ENSURED_BYTES`]).
    pub fn with_capacity(capacity: usize, inner: R) -> (r: EnsuredBufReader<R>)
        ensures
            r.wf(),
            r.capacity() == max(capacity as int, 2 * DEFAULT_ENSURED_BYTES),
            r.ensured() == DEFAULT_ENSURED_BYTES,
            r.buffered() == Seq::<u8>::empty(),
            r.upstream() == inner.remaining(),
            r.stream() == inner.remaining(),
            r.source_infallible() == inner.infallible(),
    {
        let floored = if capacity < 2 * DEFAULT_ENSURED_BYTES {
            2 * DEFAULT_ENSURED_BYTES
        } else {
            capacity
        };
        EnsuredBufReader::with_capacity_and_ensured_size(floored, DEFAULT_ENSURED_BYTES, inner)
    }

    /// Creates a reader with the given `ensured_size` and a capacity derived
    /// from it: the default capacity ([`DEFAULT_BUFFER_SIZE`]), floored at
    /// twice the ensured size.
    ///
    /// `ensured_size` must be positive, and small enough that twice it still
    /// fits in a `usize`.
    pub fn with_ensure(ensured_size: usize, inner: R) -> (r: EnsuredBufReader<R>)
        requires
            1 <= ensured_size,
            2 * ensured_size <= usize::MAX,
        ensures
            r.wf(),
            r.capacity() == max(DEFAULT_BUFFER_SIZE as int, 2 * ensured_size),
            r.ensured() == ensured_size,
            r.buffered() == Seq::<u8>::empty(),
            r.upstream() == inner.remaining(),
            r.stream() == inner.remaining(),
            r.source_infallible() == inner.infallible(),
    {
        let derived = if DEFAULT_BUFFER_SIZE < 2 * ensured_size {
            2 * ensured_size
        } else {
            DEFAULT_BUFFER_SIZE
        };
        EnsuredBufReader::with_capacity_and_ensured_size(derived, ensured_size, inner)
    }

    /// Creates a reader with the given `capacity` and `ensured_size`.
    ///
    /// `ensured_size` must be positive and no larger than `capacity`;
    /// violating that is a caller error, not a runtime condition.
    pub fn with_capacity_and_ensured_size(capacity: usize, ensured_size: usize, inner: R) -> (r:
        EnsuredBufReader<R>)
        requires
            1 <= ensured_size <= capacity,
        ensures
            r.wf(),
            r.capacity() == capacity,
            r.ensured() == ensured_size,
            r.buffered() == Seq::<u8>::empty(),
            r.upstream() == inner.remaining(),
            r.stream() == inner.remaining(),
            r.source_infallible() == inner.infallible(),
    {
        let buf = zeroed_vec(capacity);
        let r = EnsuredBufReader { inner, buf, pos: 0, cap: 0, ensured_size };
        proof {
            assert(r.buffered() =~= Seq::<u8>::empty());
            assert(r.stream() =~= r.upstream());
        }
        r
    }

    /// Creates a reader that takes over `buf` as its store, with the default
    /// ensured size ([`DEFAULT_ENSURED_BYTES`]).
    ///
    /// The store must hold at least [`DEFAULT_ENSURED_BYTES`] bytes.
    pub fn from_mut_ref(buf: Vec<u8>, inner: R) -> (r: EnsuredBufReader<R>)
        requires
            buf@.len() >= DEFAULT_ENSURED_BYTES,
        ensures
            r.wf(),
            r.capacity() == buf@.len(),
            r.ensured() == DEFAULT_ENSURED_BYTES,
            r.buffered() == Seq::<u8>::empty(),
            r.upstream() == inner.remaining(),
            r.stream() == inner.remaining(),
            r.source_infallible() == inner.infallible(),
    {
        EnsuredBufReader::from_mut_ref_and_ensured_size(buf, DEFAULT_ENSURED_BYTES, inner)
    }

    /// Creates a reader that takes over `buf` as its store, with the given
    /// `ensured_size`.
    ///
    /// `ensured_size` must be positive and no larger than the store.
    pub fn from_mut_ref_and_ensured_size(buf: Vec<u8>, ensured_size: usize, inner: R) -> (r:
        EnsuredBufReader<R>)
        requires
            1 <= ensured_size <= buf@.len(),
        ensures
            r.wf(),
            r.capacity() == buf@.len(),
            r.ensured() == ensured_size,
            r.buffered() == Seq::<u8>::empty(),
            r.upstream() == inner.remaining(),
            r.stream() == inner.remaining(),
            r.source_infallible() == inner.infallible(),
    {
        EnsuredBufReader::from_buffer_and_ensured_size(buf, ensured_size, inner)
    }

    /// Creates a reader over a caller-supplied store, with the default
    /// ensured size ([`DEFAULT_ENSURED_BYTES`]).
    ///
    /// The store must hold at least [`DEFAULT_ENSURED_BYTES`] bytes.
    pub fn from_buffer(buf: Vec<u8>, inner: R) -> (r: EnsuredBufReader<R>)
        requires
            buf@.len() >= DEFAULT_ENSURED_BYTES,
        ensures
            r.wf(),
            r.capacity() == buf@.len(),
            r.ensured() == DEFAULT_ENSURED_BYTES,
            r.buffered() == Seq::<u8>::empty(),
            r.upstream() == inner.remaining(),
            r.stream() == inner.remaining(),
            r.source_infallible() == inner.infallible(),
    {
        EnsuredBufReader::from_buffer_and_ensured_size(buf, DEFAULT_ENSURED_BYTES, inner)
    }

    /// Creates a reader over a caller-supplied store, with the given
    /// `ensured_size`.
    ///
    /// `ensured_size` must be positive and no larger than the store. The
    /// store's current contents are irrelevant: the valid region starts
    /// empty.
    pub fn from_buffer_and_ensured_size(buf: Vec<u8>, ensured_size: usize, inner: R) -> (r:
        EnsuredBufReader<R>)
        requires
            1 <= ensured_size <= buf@.len(),
        ensures
            r.wf(),
            r.capacity() == buf@.len(),
            r.ensured() == ensured_size,
            r.buffered() == Seq::<u8>::empty(),
            r.upstream() == inner.remaining(),
            r.stream() == inner.remaining(),
            r.source_infallible() == inner.infallible(),
    {
        let r = EnsuredBufReader { inner, buf, pos: 0, cap: 0, ensured_size };
        proof {
            assert(r.buffered() =~= Seq::<u8>::empty());
            assert(r.stream() =~= r.upstream());
        }
        r
    }

    /// Returns the valid region without reading from the source.
    pub fn buffer(&self) -> (r: &[u8])
        requires
            self.wf(),
        ensures
            r@ == self.buffered(),
    {
        slice_subrange(self.buf.as_slice(), self.pos, self.cap)
    }

    /// The fixed capacity of the byte store.
    pub fn get_capacity(&self) -> (r: usize)
        ensures
            r == self.capacity(),
    {
        self.buf.len()
    }

    /// The configured ensured size.
    pub fn get_ensured_size(&self) -> (r: usize)
        ensures
            r == self.ensured(),
    {
        self.ensured_size
    }

    /// The number of bytes currently in the valid region.
    pub fn current_bytes(&self) -> (r: usize)
        requires
            self.wf(),
        ensures
            r == self.buffered().len(),
    {
        self.cap - self.pos
    }

    /// Tries to fill the valid region to at least `expected_size` bytes and
    /// returns it.
    ///
    /// The fast path returns the region untouched when it already holds
    /// `expected_size` bytes. A request larger than the capacity fails with
    /// [`FillError::ExpectedSizeTooLarge`] and mutates nothing. Otherwise the
    /// engine slides the region to the head of the store if the space to its
    /// right is too small, then pulls from the source until the region holds
    /// `expected_size` bytes or the source is exhausted; the region may end
    /// up shorter than `expected_size` only if the whole rest of the stream
    /// is in it. Filling never loses, duplicates or reorders bytes: the
    /// unconsumed stream is exactly what it was, and the region is a prefix
    /// of it.
    pub fn fill_buf_to_expected_size(&mut self, expected_size: usize) -> (r: Result<
        &[u8],
        FillError,
    >)
        requires
            old(self).wf(),
        ensures
            final(self).wf(),
            final(self).capacity() == old(self).capacity(),
            final(self).ensured() == old(self).ensured(),
            final(self).source_infallible() == old(self).source_infallible(),
            final(self).stream() == old(self).stream(),
            final(self).buffered().len() >= old(self).buffered().len(),
            final(self).buffered() == old(self).stream().take(final(self).buffered().len() as int),
            match r {
                Ok(view) => {
                    &&& expected_size <= old(self).capacity()
                    &&& view@ == final(self).buffered()
                    &&& final(self).buffered().len() >= min(
                        expected_size as int,
                        old(self).stream().len() as int,
                    )
                    &&& (old(self).buffered().len() >= expected_size ==> *final(self) == *old(self))
                },
                Err(FillError::ExpectedSizeTooLarge(_)) => {
                    &&& expected_size > old(self).capacity()
                    &&& *final(self) == *old(self)
                },
                Err(FillError::Source(_)) => {
                    &&& expected_size <= old(self).capacity()
                    &&& !old(self).source_infallible()
                },
            },
            expected_size > old(self).capacity() ==> r matches Err(
                FillError::ExpectedSizeTooLarge(_),
            ),
            old(self).source_infallible() && expected_size <= old(self).capacity() ==> r matches Ok(
                _,
            ),
    {
        if self.current_bytes() >= expected_size {
            proof {
                lemma_concat_prefix(self.buffered(), self.upstream());
            }
            return Ok(self.buffer());
        }
        if self.buf.len() < expected_size {
            proof {
                lemma_concat_prefix(self.buffered(), self.upstream());
            }
            return Err(FillError::ExpectedSizeTooLarge(ExpectedSizeTooLargeError));
        }
        if self.buf.len() - self.pos < expected_size {
            self.move_buf_to_head();
        }
        proof {
            assert(self.buf.len() == self.buf@.len());
        }
        while self.current_bytes() < expected_size
            invariant
                self.wf(),
                self.buf@.len() <= usize::MAX,
                expected_size <= self.buf@.len(),
                self.buf@.len() - self.pos >= expected_size,
                self.buf@.len() == old(self).buf@.len(),
                self.ensured_size == old(self).ensured_size,
                self.source_infallible() == old(self).source_infallible(),
                self.stream() == old(self).stream(),
                self.buffered().len() >= old(self).buffered().len(),
                old(self).buffered().len() < expected_size,
            ensures
                self.wf(),
                self.buf@.len() == old(self).buf@.len(),
                self.ensured_size == old(self).ensured_size,
                self.source_infallible() == old(self).source_infallible(),
                self.stream() == old(self).stream(),
                self.buffered().len() >= old(self).buffered().len(),
                self.buffered().len() >= expected_size || self.upstream().len() == 0,
            decreases self.upstream().len(),
        {
            let ghost prev = *self;
            let pulled = self.inner.pull(&mut self.buf, self.cap);
            let n = match pulled {
                Ok(n) => n,
                Err(e) => {
                    proof {
                        assert(self.buffered() =~= prev.buffered());
                        lemma_concat_prefix(self.buffered(), self.upstream());
                    }
                    return Err(FillError::Source(e));
                },
            };
            if n == 0 {
                proof {
                    assert(self.buf@ =~= prev.buf@);
                    assert(self.upstream() =~= prev.upstream());
                    assert(self.buffered() =~= prev.buffered());
                }
                break ;
            }
            proof {
                assert(prev.buf@.len() - prev.cap >= 1) by {
                    assert(prev.buf@.len() - prev.pos >= expected_size);
                    assert(prev.cap - prev.pos < expected_size);
                }
            }
            self.cap = self.cap + n;
            proof {
                assert(self.buffered() =~= prev.buffered() + prev.upstream().take(n as int));
                assert(self.stream() =~= prev.stream());
            }
        }
        proof {
            lemma_concat_prefix(self.buffered(), self.upstream());
        }
        Ok(self.buffer())
    }

    /// Re-establishes the ensured guarantee: fills the valid region to at
    /// least the configured ensured size and returns it, exactly as
    /// [`Self::fill_buf_to_expected_size`] called with that size.
    ///
    /// Because the ensured size never exceeds the capacity, this can only
    /// fail with [`FillError::Source`].
    pub fn fill_buf(&mut self) -> (r: Result<&[u8], FillError>)
        requires
            old(self).wf(),
        ensures
            final(self).wf(),
            final(self).capacity() == old(self).capacity(),
            final(self).ensured() == old(self).ensured(),
            final(self).source_infallible() == old(self).source_infallible(),
            final(self).stream() == old(self).stream(),
            final(self).buffered().len() >= old(self).buffered().len(),
            final(self).buffered() == old(self).stream().take(final(self).buffered().len() as int),
            match r {
                Ok(view) => {
                    &&& view@ == final(self).buffered()
                    &&& final(self).buffered().len() >= min(
                        old(self).ensured() as int,
                        old(self).stream().len() as int,
                    )
                },
                Err(e) => {
                    &&& e matches FillError::Source(_)
                    &&& !old(self).source_infallible()
                },
            },
            old(self).source_infallible() ==> r matches Ok(_),
    {
        let expected = self.ensured_size;
        self.fill_buf_to_expected_size(expected)
    }

    /// Consumes `amt` bytes from the front of the valid region.
    ///
    /// The caller may only consume bytes it has actually seen: `amt` must
    /// not exceed the current byte count, and violating that is a caller
    /// error. The rest of the region and everything upstream are untouched,
    /// so the unconsumed stream loses exactly its first `amt` bytes.
    pub fn consume(&mut self, amt: usize)
        requires
            old(self).wf(),
            amt <= old(self).buffered().len(),
        ensures
            final(self).wf(),
            final(self).capacity() == old(self).capacity(),
            final(self).ensured() == old(self).ensured(),
            final(self).source_infallible() == old(self).source_infallible(),
            final(self).buffered() == old(self).buffered().skip(amt as int),
            final(self).upstream() == old(self).upstream(),
            final(self).stream() == old(self).stream().skip(amt as int),
    {
        self.pos = self.pos + amt;
        proof {
            assert(self.buffered() =~= old(self).buffered().skip(amt as int));
            assert(self.stream() =~= old(self).stream().skip(amt as int));
        }
    }

    /// Copies bytes from the stream into the front of `dest` and consumes
    /// them.
    ///
    /// Fills the valid region to the ensured size first, then copies
    /// `min(dest.len(), current_bytes())` bytes. The copied bytes are the
    /// next bytes of the unconsumed stream, in order; the rest of `dest` is
    /// untouched. A count of zero means the stream is exhausted (or `dest`
    /// is empty) — never a transient condition.
    pub fn read(&mut self, dest: &mut Vec<u8>) -> (r: Result<usize, SourceError>)
        requires
            old(self).wf(),
        ensures
            final(self).wf(),
            final(self).capacity() == old(self).capacity(),
            final(self).ensured() == old(self).ensured(),
            final(self).source_infallible() == old(self).source_infallible(),
            final(dest)@.len() == old(dest)@.len(),
            match r {
                Ok(n) => {
                    &&& n <= old(dest)@.len()
                    &&& n <= old(self).stream().len()
                    &&& n >= min(
                        old(dest)@.len() as int,
                        min(old(self).ensured() as int, old(self).stream().len() as int),
                    )
                    &&& final(dest)@ == old(self).stream().take(n as int) + old(dest)@.skip(n as int)
                    &&& final(self).stream() == old(self).stream().skip(n as int)
                    &&& (n == 0 <==> (old(self).stream().len() == 0 || old(dest)@.len() == 0))
                },
                Err(_) => {
                    &&& !old(self).source_infallible()
                    &&& final(dest)@ == old(dest)@
                    &&& final(self).stream() == old(self).stream()
                },
            },
            old(self).source_infallible() ==> r matches Ok(_),
    {
        match self.fill_buf() {
            Ok(_) => {},
            Err(FillError::Source(e)) => {
                return Err(e);
            },
            Err(FillError::ExpectedSizeTooLarge(_)) => {
                return unreached();
            },
        }
        let ghost filled = *self;
        let avail = self.current_bytes();
        let n = if dest.len() < avail {
            dest.len()
        } else {
            avail
        };
        let mut i: usize = 0;
        while i < n
            invariant
                i <= n,
                n <= dest@.len(),
                n <= filled.buffered().len(),
                *self == filled,
                filled.wf(),
                dest@.len() == old(dest)@.len(),
                dest@.len() <= usize::MAX,
                forall|j: int| 0 <= j < i ==> #[trigger] dest@[j] == filled.buffered()[j],
                forall|j: int| i <= j < dest@.len() ==> #[trigger] dest@[j] == old(dest)@[j],
            decreases n - i,
        {
            let b = self.buf[self.pos + i];
            dest.set(i, b);
            i = i + 1;
        }
        self.consume(n);
        proof {
            assert(dest@ =~= old(self).stream().take(n as int) + old(dest)@.skip(n as int));
        }
        Ok(n)
    }

    /// Reads the whole rest of the stream, appending it to `dest`.
    ///
    /// Repeatedly [`Self::read`]s until a call returns zero. On success
    /// `dest` has gained exactly the bytes that were unconsumed at entry, in
    /// order, and the stream is exhausted: nothing is lost, duplicated or
    /// reordered. If the source fails midway, `dest` has gained exactly some
    /// prefix of those bytes and the rest of the stream is still unconsumed.
    pub fn read_to_end(&mut self, dest: &mut Vec<u8>) -> (r: Result<(), SourceError>)
        requires
            old(self).wf(),
        ensures
            final(self).wf(),
            final(self).capacity() == old(self).capacity(),
            final(self).ensured() == old(self).ensured(),
            final(self).source_infallible() == old(self).source_infallible(),
            match r {
                Ok(_) => {
                    &&& final(dest)@ == old(dest)@ + old(self).stream()
                    &&& final(self).stream().len() == 0
                },
                Err(_) => {
                    &&& !old(self).source_infallible()
                    &&& exists|k: int|
                        0 <= k <= old(self).stream().len() && final(dest)@ == old(dest)@ + old(
                            self,
                        ).stream().take(k) && final(self).stream() == old(self).stream().skip(k)
                },
            },
            old(self).source_infallible() ==> r matches Ok(_),
    {
        let chunk_size = self.ensured_size;
        let mut chunk = zeroed_vec(chunk_size);
        let ghost gstream = old(self).stream();
        loop
            invariant
                self.wf(),
                chunk@.len() == chunk_size,
                chunk_size == old(self).ensured_size,
                1 <= chunk_size,
                self.capacity() == old(self).capacity(),
                self.ensured() == old(self).ensured(),
                self.source_infallible() == old(self).source_infallible(),
                self.stream().len() <= gstream.len(),
                self.stream() == gstream.skip(gstream.len() - self.stream().len()),
                dest@ == old(dest)@ + gstream.take(gstream.len() - self.stream().len()),
                gstream == old(self).stream(),
            ensures
                self.wf(),
                self.capacity() == old(self).capacity(),
                self.ensured() == old(self).ensured(),
                self.source_infallible() == old(self).source_infallible(),
                self.stream().len() == 0,
                dest@ == old(dest)@ + gstream,
            decreases self.stream().len(),
        {
            let ghost pre = *self;
            let ghost dest_pre = dest@;
            let n = match self.read(&mut chunk) {
                Ok(n) => n,
                Err(e) => {
                    proof {
                        let k = gstream.len() - self.stream().len();
                        assert(dest@ == old(dest)@ + gstream.take(k));
                    }
                    return Err(e);
                },
            };
            if n == 0 {
                proof {
                    assert(gstream.take(gstream.len() - self.stream().len()) =~= gstream);
                }
                break ;
            }
            let mut i: usize = 0;
            while i < n
                invariant
                    i <= n,
                    n <= chunk@.len(),
                    n <= pre.stream().len(),
                    chunk@.len() == chunk_size,
                    dest@.len() == dest_pre.len() + i,
                    dest@ == dest_pre + chunk@.take(i as int),
                decreases n - i,
            {
                let b = chunk[i];
                dest.push(b);
                i = i + 1;
            }
            proof {
                let k0 = gstream.len() - pre.stream().len();
                assert(chunk@.take(n as int) =~= pre.stream().take(n as int));
                assert(pre.stream().take(n as int) =~= gstream.skip(k0).take(n as int));
                assert(gstream.take(k0) + gstream.skip(k0).take(n as int) =~= gstream.take(
                    k0 + n,
                ));
                assert(self.stream() =~= gstream.skip(k0 + n));
                assert(dest@ == old(dest)@ + gstream.take(gstream.len() - self.stream().len()));
            }
        }
        proof {
            assert(dest@ == old(dest)@ + gstream);
        }
        Ok(())
    }

    /// Slides the valid region to the start of the store, reclaiming the
    /// space before `pos` without losing or reordering buffered bytes. The
    /// copy walks left to right, which is safe when the two regions overlap
    /// because each write lands at or before the position it was read from.
    fn move_buf_to_head(&mut self)
        requires
            old(self).wf(),
        ensures
            final(self).wf(),
            final(self).pos == 0,
            final(self).cap == old(self).cap - old(self).pos,
            final(self).buf@.len() == old(self).buf@.len(),
            final(self).ensured_size == old(self).ensured_size,
            final(self).inner == old(self).inner,
            final(self).buffered() == old(self).buffered(),
            final(self).upstream() == old(self).upstream(),
            final(self).source_infallible() == old(self).source_infallible(),
            final(self).stream() == old(self).stream(),
    {
        if self.pos == self.cap {
            self.pos = 0;
            self.cap = 0;
            proof {
                assert(self.buffered() =~= old(self).buffered());
            }
        } else {
            let len = self.cap - self.pos;
            proof {
                assert(self.buf.len() == self.buf@.len());
            }
            let mut i: usize = 0;
            while i < len
                invariant
                    i <= len,
                    len == self.cap - self.pos,
                    self.pos == old(self).pos,
                    self.cap == old(self).cap,
                    self.ensured_size == old(self).ensured_size,
                    self.inner == old(self).inner,
                    self.buf@.len() == old(self).buf@.len(),
                    self.buf@.len() <= usize::MAX,
                    self.pos <= self.cap <= self.buf@.len(),
                    forall|j: int|
                        0 <= j < i ==> #[trigger] self.buf@[j] == old(self).buf@[old(self).pos + j],
                    forall|j: int|
                        i <= j < self.buf@.len() ==> #[trigger] self.buf@[j] == old(self).buf@[j],
                decreases len - i,
            {
                let b = self.buf[self.pos + i];
                self.buf.set(i, b);
                i = i + 1;
            }
            self.cap = len;
            self.pos = 0;
            proof {
                assert(self.buffered() =~= old(self).buffered());
            }
        }
    }
}

/// Allocates a byte vector of the requested length.
fn zeroed_vec(len: usize) -> (v: Vec<u8>)
    ensures
        v@.len() == len,
{
    let mut v: Vec<u8> = Vec::new();
    while v.len() < len
        invariant
            v@.len() <= len,
        decreases len - v@.len(),
    {
        v.push(0);
    }
    v
}

/// The first `a.len()` bytes of `a + b` are exactly `a`.
proof fn lemma_concat_prefix(a: Seq<u8>, b: Seq<u8>)
    ensures
        (a + b).take(a.len() as int) == a,
{
    assert((a + b).take(a.len() as int) =~= a);
}

} // verus!
