use super::{read_size_limit, ReadResult, Reader, ReaderMut};
use core::mem::MaybeUninit;
use vstd::prelude::*;

verus! {

/// A [`Reader`] that limits the number of bytes reserved for reads from an inner [`Reader`].
///
/// Each operation reserves its full requested size before delegating to the inner reader. The
/// reservation is retained if the inner operation fails, because a reader may consume some
/// bytes before returning an error. A trusted window reserves its entire size when it is
/// created.
///
/// When a request exceeds the remaining limit the error names the requested size, exactly as
/// when a reader runs out of input, so a limited reader behaves like its inner reader cut
/// short at the limit. Such a request never reaches the inner reader: a refused request leaves
/// the whole reader as it was.
///
/// To limit a whole decoding operation, construct one `LimitReader` at the outermost boundary
/// and pass that same reader throughout; a fresh `LimitReader` further in applies a separate
/// limit to its part only.
pub struct LimitReader<R> {
    inner: R,
    remaining: usize,
    forwarded: Ghost<nat>,
}

impl<R> LimitReader<R> {
    /// The wrapped reader.
    pub closed spec fn inner_reader(&self) -> R {
        self.inner
    }

    /// How many more bytes may still be reserved.
    pub closed spec fn remaining_limit(&self) -> usize {
        self.remaining
    }

    /// The total size of the requests passed on to the inner reader so far: each reservation
    /// counted whole, whether or not the inner reader then served it.
    pub closed spec fn forwarded(&self) -> nat {
        self.forwarded@
    }

    /// Wrap an inner reader with the given cumulative byte limit.
    pub fn new(inner: R, limit: usize) -> (r: Self)
        ensures
            r.inner_reader() == inner,
            r.remaining_limit() == limit,
            r.forwarded() == 0,
    {
        Self { inner, remaining: limit, forwarded: Ghost(0) }
    }

    /// Give back the inner reader, positioned after everything read through the limit.
    pub fn into_inner(self) -> (r: R)
        ensures
            r == self.inner_reader(),
    {
        let LimitReader { inner, .. } = self;
        inner
    }

    /// How many more bytes may still be reserved.
    pub fn remaining(&self) -> (r: usize)
        ensures
            r == self.remaining_limit(),
    {
        self.remaining
    }

    /// Reserve `needed` bytes of the limit for a request about to be passed on, or refuse with
    /// the requested size when fewer remain. A refusal leaves the reader as it was.
    fn reserve_limit(&mut self, needed: usize) -> (r: ReadResult<()>)
        ensures
            final(self).inner_reader() == old(self).inner_reader(),
            reservation(*old(self), *final(self), needed as nat),
            needed <= old(self).remaining_limit() ==> r is Ok,
            needed > old(self).remaining_limit() ==> r == Err::<(), super::ReadError>(
                super::ReadError::ReadSizeLimit(needed),
            ),
    {
        if needed > self.remaining {
            return Err(read_size_limit(needed));
        }
        self.remaining = self.remaining - needed;
        proof {
            self.forwarded@ = self.forwarded@ + needed as nat;
        }
        Ok(())
    }
}

/// The bytes a limited reader yields: those of the inner reader, cut short at the limit.
pub open spec fn limited(bytes: Seq<u8>, limit: usize) -> Seq<u8> {
    if limit < bytes.len() {
        bytes.take(limit as int)
    } else {
        bytes
    }
}

/// How a limited reader moves under a request for `n` bytes. One that fits in what remains
/// of the limit is reserved whole and passed on to the inner reader, whether or not the inner
/// reader then serves it. One that does not fit is refused and leaves the reader as it was:
/// the inner reader is not called and the limit is kept.
pub open spec fn reservation<R>(before: LimitReader<R>, after: LimitReader<R>, n: nat) -> bool {
    if n <= before.remaining_limit() {
        &&& after.remaining_limit() == before.remaining_limit() - n
        &&& after.forwarded() == before.forwarded() + n
    } else {
        &&& after.remaining_limit() == before.remaining_limit()
        &&& after.forwarded() == before.forwarded()
        &&& after.inner_reader() == before.inner_reader()
    }
}

impl<'de, R: Reader<'de>> Reader<'de> for LimitReader<R> {
    open spec fn readable(&self) -> Seq<u8> {
        limited(self.inner_reader().readable(), self.remaining_limit())
    }

    open spec fn source(&self) -> Seq<u8> {
        self.inner_reader().source()
    }

    open spec fn same_place(&self, other: Self) -> bool {
        self.inner_reader().same_place(other.inner_reader())
    }

    proof fn lemma_same_place_refl(&self) {
        self.inner_reader().lemma_same_place_refl();
    }

    proof fn lemma_readable_in_source(&self) {
        self.inner_reader().lemma_readable_in_source();
        let inner = self.inner_reader().readable();
        let source = self.source();
        let rem = self.remaining_limit() as int;
        assert(inner =~= source.subrange(0, inner.len() as int));
        if rem < inner.len() {
            assert(inner.take(rem) =~= source.subrange(0, rem));
            assert(self.readable() == inner.take(rem));
        } else {
            assert(self.readable() == inner);
        }
    }

    #[verifier::spinoff_prover]
    fn take_byte(&mut self) -> (r: ReadResult<u8>)
        ensures
            reservation(*old(self), *final(self), 1),
    {
        proof {
            self.inner_reader().lemma_same_place_refl();
        }
        self.reserve_limit(1)?;
        self.inner.take_byte()
    }

    #[verifier::spinoff_prover]
    fn take_array<const N: usize>(&mut self) -> (r: ReadResult<[u8; N]>)
        ensures
            reservation(*old(self), *final(self), N as nat),
    {
        proof {
            self.inner_reader().lemma_same_place_refl();
        }
        self.reserve_limit(N)?;
        let r = self.inner.take_array::<N>();
        proof {
            if r is Ok {
                assert(self.readable() =~= limited(old(self).inner_reader().readable(), old(self).remaining_limit()).skip(N as int));
            }
        }
        r
    }

    #[verifier::spinoff_prover]
    fn take_borrowed(&mut self, len: usize) -> (r: ReadResult<&'de [u8]>)
        ensures
            reservation(*old(self), *final(self), len as nat),
    {
        proof {
            self.inner_reader().lemma_same_place_refl();
        }
        self.reserve_limit(len)?;
        let r = self.inner.take_borrowed(len);
        proof {
            if r is Ok {
                assert(self.readable() =~= limited(old(self).inner_reader().readable(), old(self).remaining_limit()).skip(len as int));
            }
        }
        r
    }

    #[verifier::spinoff_prover]
    fn take_scoped(&mut self, len: usize) -> (r: ReadResult<&[u8]>)
        ensures
            reservation(*old(self), *final(self), len as nat),
    {
        proof {
            self.inner_reader().lemma_same_place_refl();
        }
        self.reserve_limit(len)?;
        self.inner.take_scoped(len)
    }

    #[verifier::spinoff_prover]
    fn copy_into_slice(&mut self, dst: &mut [u8]) -> (r: ReadResult<()>)
        ensures
            reservation(*old(self), *final(self), old(dst)@.len()),
    {
        proof {
            self.inner_reader().lemma_same_place_refl();
        }
        self.reserve_limit(dst.len())?;
        let r = self.inner.copy_into_slice(dst);
        proof {
            if r is Ok {
                assert(self.readable() =~= limited(old(self).inner_reader().readable(), old(self).remaining_limit()).skip(dst@.len() as int));
            }
        }
        r
    }

    #[verifier::spinoff_prover]
    fn copy_into_uninit_slice(&mut self, dst: &mut [MaybeUninit<u8>]) -> (r: ReadResult<()>)
        ensures
            reservation(*old(self), *final(self), old(dst)@.len()),
    {
        proof {
            self.inner_reader().lemma_same_place_refl();
        }
        self.reserve_limit(dst.len())?;
        let ghost before = self.inner.readable();
        let r = self.inner.copy_into_uninit_slice(dst);
        proof {
            if r is Ok {
                assert(self.readable() =~= limited(old(self).inner_reader().readable(), old(self).remaining_limit()).skip(dst@.len() as int));
                assert forall|i: int| 0 <= i < dst@.len() implies before[i] == limited(before, old(self).remaining_limit())[i] by {}
            }
        }
        r
    }

    #[verifier::spinoff_prover]
    fn as_trusted_for(&mut self, n_bytes: usize) -> (r: ReadResult<&'de [u8]>)
        ensures
            reservation(*old(self), *final(self), n_bytes as nat),
    {
        proof {
            self.inner_reader().lemma_same_place_refl();
        }
        self.reserve_limit(n_bytes)?;
        let r = self.inner.as_trusted_for(n_bytes);
        proof {
            if r is Ok {
                assert(self.readable() =~= limited(old(self).inner_reader().readable(), old(self).remaining_limit()).skip(n_bytes as int));
            }
        }
        r
    }

    #[verifier::spinoff_prover]
    fn as_trusted_for_seq(&mut self, len: usize, size: usize) -> (r: Result<
        &'de [u8],
        crate::error::ReadError,
    >)
        ensures
            len * size > usize::MAX ==> *final(self) == *old(self),
            len * size <= usize::MAX ==> reservation(*old(self), *final(self), (len * size) as nat),
    {
        proof {
            self.inner_reader().lemma_same_place_refl();
        }
        let window = match len.checked_mul(size) {
            None => {
                return Err(crate::error::read_length_encoding_overflow("usize::MAX"));
            },
            Some(w) => w,
        };
        crate::error::from_io_read(self.reserve_limit(window))?;
        let r = self.inner.as_trusted_for_seq(len, size);
        proof {
            if r is Ok {
                assert(self.readable() =~= limited(old(self).inner_reader().readable(), old(self).remaining_limit()).skip(window as int));
            }
        }
        r
    }
}

impl<'de, R: ReaderMut<'de>> ReaderMut<'de> for LimitReader<R> {
    #[verifier::spinoff_prover]
    fn take_borrowed_mut(&mut self, len: usize) -> (r: ReadResult<&'de mut [u8]>)
        ensures
            reservation(*old(self), *final(self), len as nat),
    {
        proof {
            self.inner_reader().lemma_same_place_refl();
        }
        self.reserve_limit(len)?;
        let r = self.inner.take_borrowed_mut(len);
        proof {
            if r is Ok {
                assert(self.readable() =~= limited(old(self).inner_reader().readable(), old(self).remaining_limit()).skip(len as int));
            }
        }
        r
    }
}

} // verus!
