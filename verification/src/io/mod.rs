//! Byte sources and sinks: the [`Reader`] and [`Writer`] traits, their slice-backed
//! implementations, and [`LimitReader`].
//!
//! A reader is modelled by the bytes it will still yield ([`Reader::readable`]); a writer by
//! the bytes it has accepted so far ([`Writer::written`]) and the room it has left
//! ([`Writer::free`]).
use core::mem::MaybeUninit;
use vstd::prelude::*;
use vstd::slice::slice_subrange;
use vstd::std_specs::maybe_uninit::MaybeUninitAdditionalSpecFns;

pub mod limit_reader;

pub use limit_reader::LimitReader;

verus! {

/// Why a reader could not serve a request.
#[derive(Debug, PartialEq, Eq, Structural)]
pub enum ReadError {
    /// The request for this many bytes exceeded what the reader can still supply.
    ReadSizeLimit(usize),
}

/// Why a writer could not accept a request.
#[derive(Debug, PartialEq, Eq, Structural)]
pub enum WriteError {
    /// The request to write this many bytes exceeded the room left in the writer.
    WriteSizeLimit(usize),
}

pub type ReadResult<T> = Result<T, ReadError>;

pub type WriteResult<T> = Result<T, WriteError>;

/// The error of a read request for `len` bytes that cannot be served.
pub fn read_size_limit(len: usize) -> (e: ReadError)
    ensures
        e == ReadError::ReadSizeLimit(len),
{
    ReadError::ReadSizeLimit(len)
}

/// The error of a write request for `len` bytes that does not fit.
pub fn write_size_limit(len: usize) -> (e: WriteError)
    ensures
        e == WriteError::WriteSizeLimit(len),
{
    WriteError::WriteSizeLimit(len)
}

/// A request for `n` bytes was served: `out` is the next `n` of the `before` bytes and the
/// reader has moved past them.
pub open spec fn served(before: Seq<u8>, after: Seq<u8>, n: nat, out: Seq<u8>) -> bool {
    &&& n <= before.len()
    &&& out =~= before.take(n as int)
    &&& after =~= before.skip(n as int)
}

/// A request for `n` bytes was refused: fewer than `n` bytes were readable, and the error
/// names the requested size.
pub open spec fn refused(before: Seq<u8>, n: usize, e: ReadError) -> bool {
    &&& before.len() < n
    &&& e == ReadError::ReadSizeLimit(n)
}

/// The outcome of a request for `n` bytes: served from what was readable, moving the
/// underlying source forward by `n` too; or refused.
pub open spec fn request_outcome(
    before: Seq<u8>,
    after: Seq<u8>,
    source_before: Seq<u8>,
    source_after: Seq<u8>,
    n: usize,
    r: ReadResult<Seq<u8>>,
) -> bool {
    match r {
        Ok(out) => {
            &&& served(before, after, n as nat, out)
            &&& source_after =~= source_before.skip(n as int)
        },
        Err(e) => refused(before, n, e),
    }
}

/// A source of bytes that can lend them for the lifetime `'de`.
pub trait Reader<'de>: Sized {
    /// The bytes this reader will still yield, in order.
    spec fn readable(&self) -> Seq<u8>;

    /// The bytes still left in the underlying source, which may go on past what a limit
    /// lets this reader yield.
    spec fn source(&self) -> Seq<u8>;

    /// Whether `other` reads on from the same place in the same source as this reader, as a
    /// refused request leaves it; a limit this reader was given may have been spent.
    spec fn same_place(&self, other: Self) -> bool;

    /// What the reader yields is the front of its source.
    proof fn lemma_readable_in_source(&self)
        ensures
            self.readable().is_prefix_of(self.source()),
    ;

    /// A reader is at its own place.
    proof fn lemma_same_place_refl(&self)
        ensures
            self.same_place(*self),
    ;

    /// Take the next byte.
    fn take_byte(&mut self) -> (r: ReadResult<u8>)
        ensures
            request_outcome(
                old(self).readable(),
                final(self).readable(),
                old(self).source(),
                final(self).source(),
                1,
                match r {
                    Ok(b) => Ok(seq![b]),
                    Err(e) => Err(e),
                },
            ),
            r is Err ==> old(self).same_place(*final(self)),
    ;

    /// Take the next `N` bytes as an array.
    fn take_array<const N: usize>(&mut self) -> (r: ReadResult<[u8; N]>)
        ensures
            request_outcome(
                old(self).readable(),
                final(self).readable(),
                old(self).source(),
                final(self).source(),
                N,
                match r {
                    Ok(a) => Ok(a@),
                    Err(e) => Err(e),
                },
            ),
            r is Err ==> old(self).same_place(*final(self)),
    ;

    /// Borrow the next `len` bytes for the input lifetime.
    fn take_borrowed(&mut self, len: usize) -> (r: ReadResult<&'de [u8]>)
        ensures
            request_outcome(
                old(self).readable(),
                final(self).readable(),
                old(self).source(),
                final(self).source(),
                len,
                match r {
                    Ok(s) => Ok(s@),
                    Err(e) => Err(e),
                },
            ),
            r is Err ==> old(self).same_place(*final(self)),
    ;

    /// Borrow the next `len` bytes for as long as the reader is borrowed.
    fn take_scoped(&mut self, len: usize) -> (r: ReadResult<&[u8]>)
        ensures
            request_outcome(
                old(self).readable(),
                final(self).readable(),
                old(self).source(),
                final(self).source(),
                len,
                match r {
                    Ok(s) => Ok(s@),
                    Err(e) => Err(e),
                },
            ),
            r is Err ==> old(self).same_place(*final(self)),
    ;

    /// Fill `dst` with the next `dst.len()` bytes; on failure `dst` is left as it was.
    fn copy_into_slice(&mut self, dst: &mut [u8]) -> (r: ReadResult<()>)
        ensures
            final(dst)@.len() == old(dst)@.len(),
            request_outcome(
                old(self).readable(),
                final(self).readable(),
                old(self).source(),
                final(self).source(),
                old(dst)@.len() as usize,
                match r {
                    Ok(_) => Ok(final(dst)@),
                    Err(e) => Err(e),
                },
            ),
            r is Err ==> final(dst)@ == old(dst)@,
            r is Err ==> old(self).same_place(*final(self)),
    ;

    /// Initialize `dst` with the next `dst.len()` bytes; on failure `dst` is left as it was.
    fn copy_into_uninit_slice(&mut self, dst: &mut [MaybeUninit<u8>]) -> (r: ReadResult<()>)
        ensures
            final(dst)@.len() == old(dst)@.len(),
            request_outcome(
                old(self).readable(),
                final(self).readable(),
                old(self).source(),
                final(self).source(),
                old(dst)@.len() as usize,
                match r {
                    Ok(_) => Ok(old(self).readable().take(old(dst)@.len() as int)),
                    Err(e) => Err(e),
                },
            ),
            r is Ok ==> forall|i: int|
                0 <= i < old(dst)@.len() ==> #[trigger] final(dst)@[i].as_option() == Some(old(self).readable()[i]),
            r is Err ==> final(dst)@ == old(dst)@,
            r is Err ==> old(self).same_place(*final(self)),
    ;

    /// Reserve a window over the next `n_bytes` bytes and move past it; the window is a
    /// reader of its own over exactly those bytes.
    fn as_trusted_for(&mut self, n_bytes: usize) -> (r: ReadResult<&'de [u8]>)
        ensures
            request_outcome(
                old(self).readable(),
                final(self).readable(),
                old(self).source(),
                final(self).source(),
                n_bytes,
                match r {
                    Ok(s) => Ok(s@),
                    Err(e) => Err(e),
                },
            ),
            r is Err ==> old(self).same_place(*final(self)),
    ;

    /// Reserve a window over `len` items of `size` bytes each; fails with a length
    /// encoding overflow when `len * size` does not fit in a `usize`.
    fn as_trusted_for_seq(&mut self, len: usize, size: usize) -> (r: Result<
        &'de [u8],
        crate::error::ReadError,
    >)
        ensures
            len * size > usize::MAX ==> r == Err::<&'de [u8], crate::error::ReadError>(
                crate::error::ReadError::LengthEncodingOverflow("usize::MAX"),
            ),
            len * size <= usize::MAX ==> match r {
                Ok(w) => {
                    &&& served(old(self).readable(), final(self).readable(), (len * size) as nat, w@)
                    &&& final(self).source() =~= old(self).source().skip(len * size)
                },
                Err(e) => {
                    &&& old(self).readable().len() < len * size
                    &&& e == crate::error::ReadError::Io(
                        ReadError::ReadSizeLimit((len * size) as usize),
                    )
                },
            },
            r is Err ==> old(self).same_place(*final(self)),
    ;
}

/// A reader that can also lend its bytes mutably.
pub trait ReaderMut<'de>: Reader<'de> {
    /// Borrow the next `len` bytes mutably for the input lifetime.
    fn take_borrowed_mut(&mut self, len: usize) -> (r: ReadResult<&'de mut [u8]>)
        ensures
            request_outcome(
                old(self).readable(),
                final(self).readable(),
                old(self).source(),
                final(self).source(),
                len,
                match r {
                    Ok(s) => Ok(s@),
                    Err(e) => Err(e),
                },
            ),
            r is Err ==> old(self).same_place(*final(self)),
    ;
}

impl<'de> Reader<'de> for &'de [u8] {
    open spec fn readable(&self) -> Seq<u8> {
        self@
    }

    open spec fn source(&self) -> Seq<u8> {
        self@
    }

    proof fn lemma_readable_in_source(&self) {
    }

    open spec fn same_place(&self, other: Self) -> bool {
        *self == other
    }

    proof fn lemma_same_place_refl(&self) {
    }

    fn take_byte(&mut self) -> (r: ReadResult<u8>) {
        if self.len() < 1 {
            return Err(read_size_limit(1));
        }
        let b = self[0];
        *self = slice_subrange(*self, 1, self.len());
        Ok(b)
    }

    fn take_array<const N: usize>(&mut self) -> (r: ReadResult<[u8; N]>) {
        if self.len() < N {
            return Err(read_size_limit(N));
        }
        let mut out = [0u8; N];
        let mut i: usize = 0;
        while i < N
            invariant
                N <= self@.len(),
                self@ == old(self)@,
                0 <= i <= N,
                forall|j: int| 0 <= j < i ==> out@[j] == self@[j],
            decreases N - i,
        {
            out[i] = self[i];
            i += 1;
        }
        assert(out@ =~= self@.take(N as int));
        *self = slice_subrange(*self, N, self.len());
        Ok(out)
    }

    fn take_borrowed(&mut self, len: usize) -> (r: ReadResult<&'de [u8]>) {
        if self.len() < len {
            return Err(read_size_limit(len));
        }
        let out = slice_subrange(*self, 0, len);
        *self = slice_subrange(*self, len, self.len());
        Ok(out)
    }

    fn take_scoped(&mut self, len: usize) -> (r: ReadResult<&[u8]>) {
        if self.len() < len {
            return Err(read_size_limit(len));
        }
        let out = slice_subrange(*self, 0, len);
        *self = slice_subrange(*self, len, self.len());
        Ok(out)
    }

    fn copy_into_slice(&mut self, dst: &mut [u8]) -> (r: ReadResult<()>) {
        let n = dst.len();
        if self.len() < n {
            return Err(read_size_limit(n));
        }
        let mut i: usize = 0;
        while i < n
            invariant
                n == dst@.len(),
                n <= self@.len(),
                self@ == old(self)@,
                0 <= i <= n,
                forall|j: int| 0 <= j < i ==> dst@[j] == self@[j],
            decreases n - i,
        {
            dst[i] = self[i];
            i += 1;
        }
        assert(dst@ =~= self@.take(n as int));
        *self = slice_subrange(*self, n, self.len());
        Ok(())
    }

    fn copy_into_uninit_slice(&mut self, dst: &mut [MaybeUninit<u8>]) -> (r: ReadResult<()>) {
        let n = dst.len();
        let src = self.take_borrowed(n)?;
        fill_uninit(dst, src);
        Ok(())
    }

    fn as_trusted_for(&mut self, n_bytes: usize) -> (r: ReadResult<&'de [u8]>) {
        self.take_borrowed(n_bytes)
    }

    fn as_trusted_for_seq(&mut self, len: usize, size: usize) -> (r: Result<
        &'de [u8],
        crate::error::ReadError,
    >) {
        match len.checked_mul(size) {
            None => Err(crate::error::read_length_encoding_overflow("usize::MAX")),
            Some(window) => crate::error::from_io_read(self.take_borrowed(window)),
        }
    }
}

/// Initialize every element of `dst` with the byte at the same index of `src`.
fn fill_uninit(dst: &mut [MaybeUninit<u8>], src: &[u8])
    requires
        old(dst)@.len() == src@.len(),
    ensures
        final(dst)@.len() == src@.len(),
        forall|i: int| 0 <= i < src@.len() ==> #[trigger] final(dst)@[i].as_option() == Some(src@[i]),
{
    let mut i: usize = 0;
    while i < src.len()
        invariant
            0 <= i <= src@.len(),
            dst@.len() == src@.len(),
            forall|j: int| 0 <= j < i ==> #[trigger] dst@[j].as_option() == Some(src@[j]),
        decreases src.len() - i,
    {
        dst[i] = MaybeUninit::new(src[i]);
        i += 1;
    }
}

/// Split the first `len` bytes off a mutable slice, leaving the rest in place.
fn split_front_mut<'de>(s: &mut &'de mut [u8], len: usize) -> (head: &'de mut [u8])
    requires
        len <= old(s)@.len(),
    ensures
        head@ == old(s)@.take(len as int),
        final(s)@ == old(s)@.skip(len as int),
{
    let mut whole: &'de mut [u8] = &mut [];
    core::mem::swap(s, &mut whole);
    let (head, tail) = whole.split_at_mut(len);
    *s = tail;
    head
}

impl<'de> Reader<'de> for &'de mut [u8] {
    open spec fn readable(&self) -> Seq<u8> {
        self@
    }

    open spec fn source(&self) -> Seq<u8> {
        self@
    }

    proof fn lemma_readable_in_source(&self) {
    }

    open spec fn same_place(&self, other: Self) -> bool {
        *self == other
    }

    proof fn lemma_same_place_refl(&self) {
    }

    fn take_byte(&mut self) -> (r: ReadResult<u8>) {
        if self.len() < 1 {
            return Err(read_size_limit(1));
        }
        let head = split_front_mut(self, 1);
        Ok(head[0])
    }

    fn take_array<const N: usize>(&mut self) -> (r: ReadResult<[u8; N]>) {
        if self.len() < N {
            return Err(read_size_limit(N));
        }
        let head = split_front_mut(self, N);
        let mut out = [0u8; N];
        let mut i: usize = 0;
        while i < N
            invariant
                N == head@.len(),
                0 <= i <= N,
                forall|j: int| 0 <= j < i ==> out@[j] == head@[j],
            decreases N - i,
        {
            out[i] = head[i];
            i += 1;
        }
        assert(out@ =~= head@);
        Ok(out)
    }

    fn take_borrowed(&mut self, len: usize) -> (r: ReadResult<&'de [u8]>) {
        if self.len() < len {
            return Err(read_size_limit(len));
        }
        let head = split_front_mut(self, len);
        Ok(head)
    }

    fn take_scoped(&mut self, len: usize) -> (r: ReadResult<&[u8]>) {
        if self.len() < len {
            return Err(read_size_limit(len));
        }
        let head = split_front_mut(self, len);
        Ok(head)
    }

    fn copy_into_slice(&mut self, dst: &mut [u8]) -> (r: ReadResult<()>) {
        let n = dst.len();
        if self.len() < n {
            return Err(read_size_limit(n));
        }
        let head = split_front_mut(self, n);
        let mut i: usize = 0;
        while i < n
            invariant
                n == dst@.len(),
                n == head@.len(),
                0 <= i <= n,
                forall|j: int| 0 <= j < i ==> dst@[j] == head@[j],
            decreases n - i,
        {
            dst[i] = head[i];
            i += 1;
        }
        assert(dst@ =~= head@);
        Ok(())
    }

    fn copy_into_uninit_slice(&mut self, dst: &mut [MaybeUninit<u8>]) -> (r: ReadResult<()>) {
        let n = dst.len();
        let src = self.take_borrowed(n)?;
        fill_uninit(dst, src);
        Ok(())
    }

    fn as_trusted_for(&mut self, n_bytes: usize) -> (r: ReadResult<&'de [u8]>) {
        self.take_borrowed(n_bytes)
    }

    fn as_trusted_for_seq(&mut self, len: usize, size: usize) -> (r: Result<
        &'de [u8],
        crate::error::ReadError,
    >) {
        match len.checked_mul(size) {
            None => Err(crate::error::read_length_encoding_overflow("usize::MAX")),
            Some(window) => crate::error::from_io_read(self.take_borrowed(window)),
        }
    }
}

impl<'de> ReaderMut<'de> for &'de mut [u8] {
    fn take_borrowed_mut(&mut self, len: usize) -> (r: ReadResult<&'de mut [u8]>) {
        if self.len() < len {
            return Err(read_size_limit(len));
        }
        let head = split_front_mut(self, len);
        Ok(head)
    }
}

/// What is left of `s` once writing has replaced its first `n` bytes: nothing when it holds no
/// more than `n`.
pub open spec fn drop_front(s: Seq<u8>, n: nat) -> Seq<u8> {
    if n <= s.len() {
        s.skip(n as int)
    } else {
        Seq::empty()
    }
}

/// Replacing `a` bytes and then `b` more replaces `a + b` bytes.
pub proof fn lemma_drop_front_twice(s: Seq<u8>, a: nat, b: nat)
    ensures
        drop_front(drop_front(s, a), b) == drop_front(s, a + b),
{
    if a + b <= s.len() {
        assert(s.skip(a as int).skip(b as int) =~= s.skip((a + b) as int));
    } else if a <= s.len() {
        assert(drop_front(drop_front(s, a), b) =~= Seq::<u8>::empty());
    }
}

/// A sink for bytes.
pub trait Writer: Sized {
    /// The bytes accepted so far, in order.
    spec fn written(&self) -> Seq<u8>;

    /// How many more bytes this writer can accept.
    spec fn free(&self) -> nat;

    /// The bytes the writer holds past the written ones, as they were before writing reached
    /// them; each write replaces them from the front. A writer that holds nothing past its end
    /// has none.
    spec fn unwritten(&self) -> Seq<u8>;

    /// Whether writers of this type pass every byte on as it is written, so that finishing
    /// one has nothing left to do and cannot fail.
    spec fn buffers_nothing() -> bool;

    /// Append all of `src`, or refuse with its length when it does not fit; a refusal
    /// leaves the writer as it was.
    fn write(&mut self, src: &[u8]) -> (r: WriteResult<()>)
        ensures
            src@.len() <= old(self).free() ==> {
                &&& r is Ok
                &&& final(self).written() == old(self).written() + src@
                &&& final(self).free() == old(self).free() - src@.len()
                &&& final(self).unwritten() == drop_front(old(self).unwritten(), src@.len())
            },
            src@.len() > old(self).free() ==> {
                &&& r == Err::<(), WriteError>(WriteError::WriteSizeLimit(src@.len() as usize))
                &&& final(self).written() == old(self).written()
                &&& final(self).free() == old(self).free()
                &&& final(self).unwritten() == old(self).unwritten()
            },
    ;

    /// Flush whatever the writer buffers; this cannot fail for a writer that buffers nothing.
    fn finish(&mut self) -> (r: WriteResult<()>)
        ensures
            Self::buffers_nothing() ==> r is Ok,
            final(self).written() == old(self).written(),
            final(self).free() == old(self).free(),
            final(self).unwritten() == old(self).unwritten(),
    ;
}

/// A growable vector accepts bytes until its length would pass `isize::MAX`.
impl Writer for std::vec::Vec<u8> {
    open spec fn written(&self) -> Seq<u8> {
        self@
    }

    open spec fn free(&self) -> nat {
        if self@.len() <= isize::MAX {
            (isize::MAX - self@.len()) as nat
        } else {
            0
        }
    }

    open spec fn unwritten(&self) -> Seq<u8> {
        Seq::empty()
    }

    open spec fn buffers_nothing() -> bool {
        true
    }

    fn write(&mut self, src: &[u8]) -> (r: WriteResult<()>) {
        let max: usize = isize::MAX as usize;
        let room: usize = if self.len() <= max {
            max - self.len()
        } else {
            0
        };
        if src.len() > room {
            return Err(write_size_limit(src.len()));
        }
        let mut i: usize = 0;
        while i < src.len()
            invariant
                0 <= i <= src@.len(),
                self@ =~= old(self)@ + src@.take(i as int),
            decreases src.len() - i,
        {
            self.push(src[i]);
            i += 1;
            assert(self@ =~= old(self)@ + src@.take(i as int));
        }
        assert(src@.take(src@.len() as int) =~= src@);
        Ok(())
    }

    fn finish(&mut self) -> (r: WriteResult<()>) {
        Ok(())
    }
}

/// A writer over a fixed buffer, filling it from the front and leaving the rest of it alone.
pub struct SliceWriter<'a> {
    buf: &'a mut [u8],
    pos: usize,
}

impl<'a> SliceWriter<'a> {
    #[verifier::type_invariant]
    spec fn wf(&self) -> bool {
        self.pos <= self.buf@.len()
    }

    /// The whole buffer, written part and unwritten part.
    pub closed spec fn buffer(&self) -> Seq<u8> {
        self.buf@
    }

    /// How many bytes have been written.
    pub closed spec fn position(&self) -> nat {
        self.pos as nat
    }

    /// The caller's slice that this writer fills.
    pub closed spec fn target(&self) -> &'a mut [u8] {
        self.buf
    }

    /// Start writing at the front of `buf`; what the writer leaves in its buffer is what `buf`
    /// holds once the writer is done.
    pub fn new(buf: &'a mut [u8]) -> (w: Self)
        ensures
            w.buffer() == old(buf)@,
            w.position() == 0,
            final(w.target())@ == final(buf)@,
    {
        SliceWriter { buf, pos: 0 }
    }

    /// Hand the buffer back: the written bytes followed by the rest as it was.
    pub fn into_inner(self) -> (r: &'a mut [u8])
        ensures
            r@ == self.written() + self.unwritten(),
            final(r)@ == final(self.target())@,
    {
        proof {
            use_type_invariant(&self);
            assert(self.buf@ =~= self.buf@.take(self.pos as int) + self.buf@.skip(self.pos as int));
        }
        let SliceWriter { buf, pos: _ } = self;
        buf
    }
}

impl<'a> Writer for SliceWriter<'a> {
    open spec fn written(&self) -> Seq<u8> {
        self.buffer().take(self.position() as int)
    }

    open spec fn free(&self) -> nat {
        if self.position() <= self.buffer().len() {
            (self.buffer().len() - self.position()) as nat
        } else {
            0
        }
    }

    open spec fn unwritten(&self) -> Seq<u8> {
        if self.position() <= self.buffer().len() {
            self.buffer().skip(self.position() as int)
        } else {
            Seq::empty()
        }
    }

    open spec fn buffers_nothing() -> bool {
        true
    }

    fn write(&mut self, src: &[u8]) -> (r: WriteResult<()>)
        ensures
            final(final(self).target())@ == final(old(self).target())@,
    {
        proof {
            use_type_invariant(&*self);
        }
        if src.len() > self.buf.len() - self.pos {
            return Err(write_size_limit(src.len()));
        }
        let start = self.pos;
        let mut i: usize = 0;
        while i < src.len()
            invariant
                0 <= i <= src@.len(),
                start == old(self).pos,
                self.pos == start,
                start + src@.len() <= self.buf@.len(),
                start + src@.len() <= self.buf.len(),
                self.buf@.len() == old(self).buf@.len(),
                self.buf@.take(start as int) == old(self).buf@.take(start as int),
                forall|j: int| 0 <= j < i ==> self.buf@[start + j] == src@[j],
                forall|j: int|
                    start + src@.len() <= j < self.buf@.len() ==> self.buf@[j] == old(self).buf@[j],
                final(self.buf)@ == final(old(self).buf)@,
            decreases src.len() - i,
        {
            self.buf[start + i] = src[i];
            i += 1;
        }
        self.pos = start + src.len();
        assert(self.buf@.take(self.pos as int) =~= old(self).buf@.take(start as int) + src@);
        assert(self.buf@.skip(self.pos as int) =~= old(self).buf@.skip(start as int).skip(
            src@.len() as int,
        ));
        Ok(())
    }

    fn finish(&mut self) -> (r: WriteResult<()>)
        ensures
            final(final(self).target())@ == final(old(self).target())@,
    {
        Ok(())
    }
}

} // verus!
