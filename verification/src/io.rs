//! Byte-stream reading and writing for `Either`.
//!
//! `ByteRead` and `ByteWrite` are the crate's capability interfaces for
//! consuming and producing a stream of bytes.  `SliceReader` reads from a
//! fixed byte string; `VecWriter` collects written bytes.  An `Either` of two
//! readers (or two writers) is itself a reader (writer): every call is
//! forwarded to the live payload, and any failure surfaces exactly as the
//! payload's own operation produced it — here the concrete streams are total,
//! so no operation fails.

use vstd::prelude::*;

verus! {

use crate::Either;

/// A consumer-facing byte stream: a front that can be read off.
pub trait ByteRead: Sized {
    /// The bytes still to be read, in order.
    spec fn avail(&self) -> Seq<u8>;

    /// Reads up to `n` bytes from the front of the stream; fewer only when
    /// the stream ends first.
    fn read(&mut self, n: usize) -> (r: Vec<u8>)
        ensures
            r@.len() == (if n as int <= old(self).avail().len() {
                n as int
            } else {
                old(self).avail().len() as int
            }),
            r@ == old(self).avail().take(r@.len() as int),
            final(self).avail() == old(self).avail().skip(r@.len() as int),
    ;

    /// Reads every remaining byte.
    fn read_to_end(&mut self) -> (r: Vec<u8>)
        ensures
            r@ == old(self).avail(),
            final(self).avail() == Seq::<u8>::empty(),
    ;
}

/// A buffered reader: the unread bytes can be looked at without being
/// consumed, and consumed without being looked at.
pub trait BufByteRead: ByteRead {
    /// Hands out a copy of the unread bytes, consuming nothing.
    fn fill_buf(&mut self) -> (r: Vec<u8>)
        ensures
            r@ == old(self).avail(),
            final(self).avail() == old(self).avail(),
    ;

    /// Drops up to `amt` bytes from the front of the stream.
    fn consume(&mut self, amt: usize)
        ensures
            final(self).avail() == (if amt as int <= old(self).avail().len() {
                old(self).avail().skip(amt as int)
            } else {
                Seq::<u8>::empty()
            }),
    ;
}

/// A producer-facing byte stream: a sink that bytes are appended to.
pub trait ByteWrite: Sized {
    /// The bytes written so far, in order.
    spec fn sink(&self) -> Seq<u8>;

    /// Appends the whole buffer to the stream, returning how many bytes were
    /// accepted — always all of them.
    fn write(&mut self, buf: &Vec<u8>) -> (n: usize)
        ensures
            n == buf@.len(),
            final(self).sink() == old(self).sink() + buf@,
    ;

    /// Drives buffered bytes out; the written stream is unchanged.
    fn flush(&mut self)
        ensures
            final(self).sink() == old(self).sink(),
    ;
}

/// A reader over a fixed byte string.
pub struct SliceReader {
    data: Vec<u8>,
}

impl SliceReader {
    /// A reader that will produce exactly the bytes of `data`, in order.
    pub fn new(data: Vec<u8>) -> (r: Self)
        ensures
            r.avail() == data@,
    {
        SliceReader { data }
    }
}

impl ByteRead for SliceReader {
    closed spec fn avail(&self) -> Seq<u8> {
        self.data@
    }

    fn read(&mut self, n: usize) -> (r: Vec<u8>) {
        let mut out: Vec<u8> = Vec::new();
        while out.len() < n && self.data.len() > 0
            invariant
                out@.len() <= n,
                out@ + self.data@ == old(self).data@,
                out@ == old(self).data@.take(out@.len() as int),
            decreases self.data@.len(),
        {
            let b = self.data.remove(0);
            out.push(b);
            proof {
                assert(out@ + self.data@ =~= old(self).data@);
                assert(out@ =~= old(self).data@.take(out@.len() as int));
            }
        }
        proof {
            assert(self.data@ =~= old(self).data@.skip(out@.len() as int));
        }
        out
    }

    fn read_to_end(&mut self) -> (r: Vec<u8>) {
        let mut out: Vec<u8> = Vec::new();
        out.append(&mut self.data);
        proof {
            assert(out@ =~= old(self).data@);
        }
        out
    }
}

impl BufByteRead for SliceReader {
    fn fill_buf(&mut self) -> (r: Vec<u8>) {
        let mut out: Vec<u8> = Vec::new();
        let mut i: usize = 0;
        while i < self.data.len()
            invariant
                i <= self.data@.len(),
                self.data@ == old(self).data@,
                out@ == self.data@.take(i as int),
            decreases self.data@.len() - i,
        {
            out.push(self.data[i]);
            proof {
                assert(out@ =~= self.data@.take(i + 1));
            }
            i = i + 1;
        }
        proof {
            assert(self.data@.take(self.data@.len() as int) =~= self.data@);
        }
        out
    }

    fn consume(&mut self, amt: usize) {
        let mut k: usize = 0;
        while k < amt && self.data.len() > 0
            invariant
                k <= amt,
                k as int <= old(self).data@.len(),
                self.data@ == old(self).data@.skip(k as int),
            decreases self.data@.len(),
        {
            self.data.remove(0);
            proof {
                assert(old(self).data@.skip(k as int).remove(0) =~= old(self).data@.skip(k + 1));
            }
            k = k + 1;
        }
    }
}

/// A writer that collects every written byte.
pub struct VecWriter {
    data: Vec<u8>,
}

impl VecWriter {
    /// A writer with nothing written yet.
    pub fn new() -> (r: Self)
        ensures
            r.sink() == Seq::<u8>::empty(),
    {
        VecWriter { data: Vec::new() }
    }

    /// Consumes the writer, handing back everything written.
    pub fn into_bytes(self) -> (r: Vec<u8>)
        ensures
            r@ == self.sink(),
    {
        self.data
    }
}

impl ByteWrite for VecWriter {
    closed spec fn sink(&self) -> Seq<u8> {
        self.data@
    }

    fn write(&mut self, buf: &Vec<u8>) -> (n: usize) {
        let mut i: usize = 0;
        while i < buf.len()
            invariant
                i <= buf@.len(),
                self.data@ == old(self).data@ + buf@.take(i as int),
            decreases buf@.len() - i,
        {
            self.data.push(buf[i]);
            proof {
                assert(self.data@ =~= old(self).data@ + buf@.take(i + 1));
            }
            i = i + 1;
        }
        proof {
            assert(old(self).data@ + buf@.take(buf@.len() as int) =~= old(self).data@ + buf@);
        }
        buf.len()
    }

    fn flush(&mut self) {
    }
}

/// `Either<L, R>` is a reader if both `L` and `R` are: every call is
/// forwarded to the live payload.
impl<L, R> ByteRead for Either<L, R> where L: ByteRead, R: ByteRead {
    open spec fn avail(&self) -> Seq<u8> {
        match *self {
            Either::Left(l) => l.avail(),
            Either::Right(r) => r.avail(),
        }
    }

    fn read(&mut self, n: usize) -> (r: Vec<u8>) {
        match *self {
            Either::Left(ref mut inner) => inner.read(n),
            Either::Right(ref mut inner) => inner.read(n),
        }
    }

    fn read_to_end(&mut self) -> (r: Vec<u8>) {
        match *self {
            Either::Left(ref mut inner) => inner.read_to_end(),
            Either::Right(ref mut inner) => inner.read_to_end(),
        }
    }
}

/// `Either<L, R>` is a buffered reader if both `L` and `R` are: every call
/// is forwarded to the live payload.
impl<L, R> BufByteRead for Either<L, R> where L: BufByteRead, R: BufByteRead {
    fn fill_buf(&mut self) -> (r: Vec<u8>) {
        match *self {
            Either::Left(ref mut inner) => inner.fill_buf(),
            Either::Right(ref mut inner) => inner.fill_buf(),
        }
    }

    fn consume(&mut self, amt: usize) {
        match *self {
            Either::Left(ref mut inner) => inner.consume(amt),
            Either::Right(ref mut inner) => inner.consume(amt),
        }
    }
}

/// `Either<L, R>` is a writer if both `L` and `R` are: every call is
/// forwarded to the live payload.
impl<L, R> ByteWrite for Either<L, R> where L: ByteWrite, R: ByteWrite {
    open spec fn sink(&self) -> Seq<u8> {
        match *self {
            Either::Left(l) => l.sink(),
            Either::Right(r) => r.sink(),
        }
    }

    fn write(&mut self, buf: &Vec<u8>) -> (n: usize) {
        match *self {
            Either::Left(ref mut inner) => inner.write(buf),
            Either::Right(ref mut inner) => inner.write(buf),
        }
    }

    fn flush(&mut self) {
        match *self {
            Either::Left(ref mut inner) => inner.flush(),
            Either::Right(ref mut inner) => inner.flush(),
        }
    }
}

/// Forwarding preserves the streams: an `Either` holding a single reader
/// offers exactly that reader's bytes, and an `Either` holding a single
/// writer has written exactly that writer's bytes.
pub proof fn lemma_delegated_streams<L: ByteRead, R: ByteRead, V: ByteWrite, W: ByteWrite>(
    l: L,
    r: R,
    v: V,
    w: W,
)
    ensures
        Either::<L, R>::Left(l).avail() == l.avail(),
        Either::<L, R>::Right(r).avail() == r.avail(),
        Either::<V, W>::Left(v).sink() == v.sink(),
        Either::<V, W>::Right(w).sink() == w.sink(),
{
}

} // verus!
