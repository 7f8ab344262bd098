//! Byte sinks and sources that the serializers write to and read from.
use crate::error::{IoErrorKind, SerializationError};
use vstd::prelude::*;

verus! {

/// A sink of bytes with a bounded amount of room left.
pub trait Write: Sized {
    /// Every byte accepted so far, in order.
    spec fn spec_written(&self) -> Seq<u8>;

    /// How many more bytes the sink accepts.
    spec fn spec_room(&self) -> nat;

    /// Writes all of `data`. When there is not room for all of it, as much as fits is
    /// written, the sink is left full and `WriteZero` is returned.
    fn write_all(&mut self, data: &[u8]) -> (r: Result<(), SerializationError>)
        ensures
            write_outcome(
                old(self).spec_written(),
                old(self).spec_room(),
                final(self).spec_written(),
                final(self).spec_room(),
                data@,
                r,
            ),
    ;
}

/// A source of bytes.
pub trait Read: Sized {
    /// The bytes not read yet, in order.
    spec fn spec_unread(&self) -> Seq<u8>;

    /// Reads exactly `n` bytes. When fewer are left, the source is drained and
    /// `UnexpectedEof` is returned.
    fn read_exact(&mut self, n: usize) -> (r: Result<Vec<u8>, SerializationError>)
        ensures
            n <= old(self).spec_unread().len() ==> {
                &&& r matches Ok(bytes) && bytes@ == old(self).spec_unread().take(n as int)
                &&& final(self).spec_unread() == old(self).spec_unread().skip(n as int)
            },
            n > old(self).spec_unread().len() ==> {
                &&& r == Err::<Vec<u8>, SerializationError>(
                    SerializationError::IoError(IoErrorKind::UnexpectedEof),
                )
                &&& final(self).spec_unread() == Seq::<u8>::empty()
            },
    ;
}

/// What writing `bytes` to a sink that had written `w0` and had room `room0`
/// means, when it leaves the sink at `w1` and `room1` with outcome `r`: all of the
/// bytes are appended when they fit; otherwise the prefix that fits is appended,
/// the sink is full, and the error is `WriteZero`.
pub open spec fn write_outcome(
    w0: Seq<u8>,
    room0: nat,
    w1: Seq<u8>,
    room1: nat,
    bytes: Seq<u8>,
    r: Result<(), SerializationError>,
) -> bool {
    if bytes.len() <= room0 {
        &&& r is Ok
        &&& w1 == w0 + bytes
        &&& room1 == room0 - bytes.len()
    } else {
        &&& r == Err::<(), SerializationError>(SerializationError::IoError(IoErrorKind::WriteZero))
        &&& w1 == w0 + bytes.take(room0 as int)
        &&& room1 == 0
    }
}

/// Writing `bytes` took the sink from `before` to `after` with outcome `r`.
pub open spec fn writes<W: Write>(
    before: W,
    after: W,
    bytes: Seq<u8>,
    r: Result<(), SerializationError>,
) -> bool {
    write_outcome(
        before.spec_written(),
        before.spec_room(),
        after.spec_written(),
        after.spec_room(),
        bytes,
        r,
    )
}

/// Writing nothing leaves the sink as it was and succeeds.
pub proof fn lemma_writes_nothing<W: Write>(w: W)
    ensures
        writes(w, w, Seq::empty(), Ok(())),
{
    assert(w.spec_written() + Seq::<u8>::empty() =~= w.spec_written());
}

/// Two successive writes, the first of which succeeded, are one write of both.
pub proof fn lemma_writes_then<W: Write>(
    a: W,
    b: W,
    c: W,
    x: Seq<u8>,
    y: Seq<u8>,
    r: Result<(), SerializationError>,
)
    requires
        writes(a, b, x, Ok(())),
        writes(b, c, y, r),
    ensures
        writes(a, c, x + y, r),
{
    assert(a.spec_written() + x + y =~= a.spec_written() + (x + y));
    if y.len() > b.spec_room() {
        assert((x + y).take(a.spec_room() as int) =~= x + y.take(b.spec_room() as int));
        assert(a.spec_written() + x + y.take(b.spec_room() as int) =~= a.spec_written() + (x
            + y).take(a.spec_room() as int));
    }
}

/// A write that failed stays failed, with the same effect, whatever bytes would
/// have followed.
pub proof fn lemma_writes_failed_extend<W: Write>(
    a: W,
    b: W,
    x: Seq<u8>,
    y: Seq<u8>,
    r: Result<(), SerializationError>,
)
    requires
        writes(a, b, x, r),
        r is Err,
    ensures
        writes(a, b, x + y, r),
{
    assert((x + y).take(a.spec_room() as int) =~= x.take(a.spec_room() as int));
}

/// A fixed-size output buffer that is filled from the front, as a mutable byte
/// slice is.
pub struct SliceWriter {
    buf: Vec<u8>,
    pos: usize,
}

impl SliceWriter {
    /// Where the next byte goes; the fields are private, and every method keeps
    /// `pos` within the buffer, but the model does not rely on it.
    closed spec fn next(&self) -> int {
        if self.pos <= self.buf.len() {
            self.pos as int
        } else {
            self.buf.len() as int
        }
    }

    /// The whole buffer: the bytes written so far followed by the untouched rest.
    pub closed spec fn spec_buffer(&self) -> Seq<u8> {
        self.buf@
    }

    /// A writer that fills `buf` from its first byte on.
    pub fn new(buf: Vec<u8>) -> (w: SliceWriter)
        ensures
            w.spec_written() == Seq::<u8>::empty(),
            w.spec_room() == buf@.len(),
            w.spec_buffer() == buf@,
    {
        SliceWriter { buf, pos: 0 }
    }

    /// The buffer with everything written into it.
    pub fn into_inner(self) -> (v: Vec<u8>)
        ensures
            v@ == self.spec_buffer(),
            v@.len() == self.spec_written().len() + self.spec_room(),
            v@.take(self.spec_written().len() as int) == self.spec_written(),
    {
        self.buf
    }
}

impl Write for SliceWriter {
    closed spec fn spec_written(&self) -> Seq<u8> {
        self.buf@.take(self.next())
    }

    closed spec fn spec_room(&self) -> nat {
        (self.buf.len() - self.next()) as nat
    }

    /// The buffer keeps its length, and the bytes after those written stay as they
    /// were.
    fn write_all(&mut self, data: &[u8]) -> (r: Result<(), SerializationError>)
        ensures
            final(self).spec_buffer().len() == old(self).spec_buffer().len(),
            final(self).spec_buffer().take(final(self).spec_written().len() as int)
                == final(self).spec_written(),
            final(self).spec_buffer().skip(final(self).spec_written().len() as int)
                == old(self).spec_buffer().skip(final(self).spec_written().len() as int),
    {
        if self.pos > self.buf.len() {
            self.pos = self.buf.len();
        }
        let room = self.buf.len() - self.pos;
        let n = if data.len() <= room {
            data.len()
        } else {
            room
        };
        let ghost pos0 = self.pos;
        let ghost buf0 = self.buf@;
        let mut i: usize = 0;
        while i < n
            invariant
                n <= data@.len(),
                pos0 + n <= buf0.len(),
                i <= n,
                self.pos == pos0 + i,
                self.buf.len() == buf0.len(),
                self.buf@.take(self.pos as int) == buf0.take(pos0 as int) + data@.take(i as int),
                self.buf@.skip(self.pos as int) == buf0.skip(self.pos as int),
            decreases n - i,
        {
            let ghost before = self.buf@;
            let p = self.pos;
            self.buf.set(p, data[i]);
            self.pos = p + 1;
            i = i + 1;
            assert(self.buf@.take(self.pos as int) =~= before.take(p as int).push(data@[i - 1]));
            assert(data@.take(i as int) =~= data@.take(i - 1).push(data@[i - 1]));
            assert(self.buf@.skip(self.pos as int) =~= before.skip(p as int).skip(1));
            assert(buf0.skip(self.pos as int) =~= buf0.skip(p as int).skip(1));
        }
        if n < data.len() {
            Err(SerializationError::IoError(IoErrorKind::WriteZero))
        } else {
            assert(data@.take(n as int) =~= data@);
            Ok(())
        }
    }
}

/// An input buffer that is read from the front, as a byte slice is.
pub struct SliceReader {
    buf: Vec<u8>,
    pos: usize,
}

impl SliceReader {
    /// Where the next byte comes from, kept within the buffer as in `SliceWriter`.
    closed spec fn next(&self) -> int {
        if self.pos <= self.buf.len() {
            self.pos as int
        } else {
            self.buf.len() as int
        }
    }

    /// A reader over all of `buf`.
    pub fn new(buf: Vec<u8>) -> (r: SliceReader)
        ensures
            r.spec_unread() == buf@,
    {
        let r = SliceReader { buf, pos: 0 };
        assert(r.buf@.skip(0) =~= r.buf@);
        r
    }
}

impl Read for SliceReader {
    closed spec fn spec_unread(&self) -> Seq<u8> {
        self.buf@.skip(self.next())
    }

    fn read_exact(&mut self, n: usize) -> (r: Result<Vec<u8>, SerializationError>) {
        if self.pos > self.buf.len() {
            self.pos = self.buf.len();
        }
        if n > self.buf.len() - self.pos {
            self.pos = self.buf.len();
            assert(self.buf@.skip(self.pos as int) =~= Seq::<u8>::empty());
            return Err(SerializationError::IoError(IoErrorKind::UnexpectedEof));
        }
        let ghost unread0 = self.buf@.skip(self.pos as int);
        let mut out: Vec<u8> = Vec::new();
        let mut i: usize = 0;
        while i < n
            invariant
                self.pos + n <= self.buf.len(),
                i <= n,
                out@ == self.buf@.subrange(self.pos as int, self.pos + i),
            decreases n - i,
        {
            out.push(self.buf[self.pos + i]);
            i = i + 1;
            assert(out@ =~= self.buf@.subrange(self.pos as int, self.pos + i));
        }
        self.pos = self.pos + n;
        assert(out@ =~= unread0.take(n as int));
        assert(self.buf@.skip(self.pos as int) =~= unread0.skip(n as int));
        Ok(out)
    }
}

} // verus!
