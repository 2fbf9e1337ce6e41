use crate::error::ParseError;
use vstd::prelude::*;

verus! {

/// The unsigned 32-bit integer stored little-endian in the first four bytes of `b`.
pub open spec fn le_u32(b: Seq<u8>) -> u32 {
    (b[0] as int + b[1] as int * 0x100 + b[2] as int * 0x1_0000 + b[3] as int * 0x100_0000) as u32
}

/// The signed 32-bit integer stored little-endian (two's complement) in the first four bytes of `b`.
pub open spec fn le_i32(b: Seq<u8>) -> i32 {
    le_u32(b) as i32
}

/// The unsigned 64-bit integer stored little-endian in the first eight bytes of `b`.
pub open spec fn le_u64(b: Seq<u8>) -> u64 {
    (le_u32(b) as int + le_u32(b.skip(4)) as int * 0x1_0000_0000) as u64
}

/// The signed 64-bit integer stored little-endian in the first eight bytes of `b`.
pub open spec fn le_i64(b: Seq<u8>) -> i64 {
    le_u64(b) as i64
}

/// Reading `n` bytes from a stream that still holds `b` and then stops with `stop`:
/// the bytes read and what is left, or `stop` when `b` is too short.
pub open spec fn bytes_at(b: Seq<u8>, stop: ParseError, n: int) -> Result<(Seq<u8>, Seq<u8>), ParseError> {
    if 0 <= n <= b.len() {
        Ok((b.take(n), b.skip(n)))
    } else {
        Err(stop)
    }
}

/// Reading one byte.
pub open spec fn u8_at(b: Seq<u8>, stop: ParseError) -> Result<(u8, Seq<u8>), ParseError> {
    match bytes_at(b, stop, 1) {
        Ok((x, rest)) => Ok((x[0], rest)),
        Err(e) => Err(e),
    }
}

/// Reading a little-endian `u32`.
pub open spec fn u32_at(b: Seq<u8>, stop: ParseError) -> Result<(u32, Seq<u8>), ParseError> {
    match bytes_at(b, stop, 4) {
        Ok((x, rest)) => Ok((le_u32(x), rest)),
        Err(e) => Err(e),
    }
}

/// Reading a little-endian `i32`.
pub open spec fn i32_at(b: Seq<u8>, stop: ParseError) -> Result<(i32, Seq<u8>), ParseError> {
    match bytes_at(b, stop, 4) {
        Ok((x, rest)) => Ok((le_i32(x), rest)),
        Err(e) => Err(e),
    }
}

/// Reading a little-endian `i64`.
pub open spec fn i64_at(b: Seq<u8>, stop: ParseError) -> Result<(i64, Seq<u8>), ParseError> {
    match bytes_at(b, stop, 8) {
        Ok((x, rest)) => Ok((le_i64(x), rest)),
        Err(e) => Err(e),
    }
}

/// Decodes the little-endian `u32` at `b[at..at + 4]`.
pub fn u32_from_le(b: &[u8], at: usize) -> (r: u32)
    requires
        at + 4 <= b@.len(),
    ensures
        r == le_u32(b@.subrange(at as int, at + 4)),
{
    let b0 = b[at] as u32;
    let b1 = b[at + 1] as u32;
    let b2 = b[at + 2] as u32;
    let b3 = b[at + 3] as u32;
    b0 + b1 * 0x100 + b2 * 0x1_0000 + b3 * 0x100_0000
}

/// Decodes the little-endian `u64` at `b[at..at + 8]`.
pub fn u64_from_le(b: &[u8], at: usize) -> (r: u64)
    requires
        at + 8 <= b@.len(),
    ensures
        r == le_u64(b@.subrange(at as int, at + 8)),
{
    let _n = b.len();
    let lo = u32_from_le(b, at) as u64;
    let hi = u32_from_le(b, at + 4) as u64;
    proof {
        let s = b@.subrange(at as int, at + 8);
        assert(s.subrange(0, 4) =~= b@.subrange(at as int, at + 4));
        assert(s.skip(4).subrange(0, 4) =~= b@.subrange(at + 4, at + 8));
    }
    lo + hi * 0x1_0000_0000
}

/// A source of bytes read front to back. It holds `remaining()` and then stops:
/// a read that reaches past `remaining()` fails with `stop()`.
pub trait ByteSource {
    /// The source's own consistency.
    spec fn wf(&self) -> bool;

    /// The bytes still to come.
    spec fn remaining(&self) -> Seq<u8>;

    /// The error that a read past the remaining bytes gives.
    spec fn stop(&self) -> ParseError;

    /// Takes the next `n` bytes.
    fn read_bytes(&mut self, n: usize) -> (r: Result<Vec<u8>, ParseError>)
        requires
            old(self).wf(),
        ensures
            final(self).wf(),
            r is Ok ==> final(self).stop() == old(self).stop(),
            match bytes_at(old(self).remaining(), old(self).stop(), n as int) {
                Ok((v, rest)) => r is Ok && r->Ok_0@ == v && final(self).remaining() == rest,
                Err(e) => r == Err::<Vec<u8>, ParseError>(e),
            },
    ;
}

/// A byte buffer read front to back; it stops with `UnexpectedEnd`.
pub struct ByteReader {
    data: Vec<u8>,
    pos: usize,
}

impl ByteReader {
    /// A reader over a copy of `data`.
    pub fn new(data: &[u8]) -> (r: ByteReader)
        ensures
            r.wf(),
            r.remaining() == data@,
            r.stop() == ParseError::UnexpectedEnd,
    {
        let mut v: Vec<u8> = Vec::with_capacity(data.len());
        let mut i: usize = 0;
        while i < data.len()
            invariant
                i <= data@.len(),
                v@ == data@.take(i as int),
            decreases data@.len() - i,
        {
            v.push(data[i]);
            i += 1;
            assert(v@ =~= data@.take(i as int));
        }
        assert(v@.skip(0) =~= data@);
        ByteReader { data: v, pos: 0 }
    }

    /// The number of bytes not read yet.
    pub fn remaining_len(&self) -> (r: usize)
        requires
            self.wf(),
        ensures
            r == self.remaining().len(),
    {
        self.data.len() - self.pos
    }
}

impl ByteSource for ByteReader {
    closed spec fn wf(&self) -> bool {
        self.pos <= self.data@.len()
    }

    closed spec fn remaining(&self) -> Seq<u8> {
        self.data@.skip(self.pos as int)
    }

    closed spec fn stop(&self) -> ParseError {
        ParseError::UnexpectedEnd
    }

    fn read_bytes(&mut self, n: usize) -> (r: Result<Vec<u8>, ParseError>) {
        if n > self.data.len() - self.pos {
            return Err(ParseError::UnexpectedEnd);
        }
        let mut v: Vec<u8> = Vec::with_capacity(n);
        let start = self.pos;
        let len = self.data.len();
        let mut i: usize = 0;
        while i < n
            invariant
                self.pos == start,
                start + n <= self.data@.len(),
                len == self.data@.len(),
                i <= n,
                v@ == self.data@.subrange(start as int, start + i),
            decreases n - i,
        {
            v.push(self.data[start + i]);
            i += 1;
            assert(v@ =~= self.data@.subrange(start as int, start + i));
        }
        self.pos = start + n;
        assert(v@ =~= old(self).remaining().take(n as int));
        assert(self.remaining() =~= old(self).remaining().skip(n as int));
        Ok(v)
    }
}

/// Reads one byte.
pub fn read_u8<S: ByteSource>(src: &mut S) -> (r: Result<u8, ParseError>)
    requires
        old(src).wf(),
    ensures
        final(src).wf(),
        r is Ok ==> final(src).stop() == old(src).stop(),
        match u8_at(old(src).remaining(), old(src).stop()) {
            Ok((v, rest)) => r == Ok::<u8, ParseError>(v) && final(src).remaining() == rest,
            Err(e) => r == Err::<u8, ParseError>(e),
        },
{
    let b = src.read_bytes(1)?;
    Ok(b[0])
}

/// Reads a little-endian `u32`.
pub fn read_u32<S: ByteSource>(src: &mut S) -> (r: Result<u32, ParseError>)
    requires
        old(src).wf(),
    ensures
        final(src).wf(),
        r is Ok ==> final(src).stop() == old(src).stop(),
        match u32_at(old(src).remaining(), old(src).stop()) {
            Ok((v, rest)) => r == Ok::<u32, ParseError>(v) && final(src).remaining() == rest,
            Err(e) => r == Err::<u32, ParseError>(e),
        },
{
    let b = src.read_bytes(4)?;
    proof {
        assert(b@.subrange(0, 4) =~= b@);
    }
    Ok(u32_from_le(b.as_slice(), 0))
}

/// Reads a little-endian `i32`.
pub fn read_i32<S: ByteSource>(src: &mut S) -> (r: Result<i32, ParseError>)
    requires
        old(src).wf(),
    ensures
        final(src).wf(),
        r is Ok ==> final(src).stop() == old(src).stop(),
        match i32_at(old(src).remaining(), old(src).stop()) {
            Ok((v, rest)) => r == Ok::<i32, ParseError>(v) && final(src).remaining() == rest,
            Err(e) => r == Err::<i32, ParseError>(e),
        },
{
    let v = read_u32(src)?;
    Ok(v as i32)
}

/// Reads a little-endian `i64`.
pub fn read_i64<S: ByteSource>(src: &mut S) -> (r: Result<i64, ParseError>)
    requires
        old(src).wf(),
    ensures
        final(src).wf(),
        r is Ok ==> final(src).stop() == old(src).stop(),
        match i64_at(old(src).remaining(), old(src).stop()) {
            Ok((v, rest)) => r == Ok::<i64, ParseError>(v) && final(src).remaining() == rest,
            Err(e) => r == Err::<i64, ParseError>(e),
        },
{
    let b = src.read_bytes(8)?;
    proof {
        assert(b@.subrange(0, 8) =~= b@);
    }
    Ok(u64_from_le(b.as_slice(), 0) as i64)
}

} // verus!
