use crate::error::ParseError;
use crate::reader::{bytes_at, le_i64, u64_from_le, ByteReader, ByteSource};
use vstd::prelude::*;

verus! {

/// Size of the frame header in front of every compressed chunk: six little-endian `i64`s
/// (package tag, maximum chunk size, compressed length, uncompressed length, and the two
/// lengths again).
pub const CHUNK_HEADER_LEN: usize = 48;

/// What flate2's zlib decoder makes of a compressed chunk: the inflated bytes, or `None` when
/// the data is corrupt or ends too early.
pub uninterp spec fn zlib_inflate(compressed: Seq<u8>) -> Option<Seq<u8>>;

/// Relies on `flate2::read::ZlibDecoder`, read to its end with `Read::read_to_end`: it gives
/// the inflated bytes, or an error for corrupt or truncated data, and the outcome depends on
/// the compressed bytes alone.
#[verifier::external_body]
fn inflate(compressed: &[u8]) -> (r: Option<Vec<u8>>)
    ensures
        match r {
            Some(v) => zlib_inflate(compressed@) == Some(v@),
            None => zlib_inflate(compressed@) is None,
        },
{
    let mut decoder = flate2::read::ZlibDecoder::new(compressed);
    let mut out: Vec<u8> = Vec::new();
    match std::io::Read::read_to_end(&mut decoder, &mut out) {
        Ok(_) => Some(out),
        Err(_) => None,
    }
}

/// What is found at the front of the compressed section.
pub enum ChunkStart {
    /// Fewer bytes than a frame header: the compressed stream is over.
    End,
    /// A chunk is there but cannot be opened.
    Failed(ParseError),
    /// A chunk was opened: its payload (inflated, without the leading four-byte data length)
    /// and the bytes after it.
    Opened(Seq<u8>, Seq<u8>),
}

/// The compressed length announced by the frame header at the front of `b`.
pub open spec fn chunk_compressed_len(b: Seq<u8>) -> i64 {
    le_i64(b.subrange(16, 24))
}

/// Where the chunk at the front of `b` ends: its compressed bytes follow the header, cut
/// short where `b` ends.
pub open spec fn chunk_end(b: Seq<u8>) -> int {
    let end = CHUNK_HEADER_LEN + chunk_compressed_len(b);
    if end <= b.len() {
        end
    } else {
        b.len() as int
    }
}

/// What the compressed section `b` holds at its front.
pub open spec fn chunk_at(b: Seq<u8>) -> ChunkStart {
    if b.len() < CHUNK_HEADER_LEN {
        ChunkStart::End
    } else if chunk_compressed_len(b) < 0 {
        ChunkStart::Failed(ParseError::IoError)
    } else {
        match zlib_inflate(b.subrange(CHUNK_HEADER_LEN as int, chunk_end(b))) {
            None => ChunkStart::Failed(ParseError::InflateError),
            Some(out) => if out.len() < 4 {
                ChunkStart::Failed(ParseError::UnexpectedEnd)
            } else {
                ChunkStart::Opened(out.skip(4), b.skip(chunk_end(b)))
            },
        }
    }
}

/// The logical stream held by a compressed section `b`: the payloads of its chunks one after
/// the other, up to the point where it stops, and the error that a read past that point gives
/// (`UnexpectedEnd` where the section ends at a header boundary).
pub open spec fn chunk_stream(b: Seq<u8>) -> (Seq<u8>, ParseError)
    decreases b.len(),
{
    if b.len() < CHUNK_HEADER_LEN {
        (seq![], ParseError::UnexpectedEnd)
    } else if chunk_compressed_len(b) < 0 {
        (seq![], ParseError::IoError)
    } else {
        match chunk_at(b) {
            ChunkStart::Opened(payload, _) => {
                let (more, stop) = chunk_stream(b.skip(chunk_end(b)));
                (payload + more, stop)
            },
            ChunkStart::Failed(e) => (seq![], e),
            ChunkStart::End => (seq![], ParseError::UnexpectedEnd),
        }
    }
}

/// Reads the frame header at the front of `file` and inflates the chunk that follows.
/// `Ok(None)` when fewer bytes than a header are left.
fn open_chunk(file: &mut ByteReader) -> (r: Result<Option<Vec<u8>>, ParseError>)
    requires
        old(file).wf(),
    ensures
        final(file).wf(),
        final(file).stop() == old(file).stop(),
        match chunk_at(old(file).remaining()) {
            ChunkStart::End => r is Ok && r->Ok_0 is None && final(file).remaining() == old(
                file,
            ).remaining(),
            ChunkStart::Failed(e) => r == Err::<Option<Vec<u8>>, ParseError>(e),
            ChunkStart::Opened(payload, next) => r is Ok && r->Ok_0 is Some && r->Ok_0->Some_0@.len()
                >= 4 && r->Ok_0->Some_0@.skip(4) == payload && final(file).remaining() == next
                && next.len() < old(file).remaining().len(),
        },
{
    let ghost b = file.remaining();
    if file.remaining_len() < CHUNK_HEADER_LEN {
        return Ok(None);
    }
    let header = file.read_bytes(CHUNK_HEADER_LEN)?;
    let compressed_len = u64_from_le(header.as_slice(), 16) as i64;
    proof {
        assert(header@.subrange(16, 24) =~= b.subrange(16, 24));
    }
    if compressed_len < 0 {
        return Err(ParseError::IoError);
    }
    let available = file.remaining_len();
    let take: usize = if (compressed_len as u64) < (available as u64) {
        compressed_len as usize
    } else {
        available
    };
    let compressed = file.read_bytes(take)?;
    proof {
        assert(compressed@ =~= b.subrange(CHUNK_HEADER_LEN as int, chunk_end(b)));
        assert(file.remaining() =~= b.skip(chunk_end(b)));
    }
    match inflate(compressed.as_slice()) {
        None => Err(ParseError::InflateError),
        Some(out) => {
            if out.len() < 4 {
                Err(ParseError::UnexpectedEnd)
            } else {
                Ok(Some(out))
            }
        },
    }
}

/// The compressed section of a save read as one stream: the chunks' payloads one after the
/// other, each chunk inflated when the previous one is used up.
pub struct ChunkedZLibReader {
    /// The bytes after the current chunk.
    file: ByteReader,
    /// The current chunk, inflated, with its leading four-byte data length.
    chunk: Vec<u8>,
    /// How much of `chunk` has been handed out.
    chunk_pos: usize,
    /// Once the stream has stopped, the error that a read past its end gives
    /// (`UnexpectedEnd` where it ended at a header boundary).
    stopped: Option<ParseError>,
}

/// The stream that a compressed section `b` opens to: its payloads and where it stops, or the
/// error that keeps its first chunk from opening (`UnexpectedEnd` where there is none).
pub open spec fn body_at(b: Seq<u8>) -> Result<(Seq<u8>, ParseError), ParseError> {
    match chunk_at(b) {
        ChunkStart::End => Err(ParseError::UnexpectedEnd),
        ChunkStart::Failed(e) => Err(e),
        ChunkStart::Opened(payload, next) => Ok((payload + chunk_stream(next).0, chunk_stream(next).1)),
    }
}

proof fn lemma_chunk_stream_unfold(b: Seq<u8>)
    ensures
        match chunk_at(b) {
            ChunkStart::End => chunk_stream(b) == (Seq::<u8>::empty(), ParseError::UnexpectedEnd),
            ChunkStart::Failed(e) => chunk_stream(b) == (Seq::<u8>::empty(), e),
            ChunkStart::Opened(payload, next) => chunk_stream(b) == (
                payload + chunk_stream(next).0,
                chunk_stream(next).1,
            ),
        },
{
}

impl ChunkedZLibReader {
    /// Opens the first chunk of the compressed section that `file` holds.
    pub fn new(file: ByteReader) -> (r: Result<ChunkedZLibReader, ParseError>)
        requires
            file.wf(),
        ensures
            match body_at(file.remaining()) {
                Ok((bytes, stop)) => r is Ok && r->Ok_0.wf() && r->Ok_0.remaining() == bytes
                    && r->Ok_0.stop() == stop,
                Err(e) => r is Err && r->Err_0 == e,
            },
    {
        let mut file = file;
        match open_chunk(&mut file) {
            Err(e) => Err(e),
            Ok(None) => Err(ParseError::UnexpectedEnd),
            Ok(Some(chunk)) => Ok(ChunkedZLibReader { file, chunk, chunk_pos: 4, stopped: None }),
        }
    }
}

impl ChunkedZLibReader {
    /// Hands out up to `n` bytes, opening chunks as needed. Where fewer than `n` are left, it
    /// hands out all that is left and gives the error at which the stream stops.
    fn take_up_to(&mut self, n: usize) -> (r: (Vec<u8>, Option<ParseError>))
        requires
            old(self).wf(),
        ensures
            final(self).wf(),
            final(self).stop() == old(self).stop(),
            r.0@.len() <= n,
            r.0@ + final(self).remaining() == old(self).remaining(),
            r.1 is None ==> r.0@.len() == n,
            r.1 is Some ==> r.0@.len() < n && final(self).remaining().len() == 0 && r.1->Some_0
                == old(self).stop(),
    {
        let ghost start = self.remaining();
        let mut out: Vec<u8> = Vec::new();
        while out.len() < n
            invariant
                self.wf(),
                out@.len() <= n,
                out@ + self.remaining() == start,
                self.stop() == old(self).stop(),
                start == old(self).remaining(),
            decreases n - out@.len(), self.file.remaining().len(),
        {
            if self.chunk_pos < self.chunk.len() {
                let ghost before = self.remaining();
                out.push(self.chunk[self.chunk_pos]);
                self.chunk_pos = self.chunk_pos + 1;
                proof {
                    assert(before =~= seq![self.chunk@[self.chunk_pos - 1]] + self.remaining());
                    assert(out@ + self.remaining() =~= start);
                }
            } else if let Some(e) = self.stopped {
                proof {
                    assert(self.remaining() =~= Seq::<u8>::empty());
                    assert(out@ =~= start);
                }
                return (out, Some(e));
            } else {
                let ghost rest = self.file.remaining();
                proof {
                    lemma_chunk_stream_unfold(rest);
                    assert(self.chunk@.skip(self.chunk_pos as int) =~= Seq::<u8>::empty());
                    assert(self.remaining() =~= chunk_stream(rest).0);
                }
                match open_chunk(&mut self.file) {
                    Err(e) => {
                        self.stopped = Some(e);
                        proof {
                            assert(self.remaining() =~= Seq::<u8>::empty());
                            assert(out@ =~= start);
                        }
                        return (out, Some(e));
                    },
                    Ok(None) => {
                        self.stopped = Some(ParseError::UnexpectedEnd);
                        proof {
                            assert(self.remaining() =~= Seq::<u8>::empty());
                            assert(out@ =~= start);
                        }
                        return (out, Some(ParseError::UnexpectedEnd));
                    },
                    Ok(Some(chunk)) => {
                        self.chunk = chunk;
                        self.chunk_pos = 4;
                    },
                }
            }
        }
        (out, None)
    }

    /// Reads like a stream: up to `n` bytes. Where the compressed section ends at a header
    /// boundary before `n` bytes, it gives the bytes that were left, and every later read gives
    /// none; a chunk that cannot be opened makes the read fail.
    pub fn read(&mut self, n: usize) -> (r: Result<Vec<u8>, ParseError>)
        requires
            old(self).wf(),
        ensures
            final(self).wf(),
            final(self).stop() == old(self).stop(),
            n <= old(self).remaining().len() ==> r is Ok && r->Ok_0@ == old(self).remaining().take(
                n as int,
            ) && final(self).remaining() == old(self).remaining().skip(n as int),
            n > old(self).remaining().len() && old(self).stop() == ParseError::UnexpectedEnd ==> r is Ok
                && r->Ok_0@ == old(self).remaining() && final(self).remaining().len() == 0,
            n > old(self).remaining().len() && old(self).stop() != ParseError::UnexpectedEnd ==> r is Err
                && r->Err_0 == old(self).stop(),
    {
        let ghost start = self.remaining();
        let (out, stopped) = self.take_up_to(n);
        proof {
            assert(out@ =~= start.take(out@.len() as int));
            assert(self.remaining() =~= start.skip(out@.len() as int));
        }
        match stopped {
            None => Ok(out),
            Some(ParseError::UnexpectedEnd) => {
                proof {
                    assert(out@ =~= start);
                }
                Ok(out)
            },
            Some(e) => Err(e),
        }
    }
}

impl ByteSource for ChunkedZLibReader {
    closed spec fn wf(&self) -> bool {
        self.file.wf() && self.chunk_pos <= self.chunk@.len()
    }

    closed spec fn remaining(&self) -> Seq<u8> {
        self.chunk@.skip(self.chunk_pos as int) + match self.stopped {
            Some(_) => Seq::<u8>::empty(),
            None => chunk_stream(self.file.remaining()).0,
        }
    }

    closed spec fn stop(&self) -> ParseError {
        match self.stopped {
            Some(e) => e,
            None => chunk_stream(self.file.remaining()).1,
        }
    }

    fn read_bytes(&mut self, n: usize) -> (r: Result<Vec<u8>, ParseError>) {
        let ghost start = self.remaining();
        let (out, stopped) = self.take_up_to(n);
        match stopped {
            None => {
                proof {
                    assert(out@ =~= start.take(n as int));
                    assert(self.remaining() =~= start.skip(n as int));
                }
                Ok(out)
            },
            Some(e) => Err(e),
        }
    }
}

} // verus!
