use vstd::prelude::*;

verus! {

/// Transfer chunk size of a range request, in bytes (1 MiB).
pub const FETCH_CHUNK_SIZE: u32 = 1048576;

/// Fixed timeout of one range request, in seconds.
pub const FETCH_TIMEOUT_SECONDS: u64 = 30;

/// One range-read request to the backend: the bytes `[offset, offset +
/// length)` of the object at `url`, transferred as a stream of chunks.
#[derive(Debug)]
pub struct RangeRequest {
    pub url: String,
    pub offset: u64,
    pub length: u64,
    pub chunk_size: u32,
    pub timeout_seconds: u64,
}

/// One chunk of a range-response stream, in arrival order. Arrival order
/// is trusted to equal byte order; a chunk marked final ends the stream.
#[derive(Debug)]
pub struct FileChunk {
    pub chunk_number: u64,
    pub data: Vec<u8>,
    pub is_final: bool,
}

/// The request issued for a planned read: the caller's range with the
/// fixed transfer chunk size and the fixed timeout.
pub fn make_range_request(url: String, offset: u64, length: u64) -> (r: RangeRequest)
    ensures
        r.url == url,
        r.offset == offset,
        r.length == length,
        r.chunk_size == FETCH_CHUNK_SIZE,
        r.timeout_seconds == FETCH_TIMEOUT_SECONDS,
{
    RangeRequest {
        url,
        offset,
        length,
        chunk_size: FETCH_CHUNK_SIZE,
        timeout_seconds: FETCH_TIMEOUT_SECONDS,
    }
}

/// The bytes one range call yields: the chunk payloads concatenated in
/// arrival order, up to and including the first chunk marked final.
pub open spec fn assembled(chunks: Seq<FileChunk>) -> Seq<u8>
    decreases chunks.len(),
{
    if chunks.len() == 0 {
        Seq::<u8>::empty()
    } else if chunks[0].is_final {
        chunks[0].data@
    } else {
        chunks[0].data@ + assembled(chunks.drop_first())
    }
}

/// Incremental assembly of one range response, fed a chunk at a time as
/// the stream yields them. On any chunk-level error the caller drops the
/// assembler whole: no partial buffer ever reaches the kernel.
pub struct ChunkAssembler {
    data: Vec<u8>,
    done: bool,
}

impl ChunkAssembler {
    /// The payload bytes accumulated so far, in arrival order.
    pub closed spec fn bytes(self) -> Seq<u8> {
        self.data@
    }

    /// Whether a final chunk has been consumed.
    pub closed spec fn is_done(self) -> bool {
        self.done
    }

    /// An empty assembler awaiting the first chunk.
    pub fn new() -> (r: Self)
        ensures
            r.bytes() == Seq::<u8>::empty(),
            !r.is_done(),
    {
        ChunkAssembler { data: Vec::new(), done: false }
    }

    /// Appends one chunk's payload; the result says whether more chunks
    /// are expected (false once the chunk was marked final).
    pub fn push_chunk(&mut self, chunk: &FileChunk) -> (more: bool)
        requires
            !old(self).is_done(),
        ensures
            final(self).bytes() == old(self).bytes() + chunk.data@,
            final(self).is_done() == chunk.is_final,
            more == !chunk.is_final,
    {
        self.data.extend_from_slice(chunk.data.as_slice());
        self.done = chunk.is_final;
        !chunk.is_final
    }

    /// Hands out the assembled buffer.
    pub fn into_data(self) -> (r: Vec<u8>)
        ensures
            r@ == self.bytes(),
    {
        self.data
    }
}

/// Assembles a fully received response stream: consumes chunks in order
/// and stops after the first one marked final, ignoring anything behind
/// it.
pub fn assemble_chunks(chunks: &Vec<FileChunk>) -> (r: Vec<u8>)
    ensures
        r@ == assembled(chunks@),
{
    let mut out: Vec<u8> = Vec::new();
    let n = chunks.len();
    let mut i: usize = 0;
    proof {
        assert(chunks@.skip(0) =~= chunks@);
        assert(Seq::<u8>::empty() + assembled(chunks@) =~= assembled(chunks@));
    }
    while i < n
        invariant
            i <= n,
            n == chunks@.len(),
            assembled(chunks@) == out@ + assembled(chunks@.skip(i as int)),
        decreases n - i,
    {
        let chunk = &chunks[i];
        proof {
            let rest = chunks@.skip(i as int);
            assert(rest[0] == chunks@[i as int]);
            assert(rest.drop_first() =~= chunks@.skip(i as int + 1));
        }
        out.extend_from_slice(chunk.data.as_slice());
        if chunk.is_final {
            return out;
        }
        i += 1;
    }
    proof {
        assert(chunks@.skip(n as int) =~= Seq::<FileChunk>::empty());
    }
    out
}

} // verus!
