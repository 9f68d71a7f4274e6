//! One audio chunk together with the track context it came from, and the
//! chunking rule that cuts a track's bytes into such chunks.

use vstd::prelude::*;
use crate::errors::StreamError;

verus! {

/// Audio payloads are cut into chunks of at most this many bytes.
pub const DEFAULT_FRAME_SIZE: usize = 2097152;

/// One audio chunk plus the metadata of the track it belongs to.
/// `duration` is the chunk's playback time in milliseconds.
pub struct FrameWithMeta {
    pub frame: Vec<u8>,
    pub title: String,
    pub artist: String,
    pub content_type: String,
    pub duration: u64,
}

/// A track's byte rate as an exact fraction: `bytes` payload bytes play
/// over `millis` milliseconds, so the rate stays positive for every
/// admissible track, however low its bitrate.
#[derive(Clone, Copy, PartialEq, Eq, Structural, Debug)]
pub struct ByteRate {
    pub bytes: u64,
    pub millis: u64,
}

impl ByteRate {
    /// Valid: both parts positive, so the rate is a positive rational.
    pub open spec fn wf(&self) -> bool {
        self.bytes >= 1 && self.millis >= 1
    }
}

/// The playback duration in milliseconds of a chunk of `len` bytes at the
/// given rate: `len * millis / bytes`, rounded down, capped at the largest
/// representable duration.
pub open spec fn spec_chunk_duration(len: nat, rate: ByteRate) -> int
    recommends
        rate.wf(),
{
    let q = (len * rate.millis) as int / (rate.bytes as int);
    if q > u64::MAX {
        u64::MAX as int
    } else {
        q
    }
}

/// How many chunks of at most `DEFAULT_FRAME_SIZE` bytes a track of `len`
/// bytes is cut into: the division rounded up.
pub open spec fn spec_chunk_count(len: nat) -> int {
    (len + (DEFAULT_FRAME_SIZE as int) - 1) / (DEFAULT_FRAME_SIZE as int)
}

/// The `i`-th chunk of `content` under the fixed chunk size.
pub open spec fn spec_chunk_at(content: Seq<u8>, i: int) -> Seq<u8> {
    if (i + 1) * (DEFAULT_FRAME_SIZE as int) <= content.len() {
        content.subrange(i * (DEFAULT_FRAME_SIZE as int), (i + 1) * (DEFAULT_FRAME_SIZE as int))
    } else {
        content.subrange(i * (DEFAULT_FRAME_SIZE as int), content.len() as int)
    }
}

/// Cuts a track's bytes into chunks of at most `DEFAULT_FRAME_SIZE` bytes,
/// in order, with no byte lost or duplicated. A track that yields no bytes
/// at all is reported as empty rather than silently producing nothing.
pub fn chunk_track_bytes(content: &Vec<u8>) -> (r: Result<Vec<Vec<u8>>, StreamError>)
    ensures
        content@.len() == 0 <==> r is Err,
        r matches Err(e) ==> e is IoError,
        r matches Ok(chunks) ==> {
            &&& chunks@.len() == spec_chunk_count(content@.len())
            &&& forall|i: int|
                0 <= i < chunks@.len() ==> #[trigger] chunks@[i]@ == spec_chunk_at(content@, i)
            &&& forall|i: int|
                0 <= i < chunks@.len() ==> 1 <= #[trigger] chunks@[i]@.len() <= DEFAULT_FRAME_SIZE
        },
{
    if content.len() == 0 {
        return Err(StreamError::IoError(String::new()));
    }
    let mut chunks: Vec<Vec<u8>> = Vec::new();
    let mut start: usize = 0;
    while start < content.len()
        invariant
            start <= content@.len(),
            start < content@.len() ==> start == chunks@.len() * DEFAULT_FRAME_SIZE,
            chunks@.len() <= spec_chunk_count(content@.len()),
            start < content@.len() ==> chunks@.len() < spec_chunk_count(content@.len()),
            start == content@.len() ==> chunks@.len() == spec_chunk_count(content@.len()),
            forall|i: int|
                0 <= i < chunks@.len() ==> #[trigger] chunks@[i]@ == spec_chunk_at(content@, i),
            forall|i: int|
                0 <= i < chunks@.len() ==> 1 <= #[trigger] chunks@[i]@.len() <= DEFAULT_FRAME_SIZE,
        decreases content@.len() - start,
    {
        let remaining = content.len() - start;
        let take = if remaining < DEFAULT_FRAME_SIZE {
            remaining
        } else {
            DEFAULT_FRAME_SIZE
        };
        let mut chunk: Vec<u8> = Vec::new();
        let mut j: usize = 0;
        while j < take
            invariant
                j <= take,
                start + take <= content@.len(),
                content@.len() <= usize::MAX,
                chunk@ == content@.subrange(start as int, start + j),
            decreases take - j,
        {
            chunk.push(content[start + j]);
            assert(chunk@ == content@.subrange(start as int, start + j + 1));
            j = j + 1;
        }
        let ghost old_count = chunks@.len() as int;
        chunks.push(chunk);
        proof {
            assert(chunks@[old_count]@ == spec_chunk_at(content@, old_count));
            if start + take == content@.len() {
                assert(chunks@.len() == spec_chunk_count(content@.len())) by (nonlinear_arith)
                    requires
                        chunks@.len() >= 1,
                        (chunks@.len() - 1) * DEFAULT_FRAME_SIZE + take == content@.len(),
                        1 <= take <= DEFAULT_FRAME_SIZE,
                        DEFAULT_FRAME_SIZE >= 1,
                ;
            } else {
                assert(take == DEFAULT_FRAME_SIZE);
                assert(chunks@.len() < spec_chunk_count(content@.len())) by (nonlinear_arith)
                    requires
                        chunks@.len() * DEFAULT_FRAME_SIZE < content@.len(),
                        DEFAULT_FRAME_SIZE >= 1,
                ;
            }
        }
        start = start + take;
    }
    Ok(chunks)
}

/// The playback duration in milliseconds of one chunk at the track's rate.
pub fn chunk_duration(len: usize, rate: &ByteRate) -> (r: u64)
    requires
        rate.wf(),
        len <= u64::MAX,
    ensures
        r == spec_chunk_duration(len as nat, *rate),
{
    proof {
        assert((len as u128) * (rate.millis as u128) <= (u64::MAX as u128) * (u64::MAX as u128))
            by (nonlinear_arith)
            requires
                len <= u64::MAX,
                rate.millis <= u64::MAX,
        ;
        assert((u64::MAX as u128) * (u64::MAX as u128) <= u128::MAX) by (nonlinear_arith);
    }
    let q = ((len as u128) * (rate.millis as u128)) / (rate.bytes as u128);
    if q > (u64::MAX as u128) {
        u64::MAX
    } else {
        q as u64
    }
}

} // verus!
