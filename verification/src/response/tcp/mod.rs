//! Responses to what comes over TCP: how the bytes of a request are
//! gathered from what is read off a connection.

pub mod http;

use vstd::prelude::*;

verus! {

/// The bytes read at once from a connection.
pub const CHUNK: usize = 512;

/// Gathers the bytes of a request.
#[derive(Debug)]
pub struct Dispatcher {}

/// The bytes gathered after one more chunk: those before and the bytes of
/// the chunk that are not NUL.
pub open spec fn gathered(buffer: Seq<u8>, chunk: Seq<u8>) -> Seq<u8> {
    buffer + chunk.filter(|b: u8| b != 0)
}

/// The bytes gathered from the first chunk: its bytes that are not NUL, up
/// to the first at which more than `limit` bytes are gathered.
pub open spec fn gathered_first(buffer: Seq<u8>, chunk: Seq<u8>, limit: int) -> Seq<u8>
    decreases chunk.len(),
{
    if chunk.len() == 0 {
        buffer
    } else {
        let next = if chunk[0] != 0 {
            buffer.push(chunk[0])
        } else {
            buffer
        };
        if next.len() > limit {
            next
        } else {
            gathered_first(next, chunk.drop_first(), limit)
        }
    }
}

impl Dispatcher {
    /// Gathers the bytes of the first chunk.
    pub fn gather_first(buffer: &mut Vec<u8>, chunk: &[u8], limit: usize)
        ensures
            final(buffer)@ == gathered_first(old(buffer)@, chunk@, limit as int),
    {
        let mut i: usize = 0;
        assert(chunk@.skip(0) =~= chunk@);
        while i < chunk.len()
            invariant
                i <= chunk.len(),
                gathered_first(old(buffer)@, chunk@, limit as int) == gathered_first(
                    buffer@,
                    chunk@.skip(i as int),
                    limit as int,
                ),
            decreases chunk.len() - i,
        {
            let ghost rest = chunk@.skip(i as int);
            assert(rest[0] == chunk@[i as int]);
            assert(rest.drop_first() =~= chunk@.skip(i + 1));
            if chunk[i] != 0 {
                buffer.push(chunk[i]);
            }
            if buffer.len() > limit {
                return ;
            }
            i += 1;
        }
    }

    /// Gathers the bytes of a later chunk.
    pub fn gather(buffer: &mut Vec<u8>, chunk: &[u8])
        ensures
            final(buffer)@ == gathered(old(buffer)@, chunk@),
    {
        let ghost keep = |b: u8| b != 0;
        let mut i: usize = 0;
        assert(chunk@.take(0).filter(keep) =~= Seq::<u8>::empty()) by {
            reveal(Seq::filter);
        }
        while i < chunk.len()
            invariant
                i <= chunk.len(),
                keep == (|b: u8| b != 0),
                buffer@ == old(buffer)@ + chunk@.take(i as int).filter(keep),
            decreases chunk.len() - i,
        {
            proof {
                let done = chunk@.take(i + 1);
                assert(done.drop_last() =~= chunk@.take(i as int));
                assert(done.last() == chunk@[i as int]);
                reveal(Seq::filter);
            }
            if chunk[i] != 0 {
                buffer.push(chunk[i]);
            }
            i += 1;
        }
        assert(chunk@.take(chunk@.len() as int) =~= chunk@);
    }

    /// Whether more is read after the first chunk: the chunk was full, and
    /// a request may be longer than a chunk.
    pub fn reads_on(read_size: usize, limit: usize) -> (b: bool)
        ensures
            b == (read_size == CHUNK && limit > CHUNK),
    {
        read_size == CHUNK && limit > CHUNK
    }

    /// Whether more is read after a later chunk: the chunk was full, and
    /// the bytes gathered are within the limit.
    pub fn reads_further(read_size: usize, gathered: usize, limit: usize) -> (b: bool)
        ensures
            b == (read_size >= CHUNK && gathered <= limit),
    {
        read_size >= CHUNK && gathered <= limit
    }

    /// Whether reading ends after a later chunk because the request is too
    /// long: the chunk was full, and the bytes gathered are over the limit.
    /// After a chunk that was not full reading ends because nothing is
    /// left, however many bytes were gathered.
    pub fn exceeds(read_size: usize, gathered: usize, limit: usize) -> (b: bool)
        ensures
            b == (read_size >= CHUNK && gathered > limit),
            b ==> !(read_size >= CHUNK && gathered <= limit),
    {
        read_size >= CHUNK && gathered > limit
    }
}

} // verus!
