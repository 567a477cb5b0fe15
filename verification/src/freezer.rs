//! Freezing a read buffer into a chunk. An upstream that reads in place
//! hands back an owned, growable buffer together with a cursor marking the
//! bytes already consumed; the filter needs the unconsumed tail as an
//! immutable chunk. Exactly the bytes from the cursor to the end are kept;
//! the bytes before the cursor are discarded, never retained or exposed.

use vstd::prelude::*;

verus! {

/// Turn a buffer-and-cursor pair into the chunk of its unconsumed tail.
pub fn freeze_chunk(buf: Vec<u8>, position: usize) -> (chunk: Vec<u8>)
    requires
        position <= buf@.len(),
    ensures
        chunk@ == buf@.subrange(position as int, buf@.len() as int),
{
    let mut b = buf;
    b.split_off(position)
}

} // verus!
