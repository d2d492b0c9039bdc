//! A binary source: the bytes of a file and one cursor that moves forward.

use vstd::prelude::*;
use vstd::slice::{slice_subrange, slice_to_vec};

verus! {

/// The up to `count` bytes of `data` that start at `position`.
pub open spec fn window(data: Seq<u8>, position: int, count: int) -> Seq<u8> {
    if position >= data.len() || count <= 0 || position < 0 {
        Seq::<u8>::empty()
    } else if position + count >= data.len() {
        data.subrange(position, data.len() as int)
    } else {
        data.subrange(position, position + count)
    }
}

/// The bytes of a file, and the place of the next read.
#[derive(Debug)]
pub struct BinarySource {
    /// All the bytes of the file.
    pub data: Vec<u8>,
    /// How many bytes lie before the cursor. It may lie past the end.
    pub position: u64,
}

impl BinarySource {
    /// A source over `data`, with the cursor at its start.
    pub fn new(data: Vec<u8>) -> (r: BinarySource)
        ensures
            r.data@ == data@,
            r.position == 0,
    {
        BinarySource { data, position: 0 }
    }

    /// The number of bytes of the file.
    pub fn len(&self) -> (r: u64)
        ensures
            r == self.data@.len(),
    {
        self.data.len() as u64
    }

    /// Places the cursor `position` bytes after the start of the file.
    pub fn seek(&mut self, position: u64)
        ensures
            final(self).data == old(self).data,
            final(self).position == position,
    {
        self.position = position;
    }

    /// The up to `count` bytes at the cursor, which stays where it is.
    pub fn peek(&self, count: usize) -> (r: Vec<u8>)
        ensures
            r@ == window(self.data@, self.position as int, count as int),
    {
        let len: usize = self.data.len();
        if self.position >= len as u64 || count == 0 {
            return Vec::new();
        }
        let start: usize = self.position as usize;
        let end: usize = if count >= len - start {
            len
        } else {
            start + count
        };
        slice_to_vec(slice_subrange(self.data.as_slice(), start, end))
    }

    /// Reads the up to `count` bytes at the cursor and moves the cursor past
    /// them.
    pub fn read(&mut self, count: usize) -> (r: Vec<u8>)
        ensures
            r@ == window(old(self).data@, old(self).position as int, count as int),
            final(self).data == old(self).data,
            final(self).position == old(self).position + r@.len(),
    {
        let bytes: Vec<u8> = self.peek(count);
        if bytes.len() > 0 {
            assert(self.position + bytes@.len() <= self.data@.len());
            assert(self.data.len() == self.data@.len());
            assert(usize::MAX <= u64::MAX);
            self.position = self.position + bytes.len() as u64;
        }
        bytes
    }
}

} // verus!
