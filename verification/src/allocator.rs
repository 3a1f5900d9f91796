//! The service that supplies and takes back the memory of tensor buffers.

use vstd::prelude::*;

verus! {

/// Largest number of bytes one buffer may hold.
pub open spec fn max_block_bytes() -> nat {
    isize::MAX as nat
}

/// A block of `size` bytes as the allocator hands it out: every byte zero.
pub open spec fn fresh_block(size: nat) -> Seq<u8> {
    Seq::new(size, |i: int| 0u8)
}

/// A stateless strategy for obtaining buffers. Tensors name the allocator
/// they were made with; they never own it.
#[derive(Clone, Copy, Debug, PartialEq, Eq, Structural)]
pub struct Allocator {}

impl Allocator {
    /// The allocator.
    pub fn new() -> (allocator: Self) {
        Allocator {  }
    }

    /// Supplies a block of `size` zero bytes.
    pub fn allocate(&self, size: usize) -> (block: Vec<u8>)
        requires
            size <= max_block_bytes(),
        ensures
            block@ == fresh_block(size as nat),
    {
        let block: Vec<u8> = vec![0u8; size];
        assert(block@ =~= fresh_block(size as nat));
        block
    }

    /// Takes a block back. The block is gone afterwards.
    pub fn release(&self, block: Vec<u8>) {
        let _ = block;
    }
}

} // verus!
