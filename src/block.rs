use vstd::prelude::*;

verus! {

/// The fixed size, in bytes, of every metadata block.
pub const BLOCK_SIZE: usize = 4096;

/// A metadata block: its location on the device and its bytes.
pub struct Block {
    pub loc: u64,
    pub data: Vec<u8>,
}

impl Block {
    /// A block is well formed when it holds exactly `BLOCK_SIZE` bytes.
    pub open spec fn wf(&self) -> bool {
        self.data@.len() == BLOCK_SIZE
    }

    /// A zero-filled block at `loc`.
    pub fn new(loc: u64) -> (b: Block)
        ensures
            b.wf(),
            b.loc == loc,
            forall|i: int| 0 <= i < BLOCK_SIZE ==> b.data@[i] == 0u8,
    {
        let data: Vec<u8> = vec![0u8; BLOCK_SIZE];
        Block { loc, data }
    }

    /// The block's location.
    pub fn get_location(&self) -> (r: u64)
        ensures
            r == self.loc,
    {
        self.loc
    }
}

} // verus!
