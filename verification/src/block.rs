//! The 16-byte block: the common granule of the cipher and of the authenticator.

use crate::endian::{le_bytes, lemma_le_bytes_len, write_le};
use vstd::prelude::*;

verus! {

/// Length in bytes of a [`Block`].
pub const BLOCK_LEN: usize = 16;

/// A fixed unit of sixteen bytes.
#[derive(Clone, Copy)]
pub struct Block {
    bytes: [u8; 16],
}

impl View for Block {
    type V = Seq<u8>;

    closed spec fn view(&self) -> Seq<u8> {
        self.bytes@
    }
}

impl Block {
    /// A block has sixteen bytes.
    pub proof fn lemma_len(&self)
        ensures
            self@.len() == 16,
    {
    }

    /// The block of sixteen zero bytes.
    pub fn zero() -> (block: Block)
        ensures
            block@ == Seq::new(16, |i: int| 0u8),
    {
        Block { bytes: [0u8; 16] }
    }

    /// The block that holds `first`, then `second`, each as eight bytes, least
    /// significant byte first.
    pub fn from_u64_le(first: u64, second: u64) -> (block: Block)
        ensures
            block@ == le_bytes(first as nat, 8) + le_bytes(second as nat, 8),
    {
        let mut bytes: [u8; 16] = [0u8; 16];
        proof {
            lemma_le_bytes_len(first as nat, 8);
            lemma_le_bytes_len(second as nat, 8);
        }
        write_le(&mut bytes, 0, 8, first as u128);
        write_le(&mut bytes, 8, 8, second as u128);
        Block { bytes }
    }

    /// Overwrites the start of the block with `data`, as far as the block
    /// reaches, and keeps the rest of the block.
    pub fn partial_copy_from(&mut self, data: &[u8])
        ensures
            final(self)@ == if data@.len() <= 16 {
                data@ + old(self)@.skip(data@.len() as int)
            } else {
                data@.take(16)
            },
    {
        let n: usize = if data.len() < 16 {
            data.len()
        } else {
            16
        };
        let mut i: usize = 0;
        while i < n
            invariant
                i <= n <= 16,
                n <= data@.len(),
                forall|k: int| 0 <= k < i ==> self.bytes@[k] == data@[k],
                forall|k: int| i <= k < 16 ==> self.bytes@[k] == old(self).bytes@[k],
            decreases n - i,
        {
            self.bytes[i] = data[i];
            i += 1;
        }
    }

    /// The bytes of the block.
    pub fn as_bytes(&self) -> (bytes: &[u8; 16])
        ensures
            bytes@ == self@,
    {
        &self.bytes
    }
}

} // verus!
