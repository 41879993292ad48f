//! A small partitioned hasher over eight-byte partitions.
use vstd::prelude::*;

use super::hasher::Hasher;

verus! {

/// The value of eight bytes read as a little-endian word.
pub open spec fn le_word(b: Seq<u8>) -> int {
    b[0] as int
        + b[1] as int * 0x100
        + b[2] as int * 0x1_0000
        + b[3] as int * 0x100_0000
        + b[4] as int * 0x1_0000_0000
        + b[5] as int * 0x100_0000_0000
        + b[6] as int * 0x1_0000_0000_0000
        + b[7] as int * 0x100_0000_0000_0000
}

/// Reads eight bytes as a little-endian `u64`.
fn read_le_word(b: &[u8; 8]) -> (r: u64)
    ensures
        r == le_word(b@),
{
    b[0] as u64
        + b[1] as u64 * 0x100
        + b[2] as u64 * 0x1_0000
        + b[3] as u64 * 0x100_0000
        + b[4] as u64 * 0x1_0000_0000
        + b[5] as u64 * 0x100_0000_0000
        + b[6] as u64 * 0x1_0000_0000_0000
        + b[7] as u64 * 0x100_0000_0000_0000
}

/// A hasher that adds up its partitions, read as little-endian `u64` words,
/// with wrapping, and shifts the sum left by the length of the tail.
///
/// Not a good hash; it shows how a partitioned hasher is written.
#[derive(Debug)]
pub struct Simple(pub u64);

impl Default for Simple {
    fn default() -> (r: Self)
        ensures
            r.0 == 0,
    {
        Simple(0)
    }
}

impl Hasher<8> for Simple {
    open spec fn spec_write(self, block: Seq<u8>) -> Self {
        Simple(self.0.wrapping_add(le_word(block) as u64))
    }

    open spec fn spec_finish(self, tail: Seq<u8>) -> u64 {
        self.0 << (tail.len() as u64)
    }

    fn write(&mut self, bytes: &[u8; 8]) {
        let data: u64 = read_le_word(bytes);
        self.0 = self.0.wrapping_add(data);
    }

    fn finish(&self, bytes: &[u8]) -> u64 {
        self.0 << (bytes.len() as u64)
    }
}

} // verus!
