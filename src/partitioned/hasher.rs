use vstd::prelude::*;

verus! {

/// A hasher that works on partitions of exactly `S` bytes.
///
/// Its behaviour is described by two spec functions: `spec_write` gives the
/// state after one partition has been folded in, and `spec_finish` the digest
/// of a state together with a tail of fewer than `S` bytes.
pub trait Hasher<const S: usize>: Sized {
    /// The state after folding in the partition `block`.
    spec fn spec_write(self, block: Seq<u8>) -> Self;

    /// The digest of this state with the unconsumed bytes `tail`.
    spec fn spec_finish(self, tail: Seq<u8>) -> u64;

    /// Folds one full partition into the state.
    fn write(&mut self, bytes: &[u8; S])
        ensures
            *final(self) == old(self).spec_write(bytes@),
    ;

    /// Produces the digest for the current state and the tail `bytes`,
    /// leaving the state as it is.
    fn finish(&self, bytes: &[u8]) -> (r: u64)
        requires
            bytes@.len() < S,
        ensures
            r == self.spec_finish(bytes@),
    ;
}

} // verus!
