//! Partitioned hashers and the adapter that feeds them from a byte stream.
use vstd::arithmetic::div_mod::{lemma_fundamental_div_mod_converse, lemma_small_mod};
use vstd::prelude::*;

mod hasher;
mod simple;
pub mod stream;

pub use hasher::Hasher;
pub use simple::Simple;
use stream::{absorb, fold_partitions, lemma_fold_append, lemma_fold_one, lemma_short, lemma_split_at_partitions};

verus! {

/// Drives a [partitioned hasher](Hasher) from writes of any length.
///
/// The bytes written so far form one logical stream. Every full partition of
/// it has been handed to the inner hasher, in order; the bytes after the last
/// full partition wait in a carry buffer of fewer than `N` bytes.
#[derive(Clone, Debug)]
pub struct PartitionedHasher<const N: usize, H: Hasher<N>> {
    hasher: H,
    buffer: Vec<u8>,
}

/// Copies the `N` bytes of `src` that start at `start` into a partition.
fn partition_at<const N: usize>(src: &[u8], start: usize) -> (r: [u8; N])
    requires
        start + N <= src@.len(),
    ensures
        r@ == src@.subrange(start as int, start + N),
{
    let len: usize = src.len();
    let mut block: [u8; N] = [0u8; N];
    let mut i: usize = 0;
    while i < N
        invariant
            i <= N,
            len == src@.len(),
            start + N <= src@.len(),
            block@.len() == N,
            forall|j: int| 0 <= j < i ==> block@[j] == src@[start + j],
        decreases N - i,
    {
        block[i] = src[start + i];
        i = i + 1;
    }
    assert(block@ =~= src@.subrange(start as int, start + N));
    block
}

impl<const N: usize, H: Hasher<N>> PartitionedHasher<N, H> {
    /// The state of the inner hasher.
    pub closed spec fn state(&self) -> H {
        self.hasher
    }

    /// The bytes waiting for a partition to fill.
    pub closed spec fn carry(&self) -> Seq<u8> {
        self.buffer@
    }

    /// The partition size is positive and the carry buffer holds less than
    /// one partition.
    pub open spec fn wf(&self) -> bool {
        N > 0 && self.carry().len() < N
    }

    /// Creates an adapter around `hasher` with an empty carry buffer.
    pub fn new(hasher: H) -> (r: Self)
        requires
            N > 0,
        ensures
            r.wf(),
            r.state() == hasher,
            r.carry() == Seq::<u8>::empty(),
    {
        Self { hasher, buffer: Vec::with_capacity(N) }
    }

    /// The carry buffer.
    pub fn inner_vec(&self) -> (r: &Vec<u8>)
        ensures
            r@ == self.carry(),
    {
        &self.buffer
    }

    /// Appends `bytes` to the stream: the carried bytes are completed first,
    /// then every full partition goes to the inner hasher, and the rest is
    /// carried.
    pub fn write(&mut self, bytes: &[u8])
        requires
            old(self).wf(),
        ensures
            final(self).wf(),
            (final(self).state(), final(self).carry()) == absorb::<N, H>(
                old(self).state(),
                old(self).carry(),
                bytes@,
            ),
            final(self).carry().len() == (old(self).carry().len() + bytes@.len()) % (N as nat),
    {
        let ghost h0 = self.hasher;
        let ghost c0 = self.buffer@;
        let mut pos: usize = 0;
        if self.buffer.len() > 0 {
            let needed: usize = N - self.buffer.len();
            let borrowed: usize = if needed < bytes.len() {
                needed
            } else {
                bytes.len()
            };
            let mut i: usize = 0;
            while i < borrowed
                invariant
                    i <= borrowed,
                    borrowed <= bytes@.len(),
                    c0.len() + borrowed <= N,
                    self.buffer@ == c0 + bytes@.take(i as int),
                    self.hasher == h0,
                decreases borrowed - i,
            {
                self.buffer.push(bytes[i]);
                i = i + 1;
                assert(self.buffer@ =~= c0 + bytes@.take(i as int));
            }
            if self.buffer.len() < N {
                proof {
                    assert(bytes@.take(borrowed as int) =~= bytes@);
                    lemma_short::<N, H>(h0, c0 + bytes@);
                    lemma_small_mod((c0 + bytes@).len(), N as nat);
                }
                return;
            }
            let block: [u8; N] = partition_at(self.buffer.as_slice(), 0);
            proof {
                assert(block@ =~= c0 + bytes@.take(borrowed as int));
                lemma_fold_one::<N, H>(h0, block@);
                lemma_fundamental_div_mod_converse(N as int, N as int, 1, 0);
            }
            self.hasher.write(&block);
            self.buffer.clear();
            pos = borrowed;
        } else {
            proof {
                assert(c0 + bytes@.take(0) =~= Seq::<u8>::empty());
                lemma_small_mod(0, N as nat);
            }
        }
        while bytes.len() - pos >= N
            invariant
                N > 0,
                pos <= bytes@.len(),
                self.buffer@.len() == 0,
                (c0 + bytes@.take(pos as int)).len() % (N as nat) == 0,
                self.hasher == fold_partitions::<N, H>(h0, c0 + bytes@.take(pos as int)),
            decreases bytes.len() - pos,
        {
            let block: [u8; N] = partition_at(bytes, pos);
            proof {
                let p = c0 + bytes@.take(pos as int);
                assert(c0 + bytes@.take(pos + N) =~= p + block@);
                lemma_fold_append::<N, H>(h0, p, block@);
                lemma_fold_one::<N, H>(self.hasher, block@);
                stream::lemma_mod_past_multiple(p.len() as int, 0, N as int);
                vstd::arithmetic::div_mod::lemma_mod_add_multiples_vanish(p.len() as int, N as int);
            }
            self.hasher.write(&block);
            pos = pos + N;
        }
        let ghost start = pos;
        let ghost h1 = self.hasher;
        while pos < bytes.len()
            invariant
                start <= pos <= bytes@.len(),
                bytes@.len() - start < N,
                self.buffer@ == bytes@.subrange(start as int, pos as int),
                self.hasher == h1,
            decreases bytes.len() - pos,
        {
            self.buffer.push(bytes[pos]);
            pos = pos + 1;
            assert(self.buffer@ =~= bytes@.subrange(start as int, pos as int));
        }
        proof {
            let p = c0 + bytes@.take(start as int);
            let r = bytes@.skip(start as int);
            assert(c0 + bytes@ =~= p + r);
            assert(self.buffer@ =~= r);
            lemma_split_at_partitions::<N, H>(h0, p, r);
            stream::lemma_mod_past_multiple(p.len() as int, r.len() as int, N as int);
        }
    }

    /// The digest of the stream written so far: the inner hasher's digest of
    /// the carried bytes. Nothing changes, so repeated calls agree.
    pub fn finish(&self) -> (r: u64)
        requires
            self.wf(),
        ensures
            r == self.state().spec_finish(self.carry()),
    {
        self.hasher.finish(self.buffer.as_slice())
    }
}

impl<const N: usize, H: Hasher<N> + Default> Default for PartitionedHasher<N, H> {
    /// An adapter around the inner hasher's default state.
    fn default() -> (r: Self)
        ensures
            N > 0 ==> r.wf(),
            r.carry() == Seq::<u8>::empty(),
            call_ensures(H::default, (), r.state()),
    {
        Self { hasher: H::default(), buffer: Vec::with_capacity(N) }
    }
}

} // verus!
