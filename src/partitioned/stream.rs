//! The mathematical model of a partitioned byte stream.
use vstd::arithmetic::div_mod::{
    lemma_fundamental_div_mod, lemma_div_pos_is_pos, lemma_fundamental_div_mod_converse, lemma_mod_multiples_vanish,
    lemma_mod_pos_bound,
};
use vstd::prelude::*;

use super::hasher::Hasher;

verus! {

/// The state of `h` after folding in, in order, every full partition of
/// `data`. A final run of fewer than `S` bytes is not folded in.
pub open spec fn fold_partitions<const S: usize, H: Hasher<S>>(h: H, data: Seq<u8>) -> H
    decreases data.len(),
{
    if S == 0 || data.len() < S {
        h
    } else {
        fold_partitions::<S, H>(h.spec_write(data.take(S as int)), data.skip(S as int))
    }
}

/// The bytes of `data` that follow its last full partition.
pub open spec fn tail_of<const S: usize>(data: Seq<u8>) -> Seq<u8> {
    data.skip(data.len() - data.len() % (S as nat))
}

/// The state and the carried bytes after `bytes` is written to a hasher in
/// state `h` that carries `carry`.
pub open spec fn absorb<const S: usize, H: Hasher<S>>(h: H, carry: Seq<u8>, bytes: Seq<u8>) -> (H, Seq<u8>) {
    (fold_partitions::<S, H>(h, carry + bytes), tail_of::<S>(carry + bytes))
}

/// The state and the carried bytes after each of `parts` is written in turn.
pub open spec fn feed<const S: usize, H: Hasher<S>>(h: H, carry: Seq<u8>, parts: Seq<Seq<u8>>) -> (H, Seq<u8>)
    decreases parts.len(),
{
    if parts.len() == 0 {
        (h, carry)
    } else {
        let next = absorb::<S, H>(h, carry, parts[0]);
        feed::<S, H>(next.0, next.1, parts.drop_first())
    }
}

/// The digest that a stream fed in `parts` yields.
pub open spec fn digest_of<const S: usize, H: Hasher<S>>(h: H, carry: Seq<u8>, parts: Seq<Seq<u8>>) -> u64 {
    let end = feed::<S, H>(h, carry, parts);
    end.0.spec_finish(end.1)
}

/// Adding a multiple of `n` to a value below `n` leaves the remainder alone.
pub proof fn lemma_mod_past_multiple(p: int, r: int, n: int)
    requires
        n > 0,
        p >= 0,
        p % n == 0,
        0 <= r < n,
    ensures
        (p + r) % n == r,
{
    lemma_fundamental_div_mod(p, n);
    assert(p == (p / n) * n) by (nonlinear_arith)
        requires
            p == n * (p / n) + p % n,
            p % n == 0,
    ;
    lemma_fundamental_div_mod_converse(p + r, n, p / n, r);
}

/// Folding a whole number of partitions and then more bytes is folding
/// the concatenation.
pub proof fn lemma_fold_append<const S: usize, H: Hasher<S>>(h: H, a: Seq<u8>, b: Seq<u8>)
    requires
        S > 0,
        a.len() % (S as nat) == 0,
    ensures
        fold_partitions::<S, H>(h, a + b) == fold_partitions::<S, H>(
            fold_partitions::<S, H>(h, a),
            b,
        ),
    decreases a.len(),
{
    if a.len() == 0 {
        assert(a + b =~= b);
    } else {
        let n = S as int;
        assert(a.len() >= n) by {
            if a.len() < n {
                vstd::arithmetic::div_mod::lemma_small_mod(a.len(), S as nat);
            }
        }
        let rest = a.skip(n);
        assert((a + b).take(n) =~= a.take(n));
        assert((a + b).skip(n) =~= rest + b);
        assert(rest.len() % (S as nat) == 0) by {
            vstd::arithmetic::div_mod::lemma_mod_sub_multiples_vanish(a.len() as int, n);
        }
        lemma_fold_append::<S, H>(h.spec_write(a.take(n)), rest, b);
    }
}

/// A single partition folds in as one write.
pub proof fn lemma_fold_one<const S: usize, H: Hasher<S>>(h: H, block: Seq<u8>)
    requires
        S > 0,
        block.len() == S,
    ensures
        fold_partitions::<S, H>(h, block) == h.spec_write(block),
{
    assert(block.take(S as int) =~= block);
    let empty = block.skip(S as int);
    assert(empty.len() == 0);
    assert(fold_partitions::<S, H>(h.spec_write(block), empty) == h.spec_write(block));
}

/// Fewer than `S` bytes leave both the state and the bytes as they are.
pub proof fn lemma_short<const S: usize, H: Hasher<S>>(h: H, data: Seq<u8>)
    requires
        data.len() < S,
    ensures
        fold_partitions::<S, H>(h, data) == h,
        tail_of::<S>(data) == data,
{
    vstd::arithmetic::div_mod::lemma_small_mod(data.len(), S as nat);
    assert(data.skip(0) =~= data);
}

/// Splitting `data` after a whole number of partitions: the state is that of
/// the first part, and the tail is the second part.
pub proof fn lemma_split_at_partitions<const S: usize, H: Hasher<S>>(h: H, p: Seq<u8>, r: Seq<u8>)
    requires
        S > 0,
        p.len() % (S as nat) == 0,
        r.len() < S,
    ensures
        fold_partitions::<S, H>(h, p + r) == fold_partitions::<S, H>(h, p),
        tail_of::<S>(p + r) == r,
{
    lemma_fold_append::<S, H>(h, p, r);
    lemma_short::<S, H>(fold_partitions::<S, H>(h, p), r);
    lemma_mod_past_multiple(p.len() as int, r.len() as int, S as int);
    assert((p + r).skip(p.len() as int) =~= r);
}

/// The carried bytes are the last `len % S` bytes of the data.
pub proof fn lemma_tail_len<const S: usize>(data: Seq<u8>)
    requires
        S > 0,
    ensures
        tail_of::<S>(data).len() == data.len() % (S as nat),
        tail_of::<S>(data).len() < S,
        data.len() % (S as nat) <= data.len(),
        (data.len() - tail_of::<S>(data).len()) % (S as int) == 0,
{
    let n = S as int;
    let len = data.len() as int;
    lemma_mod_pos_bound(len, n);
    lemma_fundamental_div_mod(len, n);
    lemma_div_pos_is_pos(len, n);
    assert(n * (len / n) >= 0) by (nonlinear_arith)
        requires
            n > 0,
            len / n >= 0,
    ;
    lemma_mod_multiples_vanish(len / n, 0, n);
    assert(len - len % n == n * (len / n) + 0);
}

/// Bytes after a whole number of partitions leave the same tail as alone.
pub proof fn lemma_tail_after_partitions<const S: usize>(p: Seq<u8>, q: Seq<u8>)
    requires
        S > 0,
        p.len() % (S as nat) == 0,
    ensures
        tail_of::<S>(p + q) == tail_of::<S>(q),
{
    let n = S as int;
    lemma_fundamental_div_mod(p.len() as int, n);
    lemma_mod_multiples_vanish((p.len() as int) / n, q.len() as int, n);
    lemma_tail_len::<S>(q);
    assert(p.len() == n * ((p.len() as int) / n));
    assert((p + q).len() % (S as nat) == q.len() % (S as nat));
    assert((p + q).skip((p + q).len() - (p + q).len() % (S as nat)) =~= q.skip(
        q.len() - q.len() % (S as nat),
    ));
}

/// Writing `x` and then `y` ends in the same state and carry as writing
/// `x + y` at once.
pub proof fn lemma_absorb_twice<const S: usize, H: Hasher<S>>(
    h: H,
    carry: Seq<u8>,
    x: Seq<u8>,
    y: Seq<u8>,
)
    requires
        S > 0,
    ensures
        ({
            let mid = absorb::<S, H>(h, carry, x);
            absorb::<S, H>(mid.0, mid.1, y)
        }) == absorb::<S, H>(h, carry, x + y),
{
    let d = carry + x;
    let rest = tail_of::<S>(d);
    lemma_tail_len::<S>(d);
    let p = d.take(d.len() - rest.len());
    assert(d =~= p + rest);
    lemma_split_at_partitions::<S, H>(h, p, rest);
    lemma_fold_append::<S, H>(h, p, rest + y);
    assert(carry + (x + y) =~= p + (rest + y));
    lemma_tail_after_partitions::<S>(p, rest + y);
}

/// Split invariance: writing the pieces of a stream one after another ends
/// in the same state, carry and digest as writing the whole stream at once,
/// however the stream was cut.
pub proof fn lemma_split_invariance<const S: usize, H: Hasher<S>>(
    h: H,
    carry: Seq<u8>,
    parts: Seq<Seq<u8>>,
)
    requires
        S > 0,
        carry.len() < S,
    ensures
        feed::<S, H>(h, carry, parts) == absorb::<S, H>(h, carry, parts.flatten()),
        digest_of::<S, H>(h, carry, parts) == digest_of::<S, H>(h, carry, seq![parts.flatten()]),
    decreases parts.len(),
{
    if parts.len() == 0 {
        assert(carry + parts.flatten() =~= carry);
        lemma_short::<S, H>(h, carry + parts.flatten());
    } else {
        let mid = absorb::<S, H>(h, carry, parts[0]);
        lemma_tail_len::<S>(carry + parts[0]);
        lemma_split_invariance::<S, H>(mid.0, mid.1, parts.drop_first());
        lemma_absorb_twice::<S, H>(h, carry, parts[0], parts.drop_first().flatten());
    }
    let whole = seq![parts.flatten()];
    let once = absorb::<S, H>(h, carry, parts.flatten());
    assert(whole[0] == parts.flatten());
    assert(whole.drop_first() =~= Seq::<Seq<u8>>::empty());
    assert(feed::<S, H>(h, carry, whole) == feed::<S, H>(once.0, once.1, whole.drop_first()));
}

/// Carry invariant: after any sequence of writes to a fresh adapter, the
/// carried bytes number fewer than `S`, and they are the last
/// `(total written) % S` bytes of the stream, in order.
pub proof fn lemma_carry_invariant<const S: usize, H: Hasher<S>>(h: H, parts: Seq<Seq<u8>>)
    requires
        S > 0,
    ensures
        feed::<S, H>(h, Seq::empty(), parts).1.len() < S,
        feed::<S, H>(h, Seq::empty(), parts).1.len() == parts.flatten().len() % (S as nat),
        feed::<S, H>(h, Seq::empty(), parts).1 == parts.flatten().skip(
            parts.flatten().len() - parts.flatten().len() % (S as nat),
        ),
{
    lemma_split_invariance::<S, H>(h, Seq::empty(), parts);
    assert(Seq::<u8>::empty() + parts.flatten() =~= parts.flatten());
    lemma_tail_len::<S>(parts.flatten());
}

/// A stream whose length is a multiple of `S` leaves nothing carried: its
/// digest is the digest of an empty tail after every partition was folded in.
pub proof fn lemma_boundary_exact<const S: usize, H: Hasher<S>>(h: H, parts: Seq<Seq<u8>>)
    requires
        S > 0,
        parts.flatten().len() % (S as nat) == 0,
    ensures
        feed::<S, H>(h, Seq::empty(), parts).1 == Seq::<u8>::empty(),
        feed::<S, H>(h, Seq::empty(), parts).0 == fold_partitions::<S, H>(h, parts.flatten()),
        digest_of::<S, H>(h, Seq::empty(), parts) == fold_partitions::<S, H>(
            h,
            parts.flatten(),
        ).spec_finish(Seq::empty()),
{
    lemma_split_invariance::<S, H>(h, Seq::empty(), parts);
    assert(Seq::<u8>::empty() + parts.flatten() =~= parts.flatten());
    lemma_tail_len::<S>(parts.flatten());
    assert(feed::<S, H>(h, Seq::empty(), parts).1 =~= Seq::<u8>::empty());
}

/// Straddling a partition boundary: when `S - 1` bytes are carried, writing
/// one more byte folds exactly those `S` bytes in and carries nothing.
pub proof fn lemma_straddle<const S: usize, H: Hasher<S>>(h: H, carry: Seq<u8>, b: u8)
    requires
        S > 0,
        carry.len() + 1 == S,
    ensures
        absorb::<S, H>(h, carry, seq![b]) == (h.spec_write(carry.push(b)), Seq::<u8>::empty()),
{
    let all = carry + seq![b];
    assert(all =~= carry.push(b));
    lemma_fold_one::<S, H>(h, all);
    lemma_tail_len::<S>(all);
    lemma_fundamental_div_mod_converse(S as int, S as int, 1, 0);
    assert(tail_of::<S>(all) =~= Seq::<u8>::empty());
}

} // verus!
