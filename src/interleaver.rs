//! Permutations of block positions and their forward and inverse application.

use vstd::prelude::*;
use rand::rngs::StdRng;
use rand::{Rng, SeedableRng};
use crate::common::Error;

verus! {

/// rand's standard generator, carried through as an opaque value.
#[verifier::external_type_specification]
#[verifier::external_body]
pub struct ExStdRng(StdRng);

/// Relies on rand's `SeedableRng::seed_from_u64`: a generator whose whole
/// output is fixed by the seed.
#[verifier::external_body]
fn seeded_rng(seed: u64) -> (r: StdRng) {
    StdRng::seed_from_u64(seed)
}

/// Relies on rand's `Rng::random_range`: a value drawn from `0..bound`; it
/// panics only on an empty range.
#[verifier::external_body]
fn draw_below(rng: &mut StdRng, bound: usize) -> (r: usize)
    requires
        bound > 0,
    ensures
        r < bound,
{
    rng.random_range(0..bound)
}

/// Relies on rand's `random`: a seed drawn from the thread-local generator.
#[verifier::external_body]
fn fresh_seed() -> (r: u64) {
    rand::random::<u64>()
}

/// Some position of `0..n` holds `k` in `p`.
pub open spec fn hits(p: Seq<usize>, n: nat, k: int) -> bool {
    exists|i: int| 0 <= i < n && #[trigger] p[i] == k
}

/// `p` maps `0..n` one to one onto `0..n`.
pub open spec fn is_bijection(p: Seq<usize>, n: nat) -> bool {
    &&& p.len() == n
    &&& forall|i: int| 0 <= i < n ==> #[trigger] p[i] < n
    &&& forall|i: int, j: int| 0 <= i < n && 0 <= j < n && i != j ==> #[trigger] p[i] != #[trigger] p[j]
    &&& forall|k: int| 0 <= k < n ==> #[trigger] hits(p, n, k)
}

/// A permutation of the positions `0..length` of a block.
///
/// Interleaving sends the element at position `perm[i]` to position `i`;
/// `inverse` undoes it.
pub struct Interleaver {
    /// Block size.
    pub length: usize,
    /// Output position `i` takes input position `perm[i]`.
    pub perm: Vec<usize>,
    /// The inverse permutation of `perm`.
    pub inverse: Vec<usize>,
}

impl Interleaver {
    /// `perm` and `inverse` are mutually inverse permutations of `0..length`,
    /// and the block is not empty.
    pub open spec fn wf(self) -> bool {
        &&& self.length > 0
        &&& self.perm@.len() == self.length
        &&& self.inverse@.len() == self.length
        &&& forall|i: int|
            0 <= i < self.length ==> #[trigger] self.perm@[i] < self.length && self.inverse@[self.perm@[i] as int] == i
        &&& forall|k: int|
            0 <= k < self.length ==> #[trigger] self.inverse@[k] < self.length && self.perm@[self.inverse@[k] as int] == k
    }

    /// `x` put in interleaved order.
    pub open spec fn interleave_seq<T>(self, x: Seq<T>) -> Seq<T> {
        Seq::new(self.length as nat, |i: int| x[self.perm@[i] as int])
    }

    /// `x` put back from interleaved order.
    pub open spec fn deinterleave_seq<T>(self, x: Seq<T>) -> Seq<T> {
        Seq::new(self.length as nat, |k: int| x[self.inverse@[k] as int])
    }

    /// Builds the interleaver of an explicit permutation.
    ///
    /// Fails with `InvalidInput` if `perm` is empty or is not a bijection of
    /// `0..perm.len()`.
    pub fn new(perm: &[usize]) -> (r: Result<Interleaver, Error>)
        ensures
            r matches Err(e) ==> e is InvalidInput,
            r is Ok <==> perm@.len() > 0 && is_bijection(perm@, perm@.len()),
            r matches Ok(il) ==> il.wf() && il.perm@ == perm@,
    {
        let n = perm.len();
        if n == 0 {
            return Err(Error::InvalidInput(String::from_str("interleaver length must be non-zero")));
        }
        let mut inverse: Vec<usize> = Vec::new();
        let mut k: usize = 0;
        while k < n
            invariant
                k <= n,
                inverse@.len() == k,
                forall|q: int| 0 <= q < k ==> #[trigger] inverse@[q] == n,
            decreases n - k,
        {
            inverse.push(n);
            k = k + 1;
        }
        let mut i: usize = 0;
        while i < n
            invariant
                i <= n,
                n == perm@.len(),
                inverse@.len() == n,
                forall|q: int| 0 <= q < i ==> #[trigger] perm@[q] < n && inverse@[perm@[q] as int] == q,
                forall|j: int| 0 <= j < n ==> #[trigger] inverse@[j] == n || (inverse@[j] < i && perm@[inverse@[j] as int] == j),
            decreases n - i,
        {
            let p = perm[i];
            if p >= n {
                proof {
                    assert(!(perm@[i as int] < n));
                }
                return Err(Error::InvalidInput(String::from_str("interleaver entry out of range")));
            }
            if inverse[p] != n {
                proof {
                    let j = inverse@[p as int] as int;
                    assert(perm@[j] == perm@[i as int] && j != i);
                }
                return Err(Error::InvalidInput(String::from_str("interleaver entry repeated")));
            }
            inverse.set(p, i);
            i = i + 1;
        }
        let mut k: usize = 0;
        while k < n
            invariant
                k <= n,
                n == perm@.len(),
                inverse@.len() == n,
                forall|q: int| 0 <= q < n ==> #[trigger] perm@[q] < n && inverse@[perm@[q] as int] == q,
                forall|j: int| 0 <= j < n ==> #[trigger] inverse@[j] == n || (inverse@[j] < n && perm@[inverse@[j] as int] == j),
                forall|j: int| 0 <= j < k ==> #[trigger] inverse@[j] < n,
            decreases n - k,
        {
            if inverse[k] == n {
                proof {
                    assert forall|q: int| 0 <= q < n implies perm@[q] != k by {
                        if perm@[q] == k {
                            assert(inverse@[perm@[q] as int] == q);
                        }
                    }
                    assert(!hits(perm@, n as nat, k as int));
                }
                return Err(Error::InvalidInput(String::from_str("interleaver misses a position")));
            }
            k = k + 1;
        }
        proof {
            assert forall|a: int, b: int| 0 <= a < n && 0 <= b < n && a != b implies #[trigger] perm@[a]
                != #[trigger] perm@[b] by {
                if perm@[a] == perm@[b] {
                    assert(inverse@[perm@[a] as int] == a);
                }
            }
            assert forall|j: int| 0 <= j < n implies #[trigger] hits(perm@, n as nat, j) by {
                assert(perm@[inverse@[j] as int] == j);
            }
        }
        let mut own: Vec<usize> = Vec::new();
        let mut i: usize = 0;
        while i < n
            invariant
                i <= n,
                n == perm@.len(),
                own@ == perm@.subrange(0, i as int),
            decreases n - i,
        {
            own.push(perm[i]);
            proof {
                assert(own@ =~= perm@.subrange(0, i + 1));
            }
            i = i + 1;
        }
        proof {
            assert(own@ =~= perm@);
        }
        Ok(Interleaver { length: n, perm: own, inverse })
    }

    /// A random interleaver of `num` positions, drawn by a Fisher-Yates
    /// shuffle from a generator seeded with `seed`, so that every
    /// permutation is (up to the generator's sampling bias) equally likely
    /// and the same seed gives the same permutation.
    pub fn random_seeded(num: usize, seed: u64) -> (r: Interleaver)
        requires
            num > 0,
        ensures
            r.wf(),
            r.length == num,
    {
        let mut rng = seeded_rng(seed);
        let mut perm: Vec<usize> = Vec::new();
        let mut inverse: Vec<usize> = Vec::new();
        let mut k: usize = 0;
        while k < num
            invariant
                k <= num,
                perm@.len() == k,
                inverse@.len() == k,
                forall|q: int| 0 <= q < k ==> #[trigger] perm@[q] == q,
                forall|q: int| 0 <= q < k ==> #[trigger] inverse@[q] == q,
            decreases num - k,
        {
            perm.push(k);
            inverse.push(k);
            k = k + 1;
        }
        let mut i: usize = num - 1;
        while i > 0
            invariant
                i < num,
                perm@.len() == num,
                inverse@.len() == num,
                forall|q: int|
                    0 <= q < num ==> #[trigger] perm@[q] < num && inverse@[perm@[q] as int] == q,
                forall|q: int|
                    0 <= q < num ==> #[trigger] inverse@[q] < num && perm@[inverse@[q] as int] == q,
            decreases i,
        {
            let j = draw_below(&mut rng, i + 1);
            let a = perm[i];
            let b = perm[j];
            perm.set(i, b);
            perm.set(j, a);
            inverse.set(b, i);
            inverse.set(a, j);
            i = i - 1;
        }
        Interleaver { length: num, perm, inverse }
    }

    /// A random interleaver of `num` positions (see `random_seeded`), seeded
    /// from the thread-local generator.
    pub fn random(num: usize) -> (r: Interleaver)
        requires
            num > 0,
        ensures
            r.wf(),
            r.length == num,
    {
        let seed = fresh_seed();
        Interleaver::random_seeded(num, seed)
    }

    /// `input` put in interleaved order: output position `i` takes input
    /// position `perm[i]`.
    ///
    /// Fails with `InvalidInput` if `input` is not one block long.
    pub fn interleave<T: Copy>(&self, input: &[T]) -> (r: Result<Vec<T>, Error>)
        requires
            self.wf(),
        ensures
            r matches Err(e) ==> e is InvalidInput,
            r is Ok <==> input@.len() == self.length,
            r matches Ok(v) ==> v@ == self.interleave_seq(input@),
    {
        if input.len() != self.length {
            return Err(Error::InvalidInput(String::from_str("input length differs from interleaver length")));
        }
        let mut out: Vec<T> = Vec::new();
        let mut i: usize = 0;
        while i < self.length
            invariant
                self.wf(),
                input@.len() == self.length,
                i <= self.length,
                out@ == self.interleave_seq(input@).subrange(0, i as int),
            decreases self.length - i,
        {
            out.push(input[self.perm[i]]);
            proof {
                assert(out@ =~= self.interleave_seq(input@).subrange(0, i + 1));
            }
            i = i + 1;
        }
        proof {
            assert(out@ =~= self.interleave_seq(input@));
        }
        Ok(out)
    }

    /// `input` put back from interleaved order, undoing `interleave`.
    ///
    /// Fails with `InvalidInput` if `input` is not one block long.
    pub fn deinterleave<T: Copy>(&self, input: &[T]) -> (r: Result<Vec<T>, Error>)
        requires
            self.wf(),
        ensures
            r matches Err(e) ==> e is InvalidInput,
            r is Ok <==> input@.len() == self.length,
            r matches Ok(v) ==> v@ == self.deinterleave_seq(input@),
    {
        if input.len() != self.length {
            return Err(Error::InvalidInput(String::from_str("input length differs from interleaver length")));
        }
        let mut out: Vec<T> = Vec::new();
        let mut k: usize = 0;
        while k < self.length
            invariant
                self.wf(),
                input@.len() == self.length,
                k <= self.length,
                out@ == self.deinterleave_seq(input@).subrange(0, k as int),
            decreases self.length - k,
        {
            out.push(input[self.inverse[k]]);
            proof {
                assert(out@ =~= self.deinterleave_seq(input@).subrange(0, k + 1));
            }
            k = k + 1;
        }
        proof {
            assert(out@ =~= self.deinterleave_seq(input@));
        }
        Ok(out)
    }
}

/// Interleaving and deinterleaving undo each other: for every sequence `x`
/// of one block, `deinterleave(interleave(x)) == x` and
/// `interleave(deinterleave(x)) == x`.
pub proof fn lemma_interleave_round_trip<T>(il: Interleaver, x: Seq<T>)
    requires
        il.wf(),
        x.len() == il.length,
    ensures
        il.deinterleave_seq(il.interleave_seq(x)) == x,
        il.interleave_seq(il.deinterleave_seq(x)) == x,
{
    assert(il.deinterleave_seq(il.interleave_seq(x)) =~= x);
    assert(il.interleave_seq(il.deinterleave_seq(x)) =~= x);
}

/// The permutation of a well-formed interleaver is a bijection of its
/// positions.
pub proof fn lemma_wf_bijection(il: Interleaver)
    requires
        il.wf(),
    ensures
        is_bijection(il.perm@, il.length as nat),
{
    let n = il.length as nat;
    let p = il.perm@;
    assert forall|a: int, b: int| 0 <= a < n && 0 <= b < n && a != b implies #[trigger] p[a] != #[trigger] p[b] by {
        if p[a] == p[b] {
            assert(il.inverse@[p[a] as int] == a);
        }
    }
    assert forall|k: int| 0 <= k < n implies #[trigger] hits(p, n, k) by {
        assert(p[il.inverse@[k] as int] == k);
    }
}

} // verus!
