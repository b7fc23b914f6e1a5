//! The turbo encoder: one systematic and two parity streams.

use vstd::prelude::*;
use crate::common::{bit_of, Bit, Error};
use crate::interleaver::Interleaver;
use crate::trellis::{memory_of, next_state_of, parity_of, polynomials_valid, Trellis};

verus! {

/// State of the encoder after the first `k` inputs, starting from the
/// all-zero state.
pub open spec fn state_after(feedback: nat, memory: nat, inputs: Seq<bool>, k: nat) -> nat
    decreases k,
{
    if k == 0 {
        0
    } else {
        next_state_of(feedback, memory, state_after(feedback, memory, inputs, (k - 1) as nat), inputs[k - 1])
    }
}

/// Parity bits that the encoder sends for `inputs`.
pub open spec fn parity_stream(feedback: nat, feedforward: nat, inputs: Seq<bool>) -> Seq<bool> {
    let memory = memory_of(feedback, feedforward);
    Seq::new(
        inputs.len(),
        |k: int| parity_of(feedback, feedforward, memory, state_after(feedback, memory, inputs, k as nat), inputs[k]),
    )
}

/// The booleans of a sequence of bits.
pub open spec fn bools_of(bits: Seq<Bit>) -> Seq<bool> {
    Seq::new(bits.len(), |i: int| bits[i].is_one())
}

/// The codeword of `bits`: for each position `i` the systematic bit, the
/// parity bit of the natural order and the parity bit of the interleaved
/// order, at `3 * i`, `3 * i + 1` and `3 * i + 2`.
pub open spec fn codeword(feedback: nat, feedforward: nat, bits: Seq<Bit>, perm: Seq<usize>) -> Seq<Bit> {
    let natural = bools_of(bits);
    let interleaved = Seq::new(bits.len(), |i: int| natural[perm[i] as int]);
    let first = parity_stream(feedback, feedforward, natural);
    let second = parity_stream(feedback, feedforward, interleaved);
    Seq::new(
        3 * bits.len(),
        |j: int|
            if j % 3 == 0 {
                bits[j / 3]
            } else if j % 3 == 1 {
                bit_of(first[j / 3])
            } else {
                bit_of(second[j / 3])
            },
    )
}

/// Parity bits of `inputs` under the trellis, from the all-zero state.
pub fn parity_run(trellis: &Trellis, inputs: &[bool]) -> (r: Vec<bool>)
    requires
        trellis.wf(),
    ensures
        r@ == parity_stream(trellis.feedback as nat, trellis.feedforward as nat, inputs@),
{
    let ghost fb = trellis.feedback as nat;
    let ghost m = trellis.memory as nat;
    let mut out: Vec<bool> = Vec::new();
    let mut state: usize = 0;
    let mut k: usize = 0;
    while k < inputs.len()
        invariant
            trellis.wf(),
            fb == trellis.feedback,
            m == trellis.memory,
            k <= inputs@.len(),
            state < trellis.num_states,
            state == state_after(fb, m, inputs@, k as nat),
            out@ == parity_stream(trellis.feedback as nat, trellis.feedforward as nat, inputs@).subrange(0, k as int),
        decreases inputs@.len() - k,
    {
        let ghost before = state as nat;
        out.push(trellis.parity(state, inputs[k]));
        proof {
            assert(out@[k as int] == parity_stream(trellis.feedback as nat, trellis.feedforward as nat, inputs@)[k as int]);
            assert(out@ =~= parity_stream(trellis.feedback as nat, trellis.feedforward as nat, inputs@).subrange(0, k + 1));
        }
        state = trellis.next_state(state, inputs[k]);
        proof {
            assert(state_after(fb, m, inputs@, (k + 1) as nat) == next_state_of(fb, m, before, inputs@[k as int]));
        }
        k = k + 1;
    }
    proof {
        assert(out@ =~= parity_stream(trellis.feedback as nat, trellis.feedforward as nat, inputs@));
    }
    out
}

/// Encodes `bits` into a codeword of `3 * bits.len()` bits (see `codeword`),
/// with feedback polynomial `code_polynomials[0]` and feedforward polynomial
/// `code_polynomials[1]`.
///
/// Fails with `InvalidInput` if `bits` is empty, if its length differs from
/// the interleaver's, or if the polynomials are not two valid ones.
pub fn encoder(bits: &[Bit], interleaver: &Interleaver, code_polynomials: &[usize]) -> (r: Result<Vec<Bit>, Error>)
    requires
        interleaver.wf(),
    ensures
        r matches Err(e) ==> e is InvalidInput,
        r is Ok <==> (bits@.len() > 0 && bits@.len() == interleaver.length && code_polynomials@.len() == 2
            && polynomials_valid(code_polynomials@[0] as nat, code_polynomials@[1] as nat)),
        r matches Ok(v) ==> v@ == codeword(
            code_polynomials@[0] as nat,
            code_polynomials@[1] as nat,
            bits@,
            interleaver.perm@,
        ) && v@.len() == 3 * bits@.len(),
{
    if bits.len() == 0 {
        return Err(Error::InvalidInput(String::from_str("block of bits must be non-empty")));
    }
    if bits.len() != interleaver.length {
        return Err(Error::InvalidInput(String::from_str("block length differs from interleaver length")));
    }
    let trellis = match Trellis::new(code_polynomials) {
        Ok(t) => t,
        Err(e) => return Err(e),
    };
    let n = bits.len();
    let mut natural: Vec<bool> = Vec::new();
    let mut i: usize = 0;
    while i < n
        invariant
            n == bits@.len(),
            i <= n,
            natural@ == bools_of(bits@).subrange(0, i as int),
        decreases n - i,
    {
        natural.push(bool::from(bits[i]));
        proof {
            assert(natural@ =~= bools_of(bits@).subrange(0, i + 1));
        }
        i = i + 1;
    }
    proof {
        assert(natural@ =~= bools_of(bits@));
    }
    let interleaved = match interleaver.interleave(natural.as_slice()) {
        Ok(v) => v,
        Err(e) => return Err(e),
    };
    let first = parity_run(&trellis, natural.as_slice());
    let second = parity_run(&trellis, interleaved.as_slice());
    let ghost word = codeword(trellis.feedback as nat, trellis.feedforward as nat, bits@, interleaver.perm@);
    proof {
        assert(interleaved@ =~= Seq::new(bits@.len(), |i: int| bools_of(bits@)[interleaver.perm@[i] as int]));
    }
    let mut out: Vec<Bit> = Vec::new();
    let mut i: usize = 0;
    while i < n
        invariant
            n == bits@.len(),
            i <= n,
            first@.len() == n,
            second@.len() == n,
            first@ == parity_stream(trellis.feedback as nat, trellis.feedforward as nat, bools_of(bits@)),
            second@ == parity_stream(
                trellis.feedback as nat,
                trellis.feedforward as nat,
                Seq::new(bits@.len(), |i: int| bools_of(bits@)[interleaver.perm@[i] as int]),
            ),
            word == codeword(trellis.feedback as nat, trellis.feedforward as nat, bits@, interleaver.perm@),
            out@ == word.subrange(0, 3 * i as int),
        decreases n - i,
    {
        out.push(bits[i]);
        out.push(Bit::from(first[i]));
        out.push(Bit::from(second[i]));
        proof {
            assert(out@ =~= word.subrange(0, 3 * (i + 1) as int));
        }
        i = i + 1;
    }
    proof {
        assert(out@ =~= word);
    }
    Ok(out)
}

} // verus!
