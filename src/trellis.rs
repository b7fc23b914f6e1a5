//! The state machine of a binary recursive systematic convolutional encoder,
//! expanded from a feedback and a feedforward generator polynomial.
//!
//! A polynomial with `m + 1` bits is read with its most significant bit as the
//! tap on the newest register value and its least significant bit as the tap
//! on the oldest one. The register holds `m` bits, its newest value in the
//! most significant position, so the trellis has `2^m` states.

use vstd::prelude::*;
use crate::common::Error;

verus! {

/// Largest register length accepted. This is a machine limit: with a longer
/// register the transition table, two entries for each of `2^MAX_MEMORY`
/// states, would no longer fit the index range of a 32-bit `usize`.
pub const MAX_MEMORY: usize = 29;

/// Largest number of states, `2^MAX_MEMORY`.
pub const MAX_STATES: usize = 536870912;

/// `2^k`.
pub open spec fn two_pow(k: nat) -> nat
    decreases k,
{
    if k == 0 {
        1
    } else {
        2 * two_pow((k - 1) as nat)
    }
}

/// Number of binary digits of `x` (zero for zero).
pub open spec fn bit_len(x: nat) -> nat
    decreases x,
{
    if x == 0 {
        0
    } else {
        1 + bit_len(x / 2)
    }
}

/// Parity of the number of positions where both `a` and `b` have a one bit.
pub open spec fn tap_parity(a: nat, b: nat) -> bool
    decreases a,
{
    if a == 0 {
        false
    } else {
        tap_parity(a / 2, b / 2) != (a % 2 == 1 && b % 2 == 1)
    }
}

/// Register length of the code made of the two polynomials.
pub open spec fn memory_of(feedback: nat, feedforward: nat) -> nat {
    let longest = if feedback >= feedforward { feedback } else { feedforward };
    (bit_len(longest) - 1) as nat
}

/// The two polynomials make a usable code: both non-zero, the feedback one
/// odd, and the register no longer than `MAX_MEMORY`.
pub open spec fn polynomials_valid(feedback: nat, feedforward: nat) -> bool {
    &&& feedback != 0
    &&& feedforward != 0
    &&& feedback % 2 == 1
    &&& memory_of(feedback, feedforward) <= MAX_MEMORY
}

/// The value shifted into the register when `input` enters in `state`.
pub open spec fn feedback_value(feedback: nat, memory: nat, state: nat, input: bool) -> bool {
    input != tap_parity(feedback % two_pow(memory), state)
}

/// The register contents after the feedback update, newest value on top.
pub open spec fn extended_register(feedback: nat, memory: nat, state: nat, input: bool) -> nat {
    (if feedback_value(feedback, memory, state, input) { two_pow(memory) } else { 0 }) + state
}

/// The state that follows `state` on `input`.
pub open spec fn next_state_of(feedback: nat, memory: nat, state: nat, input: bool) -> nat {
    extended_register(feedback, memory, state, input) / 2
}

/// The parity bit sent when `input` enters in `state`.
pub open spec fn parity_of(feedback: nat, feedforward: nat, memory: nat, state: nat, input: bool) -> bool {
    tap_parity(feedforward, extended_register(feedback, memory, state, input))
}

/// Transition table of a recursive systematic convolutional encoder.
///
/// The entry of state `s` and input `b` stands at index `2 * s + b`.
pub struct Trellis {
    /// Feedback generator polynomial.
    pub feedback: usize,
    /// Feedforward generator polynomial.
    pub feedforward: usize,
    /// Register length.
    pub memory: usize,
    /// Number of states, `2^memory`.
    pub num_states: usize,
    /// Successor state of each (state, input) pair.
    pub next_states: Vec<usize>,
    /// Parity output of each (state, input) pair.
    pub parity_bits: Vec<bool>,
}

/// Index of the table entry of `state` and `input`.
pub open spec fn entry(state: nat, input: bool) -> nat {
    2 * state + if input { 1nat } else { 0nat }
}

impl Trellis {
    /// The polynomial pair, feedback first.
    pub open spec fn code(self) -> (nat, nat) {
        (self.feedback as nat, self.feedforward as nat)
    }

    /// The successor of `state` on `input` under this trellis's polynomials.
    pub open spec fn next_of(self, state: nat, input: bool) -> nat {
        next_state_of(self.feedback as nat, self.memory as nat, state, input)
    }

    /// The parity output of `state` on `input` under this trellis's polynomials.
    pub open spec fn parity_at(self, state: nat, input: bool) -> bool {
        parity_of(self.feedback as nat, self.feedforward as nat, self.memory as nat, state, input)
    }

    /// The table is the one that the polynomials define.
    pub open spec fn wf(self) -> bool {
        &&& polynomials_valid(self.feedback as nat, self.feedforward as nat)
        &&& self.memory == memory_of(self.feedback as nat, self.feedforward as nat)
        &&& self.num_states == two_pow(self.memory as nat)
        &&& 0 < self.num_states <= MAX_STATES
        &&& self.next_states@.len() == 2 * self.num_states
        &&& self.parity_bits@.len() == 2 * self.num_states
        &&& forall|s: nat, b: bool|
            #![trigger self.next_states@[entry(s, b) as int]]
            s < self.num_states ==> self.next_states@[entry(s, b) as int] == self.next_of(s, b)
        &&& forall|s: nat, b: bool|
            #![trigger self.parity_bits@[entry(s, b) as int]]
            s < self.num_states ==> self.parity_bits@[entry(s, b) as int] == self.parity_at(s, b)
    }
}

proof fn lemma_two_pow_positive(k: nat)
    ensures
        two_pow(k) >= 1,
    decreases k,
{
    if k > 0 {
        lemma_two_pow_positive((k - 1) as nat);
    }
}

proof fn lemma_two_pow_monotone(a: nat, b: nat)
    requires
        a <= b,
    ensures
        two_pow(a) <= two_pow(b),
    decreases b,
{
    if a < b {
        lemma_two_pow_monotone(a, (b - 1) as nat);
        lemma_two_pow_positive((b - 1) as nat);
    }
}

proof fn lemma_two_pow_bound(k: nat)
    requires
        k <= MAX_MEMORY,
    ensures
        two_pow(k) <= MAX_STATES,
{
    lemma_two_pow_monotone(k, 29);
    reveal_with_fuel(two_pow, 30);
}

/// Number of binary digits of `x`.
fn bit_length(x: usize) -> (r: usize)
    ensures
        r == bit_len(x as nat),
{
    let mut rest: usize = x;
    let mut count: usize = 0;
    proof {
        lemma_bit_len_at_most(x as nat);
    }
    while rest > 0
        invariant
            count + bit_len(rest as nat) == bit_len(x as nat),
            bit_len(x as nat) <= x,
        decreases rest,
    {
        count = count + 1;
        rest = rest / 2;
    }
    count
}

proof fn lemma_bit_len_at_most(x: nat)
    ensures
        bit_len(x) <= x,
    decreases x,
{
    if x > 0 {
        lemma_bit_len_at_most(x / 2);
    }
}

/// Parity of the common one bits of `a` and `b`.
fn tap_parity_of(a: usize, b: usize) -> (r: bool)
    ensures
        r == tap_parity(a as nat, b as nat),
{
    let mut x: usize = a;
    let mut y: usize = b;
    let mut acc: bool = false;
    while x > 0
        invariant
            (acc != tap_parity(x as nat, y as nat)) == tap_parity(a as nat, b as nat),
        decreases x,
    {
        acc = acc != (x % 2 == 1 && y % 2 == 1);
        x = x / 2;
        y = y / 2;
    }
    acc
}

/// One transition: the successor state and the parity bit.
fn transition(feedback: usize, feedforward: usize, memory: usize, num_states: usize, state: usize, input: bool) -> (r: (usize, bool))
    requires
        num_states == two_pow(memory as nat),
        num_states <= MAX_STATES,
        state < num_states,
    ensures
        r.0 == next_state_of(feedback as nat, memory as nat, state as nat, input),
        r.1 == parity_of(feedback as nat, feedforward as nat, memory as nat, state as nat, input),
        r.0 < num_states,
{
    let fed = input != tap_parity_of(feedback % num_states, state);
    let register: usize = if fed { num_states + state } else { state };
    (register / 2, tap_parity_of(feedforward, register))
}

impl Trellis {
    /// Builds the trellis of the code whose feedback polynomial is
    /// `code_polynomials[0]` and feedforward polynomial is `code_polynomials[1]`.
    ///
    /// Fails with `InvalidInput` unless exactly two polynomials are given and
    /// they are valid.
    pub fn new(code_polynomials: &[usize]) -> (r: Result<Trellis, Error>)
        ensures
            r matches Err(e) ==> e is InvalidInput,
            r is Ok <==> (code_polynomials@.len() == 2 && polynomials_valid(
                code_polynomials@[0] as nat,
                code_polynomials@[1] as nat,
            )),
            r matches Ok(t) ==> t.wf() && t.feedback == code_polynomials@[0] && t.feedforward
                == code_polynomials@[1],
    {
        if code_polynomials.len() != 2 {
            return Err(Error::InvalidInput(String::from_str("expected exactly two code polynomials")));
        }
        let feedback = code_polynomials[0];
        let feedforward = code_polynomials[1];
        if feedback == 0 || feedforward == 0 {
            return Err(Error::InvalidInput(String::from_str("code polynomials must be non-zero")));
        }
        if feedback % 2 == 0 {
            return Err(Error::InvalidInput(String::from_str("feedback polynomial must be odd")));
        }
        let longest = if feedback >= feedforward { feedback } else { feedforward };
        let memory = bit_length(longest) - 1;
        if memory > MAX_MEMORY {
            return Err(Error::InvalidInput(String::from_str("code polynomials are too long")));
        }
        let mut num_states: usize = 1;
        let mut k: usize = 0;
        while k < memory
            invariant
                k <= memory,
                memory <= MAX_MEMORY,
                num_states == two_pow(k as nat),
            decreases memory - k,
        {
            proof {
                lemma_two_pow_bound((k + 1) as nat);
            }
            num_states = num_states * 2;
            k = k + 1;
        }
        proof {
            lemma_two_pow_bound(memory as nat);
            lemma_two_pow_positive(memory as nat);
        }
        let mut next_states: Vec<usize> = Vec::new();
        let mut parity_bits: Vec<bool> = Vec::new();
        let mut s: usize = 0;
        while s < num_states
            invariant
                s <= num_states,
                num_states == two_pow(memory as nat),
                num_states <= MAX_STATES,
                next_states@.len() == 2 * s,
                parity_bits@.len() == 2 * s,
                forall|q: nat, b: bool|
                    #![trigger next_states@[entry(q, b) as int]]
                    q < s ==> next_states@[entry(q, b) as int] == next_state_of(
                        feedback as nat,
                        memory as nat,
                        q,
                        b,
                    ),
                forall|q: nat, b: bool|
                    #![trigger parity_bits@[entry(q, b) as int]]
                    q < s ==> parity_bits@[entry(q, b) as int] == parity_of(
                        feedback as nat,
                        feedforward as nat,
                        memory as nat,
                        q,
                        b,
                    ),
            decreases num_states - s,
        {
            let ghost prev_next = next_states@;
            let ghost prev_parity = parity_bits@;
            let (next_zero, parity_zero) = transition(feedback, feedforward, memory, num_states, s, false);
            let (next_one, parity_one) = transition(feedback, feedforward, memory, num_states, s, true);
            next_states.push(next_zero);
            next_states.push(next_one);
            parity_bits.push(parity_zero);
            parity_bits.push(parity_one);
            proof {
                assert forall|q: nat, b: bool| q < s + 1 implies next_states@[entry(q, b) as int]
                    == next_state_of(feedback as nat, memory as nat, q, b) && parity_bits@[entry(q, b) as int]
                    == parity_of(feedback as nat, feedforward as nat, memory as nat, q, b) by {
                    if q < s {
                        assert(next_states@[entry(q, b) as int] == prev_next[entry(q, b) as int]);
                        assert(parity_bits@[entry(q, b) as int] == prev_parity[entry(q, b) as int]);
                    }
                }
            }
            s = s + 1;
        }
        Ok(Trellis { feedback, feedforward, memory, num_states, next_states, parity_bits })
    }

    /// The successor of `state` on `input`.
    pub fn next_state(&self, state: usize, input: bool) -> (r: usize)
        requires
            self.wf(),
            state < self.num_states,
        ensures
            r == self.next_of(state as nat, input),
            r < self.num_states,
    {
        proof {
            assert(self.next_states@[entry(state as nat, input) as int] == self.next_of(state as nat, input));
            lemma_next_in_range(*self, state as nat, input);
        }
        self.next_states[2 * state + if input { 1 } else { 0 }]
    }

    /// The parity output of `state` on `input`.
    pub fn parity(&self, state: usize, input: bool) -> (r: bool)
        requires
            self.wf(),
            state < self.num_states,
        ensures
            r == self.parity_at(state as nat, input),
    {
        proof {
            assert(self.parity_bits@[entry(state as nat, input) as int] == self.parity_at(state as nat, input));
        }
        self.parity_bits[2 * state + if input { 1 } else { 0 }]
    }
}

proof fn lemma_next_in_range(t: Trellis, state: nat, input: bool)
    requires
        t.wf(),
        state < t.num_states,
    ensures
        t.next_of(state, input) < t.num_states,
{
}

/// A trellis is determined by its two polynomials: two well-formed trellises
/// built from the same pair have the same transition table.
pub proof fn lemma_trellis_deterministic(t1: Trellis, t2: Trellis)
    requires
        t1.wf(),
        t2.wf(),
        t1.feedback == t2.feedback,
        t1.feedforward == t2.feedforward,
    ensures
        t1.memory == t2.memory,
        t1.num_states == t2.num_states,
        t1.next_states@ == t2.next_states@,
        t1.parity_bits@ == t2.parity_bits@,
{
    assert forall|i: int| 0 <= i < t1.next_states@.len() implies t1.next_states@[i] == t2.next_states@[i]
        && t1.parity_bits@[i] == t2.parity_bits@[i] by {
        let s = (i / 2) as nat;
        let b = i % 2 == 1;
        assert(i == entry(s, b));
    }
    assert(t1.next_states@ =~= t2.next_states@);
    assert(t1.parity_bits@ =~= t2.parity_bits@);
}

} // verus!
