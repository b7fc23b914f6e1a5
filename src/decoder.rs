//! The iterative turbo decoder and its constituent log-domain BCJR decoder.
//!
//! Log-likelihood ratios (LLRs) are fixed-point integers in units of 1/8 nat,
//! and `LLR = log(P(bit = 0) / P(bit = 1))`: a positive value favours `0`.
//! Path metrics are kept in units of 1/16 nat, so the branch metric of a bit
//! with LLR `l` is `+l` for `0` and `-l` for `1`. Every metric and LLR is held
//! within `[-METRIC_BOUND, METRIC_BOUND]`, the lower end standing for an
//! impossible path.

use vstd::prelude::*;
use crate::common::{Bit, Error};
use crate::interleaver::Interleaver;
use crate::trellis::{memory_of, next_state_of, parity_of, polynomials_valid, two_pow, Trellis};

verus! {

/// Bound on the magnitude of every metric and LLR inside the decoder, `2^40`.
pub const METRIC_BOUND: i64 = 1099511627776;

/// Choice of the log-domain combination `log(e^a + e^b)`, with the number of
/// turbo iterations to run.
#[derive(Clone, Copy, Debug, PartialEq, Eq, Structural)]
pub enum DecodingAlgo {
    /// `max(a, b)` alone: the Max-Log-MAP algorithm.
    MaxLogMAP(u32),
    /// `max(a, b)` plus the Jacobian correction `log(1 + e^-|a-b|)`, rounded
    /// to the metric unit: the Log-MAP algorithm.
    LogMAP(u32),
    /// `max(a, b)` plus a linear approximation of the Jacobian correction.
    LinearLogMAP(u32),
}

impl DecodingAlgo {
    /// Number of turbo iterations.
    pub open spec fn iterations(self) -> nat {
        match self {
            DecodingAlgo::MaxLogMAP(n) => n as nat,
            DecodingAlgo::LogMAP(n) => n as nat,
            DecodingAlgo::LinearLogMAP(n) => n as nat,
        }
    }

    /// Number of turbo iterations.
    pub fn num_iterations(&self) -> (r: u32)
        ensures
            r == self.iterations(),
    {
        match self {
            DecodingAlgo::MaxLogMAP(n) => *n,
            DecodingAlgo::LogMAP(n) => *n,
            DecodingAlgo::LinearLogMAP(n) => *n,
        }
    }
}

/// `16 * log(1 + e^(-d / 16))` rounded to the nearest integer, for `d >= 0`.
pub open spec fn jacobian_correction(d: int) -> int {
    if d < 2 { 11 }
    else if d < 4 { 10 }
    else if d < 6 { 9 }
    else if d < 9 { 8 }
    else if d < 12 { 7 }
    else if d < 15 { 6 }
    else if d < 18 { 5 }
    else if d < 23 { 4 }
    else if d < 29 { 3 }
    else if d < 38 { 2 }
    else if d < 56 { 1 }
    else { 0 }
}

/// Linear approximation of the Jacobian correction: `log 2 - d / 4` in nats,
/// cut off at zero.
pub open spec fn linear_correction(d: int) -> int {
    if d >= 44 { 0 } else { (44 - d) / 4 }
}

/// Correction added to `max(a, b)` where `d = |a - b|`.
pub open spec fn correction(algo: DecodingAlgo, d: int) -> int {
    match algo {
        DecodingAlgo::MaxLogMAP(_) => 0,
        DecodingAlgo::LogMAP(_) => jacobian_correction(d),
        DecodingAlgo::LinearLogMAP(_) => linear_correction(d),
    }
}

/// `x` held within `[-METRIC_BOUND, METRIC_BOUND]`.
pub open spec fn clamp(x: int) -> int {
    if x > METRIC_BOUND { METRIC_BOUND as int } else if x < -METRIC_BOUND { -METRIC_BOUND as int } else { x }
}

/// `log(e^a + e^b)` as computed under `algo`.
pub open spec fn max_star_spec(algo: DecodingAlgo, a: int, b: int) -> int {
    let hi = if a >= b { a } else { b };
    let d = if a >= b { a - b } else { b - a };
    clamp(hi + correction(algo, d))
}

/// `x / 2`, rounded toward zero.
pub open spec fn half(x: int) -> int {
    if x >= 0 { x / 2 } else { -((-x) / 2) }
}

/// `x` lies within `[-METRIC_BOUND, METRIC_BOUND]`.
pub open spec fn in_bounds(x: int) -> bool {
    -METRIC_BOUND <= x <= METRIC_BOUND
}

/// The bit that an LLR decides for: `1` when it is negative, else `0`.
pub open spec fn hard_decision_spec(llr: int) -> Bit {
    if llr < 0 { Bit::One } else { Bit::Zero }
}

/// Holds `x` within `[-METRIC_BOUND, METRIC_BOUND]`.
pub fn clamp_metric(x: i64) -> (r: i64)
    ensures
        r == clamp(x as int),
{
    if x > METRIC_BOUND {
        METRIC_BOUND
    } else if x < -METRIC_BOUND {
        -METRIC_BOUND
    } else {
        x
    }
}

fn correction_of(algo: DecodingAlgo, d: i64) -> (r: i64)
    requires
        d >= 0,
    ensures
        r == correction(algo, d as int),
        0 <= r <= 11,
{
    match algo {
        DecodingAlgo::MaxLogMAP(_) => 0,
        DecodingAlgo::LogMAP(_) => {
            if d < 2 { 11 }
            else if d < 4 { 10 }
            else if d < 6 { 9 }
            else if d < 9 { 8 }
            else if d < 12 { 7 }
            else if d < 15 { 6 }
            else if d < 18 { 5 }
            else if d < 23 { 4 }
            else if d < 29 { 3 }
            else if d < 38 { 2 }
            else if d < 56 { 1 }
            else { 0 }
        },
        DecodingAlgo::LinearLogMAP(_) => {
            if d >= 44 { 0 } else { (44 - d) / 4 }
        },
    }
}

/// `log(e^a + e^b)` under `algo`, in metric units.
pub fn max_star(algo: DecodingAlgo, a: i64, b: i64) -> (r: i64)
    requires
        in_bounds(a as int),
        in_bounds(b as int),
    ensures
        r == max_star_spec(algo, a as int, b as int),
        in_bounds(r as int),
{
    let (hi, d) = if a >= b { (a, a - b) } else { (b, b - a) };
    clamp_metric(hi + correction_of(algo, d))
}

/// `x / 2`, rounded toward zero.
fn halve(x: i64) -> (r: i64)
    requires
        -2 * METRIC_BOUND <= x <= 2 * METRIC_BOUND,
    ensures
        r == half(x as int),
{
    if x >= 0 { x / 2 } else { -((-x) / 2) }
}

/// The bit that an LLR decides for: `1` when it is negative, `0` otherwise
/// (a zero LLR gives `0`).
pub fn hard_decision(llr: i64) -> (r: Bit)
    ensures
        r == hard_decision_spec(llr as int),
{
    if llr < 0 { Bit::One } else { Bit::Zero }
}

/// Number of states of the code with polynomials `code.0` (feedback) and
/// `code.1` (feedforward).
pub open spec fn num_states_of(code: (nat, nat)) -> nat {
    two_pow(memory_of(code.0, code.1))
}

/// Successor of `state` on `input` in the code.
pub open spec fn next_in(code: (nat, nat), state: nat, input: bool) -> nat {
    next_state_of(code.0, memory_of(code.0, code.1), state, input)
}

/// Parity output of `state` on `input` in the code.
pub open spec fn parity_in(code: (nat, nat), state: nat, input: bool) -> bool {
    parity_of(code.0, code.1, memory_of(code.0, code.1), state, input)
}

/// The integers of a sequence of `i64`.
pub open spec fn ints(v: Seq<i64>) -> Seq<int> {
    Seq::new(v.len(), |i: int| v[i] as int)
}

/// Every element of `v` lies within `[-METRIC_BOUND, METRIC_BOUND]`.
pub open spec fn all_in_bounds(v: Seq<i64>) -> bool {
    forall|i: int| 0 <= i < v.len() ==> #[trigger] in_bounds(v[i] as int)
}

/// Branch metric of the parity bit at step `t` from `state` on `input`.
pub open spec fn parity_branch(code: (nat, nat), par: Seq<int>, t: int, state: nat, input: bool) -> int {
    if parity_in(code, state, input) { -par[t] } else { par[t] }
}

/// Branch metric at step `t` from `state` on `input`; `sa[t]` is the LLR of
/// the systematic bit with its a-priori LLR added.
pub open spec fn branch(code: (nat, nat), sa: Seq<int>, par: Seq<int>, t: int, state: nat, input: bool) -> int {
    (if input { -sa[t] } else { sa[t] }) + parity_branch(code, par, t, state, input)
}

/// The forward row of step `t + 1` after the first `e` transitions out of
/// `prev` (transition `e` leaves state `e / 2` on input `e % 2`) have been
/// combined into it.
pub open spec fn forward_step(
    code: (nat, nat),
    sa: Seq<int>,
    par: Seq<int>,
    algo: DecodingAlgo,
    prev: Seq<int>,
    t: int,
    e: nat,
) -> Seq<int>
    decreases e,
{
    if e == 0 {
        Seq::new(num_states_of(code), |s: int| -METRIC_BOUND as int)
    } else {
        let row = forward_step(code, sa, par, algo, prev, t, (e - 1) as nat);
        let s = ((e - 1) / 2) as nat;
        let b = (e - 1) % 2 == 1;
        let ns = next_in(code, s, b) as int;
        row.update(ns, max_star_spec(algo, row[ns], clamp(prev[s as int] + branch(code, sa, par, t, s, b))))
    }
}

/// Forward state metrics after `t` steps, from the all-zero state.
pub open spec fn alpha(code: (nat, nat), sa: Seq<int>, par: Seq<int>, algo: DecodingAlgo, t: nat) -> Seq<int>
    decreases t,
{
    if t == 0 {
        Seq::new(num_states_of(code), |s: int| if s == 0 { 0 } else { -METRIC_BOUND as int })
    } else {
        forward_step(
            code,
            sa,
            par,
            algo,
            alpha(code, sa, par, algo, (t - 1) as nat),
            t - 1,
            2 * num_states_of(code),
        )
    }
}

/// The backward row of step `t` from the row `next` of step `t + 1`.
pub open spec fn backward_step(code: (nat, nat), sa: Seq<int>, par: Seq<int>, algo: DecodingAlgo, next: Seq<int>, t: int) -> Seq<int> {
    Seq::new(
        num_states_of(code),
        |s: int|
            max_star_spec(
                algo,
                clamp(branch(code, sa, par, t, s as nat, false) + next[next_in(code, s as nat, false) as int]),
                clamp(branch(code, sa, par, t, s as nat, true) + next[next_in(code, s as nat, true) as int]),
            ),
    )
}

/// Backward state metrics from step `t` to the end of the block, which is
/// left unterminated (every final state has metric zero).
pub open spec fn beta(code: (nat, nat), sa: Seq<int>, par: Seq<int>, algo: DecodingAlgo, t: nat) -> Seq<int>
    decreases sa.len() - t,
{
    if t >= sa.len() {
        Seq::new(num_states_of(code), |s: int| 0)
    } else {
        backward_step(code, sa, par, algo, beta(code, sa, par, algo, t + 1), t as int)
    }
}

/// The metric of input `input` at step `t` over the first `e` states, from
/// the forward row `arow` of step `t` and the backward row `brow` of step
/// `t + 1`, without the systematic and a-priori part.
pub open spec fn class_fold(
    code: (nat, nat),
    par: Seq<int>,
    algo: DecodingAlgo,
    arow: Seq<int>,
    brow: Seq<int>,
    t: int,
    input: bool,
    e: nat,
) -> int
    decreases e,
{
    if e == 0 {
        -METRIC_BOUND as int
    } else {
        let s = (e - 1) as nat;
        max_star_spec(
            algo,
            class_fold(code, par, algo, arow, brow, t, input, s),
            clamp(arow[s as int] + parity_branch(code, par, t, s, input) + brow[next_in(code, s, input) as int]),
        )
    }
}

/// Extrinsic LLRs of one constituent decoder, in LLR units.
pub open spec fn extrinsic(code: (nat, nat), sa: Seq<int>, par: Seq<int>, algo: DecodingAlgo) -> Seq<int> {
    Seq::new(
        sa.len(),
        |t: int|
            {
                let arow = alpha(code, sa, par, algo, t as nat);
                let brow = beta(code, sa, par, algo, (t + 1) as nat);
                let n = num_states_of(code);
                clamp(half(class_fold(code, par, algo, arow, brow, t, false, n)
                    - class_fold(code, par, algo, arow, brow, t, true, n)))
            },
    )
}

/// Forward row of step `t + 1` from the row `prev` of step `t`.
fn forward_row(trellis: &Trellis, sa: &Vec<i64>, par: &Vec<i64>, algo: DecodingAlgo, prev: &Vec<i64>, t: usize) -> (r: Vec<i64>)
    requires
        trellis.wf(),
        t < sa@.len(),
        par@.len() == sa@.len(),
        prev@.len() == trellis.num_states,
        all_in_bounds(sa@),
        all_in_bounds(par@),
        all_in_bounds(prev@),
    ensures
        ints(r@) == forward_step(trellis.code(), ints(sa@), ints(par@), algo, ints(prev@), t as int, 2 * num_states_of(trellis.code())),
        r@.len() == trellis.num_states,
        all_in_bounds(r@),
{
    let ghost code = trellis.code();
    let ghost gsa = ints(sa@);
    let ghost gpar = ints(par@);
    let ghost gprev = ints(prev@);
    let n = trellis.num_states;
    let mut row: Vec<i64> = Vec::new();
    let mut k: usize = 0;
    while k < n
        invariant
            k <= n,
            row@.len() == k,
            forall|q: int| 0 <= q < k ==> #[trigger] row@[q] == -METRIC_BOUND,
        decreases n - k,
    {
        row.push(-METRIC_BOUND);
        k = k + 1;
    }
    proof {
        assert(ints(row@) =~= forward_step(code, gsa, gpar, algo, gprev, t as int, 0));
    }
    let sys = sa[t];
    let p = par[t];
    let mut s: usize = 0;
    while s < n
        invariant
            code == trellis.code(),
            trellis.wf(),
            n == trellis.num_states,
            s <= n,
            row@.len() == n,
            all_in_bounds(row@),
            in_bounds(sys as int),
            in_bounds(p as int),
            sys == sa@[t as int],
            p == par@[t as int],
            t < sa@.len(),
            par@.len() == sa@.len(),
            prev@.len() == n,
            all_in_bounds(prev@),
            gsa == ints(sa@),
            gpar == ints(par@),
            gprev == ints(prev@),
            ints(row@) == forward_step(code, gsa, gpar, algo, gprev, t as int, 2 * s as nat),
        decreases n - s,
    {
        assert(in_bounds(prev@[s as int] as int));
        let from = prev[s];
        let mut round: usize = 0;
        while round < 2
            invariant
                code == trellis.code(),
                trellis.wf(),
                n == trellis.num_states,
                s < n,
                round <= 2,
                row@.len() == n,
                all_in_bounds(row@),
                in_bounds(sys as int),
                in_bounds(p as int),
                in_bounds(from as int),
                from == prev@[s as int],
                sys == sa@[t as int],
                p == par@[t as int],
                t < sa@.len(),
                par@.len() == sa@.len(),
                prev@.len() == n,
                gsa == ints(sa@),
                gpar == ints(par@),
                gprev == ints(prev@),
                ints(row@) == forward_step(code, gsa, gpar, algo, gprev, t as int, (2 * s + round) as nat),
            decreases 2 - round,
        {
            let b = round == 1;
            let ns = trellis.next_state(s, b);
            let parity = trellis.parity(s, b);
            let g: i64 = (if b { -sys } else { sys }) + (if parity { -p } else { p });
            let cand = clamp_metric(from + g);
            assert(in_bounds(row@[ns as int] as int));
            let updated = max_star(algo, row[ns], cand);
            let ghost before = row@;
            row.set(ns, updated);
            proof {
                let e = (2 * s + round + 1) as nat;
                assert((e - 1) / 2 == s);
                assert(((e - 1) % 2 == 1) == b);
                assert(ints(row@) =~= ints(before).update(ns as int, updated as int));
                assert(all_in_bounds(row@)) by {
                    assert forall|i: int| 0 <= i < row@.len() implies #[trigger] in_bounds(row@[i] as int) by {
                        if i != ns {
                            assert(row@[i] == before[i]);
                        }
                    }
                }
            }
            round = round + 1;
        }
        s = s + 1;
    }
    row
}

/// Backward row of step `t` from the row `next` of step `t + 1`.
fn backward_row(trellis: &Trellis, sa: &Vec<i64>, par: &Vec<i64>, algo: DecodingAlgo, next: &Vec<i64>, t: usize) -> (r: Vec<i64>)
    requires
        trellis.wf(),
        t < sa@.len(),
        par@.len() == sa@.len(),
        next@.len() == trellis.num_states,
        all_in_bounds(sa@),
        all_in_bounds(par@),
        all_in_bounds(next@),
    ensures
        ints(r@) == backward_step(trellis.code(), ints(sa@), ints(par@), algo, ints(next@), t as int),
        r@.len() == trellis.num_states,
        all_in_bounds(r@),
{
    let ghost target = backward_step(trellis.code(), ints(sa@), ints(par@), algo, ints(next@), t as int);
    let n = trellis.num_states;
    assert(in_bounds(sa@[t as int] as int));
    assert(in_bounds(par@[t as int] as int));
    let sys = sa[t];
    let p = par[t];
    let mut row: Vec<i64> = Vec::new();
    let mut s: usize = 0;
    while s < n
        invariant
            trellis.wf(),
            n == trellis.num_states,
            s <= n,
            row@.len() == s,
            all_in_bounds(row@),
            in_bounds(sys as int),
            in_bounds(p as int),
            sys == sa@[t as int],
            p == par@[t as int],
            t < sa@.len(),
            par@.len() == sa@.len(),
            next@.len() == n,
            all_in_bounds(next@),
            target == backward_step(trellis.code(), ints(sa@), ints(par@), algo, ints(next@), t as int),
            forall|q: int| 0 <= q < s ==> #[trigger] ints(row@)[q] == target[q],
        decreases n - s,
    {
        let n0 = trellis.next_state(s, false);
        let n1 = trellis.next_state(s, true);
        let parity_zero = trellis.parity(s, false);
        let parity_one = trellis.parity(s, true);
        assert(in_bounds(next@[n0 as int] as int));
        assert(in_bounds(next@[n1 as int] as int));
        let c0 = clamp_metric(sys + (if parity_zero { -p } else { p }) + next[n0]);
        let c1 = clamp_metric(-sys + (if parity_one { -p } else { p }) + next[n1]);
        let m = max_star(algo, c0, c1);
        let ghost before = row@;
        row.push(m);
        proof {
            let gs = ints(sa@);
            let gp = ints(par@);
            let gn = ints(next@);
            assert(gs[t as int] == sys as int);
            assert(gp[t as int] == p as int);
            assert(gn[n0 as int] == next@[n0 as int] as int);
            assert(gn[n1 as int] == next@[n1 as int] as int);
            assert(c0 == clamp(branch(trellis.code(), gs, gp, t as int, s as nat, false) + gn[n0 as int]));
            assert(c1 == clamp(branch(trellis.code(), gs, gp, t as int, s as nat, true) + gn[n1 as int]));
            assert(ints(row@)[s as int] == target[s as int]);
            assert forall|q: int| 0 <= q < s + 1 implies #[trigger] ints(row@)[q] == target[q] by {
                if q < s {
                    assert(row@[q] == before[q]);
                    assert(ints(before)[q] == target[q]);
                }
            }
        }
        s = s + 1;
    }
    proof {
        assert(ints(row@) =~= target);
    }
    row
}

/// The metric of input `input` at step `t` over all states.
fn class_metric(trellis: &Trellis, par: &Vec<i64>, algo: DecodingAlgo, arow: &Vec<i64>, brow: &Vec<i64>, t: usize, input: bool) -> (r: i64)
    requires
        trellis.wf(),
        t < par@.len(),
        arow@.len() == trellis.num_states,
        brow@.len() == trellis.num_states,
        all_in_bounds(par@),
        all_in_bounds(arow@),
        all_in_bounds(brow@),
    ensures
        r == class_fold(trellis.code(), ints(par@), algo, ints(arow@), ints(brow@), t as int, input, num_states_of(trellis.code())),
        in_bounds(r as int),
{
    let n = trellis.num_states;
    assert(in_bounds(par@[t as int] as int));
    let p = par[t];
    let mut acc: i64 = -METRIC_BOUND;
    let mut s: usize = 0;
    while s < n
        invariant
            trellis.wf(),
            n == trellis.num_states,
            s <= n,
            in_bounds(acc as int),
            in_bounds(p as int),
            p == par@[t as int],
            t < par@.len(),
            arow@.len() == n,
            brow@.len() == n,
            all_in_bounds(arow@),
            all_in_bounds(brow@),
            acc == class_fold(trellis.code(), ints(par@), algo, ints(arow@), ints(brow@), t as int, input, s as nat),
        decreases n - s,
    {
        let ns = trellis.next_state(s, input);
        let parity = trellis.parity(s, input);
        assert(in_bounds(arow@[s as int] as int));
        assert(in_bounds(brow@[ns as int] as int));
        let c = clamp_metric(arow[s] + (if parity { -p } else { p }) + brow[ns]);
        acc = max_star(algo, acc, c);
        s = s + 1;
    }
    acc
}

/// Extrinsic LLRs of one constituent decoder: `sa` holds the systematic
/// channel LLRs with the a-priori LLRs added, `par` the parity channel LLRs.
pub fn constituent_extrinsic(trellis: &Trellis, sa: &Vec<i64>, par: &Vec<i64>, algo: DecodingAlgo) -> (r: Vec<i64>)
    requires
        trellis.wf(),
        par@.len() == sa@.len(),
        all_in_bounds(sa@),
        all_in_bounds(par@),
    ensures
        ints(r@) == extrinsic(trellis.code(), ints(sa@), ints(par@), algo),
        r@.len() == sa@.len(),
        all_in_bounds(r@),
{
    let ghost code = trellis.code();
    let ghost gsa = ints(sa@);
    let ghost gpar = ints(par@);
    let len = sa.len();
    let n = trellis.num_states;
    let mut first: Vec<i64> = Vec::new();
    let mut k: usize = 0;
    while k < n
        invariant
            k <= n,
            first@.len() == k,
            forall|q: int| 0 <= q < k ==> #[trigger] first@[q] == if q == 0 { 0 } else { -METRIC_BOUND },
        decreases n - k,
    {
        first.push(if k == 0 { 0 } else { -METRIC_BOUND });
        k = k + 1;
    }
    proof {
        assert(ints(first@) =~= alpha(code, gsa, gpar, algo, 0));
    }
    let mut alphas: Vec<Vec<i64>> = Vec::new();
    alphas.push(first);
    let mut t: usize = 0;
    while t < len
        invariant
            code == trellis.code(),
            trellis.wf(),
            n == trellis.num_states,
            len == sa@.len(),
            par@.len() == len,
            all_in_bounds(sa@),
            all_in_bounds(par@),
            gsa == ints(sa@),
            gpar == ints(par@),
            t <= len,
            alphas@.len() == t + 1,
            forall|q: int|
                0 <= q <= t ==> (#[trigger] alphas@[q])@.len() == n && all_in_bounds(alphas@[q]@) && ints(alphas@[q]@)
                    == alpha(code, gsa, gpar, algo, q as nat),
        decreases len - t,
    {
        let row = forward_row(trellis, sa, par, algo, &alphas[t], t);
        alphas.push(row);
        t = t + 1;
    }
    let mut zeros: Vec<i64> = Vec::new();
    let mut k: usize = 0;
    while k < n
        invariant
            k <= n,
            zeros@.len() == k,
            forall|q: int| 0 <= q < k ==> #[trigger] zeros@[q] == 0,
        decreases n - k,
    {
        zeros.push(0);
        k = k + 1;
    }
    proof {
        assert(ints(zeros@) =~= beta(code, gsa, gpar, algo, len as nat));
    }
    let mut betas: Vec<Vec<i64>> = Vec::new();
    betas.push(zeros);
    let mut j: usize = 0;
    while j < len
        invariant
            code == trellis.code(),
            trellis.wf(),
            n == trellis.num_states,
            len == sa@.len(),
            par@.len() == len,
            all_in_bounds(sa@),
            all_in_bounds(par@),
            gsa == ints(sa@),
            gpar == ints(par@),
            j <= len,
            betas@.len() == j + 1,
            forall|q: int|
                0 <= q <= j ==> (#[trigger] betas@[q])@.len() == n && all_in_bounds(betas@[q]@) && ints(betas@[q]@)
                    == beta(code, gsa, gpar, algo, (len - q) as nat),
        decreases len - j,
    {
        let row = backward_row(trellis, sa, par, algo, &betas[j], len - 1 - j);
        betas.push(row);
        j = j + 1;
    }
    let mut out: Vec<i64> = Vec::new();
    let mut t: usize = 0;
    while t < len
        invariant
            code == trellis.code(),
            trellis.wf(),
            n == trellis.num_states,
            len == sa@.len(),
            par@.len() == len,
            all_in_bounds(par@),
            gsa == ints(sa@),
            gpar == ints(par@),
            t <= len,
            alphas@.len() == len + 1,
            betas@.len() == len + 1,
            forall|q: int|
                0 <= q <= len ==> (#[trigger] alphas@[q])@.len() == n && all_in_bounds(alphas@[q]@) && ints(alphas@[q]@)
                    == alpha(code, gsa, gpar, algo, q as nat),
            forall|q: int|
                0 <= q <= len ==> (#[trigger] betas@[q])@.len() == n && all_in_bounds(betas@[q]@) && ints(betas@[q]@)
                    == beta(code, gsa, gpar, algo, (len - q) as nat),
            out@.len() == t,
            all_in_bounds(out@),
            forall|q: int| 0 <= q < t ==> #[trigger] ints(out@)[q] == extrinsic(code, gsa, gpar, algo)[q],
        decreases len - t,
    {
        let ghost bq = (len - 1 - t) as int;
        assert(ints(betas@[bq]@) == beta(code, gsa, gpar, algo, (t + 1) as nat));
        let m0 = class_metric(trellis, par, algo, &alphas[t], &betas[len - 1 - t], t, false);
        let m1 = class_metric(trellis, par, algo, &alphas[t], &betas[len - 1 - t], t, true);
        let e = clamp_metric(halve(m0 - m1));
        let ghost before = out@;
        out.push(e);
        proof {
            assert forall|q: int| 0 <= q < t + 1 implies #[trigger] ints(out@)[q] == extrinsic(code, gsa, gpar, algo)[q] by {
                if q < t {
                    assert(out@[q] == before[q]);
                    assert(ints(before)[q] == extrinsic(code, gsa, gpar, algo)[q]);
                }
            }
            assert forall|i: int| 0 <= i < out@.len() implies #[trigger] in_bounds(out@[i] as int) by {
                if i < t {
                    assert(out@[i] == before[i]);
                }
            }
        }
        t = t + 1;
    }
    proof {
        assert(ints(out@) =~= extrinsic(code, gsa, gpar, algo));
    }
    out
}

/// LLRs at offset `j` of each triple of `llrs`.
pub open spec fn stream(llrs: Seq<i32>, j: int) -> Seq<int> {
    Seq::new(llrs.len() / 3, |i: int| llrs[3 * i + j] as int)
}

/// Element-wise sum of `a` and `b`, held within the metric bound.
pub open spec fn add_clamped(a: Seq<int>, b: Seq<int>) -> Seq<int> {
    Seq::new(a.len(), |i: int| clamp(a[i] + b[i]))
}

/// One turbo iteration from the a-priori LLRs `la` of the first decoder,
/// with the systematic stream `sys` and the parity streams `first` and
/// `second`: the a-priori LLRs of the next iteration and the a-posteriori
/// LLRs of the second decoder, in interleaved order.
pub open spec fn iteration(
    code: (nat, nat),
    il: Interleaver,
    sys: Seq<int>,
    first: Seq<int>,
    second: Seq<int>,
    algo: DecodingAlgo,
    la: Seq<int>,
) -> (Seq<int>, Seq<int>) {
    let ea = extrinsic(code, add_clamped(sys, la), first, algo);
    let sb = add_clamped(il.interleave_seq(sys), il.interleave_seq(ea));
    let eb = extrinsic(code, sb, second, algo);
    (il.deinterleave_seq(eb), add_clamped(eb, sb))
}

/// One turbo iteration on the streams of the codeword LLRs `llrs`.
pub open spec fn llr_iteration(
    code: (nat, nat),
    il: Interleaver,
    llrs: Seq<i32>,
    algo: DecodingAlgo,
    la: Seq<int>,
) -> (Seq<int>, Seq<int>) {
    iteration(code, il, stream(llrs, 0), stream(llrs, 1), stream(llrs, 2), algo, la)
}

/// A-priori LLRs of the first decoder after `k` iterations, all zero at
/// the start.
pub open spec fn apriori_after(code: (nat, nat), il: Interleaver, llrs: Seq<i32>, algo: DecodingAlgo, k: nat) -> Seq<int>
    decreases k,
{
    if k == 0 {
        Seq::new(llrs.len() / 3, |i: int| 0)
    } else {
        llr_iteration(code, il, llrs, algo, apriori_after(code, il, llrs, algo, (k - 1) as nat)).0
    }
}

/// The bits that the turbo decoder decides for: the a-posteriori LLRs of
/// the second decoder in the last iteration, put back in natural order and
/// decided bit by bit.
pub open spec fn decoded(code: (nat, nat), il: Interleaver, llrs: Seq<i32>, algo: DecodingAlgo) -> Seq<Bit> {
    let last = llr_iteration(code, il, llrs, algo, apriori_after(code, il, llrs, algo, (algo.iterations() - 1) as nat));
    let posterior = il.deinterleave_seq(last.1);
    Seq::new(posterior.len(), |i: int| hard_decision_spec(posterior[i]))
}

proof fn lemma_interleave_ints(il: Interleaver, v: Seq<i64>)
    requires
        il.wf(),
        v.len() == il.length,
    ensures
        ints(il.interleave_seq(v)) == il.interleave_seq(ints(v)),
        ints(il.deinterleave_seq(v)) == il.deinterleave_seq(ints(v)),
        all_in_bounds(v) ==> all_in_bounds(il.interleave_seq(v)) && all_in_bounds(il.deinterleave_seq(v)),
{
    assert(ints(il.interleave_seq(v)) =~= il.interleave_seq(ints(v)));
    assert(ints(il.deinterleave_seq(v)) =~= il.deinterleave_seq(ints(v)));
    if all_in_bounds(v) {
        assert forall|i: int| 0 <= i < il.length implies #[trigger] in_bounds(il.interleave_seq(v)[i] as int) by {
            assert(in_bounds(v[il.perm@[i] as int] as int));
        }
        assert forall|i: int| 0 <= i < il.length implies #[trigger] in_bounds(il.deinterleave_seq(v)[i] as int) by {
            assert(in_bounds(v[il.inverse@[i] as int] as int));
        }
    }
}

/// Element-wise sum of two LLR vectors, held within the metric bound.
fn add_llrs(a: &Vec<i64>, b: &Vec<i64>) -> (r: Vec<i64>)
    requires
        a@.len() == b@.len(),
        all_in_bounds(a@),
        all_in_bounds(b@),
    ensures
        ints(r@) == add_clamped(ints(a@), ints(b@)),
        r@.len() == a@.len(),
        all_in_bounds(r@),
{
    let mut out: Vec<i64> = Vec::new();
    let mut i: usize = 0;
    while i < a.len()
        invariant
            a@.len() == b@.len(),
            all_in_bounds(a@),
            all_in_bounds(b@),
            i <= a@.len(),
            out@.len() == i,
            all_in_bounds(out@),
            forall|q: int| 0 <= q < i ==> #[trigger] out@[q] as int == clamp(a@[q] + b@[q]),
        decreases a@.len() - i,
    {
        assert(in_bounds(a@[i as int] as int));
        assert(in_bounds(b@[i as int] as int));
        let v = clamp_metric(a[i] + b[i]);
        let ghost before = out@;
        out.push(v);
        proof {
            assert forall|q: int| 0 <= q < i + 1 implies #[trigger] out@[q] as int == clamp(a@[q] + b@[q]) by {
                if q < i {
                    assert(out@[q] == before[q]);
                }
            }
            assert forall|q: int| 0 <= q < out@.len() implies #[trigger] in_bounds(out@[q] as int) by {
                if q < i {
                    assert(out@[q] == before[q]);
                }
            }
        }
        i = i + 1;
    }
    proof {
        assert(ints(out@) =~= add_clamped(ints(a@), ints(b@)));
    }
    out
}

/// The LLRs at offset `j` of each triple of `llrs`.
fn split_stream(llrs: &[i32], j: usize) -> (r: Vec<i64>)
    requires
        j < 3,
    ensures
        ints(r@) == stream(llrs@, j as int),
        all_in_bounds(r@),
        r@.len() == llrs@.len() / 3,
{
    let len = llrs.len();
    let n = len / 3;
    let mut out: Vec<i64> = Vec::new();
    let mut i: usize = 0;
    while i < n
        invariant
            len == llrs@.len(),
            n == llrs@.len() / 3,
            j < 3,
            i <= n,
            out@.len() == i,
            all_in_bounds(out@),
            forall|q: int| 0 <= q < i ==> #[trigger] out@[q] as int == llrs@[3 * q + j] as int,
        decreases n - i,
    {
        assert(3 * i + j < llrs@.len()) by (nonlinear_arith)
            requires
                i < n,
                n == llrs@.len() / 3,
                j < 3,
        {
            assert(3 * n <= llrs@.len());
        }
        assert(3 * i + j < len);
        let v = llrs[3 * i + j] as i64;
        let ghost before = out@;
        out.push(v);
        proof {
            assert forall|q: int| 0 <= q < i + 1 implies #[trigger] out@[q] as int == llrs@[3 * q + j] as int by {
                if q < i {
                    assert(out@[q] == before[q]);
                }
            }
            assert forall|q: int| 0 <= q < out@.len() implies #[trigger] in_bounds(out@[q] as int) by {
                if q < i {
                    assert(out@[q] == before[q]);
                }
            }
        }
        i = i + 1;
    }
    proof {
        assert(ints(out@) =~= stream(llrs@, j as int));
    }
    out
}

/// One turbo iteration: the a-priori LLRs of the next iteration and the
/// a-posteriori LLRs of the second decoder.
fn turbo_iteration(
    trellis: &Trellis,
    interleaver: &Interleaver,
    sys: &Vec<i64>,
    sys_interleaved: &Vec<i64>,
    first_parity: &Vec<i64>,
    second_parity: &Vec<i64>,
    apriori: &Vec<i64>,
    algo: DecodingAlgo,
) -> (r: (Vec<i64>, Vec<i64>))
    requires
        trellis.wf(),
        interleaver.wf(),
        sys@.len() == interleaver.length,
        sys_interleaved@.len() == interleaver.length,
        first_parity@.len() == interleaver.length,
        second_parity@.len() == interleaver.length,
        apriori@.len() == interleaver.length,
        all_in_bounds(sys@),
        all_in_bounds(sys_interleaved@),
        all_in_bounds(first_parity@),
        all_in_bounds(second_parity@),
        all_in_bounds(apriori@),
        ints(sys_interleaved@) == interleaver.interleave_seq(ints(sys@)),
    ensures
        (ints(r.0@), ints(r.1@)) == iteration(
            trellis.code(),
            *interleaver,
            ints(sys@),
            ints(first_parity@),
            ints(second_parity@),
            algo,
            ints(apriori@),
        ),
        r.0@.len() == interleaver.length,
        r.1@.len() == interleaver.length,
        all_in_bounds(r.0@),
        all_in_bounds(r.1@),
{
    let sa = add_llrs(sys, apriori);
    let ea = constituent_extrinsic(trellis, &sa, first_parity, algo);
    proof {
        lemma_interleave_ints(*interleaver, ea@);
    }
    let ea_interleaved = interleave_llrs(interleaver, &ea);
    let sb = add_llrs(sys_interleaved, &ea_interleaved);
    let eb = constituent_extrinsic(trellis, &sb, second_parity, algo);
    proof {
        lemma_interleave_ints(*interleaver, eb@);
    }
    let post = add_llrs(&eb, &sb);
    let next = deinterleave_llrs(interleaver, &eb);
    (next, post)
}

fn interleave_llrs(interleaver: &Interleaver, v: &Vec<i64>) -> (r: Vec<i64>)
    requires
        interleaver.wf(),
        v@.len() == interleaver.length,
    ensures
        r@ == interleaver.interleave_seq(v@),
        r@.len() == interleaver.length,
{
    match interleaver.interleave(v.as_slice()) {
        Ok(w) => w,
        Err(_) => Vec::new(),
    }
}

fn deinterleave_llrs(interleaver: &Interleaver, v: &Vec<i64>) -> (r: Vec<i64>)
    requires
        interleaver.wf(),
        v@.len() == interleaver.length,
    ensures
        r@ == interleaver.deinterleave_seq(v@),
        r@.len() == interleaver.length,
{
    match interleaver.deinterleave(v.as_slice()) {
        Ok(w) => w,
        Err(_) => Vec::new(),
    }
}

/// Decodes the channel LLRs of a codeword (for each position the systematic,
/// first parity and second parity LLR, in that order) by iterative turbo
/// decoding, with feedback polynomial `code_polynomials[0]` and feedforward
/// polynomial `code_polynomials[1]`. The result is `decoded`.
///
/// Fails with `InvalidInput` if the LLRs are not three per interleaver
/// position, if the polynomials are not two valid ones, or if the algorithm
/// asks for no iteration.
pub fn decoder(
    code_bits_llr: &[i32],
    interleaver: &Interleaver,
    code_polynomials: &[usize],
    decoding_algo: DecodingAlgo,
) -> (r: Result<Vec<Bit>, Error>)
    requires
        interleaver.wf(),
    ensures
        r matches Err(e) ==> e is InvalidInput,
        r is Ok <==> (code_bits_llr@.len() == 3 * interleaver.length && code_polynomials@.len() == 2
            && polynomials_valid(code_polynomials@[0] as nat, code_polynomials@[1] as nat)
            && decoding_algo.iterations() >= 1),
        r matches Ok(v) ==> v@ == decoded(
            (code_polynomials@[0] as nat, code_polynomials@[1] as nat),
            *interleaver,
            code_bits_llr@,
            decoding_algo,
        ) && v@.len() == interleaver.length,
{
    let n = interleaver.length;
    if code_bits_llr.len() % 3 != 0 || code_bits_llr.len() / 3 != n {
        return Err(Error::InvalidInput(String::from_str("expected three LLRs per interleaver position")));
    }
    let iterations = decoding_algo.num_iterations();
    if iterations == 0 {
        return Err(Error::InvalidInput(String::from_str("at least one decoding iteration is needed")));
    }
    let trellis = match Trellis::new(code_polynomials) {
        Ok(t) => t,
        Err(e) => return Err(e),
    };
    let ghost code = trellis.code();
    let ghost llrs = code_bits_llr@;
    let sys = split_stream(code_bits_llr, 0);
    let first_parity = split_stream(code_bits_llr, 1);
    let second_parity = split_stream(code_bits_llr, 2);
    let sys_interleaved = match interleaver.interleave(sys.as_slice()) {
        Ok(v) => v,
        Err(e) => return Err(e),
    };
    proof {
        lemma_interleave_ints(*interleaver, sys@);
    }
    let mut apriori: Vec<i64> = Vec::new();
    let mut i: usize = 0;
    while i < n
        invariant
            i <= n,
            apriori@.len() == i,
            forall|q: int| 0 <= q < i ==> #[trigger] apriori@[q] == 0,
        decreases n - i,
    {
        apriori.push(0);
        i = i + 1;
    }
    proof {
        assert(ints(apriori@) =~= apriori_after(code, *interleaver, llrs, decoding_algo, 0));
    }
    let mut posterior: Vec<i64> = Vec::new();
    let mut k: u32 = 0;
    while k < iterations
        invariant
            trellis.wf(),
            interleaver.wf(),
            n == interleaver.length,
            code == trellis.code(),
            llrs == code_bits_llr@,
            iterations == decoding_algo.iterations(),
            k <= iterations,
            sys@.len() == n,
            first_parity@.len() == n,
            second_parity@.len() == n,
            sys_interleaved@.len() == n,
            all_in_bounds(sys@),
            all_in_bounds(first_parity@),
            all_in_bounds(second_parity@),
            all_in_bounds(sys_interleaved@),
            ints(sys@) == stream(llrs, 0),
            ints(first_parity@) == stream(llrs, 1),
            ints(second_parity@) == stream(llrs, 2),
            ints(sys_interleaved@) == interleaver.interleave_seq(stream(llrs, 0)),
            apriori@.len() == n,
            all_in_bounds(apriori@),
            ints(apriori@) == apriori_after(code, *interleaver, llrs, decoding_algo, k as nat),
            posterior@.len() == if k == 0 { 0 } else { n as int },
            all_in_bounds(posterior@),
            k >= 1 ==> ints(posterior@) == llr_iteration(
                code,
                *interleaver,
                llrs,
                decoding_algo,
                apriori_after(code, *interleaver, llrs, decoding_algo, (k - 1) as nat),
            ).1,
        decreases iterations - k,
    {
        let ghost la = ints(apriori@);
        let (next, post) = turbo_iteration(
            &trellis,
            interleaver,
            &sys,
            &sys_interleaved,
            &first_parity,
            &second_parity,
            &apriori,
            decoding_algo,
        );
        apriori = next;
        posterior = post;
        k = k + 1;
    }
    let natural = match interleaver.deinterleave(posterior.as_slice()) {
        Ok(v) => v,
        Err(e) => return Err(e),
    };
    proof {
        lemma_interleave_ints(*interleaver, posterior@);
    }
    let ghost target = decoded(code, *interleaver, llrs, decoding_algo);
    let mut bits: Vec<Bit> = Vec::new();
    let mut i: usize = 0;
    while i < n
        invariant
            n == interleaver.length,
            natural@.len() == n,
            i <= n,
            bits@.len() == i,
            target.len() == n,
            forall|q: int| 0 <= q < n ==> #[trigger] target[q] == hard_decision_spec(natural@[q] as int),
            forall|q: int| 0 <= q < i ==> #[trigger] bits@[q] == target[q],
        decreases n - i,
    {
        let b = hard_decision(natural[i]);
        let ghost before = bits@;
        bits.push(b);
        proof {
            assert forall|q: int| 0 <= q < i + 1 implies #[trigger] bits@[q] == target[q] by {
                if q < i {
                    assert(bits@[q] == before[q]);
                }
            }
        }
        i = i + 1;
    }
    proof {
        assert(bits@ =~= target);
    }
    Ok(bits)
}

/// The LLRs of a slice of `i32`, widened.
fn widen(v: &[i32]) -> (r: Vec<i64>)
    ensures
        ints(r@) == Seq::new(v@.len(), |i: int| v@[i] as int),
        r@.len() == v@.len(),
        all_in_bounds(r@),
{
    let mut out: Vec<i64> = Vec::new();
    let mut i: usize = 0;
    while i < v.len()
        invariant
            i <= v@.len(),
            out@.len() == i,
            forall|q: int| 0 <= q < i ==> #[trigger] out@[q] as int == v@[q] as int,
        decreases v@.len() - i,
    {
        out.push(v[i] as i64);
        i = i + 1;
    }
    proof {
        assert(ints(out@) =~= Seq::new(v@.len(), |i: int| v@[i] as int));
        assert forall|q: int| 0 <= q < out@.len() implies #[trigger] in_bounds(out@[q] as int) by {
            assert(out@[q] as int == v@[q] as int);
        }
    }
    out
}

/// One constituent decoder on the systematic channel LLRs `sys`, the
/// parity channel LLRs `par` and the a-priori LLRs `apriori`: the
/// a-posteriori LLRs and the extrinsic LLRs, in that order.
///
/// Fails with `InvalidInput` if the three inputs differ in length.
pub fn constituent_decode(
    trellis: &Trellis,
    sys: &[i32],
    par: &[i32],
    apriori: &[i32],
    algo: DecodingAlgo,
) -> (r: Result<(Vec<i64>, Vec<i64>), Error>)
    requires
        trellis.wf(),
    ensures
        r matches Err(e) ==> e is InvalidInput,
        r is Ok <==> (sys@.len() == par@.len() && sys@.len() == apriori@.len()),
        r matches Ok(out) ==> {
            let sa = add_clamped(
                Seq::new(sys@.len(), |i: int| sys@[i] as int),
                Seq::new(apriori@.len(), |i: int| apriori@[i] as int),
            );
            let ext = extrinsic(trellis.code(), sa, Seq::new(par@.len(), |i: int| par@[i] as int), algo);
            &&& ints(out.1@) == ext
            &&& ints(out.0@) == add_clamped(ext, sa)
        },
{
    if sys.len() != par.len() || sys.len() != apriori.len() {
        return Err(Error::InvalidInput(String::from_str("LLR sequences differ in length")));
    }
    let s = widen(sys);
    let p = widen(par);
    let a = widen(apriori);
    let sa = add_llrs(&s, &a);
    let ext = constituent_extrinsic(trellis, &sa, &p, algo);
    let post = add_llrs(&ext, &sa);
    Ok((post, ext))
}

} // verus!
