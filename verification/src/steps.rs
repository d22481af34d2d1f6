//! Stepping through a range: which values a walk from one end towards the
//! other lands on, and how many.
use vstd::prelude::*;
use vstd::arithmetic::div_mod::{
    lemma_basic_div, lemma_div_plus_one, lemma_fundamental_div_mod,
    lemma_fundamental_div_mod_converse_div, lemma_mod_pos_bound,
};
use crate::axis::{lemma_position_of_step, position};

verus! {

/// How many of `from`, `from + step`, `from + 2 * step`, ... lie between
/// `from` and `last`, both included. None do when the step is zero or leads
/// away from `last`.
pub open spec fn step_count(from: int, last: int, step: int) -> nat {
    if step > 0 && from <= last {
        ((last - from) / step + 1) as nat
    } else if step < 0 && from >= last {
        ((from - last) / (-step) + 1) as nat
    } else {
        0
    }
}

/// The values `from`, `from + step`, ... up to and including `last` at most.
pub open spec fn stepped(from: int, last: int, step: int) -> Seq<int> {
    Seq::new(step_count(from, last, step), |k: int| from + k * step)
}

/// Stepping towards `last` from a value that has not passed it yields that
/// value first and then whatever stepping from the next value yields.
pub proof fn lemma_stepped_first(from: int, last: int, step: int)
    requires
        (step > 0 && from <= last) || (step < 0 && from >= last),
    ensures
        stepped(from, last, step) =~= seq![from] + stepped(from + step, last, step),
{
    let rest = stepped(from + step, last, step);
    if step > 0 {
        if from + step <= last {
            lemma_div_plus_one(last - from - step, step);
        } else {
            lemma_basic_div(last - from, step);
        }
    } else {
        if from + step >= last {
            lemma_div_plus_one(from + step - last, -step);
        } else {
            lemma_basic_div(from - last, -step);
        }
    }
    let all = stepped(from, last, step);
    let joined = seq![from] + rest;
    assert(all.len() == rest.len() + 1);
    assert forall|k: int| 0 <= k < all.len() implies all[k] == joined[k] by {
        if k > 0 {
            assert(joined[k] == rest[k - 1]);
            assert(k * step == (k - 1) * step + step) by (nonlinear_arith);
        } else {
            assert(0 * step == 0) by (nonlinear_arith);
        }
    }
}

/// Every value that stepping yields is a whole number of steps from `from`
/// and lies between `from` and `last`; the next step after the last of them
/// would pass `last`.
pub proof fn lemma_stepped_within(from: int, last: int, step: int, k: int)
    requires
        0 <= k < stepped(from, last, step).len(),
    ensures
        stepped(from, last, step)[k] == from + k * step,
        step > 0 ==> from <= from + k * step <= last,
        step < 0 ==> last <= from + k * step <= from,
        step > 0 ==> from + stepped(from, last, step).len() * step > last,
        step < 0 ==> from + stepped(from, last, step).len() * step < last,
{
    let width = if step > 0 { last - from } else { from - last };
    let size = if step > 0 { step } else { -step };
    let whole = width / size;
    lemma_fundamental_div_mod(width, size);
    lemma_mod_pos_bound(width, size);
    assert(0 <= k * size <= whole * size && (whole + 1) * size == whole * size + size
        && size * whole == whole * size) by (nonlinear_arith)
        requires
            0 <= k <= whole,
            0 < size,
    ;
    if step < 0 {
        assert(k * step == -(k * size) && (whole + 1) * step == -((whole + 1) * size))
            by (nonlinear_arith)
            requires
                size == -step,
        ;
    }
}

/// Stepping yields `n` values exactly when the last of `n` steps has not
/// passed `last` and one step more would.
pub proof fn lemma_step_count(from: int, last: int, step: int, n: int)
    requires
        n >= 1,
        step != 0,
        step > 0 ==> from + (n - 1) * step <= last < from + n * step,
        step < 0 ==> from + (n - 1) * step >= last > from + n * step,
    ensures
        stepped(from, last, step).len() == n,
{
    let width = if step > 0 { last - from } else { from - last };
    let size = if step > 0 { step } else { -step };
    if step < 0 {
        assert((n - 1) * step == -((n - 1) * size) && n * step == -(n * size))
            by (nonlinear_arith)
            requires
                size == -step,
        ;
    }
    assert(n * size == (n - 1) * size + size && (n - 1) * size >= 0) by (nonlinear_arith)
        requires
            n >= 1,
            size > 0,
    ;
    lemma_fundamental_div_mod_converse_div(width, size, n - 1, width - (n - 1) * size);
}

/// Where `n` steps lead from `from` exactly to `last`, stepping yields
/// `n + 1` values, the last of them `last`, and each sits at its share of
/// the axis from `from` to `last`: the value after `k` steps at `k / n`.
pub proof fn lemma_even_steps(from: int, last: int, step: int, n: int)
    requires
        n >= 1,
        step != 0,
        last - from == n * step,
    ensures
        stepped(from, last, step).len() == n + 1,
        forall|k: int|
            0 <= k <= n ==> #[trigger] stepped(from, last, step)[k] == from + k * step && position(
                from,
                last,
                from + k * step,
            ) == k as real / n as real,
{
    assert((n + 1) * step == n * step + step) by (nonlinear_arith);
    lemma_step_count(from, last, step, n + 1);
    assert forall|k: int| 0 <= k <= n implies #[trigger] stepped(from, last, step)[k] == from + k
        * step && position(from, last, from + k * step) == k as real / n as real by {
        lemma_position_of_step(from, last, step, n, k);
    }
}

/// Nothing is yielded by a zero step, nor by a step that leads away from
/// `last`.
pub proof fn lemma_stepped_none(from: int, last: int, step: int)
    requires
        step == 0 || (step > 0 && from > last) || (step < 0 && from < last),
    ensures
        stepped(from, last, step) =~= Seq::<int>::empty(),
{
}

} // verus!
