//! Laws of the library that span several functions: what simulating
//! the standard counters yields, cycle after cycle, and the round trips
//! between pairs and their encodings.

use vstd::prelude::*;
use vstd::arithmetic::power2::{pow2, lemma_pow2_pos};
use vstd::arithmetic::div_mod::{lemma_add_mod_noop, lemma_sub_mod_noop, lemma_mod_bound, lemma_small_mod};

use crate::arith::{bits_val, val_bits, lemma_bits_val_push, lemma_bits_val_of_val_bits, lemma_val_bits_of_bits_val};
use crate::components::{accumulator_spec, count_spec, fill, full_adder_spec, half_adder_spec, one_bits, shift_register_spec,
    toggle_spec, w};
use crate::bits::Bits;
use crate::hw::{Hw, lemma_below_modulus};
use crate::ir::op::{BinOp, OpSpec};
use crate::ir::instr::InstrSpec;
use crate::ir::wire::{WireId, WireTy};
use crate::sim::interp::{EnvSpec, SimErr, apply_bin_spec, apply_op_spec, initial_env, interpret_spec, operands, run_instrs,
    step_spec, first_value, lookup, zip_bits};
use crate::sim::testbench::{chunks, concat_all, cycle_spec, expand, initial_storage, run_from, run_spec, split_spec,
    storages_of, total, widths_of, wire_storage_in};
use crate::sync::compose::wire_width_in;
use crate::sync::laws::lemma_operands_of_lookups;
use crate::sync::machine::SyncSpec;

verus! {

/// The counter value after `i` steps from `start`: up for `Add`, down
/// otherwise, modulo `2^n`.
pub open spec fn count_value(n: nat, op: BinOp, start: int, i: int) -> nat {
    (if op == BinOp::Add {
        start + i
    } else {
        start - i
    } % (pow2(n) as int)) as nat
}

proof fn lemma_bits_val_fill(b: bool, n: nat)
    ensures
        bits_val(fill(b, n)) == (if b { (pow2(n) - 1) as nat } else { 0 }),
    decreases n,
{
    if n == 0 {
        assert(fill(b, 0) =~= Seq::<bool>::empty());
        vstd::arithmetic::power2::lemma2_to64();
    } else {
        lemma_bits_val_fill(b, (n - 1) as nat);
        assert(fill(b, (n - 1) as nat).push(b) =~= fill(b, n));
        lemma_bits_val_push(fill(b, (n - 1) as nat), b);
        vstd::arithmetic::power2::lemma_pow2_unfold(n);
        lemma_pow2_pos((n - 1) as nat);
    }
}

proof fn lemma_bits_val_one(n: nat)
    requires
        n >= 1,
    ensures
        bits_val(one_bits(n)) == 1,
    decreases n,
{
    if n == 1 {
        assert(one_bits(1) =~= Seq::<bool>::empty().push(true));
        lemma_bits_val_push(Seq::<bool>::empty(), true);
        vstd::arithmetic::power2::lemma2_to64();
    } else {
        lemma_bits_val_one((n - 1) as nat);
        assert(one_bits((n - 1) as nat).push(false) =~= one_bits(n));
        lemma_bits_val_push(one_bits((n - 1) as nat), false);
    }
}

proof fn lemma_concat_one(x: Seq<bool>)
    ensures
        concat_all(seq![x]) == x,
{
    reveal_with_fuel(concat_all, 2);
    assert(seq![x].drop_last() =~= Seq::<Seq<bool>>::empty());
    assert(Seq::<bool>::empty() + x =~= x);
}

proof fn lemma_split_one(x: Seq<bool>)
    ensures
        split_spec(x, seq![x.len()]) == Ok::<Seq<Seq<bool>>, SimErr>(seq![x]),
{
    reveal_with_fuel(total, 2);
    let ws = seq![x.len()];
    assert(ws.take(0) =~= Seq::<nat>::empty());
    assert(ws.take(1) =~= ws);
    assert(ws.drop_last() =~= Seq::<nat>::empty());
    assert(total(ws) == x.len());
    assert(chunks(x, ws) =~= seq![x]) by {
        assert(chunks(x, ws)[0] == x.subrange(0, x.len() as int));
        assert(x.subrange(0, x.len() as int) =~= x);
    }
}

/// One cycle of a counter from state value `v` with no data input:
/// the output is `v`, the next state `v` stepped by one.
proof fn lemma_count_cycle(n: nat, op: BinOp, init: bool, v: nat, x: Seq<bool>)
    requires
        1 <= n <= 128,
        v < pow2(n),
        x.len() == 0,
        op == BinOp::Add || op == BinOp::Sub,
    ensures
        cycle_spec(count_spec(n, op, init), val_bits(v, n), x) == Ok::<(Seq<bool>, Seq<bool>), SimErr>(
            (val_bits(v, n), val_bits(count_value(n, op, v as int, 1), n)),
        ),
{
    reveal_with_fuel(run_instrs, 3);
    reveal_with_fuel(operands, 3);
    let m = count_spec(n, op, init);
    let g = m.graph;
    let t = WireTy::Bits(n as u32);
    let s = val_bits(v, n);
    let one = one_bits(n);
    lemma_pow2_pos(n);
    // Split the state and the (empty) input.
    assert(m.inputs.take(1) =~= seq![w(0)]);
    assert(m.inputs.skip(1) =~= Seq::<crate::ir::wire::WireId>::empty());
    assert(wire_storage_in(g, w(0)) == n);
    assert(storages_of(g, seq![w(0)]) =~= seq![n]);
    lemma_split_one(s);
    assert(s.len() == n);
    assert(widths_of(g, Seq::<crate::ir::wire::WireId>::empty()) =~= Seq::<nat>::empty());
    assert(total(Seq::<nat>::empty()) == 0);
    assert(chunks(x, Seq::<nat>::empty()) =~= Seq::<Seq<bool>>::empty());
    assert(split_spec(x, Seq::<nat>::empty()) == Ok::<Seq<Seq<bool>>, SimErr>(Seq::<Seq<bool>>::empty()));
    assert(seq![s] + Seq::<Seq<bool>>::empty() =~= seq![s]);
    // Interpret the two instructions.
    let env0 = initial_env(3, m.inputs, seq![s]);
    assert(env0 =~= seq![Some(s), None, None]) by {
        assert(first_value(m.inputs, seq![s], 0) == Some(s));
        assert(m.inputs.drop_first() =~= Seq::<crate::ir::wire::WireId>::empty());
        assert(first_value(m.inputs, seq![s], 1) == first_value(
            Seq::<crate::ir::wire::WireId>::empty(),
            seq![s].drop_first(),
            1,
        ));
        assert(first_value(m.inputs, seq![s], 2) == first_value(
            Seq::<crate::ir::wire::WireId>::empty(),
            seq![s].drop_first(),
            2,
        ));
    }
    let i0 = g.instrs[0];
    let i1 = g.instrs[1];
    assert(g.instrs.drop_last() =~= seq![i0]);
    assert(seq![i0].drop_last() =~= Seq::<crate::ir::instr::InstrSpec>::empty());
    assert(operands(env0, Seq::<crate::ir::wire::WireId>::empty()) == Ok::<Seq<Seq<bool>>, SimErr>(
        Seq::<Seq<bool>>::empty(),
    ));
    assert(apply_op_spec(i0.op, Seq::<Seq<bool>>::empty()) == Ok::<Seq<bool>, SimErr>(one));
    let env1 = env0.update(1, Some(one));
    assert(step_spec(env0, i0) == Ok::<Seq<Option<Seq<bool>>>, SimErr>(env1));
    assert(run_instrs(env0, seq![i0]) == Ok::<Seq<Option<Seq<bool>>>, SimErr>(env1));
    let ins1 = seq![w(0), w(1)];
    assert(ins1.drop_last() =~= seq![w(0)]);
    assert(seq![w(0)].drop_last() =~= Seq::<crate::ir::wire::WireId>::empty());
    assert(lookup(env1, w(0)) == Some(s));
    assert(lookup(env1, w(1)) == Some(one));
    assert(operands(env1, seq![w(0)]) == Ok::<Seq<Seq<bool>>, SimErr>(seq![s]));
    assert(seq![s].push(one) =~= seq![s, one]);
    assert(operands(env1, ins1) == Ok::<Seq<Seq<bool>>, SimErr>(seq![s, one]));
    // The adder / subtractor.
    lemma_bits_val_of_val_bits(v, n);
    lemma_small_mod(v, pow2(n));
    lemma_bits_val_one(n);
    let r = val_bits(count_value(n, op, v as int, 1), n);
    assert(apply_bin_spec(op, s, one) == Ok::<Seq<bool>, SimErr>(r));
    let env2 = env1.update(2, Some(r));
    assert(step_spec(env1, i1) == Ok::<Seq<Option<Seq<bool>>>, SimErr>(env2));
    assert(run_instrs(env0, g.instrs) == Ok::<Seq<Option<Seq<bool>>>, SimErr>(env2));
    assert(interpret_spec(g, m.inputs, seq![s]) == Ok::<Seq<Option<Seq<bool>>>, SimErr>(env2));
    // Read the outputs.
    assert(m.outputs.drop_last() =~= seq![w(2)]);
    assert(seq![w(2)].drop_last() =~= Seq::<crate::ir::wire::WireId>::empty());
    assert(lookup(env2, w(2)) == Some(r));
    assert(lookup(env2, w(0)) == Some(s));
    assert(seq![r].push(s) =~= seq![r, s]);
    assert(operands(env2, m.outputs) == Ok::<Seq<Seq<bool>>, SimErr>(seq![r, s]));
    assert(seq![r, s].skip(1) =~= seq![s]);
    assert(seq![r, s].take(1) =~= seq![r]);
    lemma_concat_one(s);
    lemma_concat_one(r);
}

/// Stepping the counter value once more.
proof fn lemma_count_value_step(n: nat, op: BinOp, start: int, i: int)
    requires
        n >= 1,
        op == BinOp::Add || op == BinOp::Sub,
    ensures
        count_value(n, op, count_value(n, op, start, i) as int, 1) == count_value(n, op, start, i + 1),
{
    lemma_pow2_pos(n);
    let m = pow2(n) as int;
    lemma_mod_bound(if op == BinOp::Add { start + i } else { start - i }, m);
    vstd::arithmetic::power2::lemma_pow2_strictly_increases(0, n);
    vstd::arithmetic::power2::lemma2_to64();
    lemma_small_mod(1, m as nat);
    if op == BinOp::Add {
        lemma_add_mod_noop(start + i, 1, m);
    } else {
        lemma_sub_mod_noop(start - i, 1, m);
    }
}

/// Running a counter with no data input from state value `v`: cycle
/// `i` outputs the value `i` steps on, and the state ends `len` steps
/// on.
proof fn lemma_count_run(n: nat, op: BinOp, init: bool, v: nat, xs: Seq<Seq<bool>>)
    requires
        1 <= n <= 128,
        v < pow2(n),
        op == BinOp::Add || op == BinOp::Sub,
        forall|i: int| 0 <= i < xs.len() ==> (#[trigger] xs[i]).len() == 0,
    ensures
        run_from(count_spec(n, op, init), val_bits(v, n), xs) == Ok::<(Seq<Seq<bool>>, Seq<bool>), SimErr>(
            (
                Seq::new(xs.len(), |i: int| val_bits(count_value(n, op, v as int, i), n)),
                val_bits(count_value(n, op, v as int, xs.len() as int), n),
            ),
        ),
    decreases xs.len(),
{
    lemma_pow2_pos(n);
    if xs.len() == 0 {
        lemma_small_mod(v, pow2(n));
        assert(Seq::new(0, |i: int| val_bits(count_value(n, op, v as int, i), n)) =~= Seq::<Seq<bool>>::empty());
    } else {
        let k = xs.len() - 1;
        lemma_count_run(n, op, init, v, xs.drop_last());
        let c = count_value(n, op, v as int, k);
        lemma_mod_bound(if op == BinOp::Add { v + k } else { v - k }, pow2(n) as int);
        assert(xs.last() == xs[k]);
        lemma_count_cycle(n, op, init, c, xs.last());
        lemma_count_value_step(n, op, v as int, k);
        assert(Seq::new(k as nat, |i: int| val_bits(count_value(n, op, v as int, i), n)).push(val_bits(c, n)) =~= Seq::new(
            xs.len(),
            |i: int| val_bits(count_value(n, op, v as int, i), n),
        ));
    }
}

/// The stored state at cycle 0 of a counter is its initial value.
proof fn lemma_count_initial(n: nat, op: BinOp, init: bool)
    requires
        1 <= n <= 128,
    ensures
        initial_storage(count_spec(n, op, init)) == fill(init, n),
{
    reveal_with_fuel(total, 2);
    reveal_with_fuel(concat_all, 2);
    let m = count_spec(n, op, init);
    let g = m.graph;
    assert(m.inputs.take(1) =~= seq![w(0)]);
    assert(wire_width_in(g, w(0)) == n);
    assert(widths_of(g, seq![w(0)]) =~= seq![n]);
    let ws = seq![n];
    assert(ws.take(0) =~= Seq::<nat>::empty());
    assert(ws.take(1) =~= ws);
    assert(ws.drop_last() =~= Seq::<nat>::empty());
    let f = fill(init, n);
    assert(chunks(f, ws) =~= seq![f]) by {
        assert(chunks(f, ws)[0] == f.subrange(0, n as int));
        assert(f.subrange(0, n as int) =~= f);
    }
    assert(expand(g, w(0), f) == f);
    let parts = Seq::new(1, |k: int| expand(g, seq![w(0)][k], seq![f][k]));
    assert(parts =~= seq![f]);
    lemma_concat_one(f);
}

/// Running a counter machine with no data input yields, at cycle `i`,
/// its initial value stepped `i` times (up for `Add`, down for `Sub`),
/// modulo `2^n`.
proof fn lemma_count_outputs(n: nat, op: BinOp, init: bool, xs: Seq<Seq<bool>>)
    requires
        1 <= n <= 128,
        op == BinOp::Add || op == BinOp::Sub,
        forall|i: int| 0 <= i < xs.len() ==> (#[trigger] xs[i]).len() == 0,
    ensures
        run_spec(count_spec(n, op, init), xs) == Ok::<Seq<Seq<bool>>, SimErr>(
            Seq::new(xs.len(), |i: int| val_bits(count_value(n, op, bits_val(fill(init, n)) as int, i), n)),
        ),
{
    reveal_with_fuel(total, 2);
    let m = count_spec(n, op, init);
    let f = fill(init, n);
    assert(m.inputs.take(1) =~= seq![w(0)]);
    assert(wire_width_in(m.graph, w(0)) == n);
    assert(widths_of(m.graph, seq![w(0)]) =~= seq![n]);
    assert(seq![n].drop_last() =~= Seq::<nat>::empty());
    lemma_count_initial(n, op, init);
    lemma_val_bits_of_bits_val(f);
    crate::arith::lemma_bits_val_bound(f);
    lemma_count_run(n, op, init, bits_val(f), xs);
}

/// An `n`-bit counter (`counter::<n>()`), simulated for any number of
/// cycles without data input, outputs `i mod 2^n` at cycle `i`.
pub proof fn lemma_counter_counts(n: nat, xs: Seq<Seq<bool>>)
    requires
        1 <= n <= 128,
        forall|i: int| 0 <= i < xs.len() ==> (#[trigger] xs[i]).len() == 0,
    ensures
        run_spec(count_spec(n, BinOp::Add, false), xs) == Ok::<Seq<Seq<bool>>, SimErr>(
            Seq::new(xs.len(), |i: int| val_bits((i % (pow2(n) as int)) as nat, n)),
        ),
{
    lemma_count_outputs(n, BinOp::Add, false, xs);
    lemma_bits_val_fill(false, n);
    assert(Seq::new(xs.len(), |i: int| val_bits(count_value(n, BinOp::Add, 0, i), n)) =~= Seq::new(
        xs.len(),
        |i: int| val_bits((i % (pow2(n) as int)) as nat, n),
    ));
}

/// An `n`-bit down-counter (`down_counter::<n>()`), simulated without
/// data input, outputs `(2^n - 1 - i) mod 2^n` at cycle `i`: it starts
/// at all ones and wraps below zero.
pub proof fn lemma_down_counter_counts(n: nat, xs: Seq<Seq<bool>>)
    requires
        1 <= n <= 128,
        forall|i: int| 0 <= i < xs.len() ==> (#[trigger] xs[i]).len() == 0,
    ensures
        run_spec(count_spec(n, BinOp::Sub, true), xs) == Ok::<Seq<Seq<bool>>, SimErr>(
            Seq::new(xs.len(), |i: int| val_bits(((pow2(n) - 1 - i) % (pow2(n) as int)) as nat, n)),
        ),
{
    lemma_count_outputs(n, BinOp::Sub, true, xs);
    lemma_bits_val_fill(true, n);
    lemma_pow2_pos(n);
    assert(Seq::new(xs.len(), |i: int| val_bits(count_value(n, BinOp::Sub, (pow2(n) - 1) as int, i), n)) =~= Seq::new(
        xs.len(),
        |i: int| val_bits(((pow2(n) - 1 - i) % (pow2(n) as int)) as nat, n),
    ));
}

/// The sum of the values of the first `k` inputs.
pub open spec fn input_sum(xs: Seq<Seq<bool>>, k: int) -> nat
    decreases k,
{
    if k <= 0 {
        0
    } else {
        input_sum(xs, k - 1) + bits_val(xs[k - 1])
    }
}

/// One accumulator cycle from state value `v` with input `x`: the
/// output and the next state are both `(v + x) mod 2^n`.
proof fn lemma_accumulator_cycle(n: nat, v: nat, x: Seq<bool>)
    requires
        1 <= n <= 128,
        v < pow2(n),
        x.len() == n,
    ensures
        ({
            let r = val_bits((v + bits_val(x)) % pow2(n), n);
            cycle_spec(accumulator_spec(n), val_bits(v, n), x) == Ok::<(Seq<bool>, Seq<bool>), SimErr>((r, r))
        }),
{
    reveal_with_fuel(run_instrs, 2);
    reveal_with_fuel(operands, 3);
    let m = accumulator_spec(n);
    let g = m.graph;
    let s = val_bits(v, n);
    lemma_pow2_pos(n);
    assert(m.inputs.take(1) =~= seq![w(0)]);
    assert(m.inputs.skip(1) =~= seq![w(1)]);
    assert(wire_storage_in(g, w(0)) == n);
    assert(storages_of(g, seq![w(0)]) =~= seq![n]);
    assert(wire_width_in(g, w(1)) == n);
    assert(widths_of(g, seq![w(1)]) =~= seq![n]);
    lemma_split_one(s);
    lemma_split_one(x);
    assert(seq![s] + seq![x] =~= seq![s, x]);
    let env0 = initial_env(3, m.inputs, seq![s, x]);
    assert(env0 =~= seq![Some(s), Some(x), None]) by {
        let t = m.inputs.drop_first();
        assert(t =~= seq![w(1)]);
        assert(seq![s, x].drop_first() =~= seq![x]);
        assert(t.drop_first() =~= Seq::<crate::ir::wire::WireId>::empty());
        assert(first_value(m.inputs, seq![s, x], 0) == Some(s));
        assert(first_value(m.inputs, seq![s, x], 1) == first_value(t, seq![x], 1));
        assert(first_value(t, seq![x], 1) == Some(x));
        assert(first_value(m.inputs, seq![s, x], 2) == first_value(t, seq![x], 2));
        assert(first_value(t, seq![x], 2) == first_value(
            Seq::<crate::ir::wire::WireId>::empty(),
            seq![x].drop_first(),
            2,
        ));
    }
    let i0 = g.instrs[0];
    assert(g.instrs.drop_last() =~= Seq::<crate::ir::instr::InstrSpec>::empty());
    let ins0 = seq![w(0), w(1)];
    assert(ins0.drop_last() =~= seq![w(0)]);
    assert(seq![w(0)].drop_last() =~= Seq::<crate::ir::wire::WireId>::empty());
    assert(lookup(env0, w(0)) == Some(s));
    assert(lookup(env0, w(1)) == Some(x));
    assert(seq![s].push(x) =~= seq![s, x]);
    assert(operands(env0, ins0) == Ok::<Seq<Seq<bool>>, SimErr>(seq![s, x]));
    lemma_bits_val_of_val_bits(v, n);
    lemma_small_mod(v, pow2(n));
    let r = val_bits((v + bits_val(x)) % pow2(n), n);
    assert(apply_bin_spec(BinOp::Add, s, x) == Ok::<Seq<bool>, SimErr>(r));
    let env1 = env0.update(2, Some(r));
    assert(step_spec(env0, i0) == Ok::<Seq<Option<Seq<bool>>>, SimErr>(env1));
    assert(run_instrs(env0, g.instrs) == Ok::<Seq<Option<Seq<bool>>>, SimErr>(env1));
    assert(m.outputs.drop_last() =~= seq![w(2)]);
    assert(seq![w(2)].drop_last() =~= Seq::<crate::ir::wire::WireId>::empty());
    assert(lookup(env1, w(2)) == Some(r));
    assert(seq![r].push(r) =~= seq![r, r]);
    assert(operands(env1, m.outputs) == Ok::<Seq<Seq<bool>>, SimErr>(seq![r, r]));
    assert(seq![r, r].skip(1) =~= seq![r]);
    assert(seq![r, r].take(1) =~= seq![r]);
    lemma_concat_one(r);
}

proof fn lemma_accumulator_run(n: nat, xs: Seq<Seq<bool>>)
    requires
        1 <= n <= 128,
        forall|i: int| 0 <= i < xs.len() ==> (#[trigger] xs[i]).len() == n,
    ensures
        run_from(accumulator_spec(n), val_bits(0, n), xs) == Ok::<(Seq<Seq<bool>>, Seq<bool>), SimErr>(
            (
                Seq::new(xs.len(), |i: int| val_bits(input_sum(xs, i + 1) % pow2(n), n)),
                val_bits(input_sum(xs, xs.len() as int) % pow2(n), n),
            ),
        ),
    decreases xs.len(),
{
    lemma_pow2_pos(n);
    if xs.len() == 0 {
        lemma_small_mod(0, pow2(n));
        assert(Seq::new(0, |i: int| val_bits(input_sum(xs, i + 1) % pow2(n), n)) =~= Seq::<Seq<bool>>::empty());
    } else {
        let k = xs.len() - 1;
        let p = xs.drop_last();
        lemma_accumulator_run(n, p);
        assert forall|j: int| 0 <= j <= k implies #[trigger] input_sum(p, j) == input_sum(xs, j) by {
            lemma_input_sum_prefix(xs, j);
        }
        let v = input_sum(xs, k) % pow2(n);
        lemma_mod_bound(input_sum(xs, k) as int, pow2(n) as int);
        assert(xs.last() == xs[k]);
        lemma_accumulator_cycle(n, v, xs.last());
        lemma_add_mod_noop(input_sum(xs, k) as int, bits_val(xs[k]) as int, pow2(n) as int);
        crate::arith::lemma_bits_val_bound(xs[k]);
        lemma_small_mod(bits_val(xs[k]), pow2(n));
        assert(Seq::new(k as nat, |i: int| val_bits(input_sum(p, i + 1) % pow2(n), n)) =~= Seq::new(
            k as nat,
            |i: int| val_bits(input_sum(xs, i + 1) % pow2(n), n),
        ));
        assert(Seq::new(k as nat, |i: int| val_bits(input_sum(xs, i + 1) % pow2(n), n)).push(
            val_bits(input_sum(xs, k + 1) % pow2(n), n),
        ) =~= Seq::new(xs.len(), |i: int| val_bits(input_sum(xs, i + 1) % pow2(n), n)));
    }
}

proof fn lemma_input_sum_prefix(xs: Seq<Seq<bool>>, j: int)
    requires
        0 <= j < xs.len(),
    ensures
        input_sum(xs.drop_last(), j) == input_sum(xs, j),
    decreases j,
{
    if j > 0 {
        lemma_input_sum_prefix(xs, j - 1);
    }
}

/// An `n`-bit accumulator (`accumulator::<n>()`), simulated on `n`-bit
/// inputs, outputs at cycle `i` the sum of inputs `0..=i` modulo `2^n`.
pub proof fn lemma_accumulator_sums(n: nat, xs: Seq<Seq<bool>>)
    requires
        1 <= n <= 128,
        forall|i: int| 0 <= i < xs.len() ==> (#[trigger] xs[i]).len() == n,
    ensures
        run_spec(accumulator_spec(n), xs) == Ok::<Seq<Seq<bool>>, SimErr>(
            Seq::new(xs.len(), |i: int| val_bits(input_sum(xs, i + 1) % pow2(n), n)),
        ),
{
    reveal_with_fuel(total, 2);
    reveal_with_fuel(concat_all, 2);
    let m = accumulator_spec(n);
    let g = m.graph;
    assert(m.inputs.take(1) =~= seq![w(0)]);
    assert(wire_width_in(g, w(0)) == n);
    assert(widths_of(g, seq![w(0)]) =~= seq![n]);
    let ws = seq![n];
    assert(ws.take(0) =~= Seq::<nat>::empty());
    assert(ws.take(1) =~= ws);
    assert(ws.drop_last() =~= Seq::<nat>::empty());
    let f = fill(false, n);
    assert(chunks(f, ws) =~= seq![f]) by {
        assert(chunks(f, ws)[0] == f.subrange(0, n as int));
        assert(f.subrange(0, n as int) =~= f);
    }
    assert(expand(g, w(0), f) == f);
    let parts = Seq::new(1, |k: int| expand(g, seq![w(0)][k], seq![f][k]));
    assert(parts =~= seq![f]);
    lemma_concat_one(f);
    lemma_bits_val_fill(false, n);
    lemma_val_bits_of_bits_val(f);
    lemma_accumulator_run(n, xs);
}

proof fn lemma_toggle_cycle(b: bool, x: Seq<bool>)
    requires
        x.len() == 0,
    ensures
        cycle_spec(toggle_spec(), seq![b], x) == Ok::<(Seq<bool>, Seq<bool>), SimErr>((seq![b], seq![!b])),
{
    reveal_with_fuel(run_instrs, 2);
    reveal_with_fuel(operands, 3);
    let m = toggle_spec();
    let g = m.graph;
    let s = seq![b];
    assert(m.inputs.take(1) =~= seq![w(0)]);
    assert(m.inputs.skip(1) =~= Seq::<crate::ir::wire::WireId>::empty());
    assert(wire_storage_in(g, w(0)) == 1);
    assert(storages_of(g, seq![w(0)]) =~= seq![1nat]);
    lemma_split_one(s);
    assert(widths_of(g, Seq::<crate::ir::wire::WireId>::empty()) =~= Seq::<nat>::empty());
    assert(chunks(x, Seq::<nat>::empty()) =~= Seq::<Seq<bool>>::empty());
    assert(seq![s] + Seq::<Seq<bool>>::empty() =~= seq![s]);
    let env0 = initial_env(2, m.inputs, seq![s]);
    assert(env0 =~= seq![Some(s), None]) by {
        assert(first_value(m.inputs, seq![s], 0) == Some(s));
        assert(m.inputs.drop_first() =~= Seq::<crate::ir::wire::WireId>::empty());
        assert(first_value(m.inputs, seq![s], 1) == first_value(
            Seq::<crate::ir::wire::WireId>::empty(),
            seq![s].drop_first(),
            1,
        ));
    }
    let i0 = g.instrs[0];
    assert(g.instrs.drop_last() =~= Seq::<crate::ir::instr::InstrSpec>::empty());
    assert(seq![w(0)].drop_last() =~= Seq::<crate::ir::wire::WireId>::empty());
    assert(lookup(env0, w(0)) == Some(s));
    assert(operands(env0, seq![w(0)]) == Ok::<Seq<Seq<bool>>, SimErr>(seq![s]));
    let r = seq![!b];
    assert(apply_op_spec(OpSpec::Not, seq![s]) == Ok::<Seq<bool>, SimErr>(r)) by {
        assert(Seq::new(1, |i: int| !s[i]) =~= r);
    }
    let env1 = env0.update(1, Some(r));
    assert(step_spec(env0, i0) == Ok::<Seq<Option<Seq<bool>>>, SimErr>(env1));
    assert(run_instrs(env0, g.instrs) == Ok::<Seq<Option<Seq<bool>>>, SimErr>(env1));
    assert(m.outputs.drop_last() =~= seq![w(1)]);
    assert(seq![w(1)].drop_last() =~= Seq::<crate::ir::wire::WireId>::empty());
    assert(lookup(env1, w(1)) == Some(r));
    assert(lookup(env1, w(0)) == Some(s));
    assert(seq![r].push(s) =~= seq![r, s]);
    assert(operands(env1, m.outputs) == Ok::<Seq<Seq<bool>>, SimErr>(seq![r, s]));
    assert(seq![r, s].skip(1) =~= seq![s]);
    assert(seq![r, s].take(1) =~= seq![r]);
    lemma_concat_one(s);
    lemma_concat_one(r);
}

proof fn lemma_toggle_run(xs: Seq<Seq<bool>>)
    requires
        forall|i: int| 0 <= i < xs.len() ==> (#[trigger] xs[i]).len() == 0,
    ensures
        run_from(toggle_spec(), seq![false], xs) == Ok::<(Seq<Seq<bool>>, Seq<bool>), SimErr>(
            (Seq::new(xs.len(), |i: int| seq![i % 2 == 1]), seq![xs.len() % 2 == 1]),
        ),
    decreases xs.len(),
{
    if xs.len() == 0 {
        assert(Seq::new(0, |i: int| seq![i % 2 == 1]) =~= Seq::<Seq<bool>>::empty());
    } else {
        let k = xs.len() - 1;
        lemma_toggle_run(xs.drop_last());
        assert(xs.last() == xs[k]);
        lemma_toggle_cycle(k % 2 == 1, xs.last());
        assert(!(k % 2 == 1) == ((k + 1) % 2 == 1));
        assert(Seq::new(k as nat, |i: int| seq![i % 2 == 1]).push(seq![k % 2 == 1]) =~= Seq::new(
            xs.len(),
            |i: int| seq![i % 2 == 1],
        ));
    }
}

/// The toggle flip-flop (`toggle_ff()`), simulated without data input,
/// outputs `false` at even cycles and `true` at odd ones.
pub proof fn lemma_toggle_alternates(xs: Seq<Seq<bool>>)
    requires
        forall|i: int| 0 <= i < xs.len() ==> (#[trigger] xs[i]).len() == 0,
    ensures
        run_spec(toggle_spec(), xs) == Ok::<Seq<Seq<bool>>, SimErr>(Seq::new(xs.len(), |i: int| seq![i % 2 == 1])),
{
    reveal_with_fuel(total, 2);
    reveal_with_fuel(concat_all, 2);
    let m = toggle_spec();
    let g = m.graph;
    assert(m.inputs.take(1) =~= seq![w(0)]);
    assert(wire_width_in(g, w(0)) == 1);
    assert(widths_of(g, seq![w(0)]) =~= seq![1nat]);
    let ws = seq![1nat];
    assert(ws.take(0) =~= Seq::<nat>::empty());
    assert(ws.take(1) =~= ws);
    assert(ws.drop_last() =~= Seq::<nat>::empty());
    let f = seq![false];
    assert(chunks(f, ws) =~= seq![f]) by {
        assert(chunks(f, ws)[0] == f.subrange(0, 1));
        assert(f.subrange(0, 1) =~= f);
    }
    assert(expand(g, w(0), f) == f);
    let parts = Seq::new(1, |k: int| expand(g, seq![w(0)][k], seq![f][k]));
    assert(parts =~= seq![f]);
    lemma_concat_one(f);
    lemma_toggle_run(xs);
}

/// The `n`-bit state of the shift register after `k` one-bit inputs:
/// bit `i` is the bit that entered `i + 1` cycles ago, zero before the
/// first input.
pub open spec fn shifted_in(xs: Seq<Seq<bool>>, k: int, n: nat) -> Seq<bool> {
    Seq::new(n, |i: int| if i < k { xs[k - 1 - i][0] } else { false })
}

/// One shift-register cycle from state `s` with input bit `x`: the
/// output is `s`, the next state `x` followed by `s`'s low `n - 1` bits.
proof fn lemma_shift_cycle(n: nat, s: Seq<bool>, x: Seq<bool>)
    requires
        2 <= n <= u32::MAX,
        s.len() == n,
        x.len() == 1,
    ensures
        cycle_spec(shift_register_spec(n), s, x) == Ok::<(Seq<bool>, Seq<bool>), SimErr>(
            (s, x + s.subrange(0, n - 1)),
        ),
{
    reveal_with_fuel(run_instrs, 3);
    reveal_with_fuel(operands, 3);
    let m = shift_register_spec(n);
    let g = m.graph;
    let mw = (n - 1) as u32;
    assert(m.inputs.take(1) =~= seq![w(0)]);
    assert(m.inputs.skip(1) =~= seq![w(1)]);
    assert(wire_storage_in(g, w(0)) == n);
    assert(storages_of(g, seq![w(0)]) =~= seq![n]);
    assert(wire_width_in(g, w(1)) == 1);
    assert(widths_of(g, seq![w(1)]) =~= seq![1nat]);
    lemma_split_one(s);
    lemma_split_one(x);
    assert(seq![s] + seq![x] =~= seq![s, x]);
    let env0 = initial_env(4, m.inputs, seq![s, x]);
    assert(env0 =~= seq![Some(s), Some(x), None, None]) by {
        let t = m.inputs.drop_first();
        let e = Seq::<crate::ir::wire::WireId>::empty();
        assert(t =~= seq![w(1)]);
        assert(seq![s, x].drop_first() =~= seq![x]);
        assert(t.drop_first() =~= e);
        assert(first_value(m.inputs, seq![s, x], 0) == Some(s));
        assert(first_value(m.inputs, seq![s, x], 1) == first_value(t, seq![x], 1));
        assert(first_value(t, seq![x], 1) == Some(x));
        assert(first_value(m.inputs, seq![s, x], 2) == first_value(t, seq![x], 2));
        assert(first_value(t, seq![x], 2) == first_value(e, seq![x].drop_first(), 2));
        assert(first_value(m.inputs, seq![s, x], 3) == first_value(t, seq![x], 3));
        assert(first_value(t, seq![x], 3) == first_value(e, seq![x].drop_first(), 3));
    }
    let low = s.subrange(0, n - 1);
    let i0 = g.instrs[0];
    let i1 = g.instrs[1];
    assert(g.instrs.drop_last() =~= seq![i0]);
    assert(seq![i0].drop_last() =~= Seq::<crate::ir::instr::InstrSpec>::empty());
    assert(seq![w(0)].drop_last() =~= Seq::<crate::ir::wire::WireId>::empty());
    assert(lookup(env0, w(0)) == Some(s));
    assert(operands(env0, seq![w(0)]) == Ok::<Seq<Seq<bool>>, SimErr>(seq![s]));
    assert(apply_op_spec(OpSpec::Slice { lo: 0, hi: mw }, seq![s]) == Ok::<Seq<bool>, SimErr>(low));
    let env1 = env0.update(2, Some(low));
    assert(step_spec(env0, i0) == Ok::<Seq<Option<Seq<bool>>>, SimErr>(env1));
    assert(run_instrs(env0, seq![i0]) == Ok::<Seq<Option<Seq<bool>>>, SimErr>(env1));
    let ins1 = seq![w(1), w(2)];
    assert(ins1.drop_last() =~= seq![w(1)]);
    assert(seq![w(1)].drop_last() =~= Seq::<crate::ir::wire::WireId>::empty());
    assert(lookup(env1, w(1)) == Some(x));
    assert(lookup(env1, w(2)) == Some(low));
    assert(seq![x].push(low) =~= seq![x, low]);
    assert(operands(env1, ins1) == Ok::<Seq<Seq<bool>>, SimErr>(seq![x, low]));
    let nx = x + low;
    assert(apply_op_spec(OpSpec::Concat { low_width: 1, high_width: mw }, seq![x, low]) == Ok::<Seq<bool>, SimErr>(nx));
    let env2 = env1.update(3, Some(nx));
    assert(step_spec(env1, i1) == Ok::<Seq<Option<Seq<bool>>>, SimErr>(env2));
    assert(run_instrs(env0, g.instrs) == Ok::<Seq<Option<Seq<bool>>>, SimErr>(env2));
    assert(m.outputs.drop_last() =~= seq![w(3)]);
    assert(seq![w(3)].drop_last() =~= Seq::<crate::ir::wire::WireId>::empty());
    assert(lookup(env2, w(3)) == Some(nx));
    assert(lookup(env2, w(0)) == Some(s));
    assert(seq![nx].push(s) =~= seq![nx, s]);
    assert(operands(env2, m.outputs) == Ok::<Seq<Seq<bool>>, SimErr>(seq![nx, s]));
    assert(seq![nx, s].skip(1) =~= seq![s]);
    assert(seq![nx, s].take(1) =~= seq![nx]);
    lemma_concat_one(s);
    lemma_concat_one(nx);
}

proof fn lemma_shift_run(n: nat, xs: Seq<Seq<bool>>)
    requires
        2 <= n <= u32::MAX,
        forall|i: int| 0 <= i < xs.len() ==> (#[trigger] xs[i]).len() == 1,
    ensures
        run_from(shift_register_spec(n), fill(false, n), xs) == Ok::<(Seq<Seq<bool>>, Seq<bool>), SimErr>(
            (Seq::new(xs.len(), |k: int| shifted_in(xs, k, n)), shifted_in(xs, xs.len() as int, n)),
        ),
    decreases xs.len(),
{
    if xs.len() == 0 {
        assert(Seq::new(0, |k: int| shifted_in(xs, k, n)) =~= Seq::<Seq<bool>>::empty());
        assert(shifted_in(xs, 0, n) =~= fill(false, n));
    } else {
        let k = xs.len() - 1;
        let p = xs.drop_last();
        lemma_shift_run(n, p);
        assert forall|j: int| 0 <= j <= k implies #[trigger] shifted_in(p, j, n) == shifted_in(xs, j, n) by {
            assert(shifted_in(p, j, n) =~= shifted_in(xs, j, n));
        }
        let st = shifted_in(xs, k, n);
        assert(xs.last() == xs[k]);
        lemma_shift_cycle(n, st, xs.last());
        assert(xs[k] =~= seq![xs[k][0]]);
        assert(xs.last() + st.subrange(0, n - 1) =~= shifted_in(xs, k + 1, n));
        assert(Seq::new(k as nat, |j: int| shifted_in(p, j, n)) =~= Seq::new(k as nat, |j: int| shifted_in(xs, j, n)));
        assert(Seq::new(k as nat, |j: int| shifted_in(xs, j, n)).push(st) =~= Seq::new(
            xs.len(),
            |j: int| shifted_in(xs, j, n),
        ));
    }
}

/// The `n`-bit shift register (`shift_register_left::<n>()`),
/// simulated on one-bit inputs, outputs at cycle `k` its state: bit
/// `i` is the input of cycle `k - 1 - i`, zero where there was none.
pub proof fn lemma_shift_register_shifts(n: nat, xs: Seq<Seq<bool>>)
    requires
        2 <= n <= u32::MAX,
        forall|i: int| 0 <= i < xs.len() ==> (#[trigger] xs[i]).len() == 1,
    ensures
        run_spec(shift_register_spec(n), xs) == Ok::<Seq<Seq<bool>>, SimErr>(
            Seq::new(xs.len(), |k: int| shifted_in(xs, k, n)),
        ),
{
    reveal_with_fuel(total, 2);
    reveal_with_fuel(concat_all, 2);
    let m = shift_register_spec(n);
    let g = m.graph;
    assert(m.inputs.take(1) =~= seq![w(0)]);
    assert(wire_width_in(g, w(0)) == n);
    assert(widths_of(g, seq![w(0)]) =~= seq![n]);
    let ws = seq![n];
    assert(ws.take(0) =~= Seq::<nat>::empty());
    assert(ws.take(1) =~= ws);
    assert(ws.drop_last() =~= Seq::<nat>::empty());
    let f = fill(false, n);
    assert(chunks(f, ws) =~= seq![f]) by {
        assert(chunks(f, ws)[0] == f.subrange(0, n as int));
        assert(f.subrange(0, n as int) =~= f);
    }
    assert(expand(g, w(0), f) == f);
    let parts = Seq::new(1, |k: int| expand(g, seq![w(0)][k], seq![f][k]));
    assert(parts =~= seq![f]);
    lemma_concat_one(f);
    lemma_shift_run(n, xs);
}

/// Decoding the encoding of a `Bits<N>` gives back its value: two
/// values with the same encoding are the same number, and every
/// encoding decodes.
pub proof fn lemma_bits_round_trip<const N: usize>(a: Bits<N>, b: Bits<N>)
    requires
        b.encode() == a.encode(),
    ensures
        Bits::<N>::decodes(a.encode()),
        b.value() == a.value(),
{
    Bits::<N>::lemma_encode(a);
    a.lemma_value_bound();
    b.lemma_value_bound();
    lemma_below_modulus(a.value(), N as nat);
    lemma_below_modulus(b.value(), N as nat);
    lemma_bits_val_of_val_bits(a.value(), N as nat);
    lemma_bits_val_of_val_bits(b.value(), N as nat);
}

/// A pair's encoding determines the encodings of both components.
pub proof fn lemma_pair_encoding<A: Hw, B: Hw>(x: (A, B), y: (A, B))
    requires
        x.encode() == y.encode(),
    ensures
        x.0.encode() == y.0.encode(),
        x.1.encode() == y.1.encode(),
{
    A::lemma_encode(x.0);
    A::lemma_encode(y.0);
    B::lemma_encode(x.1);
    B::lemma_encode(y.1);
    let wa = A::width_nat() as int;
    assert(x.encode().take(wa) =~= x.0.encode());
    assert(y.encode().take(wa) =~= y.0.encode());
    assert(x.encode().skip(wa) =~= x.1.encode());
    assert(y.encode().skip(wa) =~= y.1.encode());
}

proof fn lemma_run_from_length(m: SyncSpec, st: Seq<bool>, xs: Seq<Seq<bool>>)
    ensures
        run_from(m, st, xs) matches Ok(p) ==> p.0.len() == xs.len(),
    decreases xs.len(),
{
    if xs.len() > 0 {
        lemma_run_from_length(m, st, xs.drop_last());
    }
}

/// A simulation that succeeds yields exactly one output per input
/// cycle.
pub proof fn lemma_run_length(m: SyncSpec, xs: Seq<Seq<bool>>)
    ensures
        run_spec(m, xs) matches Ok(outs) ==> outs.len() == xs.len(),
{
    lemma_run_from_length(m, initial_storage(m), xs);
}

/// The number a bit stands for: 1 for `true`, 0 for `false`.
pub open spec fn bit_n(b: bool) -> nat {
    if b {
        1
    } else {
        0
    }
}

/// A one-bit AND, OR or XOR instruction whose operand wires hold `p`
/// and `q` writes their combined bit to its output wire.
proof fn lemma_bit_gate_step(env: EnvSpec, op: BinOp, x: WireId, y: WireId, o: WireId, p: bool, q: bool)
    requires
        op == BinOp::And || op == BinOp::Or || op == BinOp::Xor,
        lookup(env, x) == Some(seq![p]),
        lookup(env, y) == Some(seq![q]),
        (o.0 as nat) < env.len(),
    ensures
        step_spec(env, InstrSpec { op: OpSpec::Bin(op), inputs: seq![x, y], output: o }) == Ok::<EnvSpec, SimErr>(
            env.update(
                o.0 as int,
                Some(
                    seq![
                        match op {
                            BinOp::And => p && q,
                            BinOp::Or => p || q,
                            _ => p != q,
                        },
                    ],
                ),
            ),
        ),
{
    let ws = seq![x, y];
    lemma_operands_of_lookups(env, ws, seq![seq![p], seq![q]]);
    let r = zip_bits(seq![p], seq![q], op);
    assert(r =~= seq![
        match op {
            BinOp::And => p && q,
            BinOp::Or => p || q,
            _ => p != q,
        },
    ]);
}

/// The half adder adds two bits: interpreted on the one-bit values `a`
/// and `b`, it outputs a one-bit sum and carry with
/// `2 * carry + sum == a + b`.
pub proof fn lemma_half_adder_adds(a: bool, b: bool)
    ensures
        ({
            let h = half_adder_spec();
            interpret_spec(h.graph, h.inputs, seq![seq![a], seq![b]]) matches Ok(e) && operands(e, h.outputs) matches Ok(
                o,
            ) && o.len() == 2 && o[0].len() == 1 && o[1].len() == 1 && 2 * bit_n(o[1][0]) + bit_n(o[0][0]) == bit_n(a)
                + bit_n(b)
        }),
{
    let h = half_adder_spec();
    let vs = seq![seq![a], seq![b]];
    let e0 = initial_env(4, h.inputs, vs);
    assert(e0 =~= seq![Some(seq![a]), Some(seq![b]), None, None]) by {
        reveal_with_fuel(first_value, 3);
    }
    let i0 = h.graph.instrs[0];
    let i1 = h.graph.instrs[1];
    lemma_bit_gate_step(e0, BinOp::Xor, w(0), w(1), w(2), a, b);
    let e1 = e0.update(2, Some(seq![a != b]));
    lemma_bit_gate_step(e1, BinOp::And, w(0), w(1), w(3), a, b);
    let e2 = e1.update(3, Some(seq![a && b]));
    assert(h.graph.instrs.drop_last() =~= seq![i0]);
    assert(seq![i0].drop_last() =~= Seq::<InstrSpec>::empty());
    assert(run_instrs(e0, Seq::<InstrSpec>::empty()) == Ok::<EnvSpec, SimErr>(e0));
    assert(run_instrs(e0, seq![i0]) == Ok::<EnvSpec, SimErr>(e1));
    assert(run_instrs(e0, h.graph.instrs) == Ok::<EnvSpec, SimErr>(e2));
    let o = seq![seq![a != b], seq![a && b]];
    lemma_operands_of_lookups(e2, h.outputs, o);
}

/// Adding three bits with XOR for the sum and majority for the carry.
proof fn lemma_full_add_bits(a: bool, b: bool, c: bool)
    ensures
        2 * bit_n((a && b) || (c && (a != b))) + bit_n((a != b) != c) == bit_n(a) + bit_n(b) + bit_n(c),
{
}

/// The full adder adds three bits: interpreted on the one-bit values
/// `a`, `b` and the carry in `c`, it outputs a one-bit sum and carry
/// out with `2 * carry_out + sum == a + b + c`.
#[verifier::rlimit(40)]
pub proof fn lemma_full_adder_adds(a: bool, b: bool, c: bool)
    ensures
        ({
            let f = full_adder_spec();
            interpret_spec(f.graph, f.inputs, seq![seq![a], seq![b], seq![c]]) matches Ok(e) && operands(
                e,
                f.outputs,
            ) matches Ok(o) && o.len() == 2 && o[0].len() == 1 && o[1].len() == 1 && 2 * bit_n(o[1][0]) + bit_n(o[0][0])
                == bit_n(a) + bit_n(b) + bit_n(c)
        }),
{
    let f = full_adder_spec();
    let vs = seq![seq![a], seq![b], seq![c]];
    let e0 = initial_env(8, f.inputs, vs);
    assert(e0 =~= seq![Some(seq![a]), Some(seq![b]), Some(seq![c]), None, None, None, None, None]) by {
        reveal_with_fuel(first_value, 4);
    }
    let is = f.graph.instrs;
    let x = a != b;
    lemma_bit_gate_step(e0, BinOp::Xor, w(0), w(1), w(3), a, b);
    let e1 = e0.update(3, Some(seq![x]));
    lemma_bit_gate_step(e1, BinOp::And, w(0), w(1), w(4), a, b);
    let e2 = e1.update(4, Some(seq![a && b]));
    lemma_bit_gate_step(e2, BinOp::And, w(2), w(3), w(5), c, x);
    let e3 = e2.update(5, Some(seq![c && x]));
    lemma_bit_gate_step(e3, BinOp::Xor, w(3), w(2), w(6), x, c);
    let e4 = e3.update(6, Some(seq![x != c]));
    lemma_bit_gate_step(e4, BinOp::Or, w(4), w(5), w(7), a && b, c && x);
    let e5 = e4.update(7, Some(seq![(a && b) || (c && x)]));
    assert(is.take(0) =~= Seq::<InstrSpec>::empty());
    assert(run_instrs(e0, is.take(0)) == Ok::<EnvSpec, SimErr>(e0));
    assert(is.take(1).drop_last() =~= is.take(0));
    assert(run_instrs(e0, is.take(1)) == Ok::<EnvSpec, SimErr>(e1));
    assert(is.take(2).drop_last() =~= is.take(1));
    assert(run_instrs(e0, is.take(2)) == Ok::<EnvSpec, SimErr>(e2));
    assert(is.take(3).drop_last() =~= is.take(2));
    assert(run_instrs(e0, is.take(3)) == Ok::<EnvSpec, SimErr>(e3));
    assert(is.take(4).drop_last() =~= is.take(3));
    assert(run_instrs(e0, is.take(4)) == Ok::<EnvSpec, SimErr>(e4));
    assert(is.take(5).drop_last() =~= is.take(4));
    assert(is.take(5) =~= is);
    assert(run_instrs(e0, is) == Ok::<EnvSpec, SimErr>(e5));
    let o = seq![seq![x != c], seq![(a && b) || (c && x)]];
    lemma_operands_of_lookups(e5, f.outputs, o);
    lemma_full_add_bits(a, b, c);
}

} // verus!
