//! Drive a [`Sync`] machine cycle by cycle: state wires are threaded
//! from each cycle's next-state outputs into the following cycle.

use vstd::prelude::*;

use comp_cat_rs::effect::io::Io;

use crate::bit_seq::BitSeq;
use crate::deferred::{deferred_samples, yielded_samples};
use crate::error::{Cycle, Error};
use crate::ir::graph::{GraphSpec, HdlGraph};
use crate::ir::wire::{WireId, WireTy, ty_storage};
use crate::sim::interp::{EnvSpec, SimErr, error_is, graph_ops_checked, graph_ops_ok, interpret, interpret_spec, operands, read_env,
    seqs_view};
use crate::sim::sample::TimedSample;
use crate::sync::compose::wire_width_in;
use crate::sync::machine::{Sync, SyncSpec, state_split_ok};

verus! {

/// The sum of a list of widths.
pub open spec fn total(ws: Seq<nat>) -> nat
    decreases ws.len(),
{
    if ws.len() == 0 {
        0
    } else {
        total(ws.drop_last()) + ws.last()
    }
}

/// `usize` widths as natural numbers.
pub open spec fn nats(ws: Seq<usize>) -> Seq<nat> {
    ws.map_values(|w: usize| w as nat)
}

/// `bits` cut into consecutive chunks of the given widths.
pub open spec fn chunks(bits: Seq<bool>, ws: Seq<nat>) -> Seq<Seq<bool>> {
    Seq::new(ws.len(), |k: int| bits.subrange(total(ws.take(k)) as int, total(ws.take(k + 1)) as int))
}

/// Cut `bits` into chunks of the given widths; a width mismatch when
/// the widths do not add up to its length.
pub open spec fn split_spec(bits: Seq<bool>, ws: Seq<nat>) -> Result<Seq<Seq<bool>>, SimErr> {
    if bits.len() != total(ws) {
        Err(SimErr::WidthMismatch { expected: total(ws), actual: bits.len() })
    } else {
        Ok(chunks(bits, ws))
    }
}

/// The concatenation of a list of bit sequences.
pub open spec fn concat_all(vs: Seq<Seq<bool>>) -> Seq<bool>
    decreases vs.len(),
{
    if vs.len() == 0 {
        Seq::empty()
    } else {
        concat_all(vs.drop_last()) + vs.last()
    }
}

/// `d` copies of `v`, concatenated.
pub open spec fn repeat(v: Seq<bool>, d: nat) -> Seq<bool>
    decreases d,
{
    if d == 0 {
        Seq::empty()
    } else {
        repeat(v, (d - 1) as nat) + v
    }
}

/// The element widths of wires (0 for undeclared ones).
pub open spec fn widths_of(g: GraphSpec, ws: Seq<WireId>) -> Seq<nat> {
    ws.map_values(|w: WireId| wire_width_in(g, w))
}

/// The storage width of a wire (element width times depth for arrays; 0
/// when undeclared).
pub open spec fn wire_storage_in(g: GraphSpec, w: WireId) -> nat {
    if (w.0 as nat) < g.wires.len() {
        ty_storage(g.wires[w.0 as int])
    } else {
        0
    }
}

/// The storage widths of wires.
pub open spec fn storages_of(g: GraphSpec, ws: Seq<WireId>) -> Seq<nat> {
    ws.map_values(|w: WireId| wire_storage_in(g, w))
}

/// A compact state value as stored: array wires hold `depth` copies of
/// their element value, other wires the value itself.
pub open spec fn expand(g: GraphSpec, w: WireId, v: Seq<bool>) -> Seq<bool> {
    if (w.0 as nat) < g.wires.len() {
        match g.wires[w.0 as int] {
            WireTy::Array { element_width, depth } => repeat(v, depth as nat),
            _ => v,
        }
    } else {
        v
    }
}

/// One clock cycle: split the stored state and the cycle's input into
/// per-wire values, interpret the graph, read the outputs; the result
/// is the data output and the next stored state.
pub open spec fn cycle_spec(m: SyncSpec, state: Seq<bool>, input: Seq<bool>) -> Result<(Seq<bool>, Seq<bool>), SimErr> {
    let sc = m.state_count as int;
    match split_spec(state, storages_of(m.graph, m.inputs.take(sc))) {
        Err(e) => Err(e),
        Ok(sv) => match split_spec(input, widths_of(m.graph, m.inputs.skip(sc))) {
            Err(e) => Err(e),
            Ok(iv) => match interpret_spec(m.graph, m.inputs, sv + iv) {
                Err(e) => Err(e),
                Ok(env) => match operands(env, m.outputs) {
                    Err(e) => Err(e),
                    Ok(outs) => Ok((concat_all(outs.skip(sc)), concat_all(outs.take(sc)))),
                },
            },
        },
    }
}

/// Run the cycles `xs` from stored state `s`: the data outputs in order
/// and the final stored state.
pub open spec fn run_from(m: SyncSpec, s: Seq<bool>, xs: Seq<Seq<bool>>) -> Result<(Seq<Seq<bool>>, Seq<bool>), SimErr>
    decreases xs.len(),
{
    if xs.len() == 0 {
        Ok((Seq::empty(), s))
    } else {
        match run_from(m, s, xs.drop_last()) {
            Err(e) => Err(e),
            Ok(p) => match cycle_spec(m, p.1, xs.last()) {
                Err(e) => Err(e),
                Ok(c) => Ok((p.0.push(c.0), c.1)),
            },
        }
    }
}

/// The stored state at cycle 0: the machine's initial state cut into
/// per-state-wire values (element widths), each expanded to its
/// storage.
pub open spec fn initial_storage(m: SyncSpec) -> Seq<bool> {
    let sc = m.state_count as int;
    let ws = m.inputs.take(sc);
    let vals = chunks(m.init, widths_of(m.graph, ws));
    concat_all(Seq::new(ws.len(), |k: int| expand(m.graph, ws[k], vals[k])))
}

/// The data outputs of every cycle when machine `m` runs on inputs
/// `xs`; a width mismatch first when the initial state's length is not
/// the state wires' total element width.
pub open spec fn run_spec(m: SyncSpec, xs: Seq<Seq<bool>>) -> Result<Seq<Seq<bool>>, SimErr> {
    let sc = m.state_count as int;
    let compact = widths_of(m.graph, m.inputs.take(sc));
    if m.init.len() != total(compact) {
        Err(SimErr::WidthMismatch { expected: total(compact), actual: m.init.len() })
    } else {
        match run_from(m, initial_storage(m), xs) {
            Err(e) => Err(e),
            Ok(p) => Ok(p.0),
        }
    }
}

/// What a testbench run needs: the state wires split off both port
/// lists, every op within machine arithmetic, and the width totals
/// within `usize`.
pub open spec fn runnable(m: SyncSpec) -> bool {
    &&& state_split_ok(m)
    &&& graph_ops_ok(m.graph)
    &&& total(widths_of(m.graph, m.inputs)) <= usize::MAX
    &&& total(storages_of(m.graph, m.inputs.take(m.state_count as int))) <= usize::MAX
}

/// The samples of a run: sample `k` has cycle `k` and value `outs[k]`.
pub open spec fn samples_are(r: Seq<TimedSample<BitSeq>>, outs: Seq<Seq<bool>>) -> bool {
    &&& r.len() == outs.len()
    &&& forall|k: int| 0 <= k < r.len() ==> (#[trigger] r[k]).cycle_spec()@ == k && r[k].value_spec()@ == outs[k]
}

/// Drives a [`Sync`] machine for a number of cycles.
#[derive(Debug)]
pub struct Testbench<S, I, O> {
    machine: Sync<S, I, O>,
}

impl<S, I, O> Testbench<S, I, O> {
    /// The machine under test.
    pub closed spec fn machine_spec(&self) -> SyncSpec {
        self.machine@
    }

    /// Wrap a machine.
    pub fn new(machine: Sync<S, I, O>) -> (r: Self)
        ensures
            r.machine_spec() == machine@,
    {
        Testbench { machine }
    }

    /// Simulate the machine directly: one sample per element of
    /// `inputs` (each the concatenated data-input values of one cycle).
    pub fn simulate(&self, inputs: Vec<BitSeq>) -> (r: Result<Vec<TimedSample<BitSeq>>, Error>)
        requires
            runnable(self.machine_spec()),
        ensures
            match run_spec(self.machine_spec(), seqs_view(inputs@)) {
                Ok(outs) => r matches Ok(v) && samples_are(v@, outs),
                Err(se) => r matches Err(e) && error_is(e, se),
            },
    {
        run_cycles(&self.machine, inputs)
    }
}

impl<S: Send + 'static, I: Send + 'static, O: Send + 'static> Testbench<S, I, O> {
    /// A suspended simulation over `inputs`; running it yields what
    /// [`Testbench::simulate`] returns.
    pub fn run(self, inputs: Vec<BitSeq>) -> (r: Io<Error, Vec<TimedSample<BitSeq>>>)
        requires
            runnable(self.machine_spec()),
        ensures
            match run_spec(self.machine_spec(), seqs_view(inputs@)) {
                Ok(outs) => yielded_samples(r) matches Ok(v) && samples_are(v@, outs),
                Err(se) => yielded_samples(r) matches Err(e) && error_is(e, se),
            },
    {
        deferred_samples(run_cycles(&self.machine, inputs))
    }
}

/// The element width of every wire in `ws`.
pub(crate) fn widths(graph: &HdlGraph, ws: &[WireId]) -> (r: Vec<usize>)
    ensures
        nats(r@) == widths_of(graph@, ws@),
{
    let mut out: Vec<usize> = Vec::new();
    let mut i: usize = 0;
    while i < ws.len()
        invariant
            i <= ws@.len(),
            nats(out@) == widths_of(graph@, ws@.take(i as int)),
        decreases ws@.len() - i,
    {
        let w = match graph.wire_ty(ws[i].index()) {
            Some(t) => t.width() as usize,
            None => 0,
        };
        let ghost prev = out@;
        out.push(w);
        proof {
            assert(w as nat == wire_width_in(graph@, ws@[i as int]));
            assert(nats(out@) =~= nats(prev).push(w as nat));
            assert(widths_of(graph@, ws@.take(i + 1)) =~= widths_of(graph@, ws@.take(i as int)).push(
                wire_width_in(graph@, ws@[i as int]),
            ));
        }
        i = i + 1;
    }
    proof {
        assert(ws@.take(i as int) =~= ws@);
    }
    out
}

/// The storage width of every wire in `ws`.
fn storages(graph: &HdlGraph, ws: &[WireId]) -> (r: Vec<usize>)
    requires
        total(storages_of(graph@, ws@)) <= usize::MAX,
    ensures
        nats(r@) == storages_of(graph@, ws@),
{
    let mut out: Vec<usize> = Vec::new();
    let mut i: usize = 0;
    while i < ws.len()
        invariant
            i <= ws@.len(),
            total(storages_of(graph@, ws@)) <= usize::MAX,
            nats(out@) == storages_of(graph@, ws@.take(i as int)),
        decreases ws@.len() - i,
    {
        proof {
            lemma_total_elem(storages_of(graph@, ws@), i as int);
        }
        proof {
            assert(storages_of(graph@, ws@)[i as int] == wire_storage_in(graph@, ws@[i as int]));
        }
        let w = match graph.wire_ty(ws[i].index()) {
            Some(t) => t.storage_bits(),
            None => 0,
        };
        let ghost prev = out@;
        out.push(w);
        proof {
            assert(w as nat == wire_storage_in(graph@, ws@[i as int]));
            assert(nats(out@) =~= nats(prev).push(w as nat));
            assert(storages_of(graph@, ws@.take(i + 1)) =~= storages_of(graph@, ws@.take(i as int)).push(
                wire_storage_in(graph@, ws@[i as int]),
            ));
        }
        i = i + 1;
    }
    proof {
        assert(ws@.take(i as int) =~= ws@);
    }
    out
}

/// Every element is bounded by the total.
pub proof fn lemma_total_elem(ws: Seq<nat>, k: int)
    requires
        0 <= k < ws.len(),
    ensures
        ws[k] <= total(ws),
    decreases ws.len(),
{
    if k < ws.len() - 1 {
        lemma_total_elem(ws.drop_last(), k);
    }
}

/// A prefix's total is bounded by the whole total.
pub proof fn lemma_total_prefix(ws: Seq<nat>, n: int)
    requires
        0 <= n <= ws.len(),
    ensures
        total(ws.take(n)) <= total(ws),
    decreases ws.len(),
{
    if n < ws.len() {
        assert(ws.drop_last().take(n) =~= ws.take(n));
        lemma_total_prefix(ws.drop_last(), n);
    } else {
        assert(ws.take(n) =~= ws);
    }
}

/// The total of `n` widths computed in a loop.
pub(crate) fn total_of(ws: &Vec<usize>) -> (r: usize)
    requires
        total(nats(ws@)) <= usize::MAX,
    ensures
        r == total(nats(ws@)),
{
    let mut t: usize = 0;
    let mut i: usize = 0;
    while i < ws.len()
        invariant
            i <= ws@.len(),
            total(nats(ws@)) <= usize::MAX,
            t == total(nats(ws@).take(i as int)),
        decreases ws@.len() - i,
    {
        proof {
            assert(nats(ws@).take(i + 1).drop_last() =~= nats(ws@).take(i as int));
            lemma_total_prefix(nats(ws@), i + 1);
        }
        t = t + ws[i];
        i = i + 1;
    }
    proof {
        assert(nats(ws@).take(i as int) =~= nats(ws@));
    }
    t
}

/// Cut `bits` into chunks of the given widths.
pub fn split_by_widths(bits: &BitSeq, ws: &Vec<usize>) -> (r: Result<Vec<BitSeq>, Error>)
    requires
        total(nats(ws@)) <= usize::MAX,
    ensures
        match split_spec(bits@, nats(ws@)) {
            Ok(cs) => r matches Ok(v) && seqs_view(v@) == cs,
            Err(se) => r matches Err(e) && error_is(e, se),
        },
{
    let t = total_of(ws);
    if bits.len() != t {
        return Err(Error::width_mismatch(t, bits.len()));
    }
    let ghost wn = nats(ws@);
    let mut out: Vec<BitSeq> = Vec::new();
    let mut off: usize = 0;
    let mut k: usize = 0;
    while k < ws.len()
        invariant
            k <= ws@.len(),
            wn == nats(ws@),
            bits@.len() == total(wn),
            total(wn) <= usize::MAX,
            off == total(wn.take(k as int)),
            seqs_view(out@) == chunks(bits@, wn).take(k as int),
        decreases ws@.len() - k,
    {
        proof {
            assert(wn.take(k + 1).drop_last() =~= wn.take(k as int));
            assert(wn.take(k + 1).last() == ws@[k as int] as nat);
            lemma_total_prefix(wn, k + 1);
        }
        let c = bits.sub(off, off + ws[k]);
        let ghost prev = out@;
        out.push(c);
        proof {
            assert(seqs_view(out@) =~= seqs_view(prev).push(c@));
            assert(chunks(bits@, wn).take(k + 1) =~= chunks(bits@, wn).take(k as int).push(c@));
        }
        off = off + ws[k];
        k = k + 1;
    }
    proof {
        assert(chunks(bits@, wn).take(k as int) =~= chunks(bits@, wn));
    }
    Ok(out)
}

/// The concatenation of `vs[lo..hi]`.
pub(crate) fn concat_range(vs: &Vec<BitSeq>, lo: usize, hi: usize) -> (r: BitSeq)
    requires
        lo <= hi <= vs@.len(),
    ensures
        r@ == concat_all(seqs_view(vs@).subrange(lo as int, hi as int)),
{
    let ghost s = seqs_view(vs@);
    let mut acc = BitSeq::new();
    let mut i: usize = lo;
    proof {
        assert(s.subrange(lo as int, lo as int) =~= Seq::<Seq<bool>>::empty());
    }
    while i < hi
        invariant
            lo <= i <= hi,
            hi <= vs@.len(),
            s == seqs_view(vs@),
            acc@ == concat_all(s.subrange(lo as int, i as int)),
        decreases hi - i,
    {
        proof {
            assert(s.subrange(lo as int, i + 1).drop_last() =~= s.subrange(lo as int, i as int));
            assert(s.subrange(lo as int, i + 1).last() == vs@[i as int]@);
        }
        acc = acc.concat(vs[i].clone());
        i = i + 1;
    }
    acc
}

/// `d` copies of `v`.
fn repeat_seq(v: &BitSeq, d: usize) -> (r: BitSeq)
    ensures
        r@ == repeat(v@, d as nat),
{
    let mut acc = BitSeq::new();
    let mut i: usize = 0;
    while i < d
        invariant
            i <= d,
            acc@ == repeat(v@, i as nat),
        decreases d - i,
    {
        acc = acc.concat(v.clone());
        i = i + 1;
    }
    acc
}

/// The initial stored state of a machine.
fn initial_storage_exec(graph: &HdlGraph, state_wires: &[WireId], init: &BitSeq, compact: &Vec<usize>) -> (r: BitSeq)
    requires
        nats(compact@) == widths_of(graph@, state_wires@),
        init@.len() == total(nats(compact@)),
        total(nats(compact@)) <= usize::MAX,
    ensures
        r@ == concat_all(
            Seq::new(
                state_wires@.len(),
                |k: int| expand(graph@, state_wires@[k], chunks(init@, widths_of(graph@, state_wires@))[k]),
            ),
        ),
{
    let vals = match split_by_widths(init, compact) {
        Ok(v) => v,
        Err(_) => {
            proof {
                assert(false);
            }
            Vec::new()
        },
    };
    proof {
        assert(seqs_view(vals@).len() == vals@.len());
        assert(nats(compact@).len() == compact@.len());
    }
    let ghost target = Seq::new(
        state_wires@.len(),
        |k: int| expand(graph@, state_wires@[k], chunks(init@, widths_of(graph@, state_wires@))[k]),
    );
    let mut acc = BitSeq::new();
    let mut k: usize = 0;
    proof {
        assert(target.take(0) =~= Seq::<Seq<bool>>::empty());
    }
    while k < state_wires.len()
        invariant
            k <= state_wires@.len(),
            vals@.len() == state_wires@.len(),
            seqs_view(vals@) == chunks(init@, widths_of(graph@, state_wires@)),
            target == Seq::new(
                state_wires@.len(),
                |k: int| expand(graph@, state_wires@[k], chunks(init@, widths_of(graph@, state_wires@))[k]),
            ),
            acc@ == concat_all(target.take(k as int)),
        decreases state_wires@.len() - k,
    {
        let w = state_wires[k];
        let piece = match graph.wire_ty(w.index()) {
            Some(WireTy::Array { element_width: _, depth }) => repeat_seq(&vals[k], *depth),
            _ => vals[k].clone(),
        };
        proof {
            assert(seqs_view(vals@)[k as int] == vals@[k as int]@);
            assert(piece@ == target[k as int]);
            assert(target.take(k + 1).drop_last() =~= target.take(k as int));
        }
        acc = acc.concat(piece);
        k = k + 1;
    }
    proof {
        assert(target.take(k as int) =~= target);
    }
    acc
}

/// Simulate `machine` over `inputs`, one sample per cycle.
pub fn run_cycles<S, I, O>(machine: &Sync<S, I, O>, inputs: Vec<BitSeq>) -> (r: Result<Vec<TimedSample<BitSeq>>, Error>)
    requires
        runnable(machine@),
    ensures
        match run_spec(machine@, seqs_view(inputs@)) {
            Ok(outs) => r matches Ok(v) && samples_are(v@, outs),
            Err(se) => r matches Err(e) && error_is(e, se),
        },
{
    let ghost m = machine@;
    let sc = machine.state_wire_count();
    let graph = machine.graph();
    let all_in = machine.input_wires();
    let outs_w = machine.output_wires();
    proof {
        assert(all_in@.take(sc as int) + all_in@.skip(sc as int) =~= all_in@);
    }
    let state_in = split_slice_head(all_in, sc);
    let data_in = split_slice_tail(all_in, sc);
    let compact = widths(graph, state_in.as_slice());
    let input_ws = widths(graph, data_in.as_slice());
    proof {
        lemma_total_split(widths_of(graph@, all_in@), sc as int);
        assert(widths_of(graph@, all_in@).take(sc as int) =~= widths_of(graph@, state_in@));
        assert(widths_of(graph@, all_in@).skip(sc as int) =~= widths_of(graph@, data_in@));
    }
    let storage = storages(graph, state_in.as_slice());
    let t = total_of(&compact);
    let init = machine.initial_state();
    if init.len() != t {
        return Err(Error::width_mismatch(t, init.len()));
    }
    let mut state = initial_storage_exec(graph, state_in.as_slice(), init, &compact);
    proof {
        assert(state@ == initial_storage(m));
    }
    let ghost xs = seqs_view(inputs@);
    let mut samples: Vec<TimedSample<BitSeq>> = Vec::new();
    let mut c: usize = 0;
    proof {
        assert(xs.take(0) =~= Seq::<Seq<bool>>::empty());
        assert(samples_values(samples@) =~= Seq::<Seq<bool>>::empty());
    }
    while c < inputs.len()
        invariant
            c <= inputs@.len(),
            xs == seqs_view(inputs@),
            m == machine@,
            runnable(m),
            sc == m.state_count,
            m.init.len() == total(widths_of(m.graph, m.inputs.take(sc as int))),
            graph@ == m.graph,
            all_in@ == m.inputs,
            outs_w@ == m.outputs,
            nats(storage@) == storages_of(m.graph, m.inputs.take(sc as int)),
            nats(input_ws@) == widths_of(m.graph, m.inputs.skip(sc as int)),
            total(nats(input_ws@)) <= usize::MAX,
            run_from(m, initial_storage(m), xs.take(c as int)) == Ok::<(Seq<Seq<bool>>, Seq<bool>), SimErr>(
                (samples_values(samples@), state@),
            ),
            samples_cycles_ok(samples@),
            samples@.len() == c,
        decreases inputs@.len() - c,
    {
        proof {
            assert(xs.take(c + 1).drop_last() =~= xs.take(c as int));
            assert(xs.take(c + 1).last() == inputs@[c as int]@);
        }
        let step = run_one_cycle(machine, &state, &inputs[c], &storage, &input_ws);
        match step {
            Ok((out, next)) => {
                let ghost prev = samples@;
                samples.push(TimedSample::new(Cycle::new(c as u64), out));
                proof {
                    assert(samples@.drop_last() =~= prev);
                    assert(samples_values(samples@) =~= samples_values(prev).push(samples@.last().value_spec()@));
                }
                state = next;
            },
            Err(e) => {
                proof {
                    assert(cycle_spec(m, state@, xs[c as int]) is Err);
                    assert(run_from(m, initial_storage(m), xs.take(c + 1)) is Err);
                    lemma_run_from_err_sticks(m, initial_storage(m), xs, c + 1);
                }
                return Err(e);
            },
        }
        c = c + 1;
    }
    proof {
        assert(xs.take(c as int) =~= xs);
    }
    Ok(samples)
}

/// The values of a list of samples.
pub open spec fn samples_values(s: Seq<TimedSample<BitSeq>>) -> Seq<Seq<bool>> {
    s.map_values(|t: TimedSample<BitSeq>| t.value_spec()@)
}

/// Sample `k` of a list has cycle `k`.
pub open spec fn samples_cycles_ok(s: Seq<TimedSample<BitSeq>>) -> bool {
    forall|k: int| 0 <= k < s.len() ==> (#[trigger] s[k]).cycle_spec()@ == k
}

/// Once a prefix of the cycles fails, the whole run fails with that
/// error.
pub proof fn lemma_run_from_err_sticks(m: SyncSpec, s: Seq<bool>, xs: Seq<Seq<bool>>, k: int)
    requires
        0 <= k <= xs.len(),
        run_from(m, s, xs.take(k)) is Err,
    ensures
        run_from(m, s, xs) == run_from(m, s, xs.take(k)),
    decreases xs.len() - k,
{
    if k < xs.len() {
        assert(xs.take(k + 1).drop_last() =~= xs.take(k));
        lemma_run_from_err_sticks(m, s, xs, k + 1);
    } else {
        assert(xs.take(k) =~= xs);
    }
}

/// The total of a list is the total of its two parts.
pub proof fn lemma_total_split(ws: Seq<nat>, n: int)
    requires
        0 <= n <= ws.len(),
    ensures
        total(ws) == total(ws.take(n)) + total(ws.skip(n)),
    decreases ws.len(),
{
    if n == ws.len() {
        assert(ws.take(n) =~= ws);
        assert(ws.skip(n) =~= Seq::<nat>::empty());
    } else {
        lemma_total_split(ws.drop_last(), n);
        assert(ws.drop_last().take(n) =~= ws.take(n));
        assert(ws.skip(n).drop_last() =~= ws.drop_last().skip(n));
        assert(ws.skip(n).last() == ws.last());
    }
}

pub(crate) fn split_slice_head(ws: &[WireId], at: usize) -> (r: Vec<WireId>)
    requires
        at <= ws@.len(),
    ensures
        r@ == ws@.take(at as int),
{
    let mut out: Vec<WireId> = Vec::new();
    let mut i: usize = 0;
    while i < at
        invariant
            i <= at,
            at <= ws@.len(),
            out@ == ws@.take(i as int),
        decreases at - i,
    {
        out.push(ws[i]);
        proof {
            assert(out@ =~= ws@.take(i + 1));
        }
        i = i + 1;
    }
    out
}

pub(crate) fn split_slice_tail(ws: &[WireId], at: usize) -> (r: Vec<WireId>)
    requires
        at <= ws@.len(),
    ensures
        r@ == ws@.skip(at as int),
{
    let mut out: Vec<WireId> = Vec::new();
    let mut i: usize = at;
    while i < ws.len()
        invariant
            at <= i <= ws@.len(),
            out@ == ws@.subrange(at as int, i as int),
        decreases ws@.len() - i,
    {
        out.push(ws[i]);
        proof {
            assert(out@ =~= ws@.subrange(at as int, i + 1));
        }
        i = i + 1;
    }
    proof {
        assert(out@ =~= ws@.skip(at as int));
    }
    out
}

/// One clock cycle of `machine` from stored state `state` on `input`.
fn run_one_cycle<S, I, O>(
    machine: &Sync<S, I, O>,
    state: &BitSeq,
    input: &BitSeq,
    storage: &Vec<usize>,
    input_ws: &Vec<usize>,
) -> (r: Result<(BitSeq, BitSeq), Error>)
    requires
        runnable(machine@),
        nats(storage@) == storages_of(machine@.graph, machine@.inputs.take(machine@.state_count as int)),
        nats(input_ws@) == widths_of(machine@.graph, machine@.inputs.skip(machine@.state_count as int)),
        total(nats(input_ws@)) <= usize::MAX,
    ensures
        match cycle_spec(machine@, state@, input@) {
            Ok(p) => r matches Ok(v) && v.0@ == p.0 && v.1@ == p.1,
            Err(se) => r matches Err(e) && error_is(e, se),
        },
{
    let ghost m = machine@;
    let sc = machine.state_wire_count();
    let sv = split_by_widths(state, storage)?;
    let mut iv = split_by_widths(input, input_ws)?;
    let mut all = sv;
    let ghost svv = seqs_view(all@);
    let ghost ivv = seqs_view(iv@);
    all.append(&mut iv);
    proof {
        assert(seqs_view(all@) =~= svv + ivv);
    }
    proof {
        assert(split_spec(state@, storages_of(m.graph, m.inputs.take(sc as int))) == Ok::<Seq<Seq<bool>>, SimErr>(svv));
        assert(split_spec(input@, widths_of(m.graph, m.inputs.skip(sc as int))) == Ok::<Seq<Seq<bool>>, SimErr>(ivv));
    }
    proof {
        crate::sim::interp::lemma_graph_ops_ok(machine@.graph, machine@.inputs, seqs_view(all@));
    }
    let env = interpret(machine.graph(), machine.input_wires(), all.as_slice())?;
    let ghost ev: EnvSpec = crate::sim::interp::env_view(env@);
    proof {
        assert(interpret_spec(m.graph, m.inputs, svv + ivv) == Ok::<EnvSpec, SimErr>(ev));
    }
    let outs_w = machine.output_wires();
    let mut outs: Vec<BitSeq> = Vec::new();
    let mut k: usize = 0;
    proof {
        assert(outs_w@.take(0) =~= Seq::<WireId>::empty());
        assert(seqs_view(outs@) =~= Seq::<Seq<bool>>::empty());
    }
    while k < outs_w.len()
        invariant
            k <= outs_w@.len(),
            outs_w@ == m.outputs,
            m == machine@,
            sc == m.state_count,
            split_spec(state@, storages_of(m.graph, m.inputs.take(sc as int))) == Ok::<Seq<Seq<bool>>, SimErr>(svv),
            split_spec(input@, widths_of(m.graph, m.inputs.skip(sc as int))) == Ok::<Seq<Seq<bool>>, SimErr>(ivv),
            interpret_spec(m.graph, m.inputs, svv + ivv) == Ok::<EnvSpec, SimErr>(ev),
            ev == crate::sim::interp::env_view(env@),
            operands(ev, outs_w@.take(k as int)) == Ok::<Seq<Seq<bool>>, SimErr>(seqs_view(outs@)),
            outs@.len() == k,
        decreases outs_w@.len() - k,
    {
        proof {
            assert(outs_w@.take(k + 1).drop_last() =~= outs_w@.take(k as int));
            assert(outs_w@.take(k + 1).last() == outs_w@[k as int]);
        }
        match read_env(env.as_slice(), outs_w[k]) {
            Ok(b) => {
                let ghost prev = outs@;
                outs.push(b);
                proof {
                    assert(seqs_view(outs@) =~= seqs_view(prev).push(b@));
                }
            },
            Err(e) => {
                proof {
                    assert(crate::sim::interp::lookup(ev, outs_w@[k as int]) is None);
                    assert(operands(ev, outs_w@.take(k + 1)) == Err::<Seq<Seq<bool>>, SimErr>(
                        SimErr::UndefinedSignal { wire: outs_w@[k as int].0 as nat },
                    ));
                    crate::sim::interp::lemma_operands_err_sticks(ev, outs_w@, k + 1);
                }
                return Err(e);
            },
        }
        k = k + 1;
    }
    proof {
        assert(outs_w@.take(k as int) =~= outs_w@);
        assert(seqs_view(outs@).subrange(sc as int, outs@.len() as int) =~= seqs_view(outs@).skip(sc as int));
        assert(seqs_view(outs@).subrange(0, sc as int) =~= seqs_view(outs@).take(sc as int));
    }
    let next = concat_range(&outs, 0, sc);
    let data = concat_range(&outs, sc, outs.len());
    Ok((data, next))
}

/// The sum of `ws`, or `None` when it exceeds `usize::MAX`.
pub(crate) fn checked_total(ws: &Vec<usize>) -> (r: Option<usize>)
    ensures
        r is Some <==> total(nats(ws@)) <= usize::MAX,
        r matches Some(t) ==> t == total(nats(ws@)),
{
    let ghost s = nats(ws@);
    let mut t: usize = 0;
    let mut i: usize = 0;
    while i < ws.len()
        invariant
            i <= ws@.len(),
            s == nats(ws@),
            t == total(s.take(i as int)),
        decreases ws@.len() - i,
    {
        proof {
            assert(s.take(i + 1).drop_last() =~= s.take(i as int));
            assert(s.take(i + 1).last() == ws@[i as int] as nat);
            lemma_total_prefix(s, i + 1);
        }
        match t.checked_add(ws[i]) {
            Some(n) => {
                t = n;
            },
            None => {
                return None;
            },
        }
        i = i + 1;
    }
    proof {
        assert(s.take(i as int) =~= s);
    }
    Some(t)
}

/// The storage width of a wire type, or `None` when it exceeds
/// `usize::MAX`.
fn checked_storage(t: &WireTy) -> (r: Option<usize>)
    ensures
        r is Some <==> ty_storage(*t) <= usize::MAX,
        r matches Some(n) ==> n == ty_storage(*t),
{
    match t {
        WireTy::Bit => Some(1),
        WireTy::Bits(n) => Some(*n as usize),
        WireTy::Signed(n) => Some(*n as usize),
        WireTy::Array { element_width, depth } => (*element_width as usize).checked_mul(*depth),
    }
}

/// The total storage width of `ws`, or `None` when it exceeds
/// `usize::MAX`.
fn checked_storage_total(graph: &HdlGraph, ws: &[WireId]) -> (r: Option<usize>)
    ensures
        r is Some <==> total(storages_of(graph@, ws@)) <= usize::MAX,
        r matches Some(t) ==> t == total(storages_of(graph@, ws@)),
{
    let ghost s = storages_of(graph@, ws@);
    let mut t: usize = 0;
    let mut i: usize = 0;
    while i < ws.len()
        invariant
            i <= ws@.len(),
            s == storages_of(graph@, ws@),
            t == total(s.take(i as int)),
        decreases ws@.len() - i,
    {
        proof {
            assert(s.take(i + 1).drop_last() =~= s.take(i as int));
            assert(s.take(i + 1).last() == wire_storage_in(graph@, ws@[i as int]));
            lemma_total_prefix(s, i + 1);
            lemma_total_elem(s, i as int);
        }
        let w: Option<usize> = match graph.wire_ty(ws[i].index()) {
            Some(ty) => checked_storage(ty),
            None => Some(0),
        };
        match w {
            Some(w) => match t.checked_add(w) {
                Some(n) => {
                    t = n;
                },
                None => {
                    return None;
                },
            },
            None => {
                return None;
            },
        }
        i = i + 1;
    }
    proof {
        assert(s.take(i as int) =~= s);
    }
    Some(t)
}

/// Whether the simulator accepts `m` (see [`runnable`]): the state
/// split fits both port lists, every op is well formed, and the input
/// widths and state storage widths each sum within a `usize`.
pub fn is_runnable<S, I, O>(m: &Sync<S, I, O>) -> (r: bool)
    ensures
        r == runnable(m@),
{
    let sc = m.state_wire_count();
    let ins = m.input_wires();
    if sc > ins.len() || sc > m.output_wires().len() {
        return false;
    }
    if !graph_ops_checked(m.graph()) {
        return false;
    }
    if checked_total(&widths(m.graph(), ins)).is_none() {
        return false;
    }
    let state_ins = split_slice_head(ins, sc);
    checked_storage_total(m.graph(), state_ins.as_slice()).is_some()
}

} // verus!
