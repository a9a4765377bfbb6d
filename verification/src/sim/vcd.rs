//! Value Change Dump (VCD) traces of a simulated machine.

use vstd::prelude::*;

use crate::bit_seq::BitSeq;
use crate::error::Error;
use crate::ir::graph::{GraphSpec, HdlGraph};
use crate::ir::wire::{WireId, WireTy, ty_width};
use crate::sim::interp::{EnvSpec, Env, SimErr, env_view, error_is, graph_ops_checked, graph_ops_ok, interpret, interpret_spec,
    operands, opt_view, read_env, seqs_view, lemma_operands_err_sticks, lookup};
use crate::sim::testbench::{checked_total, concat_all, concat_range, nats, split_by_widths, split_slice_head, split_slice_tail,
    split_spec, total, total_of, widths, widths_of, lemma_total_split};
use crate::sync::machine::{Sync, SyncSpec, state_split_ok};
use crate::text::{decimal, push_decimal};

verus! {

/// One traced cycle: the full environment and the next state (state
/// values kept at element width).
pub open spec fn trace_step(m: SyncSpec, state: Seq<bool>, input: Seq<bool>) -> Result<(EnvSpec, Seq<bool>), SimErr> {
    let sc = m.state_count as int;
    match split_spec(state, widths_of(m.graph, m.inputs.take(sc))) {
        Err(e) => Err(e),
        Ok(sv) => match split_spec(input, widths_of(m.graph, m.inputs.skip(sc))) {
            Err(e) => Err(e),
            Ok(iv) => match interpret_spec(m.graph, m.inputs, sv + iv) {
                Err(e) => Err(e),
                Ok(env) => match operands(env, m.outputs.take(sc)) {
                    Err(e) => Err(e),
                    Ok(ns) => Ok((env, concat_all(ns))),
                },
            },
        },
    }
}

/// The environments of the cycles `xs` from state `s`, and the final
/// state.
pub open spec fn trace_envs(m: SyncSpec, s: Seq<bool>, xs: Seq<Seq<bool>>) -> Result<(Seq<EnvSpec>, Seq<bool>), SimErr>
    decreases xs.len(),
{
    if xs.len() == 0 {
        Ok((Seq::empty(), s))
    } else {
        match trace_envs(m, s, xs.drop_last()) {
            Err(e) => Err(e),
            Ok(p) => match trace_step(m, p.1, xs.last()) {
                Err(e) => Err(e),
                Ok(c) => Ok((p.0.push(c.0), c.1)),
            },
        }
    }
}

/// The VCD identifier of wire `idx`: `v<idx>`.
pub open spec fn vcd_id(idx: nat) -> Seq<char> {
    seq!['v'] + decimal(idx)
}

/// `$var wire <width> v<idx> w<idx> $end`.
pub open spec fn var_decl(idx: nat, t: WireTy) -> Seq<char> {
    "$var wire "@ + decimal(ty_width(t) as nat) + " "@ + vcd_id(idx) + " w"@ + decimal(idx) + " $end\n"@
}

/// The variable declarations of the first `ws.len()` wires.
pub open spec fn vars_text(ws: Seq<WireTy>) -> Seq<char>
    decreases ws.len(),
{
    if ws.len() == 0 {
        Seq::empty()
    } else {
        vars_text(ws.drop_last()) + var_decl((ws.len() - 1) as nat, ws.last())
    }
}

/// The VCD header: version, timescale, scope, one variable per wire.
pub open spec fn header_text(g: GraphSpec) -> Seq<char> {
    "$version hdl-cat $end\n$timescale 1ns $end\n$scope module top $end\n"@ + vars_text(g.wires)
        + "$upscope $end\n$enddefinitions $end\n"@
}

/// `'1'` or `'0'`.
pub open spec fn bit_digit(b: bool) -> char {
    if b {
        '1'
    } else {
        '0'
    }
}

/// A bit sequence written most significant bit first.
pub open spec fn msb_text(bits: Seq<bool>) -> Seq<char> {
    Seq::new(bits.len(), |i: int| bit_digit(bits[bits.len() - 1 - i]))
}

/// One wire's value line: `bx`, a single digit, or `b<binary> `,
/// followed by the wire's identifier.
pub open spec fn value_line(idx: nat, v: Option<Seq<bool>>) -> Seq<char> {
    match v {
        None => "bx "@ + vcd_id(idx) + "\n"@,
        Some(bits) => if bits.len() <= 1 {
            seq![bit_digit(bits.len() == 1 && bits[0])] + vcd_id(idx) + "\n"@
        } else {
            "b"@ + msb_text(bits) + " "@ + vcd_id(idx) + "\n"@
        },
    }
}

/// A value line writes the wire's value: a one-bit value as a single
/// digit that is `1` exactly when the bit is set; a wider value after a
/// `b`, one digit per bit, most significant first, each `1` exactly when
/// its bit is set; an undefined wire as `x`.
pub proof fn lemma_value_line_writes_value(idx: nat, bits: Seq<bool>)
    ensures
        bits.len() == 1 ==> (value_line(idx, Some(bits))[0] == '1' <==> bits[0]) && (value_line(idx, Some(bits))[0]
            == '0' <==> !bits[0]),
        bits.len() > 1 ==> value_line(idx, Some(bits))[0] == 'b' && forall|i: int|
            0 <= i < bits.len() ==> (#[trigger] value_line(idx, Some(bits))[1 + i] == '1' <==> bits[bits.len() - 1 - i])
                && (value_line(idx, Some(bits))[1 + i] == '0' <==> !bits[bits.len() - 1 - i]),
        value_line(idx, None)[0] == 'b' && value_line(idx, None)[1] == 'x',
{
    reveal_strlit("bx ");
    reveal_strlit("b");
    if bits.len() > 1 {
        let l = value_line(idx, Some(bits));
        let m = msb_text(bits);
        assert forall|i: int| 0 <= i < bits.len() implies (#[trigger] l[1 + i] == '1' <==> bits[bits.len() - 1 - i]) && (l[1
            + i] == '0' <==> !bits[bits.len() - 1 - i]) by {
            assert(l[1 + i] == m[i]);
        }
    }
}

/// The value lines of an environment.
pub open spec fn values_text(env: EnvSpec) -> Seq<char>
    decreases env.len(),
{
    if env.len() == 0 {
        Seq::empty()
    } else {
        values_text(env.drop_last()) + value_line((env.len() - 1) as nat, env.last())
    }
}

/// One cycle's block: `#<10 c>`, then the values (inside `$dumpvars`
/// ... `$end` at cycle 0).
pub open spec fn cycle_text(c: nat, env: EnvSpec) -> Seq<char> {
    if c == 0 {
        "#"@ + decimal(0) + "\n"@ + "$dumpvars\n"@ + values_text(env) + "$end\n"@
    } else {
        "#"@ + decimal(c * 10) + "\n"@ + values_text(env)
    }
}

/// The blocks of all cycles.
pub open spec fn cycles_text(envs: Seq<EnvSpec>) -> Seq<char>
    decreases envs.len(),
{
    if envs.len() == 0 {
        Seq::empty()
    } else {
        cycles_text(envs.drop_last()) + cycle_text((envs.len() - 1) as nat, envs.last())
    }
}

/// The whole trace of machine `m` on inputs `xs`; a width mismatch
/// first when the initial state's length is not the state wires' total
/// width.
pub open spec fn trace_spec(m: SyncSpec, xs: Seq<Seq<bool>>) -> Result<Seq<char>, SimErr> {
    let sc = m.state_count as int;
    let compact = widths_of(m.graph, m.inputs.take(sc));
    if m.init.len() != total(compact) {
        Err(SimErr::WidthMismatch { expected: total(compact), actual: m.init.len() })
    } else {
        match trace_envs(m, m.init, xs) {
            Err(e) => Err(e),
            Ok(p) => Ok(header_text(m.graph) + cycles_text(p.0)),
        }
    }
}

/// What tracing needs: the state wires split off both port lists,
/// every op within machine arithmetic, widths and cycle times within
/// `usize`.
pub open spec fn traceable(m: SyncSpec, cycles: nat) -> bool {
    &&& state_split_ok(m)
    &&& graph_ops_ok(m.graph)
    &&& total(widths_of(m.graph, m.inputs)) <= usize::MAX
    &&& cycles * 10 <= usize::MAX
}

fn push_vcd_id(s: &mut String, idx: usize)
    ensures
        final(s)@ == old(s)@ + vcd_id(idx as nat),
{
    proof {
        reveal_strlit("v");
    }
    s.append("v");
    push_decimal(s, idx as u128);
    proof {
        assert(final(s)@ =~= old(s)@ + vcd_id(idx as nat));
    }
}

fn push_header(s: &mut String, graph: &HdlGraph)
    ensures
        final(s)@ == old(s)@ + header_text(graph@),
{
    proof {
        reveal_strlit("$version hdl-cat $end\n$timescale 1ns $end\n$scope module top $end\n");
        reveal_strlit("$upscope $end\n$enddefinitions $end\n");
        reveal_strlit("$var wire ");
        reveal_strlit(" ");
        reveal_strlit(" w");
        reveal_strlit(" $end\n");
    }
    let ghost start = s@;
    s.append("$version hdl-cat $end\n$timescale 1ns $end\n$scope module top $end\n");
    let ghost head = s@;
    let ws = graph.wires();
    let mut i: usize = 0;
    proof {
        assert(ws@.take(0) =~= Seq::<WireTy>::empty());
        assert(s@ =~= head + vars_text(ws@.take(0)));
    }
    while i < ws.len()
        invariant
            i <= ws@.len(),
            s@ == head + vars_text(ws@.take(i as int)),
        decreases ws@.len() - i,
    {
        let ghost before = s@;
        s.append("$var wire ");
        push_decimal(s, ws[i].width() as u128);
        s.append(" ");
        push_vcd_id(s, i);
        s.append(" w");
        push_decimal(s, i as u128);
        s.append(" $end\n");
        proof {
            assert(ws@.take(i + 1).drop_last() =~= ws@.take(i as int));
            assert(ws@.take(i + 1).last() == ws@[i as int]);
            assert(s@ =~= before + var_decl(i as nat, ws@[i as int]));
        }
        i = i + 1;
    }
    s.append("$upscope $end\n$enddefinitions $end\n");
    proof {
        assert(ws@.take(i as int) =~= ws@);
        assert(s@ =~= start + header_text(graph@));
    }
}

fn push_value_line(s: &mut String, idx: usize, v: &Option<BitSeq>)
    ensures
        final(s)@ == old(s)@ + value_line(idx as nat, opt_view(*v)),
{
    proof {
        reveal_strlit("bx ");
        reveal_strlit("\n");
        reveal_strlit("1");
        reveal_strlit("0");
        reveal_strlit("b");
        reveal_strlit(" ");
    }
    let ghost start = s@;
    match v {
        None => {
            s.append("bx ");
            push_vcd_id(s, idx);
            s.append("\n");
        },
        Some(bits) => {
            if bits.len() <= 1 {
                if bits.bit(0) {
                    s.append("1");
                } else {
                    s.append("0");
                }
                push_vcd_id(s, idx);
                s.append("\n");
            } else {
                s.append("b");
                let ghost mid = s@;
                let n = bits.len();
                let mut i: usize = 0;
                while i < n
                    invariant
                        i <= n,
                        n == bits@.len(),
                        s@ == mid + msb_text(bits@).take(i as int),
                    decreases n - i,
                {
                    let ghost before = s@;
                    proof {
                        reveal_strlit("1");
                        reveal_strlit("0");
                    }
                    if bits.bit(n - 1 - i) {
                        s.append("1");
                    } else {
                        s.append("0");
                    }
                    proof {
                        assert(s@ =~= before.push(bit_digit(bits@[n - 1 - i])));
                        assert(msb_text(bits@).take(i + 1) =~= msb_text(bits@).take(i as int).push(
                            bit_digit(bits@[n - 1 - i]),
                        ));
                    }
                    i = i + 1;
                }
                proof {
                    assert(msb_text(bits@).take(n as int) =~= msb_text(bits@));
                }
                s.append(" ");
                push_vcd_id(s, idx);
                s.append("\n");
            }
        },
    }
    proof {
        assert(s@ =~= start + value_line(idx as nat, opt_view(*v)));
    }
}

fn push_cycle(s: &mut String, c: usize, env: &Env)
    requires
        c * 10 <= usize::MAX,
    ensures
        final(s)@ == old(s)@ + cycle_text(c as nat, env_view(env@)),
{
    proof {
        reveal_strlit("#");
        reveal_strlit("\n");
        reveal_strlit("$dumpvars\n");
        reveal_strlit("$end\n");
    }
    let ghost start = s@;
    s.append("#");
    push_decimal(s, (c * 10) as u128);
    s.append("\n");
    if c == 0 {
        s.append("$dumpvars\n");
    }
    let ghost head = s@;
    let mut i: usize = 0;
    proof {
        assert(env_view(env@).take(0) =~= Seq::<Option<Seq<bool>>>::empty());
    }
    while i < env.len()
        invariant
            i <= env@.len(),
            s@ == head + values_text(env_view(env@).take(i as int)),
        decreases env@.len() - i,
    {
        push_value_line(s, i, &env[i]);
        proof {
            assert(env_view(env@).take(i + 1).drop_last() =~= env_view(env@).take(i as int));
            assert(env_view(env@).take(i + 1).last() == opt_view(env@[i as int]));
        }
        i = i + 1;
    }
    proof {
        assert(env_view(env@).take(i as int) =~= env_view(env@));
    }
    if c == 0 {
        s.append("$end\n");
    }
    proof {
        assert(s@ =~= start + cycle_text(c as nat, env_view(env@)));
    }
}

/// One traced cycle.
fn trace_one<S, I, O>(machine: &Sync<S, I, O>, state: &BitSeq, input: &BitSeq, sws: &Vec<usize>, iws: &Vec<usize>) -> (r: Result<(Env, BitSeq), Error>)
    requires
        traceable(machine@, 0),
        nats(sws@) == widths_of(machine@.graph, machine@.inputs.take(machine@.state_count as int)),
        nats(iws@) == widths_of(machine@.graph, machine@.inputs.skip(machine@.state_count as int)),
        total(nats(sws@)) <= usize::MAX,
        total(nats(iws@)) <= usize::MAX,
    ensures
        match trace_step(machine@, state@, input@) {
            Ok(p) => r matches Ok(v) && env_view(v.0@) == p.0 && v.1@ == p.1,
            Err(se) => r matches Err(e) && error_is(e, se),
        },
{
    let ghost m = machine@;
    let sc = machine.state_wire_count();
    let sv = split_by_widths(state, sws)?;
    let mut iv = split_by_widths(input, iws)?;
    let mut all = sv;
    let ghost svv = seqs_view(all@);
    let ghost ivv = seqs_view(iv@);
    all.append(&mut iv);
    proof {
        assert(seqs_view(all@) =~= svv + ivv);
    }
    proof {
        crate::sim::interp::lemma_graph_ops_ok(machine@.graph, machine@.inputs, seqs_view(all@));
    }
    let env = interpret(machine.graph(), machine.input_wires(), all.as_slice())?;
    let ghost ev: EnvSpec = env_view(env@);
    let outs_w = machine.output_wires();
    let mut outs: Vec<BitSeq> = Vec::new();
    let mut k: usize = 0;
    proof {
        assert(interpret_spec(m.graph, m.inputs, svv + ivv) == Ok::<EnvSpec, SimErr>(ev));
        assert(outs_w@.take(sc as int).take(0) =~= Seq::<WireId>::empty());
        assert(seqs_view(outs@) =~= Seq::<Seq<bool>>::empty());
    }
    while k < sc
        invariant
            k <= sc,
            sc == m.state_count,
            sc <= outs_w@.len(),
            outs_w@ == m.outputs,
            m == machine@,
            split_spec(state@, widths_of(m.graph, m.inputs.take(sc as int))) == Ok::<Seq<Seq<bool>>, SimErr>(svv),
            split_spec(input@, widths_of(m.graph, m.inputs.skip(sc as int))) == Ok::<Seq<Seq<bool>>, SimErr>(ivv),
            interpret_spec(m.graph, m.inputs, svv + ivv) == Ok::<EnvSpec, SimErr>(ev),
            ev == env_view(env@),
            operands(ev, outs_w@.take(sc as int).take(k as int)) == Ok::<Seq<Seq<bool>>, SimErr>(seqs_view(outs@)),
            outs@.len() == k,
        decreases sc - k,
    {
        let ghost ws = outs_w@.take(sc as int);
        proof {
            assert(ws.take(k + 1).drop_last() =~= ws.take(k as int));
            assert(ws.take(k + 1).last() == outs_w@[k as int]);
        }
        match read_env(env.as_slice(), outs_w[k]) {
            Ok(b) => {
                let ghost prev = outs@;
                outs.push(b);
                proof {
                    assert(seqs_view(outs@) =~= seqs_view(prev).push(b@));
                }
            },
            Err(e) => {
                proof {
                    assert(lookup(ev, outs_w@[k as int]) is None);
                    assert(operands(ev, ws.take(k + 1)) == Err::<Seq<Seq<bool>>, SimErr>(
                        SimErr::UndefinedSignal { wire: outs_w@[k as int].0 as nat },
                    ));
                    lemma_operands_err_sticks(ev, ws, k + 1);
                }
                return Err(e);
            },
        }
        k = k + 1;
    }
    proof {
        assert(outs_w@.take(sc as int).take(k as int) =~= outs_w@.take(sc as int));
        assert(seqs_view(outs@).subrange(0, outs@.len() as int) =~= seqs_view(outs@));
    }
    let next = concat_range(&outs, 0, outs.len());
    Ok((env, next))
}

/// Run `machine` on `inputs` and render the run as a VCD trace: a
/// header declaring every wire, then one timestamped block of all wire
/// values per cycle.  Fails as the simulation does.
pub fn trace_to_string<S, I, O>(machine: &Sync<S, I, O>, inputs: Vec<BitSeq>) -> (r: Result<String, Error>)
    requires
        traceable(machine@, inputs@.len() as nat),
    ensures
        match trace_spec(machine@, seqs_view(inputs@)) {
            Ok(t) => r matches Ok(s) && s@ == t,
            Err(se) => r matches Err(e) && error_is(e, se),
        },
{
    let ghost m = machine@;
    let sc = machine.state_wire_count();
    let graph = machine.graph();
    let all_in = machine.input_wires();
    let state_in = split_slice_head(all_in, sc);
    let data_in = split_slice_tail(all_in, sc);
    let sws = widths(graph, state_in.as_slice());
    let iws = widths(graph, data_in.as_slice());
    proof {
        lemma_total_split(widths_of(graph@, all_in@), sc as int);
        assert(widths_of(graph@, all_in@).take(sc as int) =~= widths_of(graph@, state_in@));
        assert(widths_of(graph@, all_in@).skip(sc as int) =~= widths_of(graph@, data_in@));
    }
    let t = total_of(&sws);
    let init = machine.initial_state();
    if init.len() != t {
        return Err(Error::width_mismatch(t, init.len()));
    }
    let mut state = init.clone();
    let ghost xs = seqs_view(inputs@);
    let mut envs: Vec<Env> = Vec::new();
    let ghost mut env_specs: Seq<EnvSpec> = Seq::empty();
    let mut c: usize = 0;
    proof {
        assert(xs.take(0) =~= Seq::<Seq<bool>>::empty());
    }
    while c < inputs.len()
        invariant
            c <= inputs@.len(),
            xs == seqs_view(inputs@),
            m == machine@,
            traceable(m, inputs@.len() as nat),
            sc == m.state_count,
            m.init.len() == total(widths_of(m.graph, m.inputs.take(sc as int))),
            nats(sws@) == widths_of(m.graph, m.inputs.take(sc as int)),
            nats(iws@) == widths_of(m.graph, m.inputs.skip(sc as int)),
            total(nats(sws@)) <= usize::MAX,
            total(nats(iws@)) <= usize::MAX,
            envs@.len() == c,
            env_specs.len() == c,
            forall|k: int| 0 <= k < c ==> #[trigger] env_view(envs@[k]@) == env_specs[k],
            trace_envs(m, m.init, xs.take(c as int)) == Ok::<(Seq<EnvSpec>, Seq<bool>), SimErr>((env_specs, state@)),
        decreases inputs@.len() - c,
    {
        proof {
            assert(xs.take(c + 1).drop_last() =~= xs.take(c as int));
            assert(xs.take(c + 1).last() == inputs@[c as int]@);
        }
        match trace_one(machine, &state, &inputs[c], &sws, &iws) {
            Ok((env, next)) => {
                proof {
                    env_specs = env_specs.push(env_view(env@));
                }
                envs.push(env);
                state = next;
            },
            Err(e) => {
                proof {
                    assert(trace_envs(m, m.init, xs.take(c + 1)) is Err);
                    lemma_trace_envs_err_sticks(m, m.init, xs, c + 1);
                }
                return Err(e);
            },
        }
        c = c + 1;
    }
    proof {
        assert(xs.take(c as int) =~= xs);
    }
    let mut s = String::new();
    push_header(&mut s, graph);
    let ghost head = s@;
    let mut k: usize = 0;
    proof {
        assert(env_specs.take(0) =~= Seq::<EnvSpec>::empty());
        assert(s@ =~= head + cycles_text(env_specs.take(0)));
    }
    while k < envs.len()
        invariant
            k <= envs@.len(),
            envs@.len() == env_specs.len(),
            envs@.len() == inputs@.len(),
            traceable(m, inputs@.len() as nat),
            forall|j: int| 0 <= j < envs@.len() ==> #[trigger] env_view(envs@[j]@) == env_specs[j],
            s@ == head + cycles_text(env_specs.take(k as int)),
        decreases envs@.len() - k,
    {
        proof {
            assert(k * 10 <= inputs@.len() * 10) by (nonlinear_arith)
                requires
                    k <= inputs@.len(),
            ;
        }
        push_cycle(&mut s, k, &envs[k]);
        proof {
            assert(env_specs.take(k + 1).drop_last() =~= env_specs.take(k as int));
            assert(env_specs.take(k + 1).last() == env_specs[k as int]);
        }
        k = k + 1;
    }
    proof {
        assert(env_specs.take(k as int) =~= env_specs);
        assert(s@ =~= Seq::<char>::empty() + header_text(graph@) + cycles_text(env_specs));
    }
    Ok(s)
}

/// Once a prefix of the cycles fails, the whole trace fails with that
/// error.
pub proof fn lemma_trace_envs_err_sticks(m: SyncSpec, s: Seq<bool>, xs: Seq<Seq<bool>>, k: int)
    requires
        0 <= k <= xs.len(),
        trace_envs(m, s, xs.take(k)) is Err,
    ensures
        trace_envs(m, s, xs) == trace_envs(m, s, xs.take(k)),
    decreases xs.len() - k,
{
    if k < xs.len() {
        assert(xs.take(k + 1).drop_last() =~= xs.take(k));
        lemma_trace_envs_err_sticks(m, s, xs, k + 1);
    } else {
        assert(xs.take(k) =~= xs);
    }
}

/// Whether a trace of `m` over `cycles` cycles is accepted (see
/// [`traceable`]): the state split fits both port lists, every op is
/// well formed, the input widths sum within a `usize`, and the time
/// stamps fit.
pub fn is_traceable<S, I, O>(m: &Sync<S, I, O>, cycles: usize) -> (r: bool)
    ensures
        r == traceable(m@, cycles as nat),
{
    let sc = m.state_wire_count();
    if sc > m.input_wires().len() || sc > m.output_wires().len() {
        return false;
    }
    if !graph_ops_checked(m.graph()) {
        return false;
    }
    if checked_total(&widths(m.graph(), m.input_wires())).is_none() {
        return false;
    }
    cycles.checked_mul(10).is_some()
}

} // verus!
