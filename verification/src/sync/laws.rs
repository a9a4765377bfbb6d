//! What composing machines does: one step of a sequential composite's
//! graph is a step of the first machine, then one of the second on the
//! first's data output; a side-by-side composite steps both at once;
//! closing a feedback loop feeds each cycle's data output into the
//! next.  One cycle and a whole run likewise.

use vstd::prelude::*;

use crate::circuit::arrow::{ids_below, instr_refs_below, remap_instrs, subst_wire, well_wired};
use crate::circuit::laws::{lemma_first_value_absent_ne, lemma_first_value_append, lemma_first_value_shift,
    lemma_first_value_subst, lemma_operands_ok, lemma_run_append, lemma_run_keeps_prefix,
    lemma_run_len, lemma_run_pad, lemma_run_related, lemma_subst_unmatched, related};
use crate::ir::graph::GraphSpec;
use crate::ir::wire::{WireId, WireTy};
use crate::sim::interp::{EnvSpec, SimErr, first_value, initial_env, interpret_spec, lookup, operands, run_instrs};
use crate::sim::testbench::{chunks, concat_all, cycle_spec, expand, initial_storage, lemma_total_prefix,
    lemma_total_split, repeat, run_from, run_spec, split_spec, storages_of, total, widths_of, wire_storage_in};
use crate::sync::compose::{compose_sync_spec, external_count, feedback_count, feedback_inputs, feedback_spec,
    par_sync_spec, shifted, wire_width_in, wires_width_in};
use crate::sync::machine::{SyncSpec, port_view, state_split_ok};

verus! {

/// Reading wires each of which holds a value reads those values.
pub(crate) proof fn lemma_operands_of_lookups(env: EnvSpec, ws: Seq<WireId>, vs: Seq<Seq<bool>>)
    requires
        ws.len() == vs.len(),
        forall|k: int| 0 <= k < ws.len() ==> lookup(env, #[trigger] ws[k]) == Some(vs[k]),
    ensures
        operands(env, ws) == Ok::<Seq<Seq<bool>>, SimErr>(vs),
    decreases ws.len(),
{
    if ws.len() > 0 {
        let wi = ws.drop_last();
        assert forall|k: int| 0 <= k < wi.len() implies lookup(env, #[trigger] wi[k]) == Some(vs.drop_last()[k]) by {
            assert(wi[k] == ws[k]);
        }
        lemma_operands_of_lookups(env, wi, vs.drop_last());
        assert(lookup(env, ws[ws.len() - 1]) == Some(vs[vs.len() - 1]));
        assert(ws.last() == ws[ws.len() - 1]);
        assert(vs.drop_last().push(vs.last()) =~= vs);
    } else {
        assert(vs =~= Seq::<Seq<bool>>::empty());
    }
}

/// The composite's starting environment: `f`'s, followed by `g`'s
/// holding only its state values.
proof fn lemma_compose_initial(f: SyncSpec, g: SyncSpec, svf: Seq<Seq<bool>>, svg: Seq<Seq<bool>>, ivf: Seq<Seq<bool>>)
    requires
        well_wired(port_view(f)),
        well_wired(port_view(g)),
        f.graph.wires.len() + g.graph.wires.len() <= usize::MAX,
        state_split_ok(f),
        state_split_ok(g),
        svf.len() == f.state_count,
        svg.len() == g.state_count,
    ensures
        ({
            let nf = f.graph.wires.len();
            let ng = g.graph.wires.len();
            let c = compose_sync_spec(f, g);
            initial_env(nf + ng, c.inputs, svf + svg + ivf) == initial_env(nf, f.inputs, svf + ivf) + initial_env(
                ng,
                g.inputs.take(g.state_count as int),
                svg,
            )
        }),
{
    let nf = f.graph.wires.len();
    let ng = g.graph.wires.len();
    let fsc = f.state_count as int;
    let gsc = g.state_count as int;
    let fsi = f.inputs.take(fsc);
    let fdi = f.inputs.skip(fsc);
    let gsi = g.inputs.take(gsc);
    let sgi = shifted(gsi, nf);
    let c = compose_sync_spec(f, g);
    let lhs = initial_env(nf + ng, c.inputs, svf + svg + ivf);
    let rhs = initial_env(nf, f.inputs, svf + ivf) + initial_env(ng, gsi, svg);
    assert(f.inputs =~= fsi + fdi);
    assert(ids_below(gsi, ng)) by {
        assert forall|k: int| 0 <= k < gsi.len() implies (#[trigger] gsi[k].0 as nat) < ng by {
            assert(gsi[k] == g.inputs[k]);
        }
    }
    assert forall|i: int| 0 <= i < lhs.len() implies lhs[i] == rhs[i] by {
        let x = i as nat;
        lemma_first_value_append(fsi + sgi, svf + svg, fdi, ivf, x);
        lemma_first_value_append(fsi, svf, sgi, svg, x);
        lemma_first_value_append(fsi, svf, fdi, ivf, x);
        if i < nf {
            assert forall|k: int| 0 <= k < sgi.len() implies (#[trigger] sgi[k]).0 != x by {
                assert((gsi[k].0 as nat) < ng);
            }
            lemma_first_value_absent_ne(sgi, svg, x);
        } else {
            assert forall|k: int| 0 <= k < fsi.len() implies (#[trigger] fsi[k]).0 != x by {
                assert(fsi[k] == f.inputs[k]);
                assert((f.inputs[k].0 as nat) < nf);
            }
            assert forall|k: int| 0 <= k < fdi.len() implies (#[trigger] fdi[k]).0 != x by {
                assert(fdi[k] == f.inputs[k + fsc]);
                assert((f.inputs[k + fsc].0 as nat) < nf);
            }
            lemma_first_value_absent_ne(fsi, svf, x);
            lemma_first_value_absent_ne(fdi, ivf, x);
            lemma_first_value_shift(gsi, svg, nf, ng, (i - nf) as nat);
        }
    }
    assert(lhs =~= rhs);
}

/// One cycle of `compose_sync(f, g)`, wire by wire: when `f`, run on
/// its state values `svf` and data input values `ivf`, outputs `fo`
/// (next state, then data), and `g`, run on its state values `svg` and
/// `f`'s data output, outputs `go`, the composite run on `svf`, `svg`
/// and `ivf` outputs `f`'s next state followed by `go`.  It holds for
/// well-wired machines whose wires together fit in a `usize`, where
/// `g`'s data input wires are none of its state inputs, none of the
/// wires its instructions write, and none of its outputs.
pub proof fn lemma_compose_sync_step(
    f: SyncSpec,
    g: SyncSpec,
    svf: Seq<Seq<bool>>,
    ivf: Seq<Seq<bool>>,
    svg: Seq<Seq<bool>>,
    fo: Seq<Seq<bool>>,
    go: Seq<Seq<bool>>,
)
    requires
        well_wired(port_view(f)),
        well_wired(port_view(g)),
        f.graph.wires.len() + g.graph.wires.len() <= usize::MAX,
        state_split_ok(f),
        state_split_ok(g),
        svf.len() == f.state_count,
        svg.len() == g.state_count,
        forall|j: int, k: int|
            0 <= j < g.state_count && g.state_count <= k < g.inputs.len() ==> #[trigger] g.inputs[j]
                != #[trigger] g.inputs[k],
        forall|j: int, k: int|
            0 <= j < g.graph.instrs.len() && g.state_count <= k < g.inputs.len() ==> (#[trigger] g.graph.instrs[j]).output
                != #[trigger] g.inputs[k],
        forall|j: int, k: int|
            0 <= j < g.outputs.len() && g.state_count <= k < g.inputs.len() ==> #[trigger] g.outputs[j]
                != #[trigger] g.inputs[k],
        interpret_spec(f.graph, f.inputs, svf + ivf) matches Ok(ef) && operands(ef, f.outputs) == Ok::<
            Seq<Seq<bool>>,
            SimErr,
        >(fo),
        interpret_spec(g.graph, g.inputs, svg + fo.skip(f.state_count as int)) matches Ok(eg) && operands(
            eg,
            g.outputs,
        ) == Ok::<Seq<Seq<bool>>, SimErr>(go),
    ensures
        interpret_spec(compose_sync_spec(f, g).graph, compose_sync_spec(f, g).inputs, svf + svg + ivf) matches Ok(ec)
            && operands(ec, compose_sync_spec(f, g).outputs) == Ok::<Seq<Seq<bool>>, SimErr>(
            fo.take(f.state_count as int) + go,
        ),
{
    let nf = f.graph.wires.len();
    let ng = g.graph.wires.len();
    let fsc = f.state_count as int;
    let gsc = g.state_count as int;
    let gsi = g.inputs.take(gsc);
    let gdi = g.inputs.skip(gsc);
    let fdo = f.outputs.skip(fsc);
    let fdv = fo.skip(fsc);
    let c = compose_sync_spec(f, g);
    let ef0 = initial_env(nf, f.inputs, svf + ivf);
    let ef = run_instrs(ef0, f.graph.instrs)->Ok_0;
    let eg0 = initial_env(ng, g.inputs, svg + fdv);
    let eg = run_instrs(eg0, g.graph.instrs)->Ok_0;
    let es0 = initial_env(ng, gsi, svg);
    let rg = remap_instrs(g.graph.instrs, gdi, fdo, nf);
    // The composite's start, and `f`'s part of the run.
    lemma_compose_initial(f, g, svf, svg, ivf);
    assert(c.graph.instrs == f.graph.instrs + rg);
    lemma_run_append(ef0 + es0, f.graph.instrs, rg);
    lemma_run_pad(ef0, es0, f.graph.instrs);
    lemma_run_len(ef0, f.graph.instrs);
    lemma_run_len(eg0, g.graph.instrs);
    lemma_operands_ok(ef, f.outputs);
    lemma_operands_ok(eg, g.outputs);
    // `g`'s start is related to the composite's after `f`.
    assert(ids_below(fdo, nf)) by {
        assert forall|k: int| 0 <= k < fdo.len() implies (#[trigger] fdo[k].0 as nat) < nf by {
            assert(fdo[k] == f.outputs[k + fsc]);
        }
    }
    assert forall|k: int| 0 <= k < fdo.len() implies lookup(ef, #[trigger] fdo[k]) == Some(fdv[k]) by {
        assert(fdo[k] == f.outputs[k + fsc]);
        assert(fdv[k] == fo[k + fsc]);
    }
    let ec0 = ef + es0;
    assert(related(ec0, eg0, gdi, fdo, nf)) by {
        assert(g.inputs =~= gsi + gdi);
        assert forall|x: nat| x < eg0.len() implies #[trigger] lookup(ec0, subst_wire(gdi, fdo, nf, WireId(x as usize)))
            == eg0[x as int] by {
            lemma_first_value_append(gsi, svg, gdi, fdv, x);
            lemma_first_value_subst(ef, gdi, fdo, fdv, nf, x);
            if let Some(v) = first_value(gsi, svg, x) {
                let wx = WireId(x as usize);
                assert forall|k: int| 0 <= k < gdi.len() implies gdi[k] != wx by {
                    if gdi[k] == wx {
                        lemma_first_value_present(gsi, svg, x);
                        let j = choose|j: int| 0 <= j < gsi.len() && gsi[j].0 == x;
                        assert(g.inputs[j] == gsi[j]);
                        assert(g.inputs[k + gsc] == gdi[k]);
                    }
                }
                lemma_subst_unmatched(gdi, fdo, nf, wx);
            }
        }
    }
    // `g`'s part of the run.
    assert forall|j: int| 0 <= j < g.graph.instrs.len() implies instr_refs_below(#[trigger] g.graph.instrs[j], eg0.len()) by {}
    assert forall|j: int, k: int| 0 <= j < g.graph.instrs.len() && 0 <= k < gdi.len() implies #[trigger] gdi[k] != (
    #[trigger] g.graph.instrs[j]).output by {
        assert(gdi[k] == g.inputs[k + gsc]);
    }
    lemma_run_related(ec0, eg0, gdi, fdo, nf, g.graph.instrs);
    let ec = run_instrs(ec0, rg)->Ok_0;
    // `g`'s writes all land past `f`'s wires.
    assert forall|j: int| 0 <= j < rg.len() implies (#[trigger] rg[j]).output.0 >= nf by {
        let o = g.graph.instrs[j].output;
        assert(instr_refs_below(g.graph.instrs[j], ng));
        assert forall|k: int| 0 <= k < gdi.len() implies gdi[k] != o by {
            assert(gdi[k] == g.inputs[k + gsc]);
        }
        lemma_subst_unmatched(gdi, fdo, nf, o);
    }
    lemma_run_keeps_prefix(ec0, rg, nf);
    assert(ec =~= ef + ec.skip(nf as int));
    // The outputs.
    let want = fo.take(fsc) + go;
    assert(c.outputs.len() == want.len());
    assert forall|k: int| 0 <= k < c.outputs.len() implies lookup(ec, #[trigger] c.outputs[k]) == Some(want[k]) by {
        if k < fsc {
            assert(c.outputs[k] == f.outputs[k]);
            assert((f.outputs[k].0 as nat) < nf);
        } else {
            let j = k - fsc;
            let o = g.outputs[j];
            assert((o.0 as nat) < ng);
            assert(c.outputs[k] == WireId((o.0 + nf) as usize)) by {
                if j < gsc {
                    assert(c.outputs[k] == shifted(g.outputs.take(gsc), nf)[j]);
                } else {
                    assert(c.outputs[k] == shifted(g.outputs.skip(gsc), nf)[j - gsc]);
                }
            }
            assert forall|m: int| 0 <= m < gdi.len() implies gdi[m] != o by {
                assert(gdi[m] == g.inputs[m + gsc]);
            }
            lemma_subst_unmatched(gdi, fdo, nf, o);
            assert(WireId((o.0 as nat) as usize) == o);
            assert(lookup(ec, subst_wire(gdi, fdo, nf, WireId((o.0 as nat) as usize))) == eg[o.0 as int]);
            assert(lookup(eg, g.outputs[j]) == Some(go[j]));
        }
    }
    lemma_operands_of_lookups(ec, c.outputs, want);
}

/// A wire with a value among `ws` is one of them.
proof fn lemma_first_value_present(ws: Seq<WireId>, vs: Seq<Seq<bool>>, idx: nat)
    requires
        first_value(ws, vs, idx) is Some,
    ensures
        exists|j: int| 0 <= j < ws.len() && ws[j].0 == idx,
    decreases ws.len(),
{
    if ws[0].0 != idx {
        lemma_first_value_present(ws.drop_first(), vs.drop_first(), idx);
        let j = choose|j: int| 0 <= j < ws.drop_first().len() && ws.drop_first()[j].0 == idx;
        assert(ws[j + 1] == ws.drop_first()[j]);
    }
}

/// The per-wire output values of one cycle of `m` from stored state
/// `state` on input `input` (next state, then data), as
/// [`cycle_spec`] computes them before concatenating.
pub open spec fn cycle_outputs(m: SyncSpec, state: Seq<bool>, input: Seq<bool>) -> Result<Seq<Seq<bool>>, SimErr> {
    let sc = m.state_count as int;
    match split_spec(state, storages_of(m.graph, m.inputs.take(sc))) {
        Err(e) => Err(e),
        Ok(sv) => match split_spec(input, widths_of(m.graph, m.inputs.skip(sc))) {
            Err(e) => Err(e),
            Ok(iv) => match interpret_spec(m.graph, m.inputs, sv + iv) {
                Err(e) => Err(e),
                Ok(env) => operands(env, m.outputs),
            },
        },
    }
}

/// The values of `ws` concatenated have the widths' total as length.
proof fn lemma_concat_len(vs: Seq<Seq<bool>>, ws: Seq<nat>)
    requires
        vs.len() == ws.len(),
        forall|k: int| 0 <= k < vs.len() ==> (#[trigger] vs[k]).len() == ws[k],
    ensures
        concat_all(vs).len() == total(ws),
    decreases vs.len(),
{
    if vs.len() > 0 {
        lemma_concat_len(vs.drop_last(), ws.drop_last());
    }
}

/// Cutting concatenated values at their own widths gives them back.
proof fn lemma_split_concat(vs: Seq<Seq<bool>>, ws: Seq<nat>)
    requires
        vs.len() == ws.len(),
        forall|k: int| 0 <= k < vs.len() ==> (#[trigger] vs[k]).len() == ws[k],
    ensures
        split_spec(concat_all(vs), ws) == Ok::<Seq<Seq<bool>>, SimErr>(vs),
    decreases vs.len(),
{
    lemma_concat_len(vs, ws);
    if vs.len() > 0 {
        let n = vs.len() - 1;
        let pv = vs.drop_last();
        let pw = ws.drop_last();
        lemma_split_concat(pv, pw);
        lemma_concat_len(pv, pw);
        let c = concat_all(vs);
        let pc = concat_all(pv);
        assert(c == pc + vs.last());
        assert forall|k: int| 0 <= k < vs.len() implies #[trigger] chunks(c, ws)[k] == vs[k] by {
            assert(pw.take(k) =~= ws.take(k));
            if k < n {
                assert(pw.take(k + 1) =~= ws.take(k + 1));
                lemma_total_prefix(pw, k + 1);
                assert(pw.take(k + 1).take(k) =~= pw.take(k));
                lemma_total_prefix(pw.take(k + 1), k);
                assert(chunks(pc, pw)[k] == vs[k]);
                assert(c.subrange(total(ws.take(k)) as int, total(ws.take(k + 1)) as int) =~= pc.subrange(
                    total(pw.take(k)) as int,
                    total(pw.take(k + 1)) as int,
                ));
            } else {
                assert(ws.take(k) =~= pw);
                assert(ws.take(k + 1) =~= ws);
                assert(c.subrange(pc.len() as int, c.len() as int) =~= vs.last());
            }
        }
        assert(chunks(c, ws) =~= vs);
    } else {
        assert(chunks(concat_all(vs), ws) =~= vs);
    }
}

/// Concatenating two lists of values concatenates their
/// concatenations.
proof fn lemma_concat_append(a: Seq<Seq<bool>>, b: Seq<Seq<bool>>)
    ensures
        concat_all(a + b) == concat_all(a) + concat_all(b),
    decreases b.len(),
{
    if b.len() == 0 {
        assert(a + b =~= a);
        assert(concat_all(a) + Seq::<bool>::empty() =~= concat_all(a));
    } else {
        assert((a + b).drop_last() =~= a + b.drop_last());
        assert((a + b).last() == b.last());
        lemma_concat_append(a, b.drop_last());
        assert(concat_all(a) + concat_all(b.drop_last()) + b.last() =~= concat_all(a) + (concat_all(b.drop_last())
            + b.last()));
    }
}

/// Cutting two concatenated bit strings at two lists of widths, each
/// matching its string's length, cuts each.
proof fn lemma_split_append(a: Seq<bool>, b: Seq<bool>, wa: Seq<nat>, wb: Seq<nat>)
    requires
        a.len() == total(wa),
        b.len() == total(wb),
    ensures
        split_spec(a + b, wa + wb) == Ok::<Seq<Seq<bool>>, SimErr>(chunks(a, wa) + chunks(b, wb)),
{
    let ws = wa + wb;
    let n = wa.len() as int;
    assert(ws.take(n) =~= wa);
    assert(ws.skip(n) =~= wb);
    lemma_total_split(ws, n);
    let c = a + b;
    assert forall|k: int| 0 <= k < ws.len() implies #[trigger] chunks(c, ws)[k] == (chunks(a, wa) + chunks(b, wb))[k] by {
        if k < n {
            assert(ws.take(k) =~= wa.take(k));
            assert(ws.take(k + 1) =~= wa.take(k + 1));
            lemma_total_prefix(wa, k + 1);
            assert(wa.take(k + 1).take(k) =~= wa.take(k));
            lemma_total_prefix(wa.take(k + 1), k);
            assert(c.subrange(total(wa.take(k)) as int, total(wa.take(k + 1)) as int) =~= a.subrange(
                total(wa.take(k)) as int,
                total(wa.take(k + 1)) as int,
            ));
        } else {
            let j = k - n;
            assert(ws.take(k).take(n) =~= wa);
            assert(ws.take(k).skip(n) =~= wb.take(j));
            lemma_total_split(ws.take(k), n);
            assert(ws.take(k + 1).take(n) =~= wa);
            assert(ws.take(k + 1).skip(n) =~= wb.take(j + 1));
            lemma_total_split(ws.take(k + 1), n);
            lemma_total_prefix(wb, j + 1);
            assert(wb.take(j + 1).take(j) =~= wb.take(j));
            lemma_total_prefix(wb.take(j + 1), j);
            assert(c.subrange(total(ws.take(k)) as int, total(ws.take(k + 1)) as int) =~= b.subrange(
                total(wb.take(j)) as int,
                total(wb.take(j + 1)) as int,
            ));
        }
    }
    assert(chunks(c, ws) =~= chunks(a, wa) + chunks(b, wb));
}

/// In the cycle of `f` from stored state `s` on input `x`, each of
/// `f`'s data outputs carries the width of the data input of `g` it
/// feeds.
pub open spec fn feeds_typed(f: SyncSpec, g: SyncSpec, s: Seq<bool>, x: Seq<bool>) -> bool {
    cycle_outputs(f, s, x) matches Ok(fo) ==> forall|k: int|
        0 <= k < g.inputs.len() - g.state_count ==> (#[trigger] fo[f.state_count + k]).len() == wire_width_in(
            g.graph,
            g.inputs[g.state_count + k],
        )
}

/// The wiring conditions of the composition laws: both machines
/// well-wired with their wires together within a `usize`, state split
/// off both port lists; `g`'s data input wires none of its state
/// inputs, none of the wires its instructions write, none of its
/// outputs; as many data outputs of `f` as data inputs of `g`.
pub open spec fn composable(f: SyncSpec, g: SyncSpec) -> bool {
    &&& well_wired(port_view(f))
    &&& well_wired(port_view(g))
    &&& f.graph.wires.len() + g.graph.wires.len() <= usize::MAX
    &&& state_split_ok(f)
    &&& state_split_ok(g)
    &&& forall|j: int, k: int|
        0 <= j < g.state_count && g.state_count <= k < g.inputs.len() ==> #[trigger] g.inputs[j]
            != #[trigger] g.inputs[k]
    &&& forall|j: int, k: int|
        0 <= j < g.graph.instrs.len() && g.state_count <= k < g.inputs.len() ==> (#[trigger] g.graph.instrs[j]).output
            != #[trigger] g.inputs[k]
    &&& forall|j: int, k: int|
        0 <= j < g.outputs.len() && g.state_count <= k < g.inputs.len() ==> #[trigger] g.outputs[j]
            != #[trigger] g.inputs[k]
    &&& f.outputs.len() - f.state_count == g.inputs.len() - g.state_count
}

/// The composite's state wires have `f`'s storage widths, then
/// `g`'s; its data inputs have `f`'s widths.
proof fn lemma_compose_widths(f: SyncSpec, g: SyncSpec)
    requires
        well_wired(port_view(f)),
        well_wired(port_view(g)),
        f.graph.wires.len() + g.graph.wires.len() <= usize::MAX,
        state_split_ok(f),
        state_split_ok(g),
    ensures
        ({
            let c = compose_sync_spec(f, g);
            let csc = (f.state_count + g.state_count) as int;
            &&& c.state_count == csc
            &&& storages_of(c.graph, c.inputs.take(csc)) == storages_of(f.graph, f.inputs.take(f.state_count as int))
                + storages_of(g.graph, g.inputs.take(g.state_count as int))
            &&& widths_of(c.graph, c.inputs.skip(csc)) == widths_of(f.graph, f.inputs.skip(f.state_count as int))
        }),
{
    let nf = f.graph.wires.len();
    let fsc = f.state_count as int;
    let gsc = g.state_count as int;
    let c = compose_sync_spec(f, g);
    let csc = fsc + gsc;
    let fsi = f.inputs.take(fsc);
    let fdi = f.inputs.skip(fsc);
    let gsi = g.inputs.take(gsc);
    let sgi = shifted(gsi, nf);
    assert(c.inputs.take(csc) =~= fsi + sgi);
    assert(c.inputs.skip(csc) =~= fdi);
    assert(c.graph.wires == f.graph.wires + g.graph.wires);
    let lhs = storages_of(c.graph, fsi + sgi);
    let rhs = storages_of(f.graph, fsi) + storages_of(g.graph, gsi);
    assert forall|k: int| 0 <= k < lhs.len() implies lhs[k] == rhs[k] by {
        if k < fsc {
            assert(fsi[k] == f.inputs[k]);
            assert((f.inputs[k].0 as nat) < nf);
        } else {
            let j = k - fsc;
            assert(gsi[j] == g.inputs[j]);
            assert((g.inputs[j].0 as nat) < g.graph.wires.len());
            assert(sgi[j] == WireId((gsi[j].0 + nf) as usize));
        }
    }
    assert(lhs =~= rhs);
    let lw = widths_of(c.graph, fdi);
    let rw = widths_of(f.graph, fdi);
    assert forall|k: int| 0 <= k < lw.len() implies lw[k] == rw[k] by {
        assert(fdi[k] == f.inputs[k + fsc]);
        assert((f.inputs[k + fsc].0 as nat) < nf);
    }
    assert(lw =~= rw);
}

/// One cycle of `compose_sync(f, g)`: from `f`'s stored state `sf`
/// followed by `g`'s `sg`, on `f`'s input `x`, the composite outputs
/// what `g` outputs on `f`'s output, and its next state is `f`'s next
/// state followed by `g`'s.  It holds under the wiring conditions of
/// [`composable`] when, in this cycle, each of `f`'s data outputs
/// carries the width of the data input of `g` it feeds.
pub proof fn lemma_compose_sync_cycle(f: SyncSpec, g: SyncSpec, sf: Seq<bool>, sg: Seq<bool>, x: Seq<bool>)
    requires
        composable(f, g),
        feeds_typed(f, g, sf, x),
        cycle_spec(f, sf, x) matches Ok(p) && cycle_spec(g, sg, p.0) is Ok,
    ensures
        ({
            let p = cycle_spec(f, sf, x)->Ok_0;
            let q = cycle_spec(g, sg, p.0)->Ok_0;
            cycle_spec(compose_sync_spec(f, g), sf + sg, x) == Ok::<(Seq<bool>, Seq<bool>), SimErr>((q.0, p.1 + q.1))
        }),
{
    let fsc = f.state_count as int;
    let gsc = g.state_count as int;
    let c = compose_sync_spec(f, g);
    let sfw = storages_of(f.graph, f.inputs.take(fsc));
    let sgw = storages_of(g.graph, g.inputs.take(gsc));
    let fw = widths_of(f.graph, f.inputs.skip(fsc));
    let gw = widths_of(g.graph, g.inputs.skip(gsc));
    let svf = split_spec(sf, sfw)->Ok_0;
    let ivf = split_spec(x, fw)->Ok_0;
    let ef = interpret_spec(f.graph, f.inputs, svf + ivf)->Ok_0;
    let fo = operands(ef, f.outputs)->Ok_0;
    let fdv = fo.skip(fsc);
    let p = cycle_spec(f, sf, x)->Ok_0;
    assert(cycle_outputs(f, sf, x) == Ok::<Seq<Seq<bool>>, SimErr>(fo));
    lemma_operands_ok(ef, f.outputs);
    assert(p.0 == concat_all(fdv));
    let svg = split_spec(sg, sgw)->Ok_0;
    assert(fdv.len() == gw.len());
    assert forall|k: int| 0 <= k < fdv.len() implies (#[trigger] fdv[k]).len() == gw[k] by {
        assert(fdv[k] == fo[fsc + k]);
        assert(g.inputs.skip(gsc)[k] == g.inputs[gsc + k]);
    }
    lemma_split_concat(fdv, gw);
    let eg = interpret_spec(g.graph, g.inputs, svg + fdv)->Ok_0;
    let go = operands(eg, g.outputs)->Ok_0;
    let q = cycle_spec(g, sg, p.0)->Ok_0;
    lemma_operands_ok(eg, g.outputs);
    assert(svf.len() == f.state_count) by {
        assert(sfw.len() == f.inputs.take(fsc).len());
    }
    assert(svg.len() == g.state_count) by {
        assert(sgw.len() == g.inputs.take(gsc).len());
    }
    lemma_compose_sync_step(f, g, svf, ivf, svg, fo, go);
    lemma_compose_widths(f, g);
    lemma_split_append(sf, sg, sfw, sgw);
    let csc = fsc + gsc;
    let ec = interpret_spec(c.graph, c.inputs, svf + svg + ivf)->Ok_0;
    let outs = fo.take(fsc) + go;
    assert(outs.take(csc) =~= fo.take(fsc) + go.take(gsc));
    assert(outs.skip(csc) =~= go.skip(gsc));
    lemma_concat_append(fo.take(fsc), go.take(gsc));
}

/// Runs of `compose_sync(f, g)` from `f`'s stored state followed by
/// `g`'s: the composite's outputs are what `g` outputs on `f`'s, its
/// final state `f`'s then `g`'s.
proof fn lemma_compose_run_from(f: SyncSpec, g: SyncSpec, sf: Seq<bool>, sg: Seq<bool>, xs: Seq<Seq<bool>>)
    requires
        composable(f, g),
        forall|k: int|
            0 <= k < xs.len() ==> (run_from(f, sf, xs.take(k)) matches Ok(p) ==> feeds_typed(f, g, p.1, #[trigger] xs[k])),
        run_from(f, sf, xs) matches Ok(p) && run_from(g, sg, p.0) is Ok,
    ensures
        ({
            let p = run_from(f, sf, xs)->Ok_0;
            let q = run_from(g, sg, p.0)->Ok_0;
            run_from(compose_sync_spec(f, g), sf + sg, xs) == Ok::<(Seq<Seq<bool>>, Seq<bool>), SimErr>((q.0, p.1 + q.1))
        }),
    decreases xs.len(),
{
    if xs.len() > 0 {
        let k = xs.len() - 1;
        let xp = xs.drop_last();
        let pp = run_from(f, sf, xp)->Ok_0;
        let cf = cycle_spec(f, pp.1, xs.last())->Ok_0;
        let p = run_from(f, sf, xs)->Ok_0;
        assert(p.0 == pp.0.push(cf.0));
        assert(p.0.drop_last() =~= pp.0);
        assert(p.0.last() == cf.0);
        let qq = run_from(g, sg, pp.0)->Ok_0;
        let cg = cycle_spec(g, qq.1, cf.0)->Ok_0;
        assert forall|j: int| 0 <= j < xp.len() implies (run_from(f, sf, xp.take(j)) matches Ok(p) ==> feeds_typed(
            f,
            g,
            p.1,
            #[trigger] xp[j],
        )) by {
            assert(xp.take(j) =~= xs.take(j));
            assert(xp[j] == xs[j]);
        }
        lemma_compose_run_from(f, g, sf, sg, xp);
        assert(xs.take(k) =~= xp);
        assert(xs[k] == xs.last());
        assert(feeds_typed(f, g, pp.1, xs[k]));
        lemma_compose_sync_cycle(f, g, pp.1, qq.1, xs.last());
    }
}

/// A machine `c` pairing `f` and `g` (`g`'s wires after `f`'s, the
/// state inputs `f`'s then `g`'s shifted, the initial state `f`'s then
/// `g`'s) stores at cycle 0 `f`'s initial storage followed by `g`'s, and
/// its state wires have `f`'s widths and storage widths then `g`'s.
proof fn lemma_pair_state(f: SyncSpec, g: SyncSpec, c: SyncSpec)
    requires
        well_wired(port_view(f)),
        well_wired(port_view(g)),
        f.graph.wires.len() + g.graph.wires.len() <= usize::MAX,
        state_split_ok(f),
        state_split_ok(g),
        c.graph.wires == f.graph.wires + g.graph.wires,
        c.state_count == f.state_count + g.state_count,
        c.inputs.take(c.state_count as int) == f.inputs.take(f.state_count as int) + shifted(
            g.inputs.take(g.state_count as int),
            f.graph.wires.len(),
        ),
        c.init == f.init + g.init,
    ensures
        widths_of(c.graph, c.inputs.take(c.state_count as int)) == widths_of(f.graph, f.inputs.take(f.state_count as int))
            + widths_of(g.graph, g.inputs.take(g.state_count as int)),
        storages_of(c.graph, c.inputs.take(c.state_count as int)) == storages_of(
            f.graph,
            f.inputs.take(f.state_count as int),
        ) + storages_of(g.graph, g.inputs.take(g.state_count as int)),
        f.init.len() == total(widths_of(f.graph, f.inputs.take(f.state_count as int))) && g.init.len() == total(
            widths_of(g.graph, g.inputs.take(g.state_count as int)),
        ) ==> c.init.len() == total(widths_of(c.graph, c.inputs.take(c.state_count as int))) && initial_storage(c)
            == initial_storage(f) + initial_storage(g),
{
    let nf = f.graph.wires.len();
    let fsc = f.state_count as int;
    let gsc = g.state_count as int;
    let csc = fsc + gsc;
    let fsi = f.inputs.take(fsc);
    let gsi = g.inputs.take(gsc);
    let sgi = shifted(gsi, nf);
    let csi = c.inputs.take(csc);
    let wf = widths_of(f.graph, fsi);
    let wg = widths_of(g.graph, gsi);
    let wc = widths_of(c.graph, csi);
    let stc = storages_of(c.graph, csi);
    let stf = storages_of(f.graph, fsi);
    let stg = storages_of(g.graph, gsi);
    assert forall|k: int| 0 <= k < wc.len() implies wc[k] == (wf + wg)[k] && stc[k] == (stf + stg)[k] by {
        if k < fsc {
            assert(fsi[k] == f.inputs[k]);
            assert((f.inputs[k].0 as nat) < nf);
        } else {
            let j = k - fsc;
            assert(gsi[j] == g.inputs[j]);
            assert((g.inputs[j].0 as nat) < g.graph.wires.len());
            assert(sgi[j] == WireId((gsi[j].0 + nf) as usize));
        }
    }
    assert(wc =~= wf + wg);
    assert(stc =~= stf + stg);
    if f.init.len() == total(wf) && g.init.len() == total(wg) {
        lemma_split_append(f.init, g.init, wf, wg);
        lemma_total_split(wf + wg, wf.len() as int);
        assert((wf + wg).take(wf.len() as int) =~= wf);
        assert((wf + wg).skip(wf.len() as int) =~= wg);
        let vf = chunks(f.init, wf);
        let vg = chunks(g.init, wg);
        let vc = chunks(c.init, wc);
        assert(vc == vf + vg);
        let ef = Seq::new(fsi.len(), |k: int| expand(f.graph, fsi[k], vf[k]));
        let eg = Seq::new(gsi.len(), |k: int| expand(g.graph, gsi[k], vg[k]));
        let ec = Seq::new(csi.len(), |k: int| expand(c.graph, csi[k], vc[k]));
        assert forall|k: int| 0 <= k < ec.len() implies ec[k] == (ef + eg)[k] by {
            if k < fsc {
                assert(fsi[k] == f.inputs[k]);
                assert((f.inputs[k].0 as nat) < nf);
            } else {
                let j = k - fsc;
                assert(gsi[j] == g.inputs[j]);
                assert((g.inputs[j].0 as nat) < g.graph.wires.len());
                assert(sgi[j] == WireId((gsi[j].0 + nf) as usize));
            }
        }
        assert(ec =~= ef + eg);
        lemma_concat_append(ef, eg);
    }
}

/// Running `compose_sync(f, g)` is running `f`, then running `g` on
/// `f`'s outputs.  It holds under the wiring conditions of
/// [`composable`], when in every cycle `f`'s data outputs carry the
/// widths of the data inputs of `g` they feed, and both runs succeed.
pub proof fn lemma_compose_sync_runs(f: SyncSpec, g: SyncSpec, xs: Seq<Seq<bool>>)
    requires
        composable(f, g),
        forall|k: int|
            0 <= k < xs.len() ==> (run_from(f, initial_storage(f), xs.take(k)) matches Ok(p) ==> feeds_typed(
                f,
                g,
                p.1,
                #[trigger] xs[k],
            )),
        run_spec(f, xs) matches Ok(ys) && run_spec(g, ys) is Ok,
    ensures
        run_spec(compose_sync_spec(f, g), xs) == run_spec(g, run_spec(f, xs)->Ok_0),
{
    let c = compose_sync_spec(f, g);
    assert(c.inputs.take(c.state_count as int) =~= f.inputs.take(f.state_count as int) + shifted(
        g.inputs.take(g.state_count as int),
        f.graph.wires.len(),
    ));
    lemma_pair_state(f, g, c);
    lemma_compose_run_from(f, g, initial_storage(f), initial_storage(g), xs);
}

/// Well-wired machines with their wires together within a `usize`
/// and their state split off both port lists: what running them side
/// by side needs.
pub open spec fn parallelable(f: SyncSpec, g: SyncSpec) -> bool {
    &&& well_wired(port_view(f))
    &&& well_wired(port_view(g))
    &&& f.graph.wires.len() + g.graph.wires.len() <= usize::MAX
    &&& state_split_ok(f)
    &&& state_split_ok(g)
}

/// The four parts of the side-by-side input list start out holding
/// `f`'s values below `f`'s wires and `g`'s past them.
proof fn lemma_par_initial(
    f: SyncSpec,
    g: SyncSpec,
    svf: Seq<Seq<bool>>,
    svg: Seq<Seq<bool>>,
    ivf: Seq<Seq<bool>>,
    ivg: Seq<Seq<bool>>,
)
    requires
        parallelable(f, g),
        svf.len() == f.state_count,
        svg.len() == g.state_count,
        ivf.len() == f.inputs.len() - f.state_count,
    ensures
        ({
            let nf = f.graph.wires.len();
            let ng = g.graph.wires.len();
            let c = par_sync_spec(f, g);
            initial_env(nf + ng, c.inputs, svf + svg + ivf + ivg) == initial_env(nf, f.inputs, svf + ivf) + initial_env(
                ng,
                g.inputs,
                svg + ivg,
            )
        }),
{
    let nf = f.graph.wires.len();
    let ng = g.graph.wires.len();
    let fsc = f.state_count as int;
    let gsc = g.state_count as int;
    let fsi = f.inputs.take(fsc);
    let fdi = f.inputs.skip(fsc);
    let gsi = g.inputs.take(gsc);
    let gdi = g.inputs.skip(gsc);
    let sgi = shifted(gsi, nf);
    let sgd = shifted(gdi, nf);
    let c = par_sync_spec(f, g);
    let lhs = initial_env(nf + ng, c.inputs, svf + svg + ivf + ivg);
    let rhs = initial_env(nf, f.inputs, svf + ivf) + initial_env(ng, g.inputs, svg + ivg);
    assert(f.inputs =~= fsi + fdi);
    assert(g.inputs =~= gsi + gdi);
    assert(ids_below(gsi, ng) && ids_below(gdi, ng)) by {
        assert forall|k: int| 0 <= k < gsi.len() implies (#[trigger] gsi[k].0 as nat) < ng by {
            assert(gsi[k] == g.inputs[k]);
        }
        assert forall|k: int| 0 <= k < gdi.len() implies (#[trigger] gdi[k].0 as nat) < ng by {
            assert(gdi[k] == g.inputs[k + gsc]);
        }
    }
    assert forall|i: int| 0 <= i < lhs.len() implies lhs[i] == rhs[i] by {
        let x = i as nat;
        lemma_first_value_append(fsi + sgi + fdi, svf + svg + ivf, sgd, ivg, x);
        lemma_first_value_append(fsi + sgi, svf + svg, fdi, ivf, x);
        lemma_first_value_append(fsi, svf, sgi, svg, x);
        lemma_first_value_append(fsi, svf, fdi, ivf, x);
        lemma_first_value_append(gsi, svg, gdi, ivg, (i - nf) as nat);
        if i < nf {
            assert forall|k: int| 0 <= k < sgi.len() implies (#[trigger] sgi[k]).0 != x by {
                assert((gsi[k].0 as nat) < ng);
            }
            assert forall|k: int| 0 <= k < sgd.len() implies (#[trigger] sgd[k]).0 != x by {
                assert((gdi[k].0 as nat) < ng);
            }
            lemma_first_value_absent_ne(sgi, svg, x);
            lemma_first_value_absent_ne(sgd, ivg, x);
        } else {
            assert forall|k: int| 0 <= k < fsi.len() implies (#[trigger] fsi[k]).0 != x by {
                assert(fsi[k] == f.inputs[k]);
                assert((f.inputs[k].0 as nat) < nf);
            }
            assert forall|k: int| 0 <= k < fdi.len() implies (#[trigger] fdi[k]).0 != x by {
                assert(fdi[k] == f.inputs[k + fsc]);
                assert((f.inputs[k + fsc].0 as nat) < nf);
            }
            lemma_first_value_absent_ne(fsi, svf, x);
            lemma_first_value_absent_ne(fdi, ivf, x);
            lemma_first_value_shift(gsi, svg, nf, ng, (i - nf) as nat);
            lemma_first_value_shift(gdi, ivg, nf, ng, (i - nf) as nat);
        }
    }
    assert(lhs =~= rhs);
}

/// One step of `par_sync(f, g)`, wire by wire: run on `f`'s state and
/// `g`'s, then `f`'s data input and `g`'s, the composite outputs `f`'s
/// next state, `g`'s, `f`'s data output and `g`'s, each as the machine
/// alone gives it.
pub proof fn lemma_par_sync_step(
    f: SyncSpec,
    g: SyncSpec,
    svf: Seq<Seq<bool>>,
    ivf: Seq<Seq<bool>>,
    svg: Seq<Seq<bool>>,
    ivg: Seq<Seq<bool>>,
    fo: Seq<Seq<bool>>,
    go: Seq<Seq<bool>>,
)
    requires
        parallelable(f, g),
        svf.len() == f.state_count,
        svg.len() == g.state_count,
        interpret_spec(f.graph, f.inputs, svf + ivf) matches Ok(ef) && operands(ef, f.outputs) == Ok::<
            Seq<Seq<bool>>,
            SimErr,
        >(fo),
        interpret_spec(g.graph, g.inputs, svg + ivg) matches Ok(eg) && operands(eg, g.outputs) == Ok::<
            Seq<Seq<bool>>,
            SimErr,
        >(go),
    ensures
        interpret_spec(par_sync_spec(f, g).graph, par_sync_spec(f, g).inputs, svf + svg + ivf + ivg) matches Ok(ec)
            && operands(ec, par_sync_spec(f, g).outputs) == Ok::<Seq<Seq<bool>>, SimErr>(
            fo.take(f.state_count as int) + go.take(g.state_count as int) + fo.skip(f.state_count as int) + go.skip(
                g.state_count as int,
            ),
        ),
{
    let nf = f.graph.wires.len();
    let ng = g.graph.wires.len();
    let fsc = f.state_count as int;
    let gsc = g.state_count as int;
    let e = Seq::<WireId>::empty();
    let c = par_sync_spec(f, g);
    let ef0 = initial_env(nf, f.inputs, svf + ivf);
    let ef = run_instrs(ef0, f.graph.instrs)->Ok_0;
    let eg0 = initial_env(ng, g.inputs, svg + ivg);
    let eg = run_instrs(eg0, g.graph.instrs)->Ok_0;
    let rg = remap_instrs(g.graph.instrs, e, e, nf);
    lemma_par_initial(f, g, svf, svg, ivf, ivg);
    assert(c.graph.instrs == f.graph.instrs + rg);
    lemma_run_append(ef0 + eg0, f.graph.instrs, rg);
    lemma_run_pad(ef0, eg0, f.graph.instrs);
    lemma_run_len(ef0, f.graph.instrs);
    lemma_run_len(eg0, g.graph.instrs);
    lemma_operands_ok(ef, f.outputs);
    lemma_operands_ok(eg, g.outputs);
    let ec0 = ef + eg0;
    assert(related(ec0, eg0, e, e, nf));
    assert forall|j: int| 0 <= j < g.graph.instrs.len() implies instr_refs_below(#[trigger] g.graph.instrs[j], eg0.len()) by {}
    lemma_run_related(ec0, eg0, e, e, nf, g.graph.instrs);
    let ec = run_instrs(ec0, rg)->Ok_0;
    assert forall|j: int| 0 <= j < rg.len() implies (#[trigger] rg[j]).output.0 >= nf by {
        assert(instr_refs_below(g.graph.instrs[j], ng));
    }
    lemma_run_keeps_prefix(ec0, rg, nf);
    let want = fo.take(fsc) + go.take(gsc) + fo.skip(fsc) + go.skip(gsc);
    let fso = f.outputs.take(fsc);
    let fdo = f.outputs.skip(fsc);
    let sgo = shifted(g.outputs.take(gsc), nf);
    let sgd = shifted(g.outputs.skip(gsc), nf);
    assert(c.outputs == fso + sgo + fdo + sgd);
    assert(c.outputs.len() == want.len());
    assert forall|k: int| 0 <= k < c.outputs.len() implies lookup(ec, #[trigger] c.outputs[k]) == Some(want[k]) by {
        let a = fsc;
        let b = fsc + gsc;
        let d = f.outputs.len() + gsc;
        if k < a {
            assert(c.outputs[k] == f.outputs[k]);
            assert((f.outputs[k].0 as nat) < nf);
            assert(want[k] == fo[k]);
        } else if k < b {
            let j = k - a;
            let o = g.outputs[j];
            assert(c.outputs[k] == sgo[j]);
            assert((o.0 as nat) < ng);
            assert(sgo[j] == WireId((o.0 + nf) as usize));
            assert(WireId((o.0 as nat) as usize) == o);
            assert(lookup(ec, subst_wire(e, e, nf, WireId((o.0 as nat) as usize))) == eg[o.0 as int]);
            assert(want[k] == go[j]);
        } else if k < d {
            let j = k - b;
            assert(c.outputs[k] == fdo[j]);
            assert(fdo[j] == f.outputs[j + fsc]);
            assert((f.outputs[j + fsc].0 as nat) < nf);
            assert(want[k] == fo[j + fsc]);
        } else {
            let j = k - d;
            let o = g.outputs[j + gsc];
            assert(c.outputs[k] == sgd[j]);
            assert((o.0 as nat) < ng);
            assert(sgd[j] == WireId((o.0 + nf) as usize));
            assert(WireId((o.0 as nat) as usize) == o);
            assert(lookup(ec, subst_wire(e, e, nf, WireId((o.0 as nat) as usize))) == eg[o.0 as int]);
            assert(want[k] == go[j + gsc]);
        }
    }
    lemma_operands_of_lookups(ec, c.outputs, want);
}

/// Each cycle's input of one list followed by the same cycle's of the
/// other.
pub open spec fn pairwise(a: Seq<Seq<bool>>, b: Seq<Seq<bool>>) -> Seq<Seq<bool>> {
    Seq::new(a.len(), |k: int| a[k] + b[k])
}

/// The side-by-side machine's data inputs have `f`'s widths, then
/// `g`'s.
proof fn lemma_par_data_widths(f: SyncSpec, g: SyncSpec)
    requires
        parallelable(f, g),
    ensures
        ({
            let c = par_sync_spec(f, g);
            widths_of(c.graph, c.inputs.skip(c.state_count as int)) == widths_of(
                f.graph,
                f.inputs.skip(f.state_count as int),
            ) + widths_of(g.graph, g.inputs.skip(g.state_count as int))
        }),
{
    let nf = f.graph.wires.len();
    let fsc = f.state_count as int;
    let gsc = g.state_count as int;
    let c = par_sync_spec(f, g);
    let fdi = f.inputs.skip(fsc);
    let gdi = g.inputs.skip(gsc);
    let sgd = shifted(gdi, nf);
    assert(c.inputs.skip(fsc + gsc) =~= fdi + sgd);
    let wc = widths_of(c.graph, fdi + sgd);
    let wf = widths_of(f.graph, fdi);
    let wg = widths_of(g.graph, gdi);
    assert forall|k: int| 0 <= k < wc.len() implies wc[k] == (wf + wg)[k] by {
        if k < fdi.len() {
            assert(fdi[k] == f.inputs[k + fsc]);
            assert((f.inputs[k + fsc].0 as nat) < nf);
        } else {
            let j = k - fdi.len();
            assert(gdi[j] == g.inputs[j + gsc]);
            assert((g.inputs[j + gsc].0 as nat) < g.graph.wires.len());
            assert(sgd[j] == WireId((gdi[j].0 + nf) as usize));
        }
    }
    assert(wc =~= wf + wg);
}

/// One cycle of `par_sync(f, g)`: from `f`'s stored state followed by
/// `g`'s, on `f`'s input followed by `g`'s, the composite outputs `f`'s
/// output followed by `g`'s and moves to `f`'s next state followed by
/// `g`'s.
pub proof fn lemma_par_sync_cycle(f: SyncSpec, g: SyncSpec, sf: Seq<bool>, sg: Seq<bool>, xf: Seq<bool>, xg: Seq<bool>)
    requires
        parallelable(f, g),
        cycle_spec(f, sf, xf) is Ok,
        cycle_spec(g, sg, xg) is Ok,
    ensures
        ({
            let p = cycle_spec(f, sf, xf)->Ok_0;
            let q = cycle_spec(g, sg, xg)->Ok_0;
            cycle_spec(par_sync_spec(f, g), sf + sg, xf + xg) == Ok::<(Seq<bool>, Seq<bool>), SimErr>(
                (p.0 + q.0, p.1 + q.1),
            )
        }),
{
    let fsc = f.state_count as int;
    let gsc = g.state_count as int;
    let c = par_sync_spec(f, g);
    let sfw = storages_of(f.graph, f.inputs.take(fsc));
    let sgw = storages_of(g.graph, g.inputs.take(gsc));
    let fw = widths_of(f.graph, f.inputs.skip(fsc));
    let gw = widths_of(g.graph, g.inputs.skip(gsc));
    let svf = split_spec(sf, sfw)->Ok_0;
    let ivf = split_spec(xf, fw)->Ok_0;
    let svg = split_spec(sg, sgw)->Ok_0;
    let ivg = split_spec(xg, gw)->Ok_0;
    let ef = interpret_spec(f.graph, f.inputs, svf + ivf)->Ok_0;
    let fo = operands(ef, f.outputs)->Ok_0;
    let eg = interpret_spec(g.graph, g.inputs, svg + ivg)->Ok_0;
    let go = operands(eg, g.outputs)->Ok_0;
    lemma_operands_ok(ef, f.outputs);
    lemma_operands_ok(eg, g.outputs);
    assert(svf.len() == f.state_count) by {
        assert(sfw.len() == f.inputs.take(fsc).len());
    }
    assert(svg.len() == g.state_count) by {
        assert(sgw.len() == g.inputs.take(gsc).len());
    }
    lemma_par_sync_step(f, g, svf, ivf, svg, ivg, fo, go);
    assert(c.inputs.take(c.state_count as int) =~= f.inputs.take(fsc) + shifted(
        g.inputs.take(gsc),
        f.graph.wires.len(),
    ));
    lemma_pair_state(f, g, c);
    lemma_par_data_widths(f, g);
    lemma_split_append(sf, sg, sfw, sgw);
    lemma_split_append(xf, xg, fw, gw);
    assert(svf + svg + (ivf + ivg) =~= svf + svg + ivf + ivg);
    let csc = fsc + gsc;
    let outs = fo.take(fsc) + go.take(gsc) + fo.skip(fsc) + go.skip(gsc);
    assert(outs.take(csc) =~= fo.take(fsc) + go.take(gsc));
    assert(outs.skip(csc) =~= fo.skip(fsc) + go.skip(gsc));
    lemma_concat_append(fo.take(fsc), go.take(gsc));
    lemma_concat_append(fo.skip(fsc), go.skip(gsc));
}

/// Runs of `par_sync(f, g)` from `f`'s stored state followed by `g`'s.
proof fn lemma_par_run_from(f: SyncSpec, g: SyncSpec, sf: Seq<bool>, sg: Seq<bool>, xfs: Seq<Seq<bool>>, xgs: Seq<Seq<bool>>)
    requires
        parallelable(f, g),
        xfs.len() == xgs.len(),
        run_from(f, sf, xfs) is Ok,
        run_from(g, sg, xgs) is Ok,
    ensures
        ({
            let p = run_from(f, sf, xfs)->Ok_0;
            let q = run_from(g, sg, xgs)->Ok_0;
            run_from(par_sync_spec(f, g), sf + sg, pairwise(xfs, xgs)) == Ok::<(Seq<Seq<bool>>, Seq<bool>), SimErr>(
                (pairwise(p.0, q.0), p.1 + q.1),
            )
        }),
    decreases xfs.len(),
{
    let xs = pairwise(xfs, xgs);
    if xfs.len() == 0 {
        assert(xs =~= Seq::<Seq<bool>>::empty());
        assert(pairwise(Seq::<Seq<bool>>::empty(), Seq::<Seq<bool>>::empty()) =~= Seq::<Seq<bool>>::empty());
    } else {
        let fp = xfs.drop_last();
        let gp = xgs.drop_last();
        assert(xs.drop_last() =~= pairwise(fp, gp));
        assert(xs.last() == xfs.last() + xgs.last());
        lemma_par_run_from(f, g, sf, sg, fp, gp);
        let pp = run_from(f, sf, fp)->Ok_0;
        let qq = run_from(g, sg, gp)->Ok_0;
        lemma_par_sync_cycle(f, g, pp.1, qq.1, xfs.last(), xgs.last());
        let cf = cycle_spec(f, pp.1, xfs.last())->Ok_0;
        let cg = cycle_spec(g, qq.1, xgs.last())->Ok_0;
        lemma_run_len_from(f, sf, fp);
        lemma_run_len_from(g, sg, gp);
        assert(pairwise(pp.0, qq.0).push(cf.0 + cg.0) =~= pairwise(pp.0.push(cf.0), qq.0.push(cg.0)));
    }
}

/// A successful run yields one output per cycle.
proof fn lemma_run_len_from(m: SyncSpec, s: Seq<bool>, xs: Seq<Seq<bool>>)
    ensures
        run_from(m, s, xs) matches Ok(p) ==> p.0.len() == xs.len(),
    decreases xs.len(),
{
    if xs.len() > 0 {
        lemma_run_len_from(m, s, xs.drop_last());
    }
}

/// Running `par_sync(f, g)` on each cycle's input of `f` followed by the
/// same cycle's of `g` outputs, each cycle, `f`'s output followed by
/// `g`'s: the two machines run independently.  It holds for
/// well-wired machines whose wires together fit in a `usize`, on as
/// many cycles for each, when both runs succeed.
pub proof fn lemma_par_sync_runs(f: SyncSpec, g: SyncSpec, xfs: Seq<Seq<bool>>, xgs: Seq<Seq<bool>>)
    requires
        parallelable(f, g),
        xfs.len() == xgs.len(),
        run_spec(f, xfs) is Ok,
        run_spec(g, xgs) is Ok,
    ensures
        run_spec(par_sync_spec(f, g), pairwise(xfs, xgs)) == Ok::<Seq<Seq<bool>>, SimErr>(
            pairwise(run_spec(f, xfs)->Ok_0, run_spec(g, xgs)->Ok_0),
        ),
{
    let c = par_sync_spec(f, g);
    assert(c.inputs.take(c.state_count as int) =~= f.inputs.take(f.state_count as int) + shifted(
        g.inputs.take(g.state_count as int),
        f.graph.wires.len(),
    ));
    lemma_pair_state(f, g, c);
    lemma_par_run_from(f, g, initial_storage(f), initial_storage(g), xfs, xgs);
}

/// Whether wire index `idx` is among `ws`.
spec fn names(ws: Seq<WireId>, idx: nat) -> bool {
    exists|k: int| 0 <= k < ws.len() && ws[k].0 == idx
}

/// A wire that none of `ws` names holds no value from them.
proof fn lemma_first_value_unnamed(ws: Seq<WireId>, vs: Seq<Seq<bool>>, idx: nat)
    requires
        !names(ws, idx),
    ensures
        first_value(ws, vs, idx) == None::<Seq<bool>>,
{
    assert forall|k: int| 0 <= k < ws.len() implies (#[trigger] ws[k]).0 != idx by {
        if ws[k].0 == idx {
            assert(names(ws, idx));
        }
    }
    lemma_first_value_absent_ne(ws, vs, idx);
}

/// What `f` sees in the feedback machine's step is what it sees alone:
/// the input list is only reordered (state, fed-back, external in place
/// of state, external, fed-back), which changes nothing when no wire is
/// both external and fed back.
pub proof fn lemma_feedback_step(f: SyncSpec, sv: Seq<Seq<bool>>, iv: Seq<Seq<bool>>, fv: Seq<Seq<bool>>, init: Seq<bool>)
    requires
        state_split_ok(f),
        f.inputs.len() - f.state_count >= feedback_count(f),
        sv.len() == f.state_count,
        iv.len() == external_count(f),
        fv.len() == feedback_count(f),
        forall|j: int, k: int|
            f.state_count <= j < f.state_count + external_count(f) <= k < f.inputs.len() ==> #[trigger] f.inputs[j].0
                != #[trigger] f.inputs[k].0,
    ensures
        interpret_spec(feedback_spec(f, init).graph, feedback_spec(f, init).inputs, sv + fv + iv) == interpret_spec(
            f.graph,
            f.inputs,
            sv + iv + fv,
        ),
{
    let sc = f.state_count as int;
    let ext = external_count(f) as int;
    let a = f.inputs.take(sc);
    let b = f.inputs.subrange(sc, sc + ext);
    let c = feedback_inputs(f);
    let m = feedback_spec(f, init);
    assert(m.inputs == a + c + b);
    assert(f.inputs =~= a + b + c);
    let n = f.graph.wires.len();
    let l = initial_env(n, a + c + b, sv + fv + iv);
    let r = initial_env(n, a + b + c, sv + iv + fv);
    assert forall|i: int| 0 <= i < n implies l[i] == r[i] by {
        let x = i as nat;
        lemma_first_value_append(a + c, sv + fv, b, iv, x);
        lemma_first_value_append(a, sv, c, fv, x);
        lemma_first_value_append(a + b, sv + iv, c, fv, x);
        lemma_first_value_append(a, sv, b, iv, x);
        if names(b, x) && names(c, x) {
            let j = choose|j: int| 0 <= j < b.len() && b[j].0 == x;
            let k = choose|k: int| 0 <= k < c.len() && c[k].0 == x;
            assert(b[j] == f.inputs[sc + j]);
            assert(c[k] == f.inputs[sc + ext + k]);
            assert(f.inputs[sc + j].0 != f.inputs[sc + ext + k].0);
        } else if !names(b, x) {
            lemma_first_value_unnamed(b, iv, x);
        } else {
            lemma_first_value_unnamed(c, fv, x);
        }
    }
    assert(l =~= r);
}

/// What closing `f`'s feedback loop needs for the laws below: the state
/// split off both port lists, at least as many inputs past the state as
/// data outputs, no wire both external and fed back, and every fed-back
/// wire storing its value at its own width (no array deeper than one
/// element).
pub open spec fn feedbackable(f: SyncSpec) -> bool {
    &&& state_split_ok(f)
    &&& f.inputs.len() - f.state_count >= feedback_count(f)
    &&& forall|j: int, k: int|
        f.state_count <= j < f.state_count + external_count(f) <= k < f.inputs.len() ==> #[trigger] f.inputs[j].0
            != #[trigger] f.inputs[k].0
    &&& forall|k: int|
        0 <= k < feedback_inputs(f).len() ==> wire_storage_in(f.graph, #[trigger] feedback_inputs(f)[k])
            == wire_width_in(f.graph, feedback_inputs(f)[k])
}

/// The total width of `f`'s external inputs: one cycle's input once its
/// feedback loop is closed.
pub open spec fn external_width(f: SyncSpec) -> nat {
    total(widths_of(f.graph, f.inputs.subrange(f.state_count as int, (f.state_count + external_count(f)) as int)))
}

/// One cycle of `feedback_sync(f, init)`: from `f`'s stored state `s`
/// followed by the fed-back value `o`, on the external input `x`, the
/// machine outputs what `f` outputs from `s` on `x` followed by `o`, and
/// moves to `f`'s next state followed by that output.
pub proof fn lemma_feedback_cycle(f: SyncSpec, init: Seq<bool>, s: Seq<bool>, o: Seq<bool>, x: Seq<bool>)
    requires
        feedbackable(f),
        x.len() == external_width(f),
        cycle_spec(f, s, x + o) is Ok,
    ensures
        ({
            let p = cycle_spec(f, s, x + o)->Ok_0;
            cycle_spec(feedback_spec(f, init), s + o, x) == Ok::<(Seq<bool>, Seq<bool>), SimErr>((p.0, p.1 + p.0))
        }),
{
    let sc = f.state_count as int;
    let ext = external_count(f) as int;
    let fbc = feedback_count(f) as int;
    let a = f.inputs.take(sc);
    let b = f.inputs.subrange(sc, sc + ext);
    let c = feedback_inputs(f);
    let m = feedback_spec(f, init);
    assert(m.inputs == a + c + b);
    assert(f.inputs.skip(sc) =~= b + c);
    assert(c.len() == fbc);
    assert(m.inputs.take(sc + fbc) =~= a + c);
    assert(m.inputs.skip(sc + fbc) =~= b);
    let sa = storages_of(f.graph, a);
    let sc_w = storages_of(f.graph, c);
    let wb = widths_of(f.graph, b);
    let wc = widths_of(f.graph, c);
    assert(storages_of(f.graph, a + c) =~= sa + sc_w);
    assert(widths_of(f.graph, b + c) =~= wb + wc);
    assert(sc_w =~= wc) by {
        assert forall|k: int| 0 <= k < c.len() implies sc_w[k] == wc[k] by {
            assert(wire_storage_in(f.graph, c[k]) == wire_width_in(f.graph, c[k]));
        }
    }
    let sv = split_spec(s, sa)->Ok_0;
    lemma_total_split(wb + wc, wb.len() as int);
    assert((wb + wc).take(wb.len() as int) =~= wb);
    assert((wb + wc).skip(wb.len() as int) =~= wc);
    lemma_split_append(x, o, wb, wc);
    let iv = chunks(x, wb);
    let fv = chunks(o, wc);
    lemma_split_append(s, o, sa, sc_w);
    assert(sv.len() == f.state_count) by {
        assert(sa.len() == a.len());
    }
    assert(iv.len() == external_count(f));
    assert(fv.len() == feedback_count(f));
    assert(sv + (iv + fv) =~= sv + iv + fv);
    lemma_feedback_step(f, sv, iv, fv, init);
    let env = interpret_spec(f.graph, f.inputs, sv + iv + fv)->Ok_0;
    let fo = operands(env, f.outputs)->Ok_0;
    lemma_operands_ok(env, f.outputs);
    let mo = fo.take(sc) + fo.skip(sc) + fo.skip(sc);
    assert(m.outputs == f.outputs.take(sc) + f.outputs.skip(sc) + f.outputs.skip(sc));
    assert forall|k: int| 0 <= k < m.outputs.len() implies lookup(env, #[trigger] m.outputs[k]) == Some(mo[k]) by {
        let lo = f.outputs.len() as int;
        if k < sc {
            assert(m.outputs[k] == f.outputs[k]);
        } else if k < lo {
            assert(m.outputs[k] == f.outputs[k]);
            assert(mo[k] == fo[k]);
        } else {
            assert(m.outputs[k] == f.outputs[k - lo + sc]);
            assert(mo[k] == fo[k - lo + sc]);
        }
    }
    lemma_operands_of_lookups(env, m.outputs, mo);
    assert(mo.take(sc + fbc) =~= fo.take(sc) + fo.skip(sc));
    assert(mo.skip(sc + fbc) =~= fo.skip(sc));
    lemma_concat_append(fo.take(sc), fo.skip(sc));
}

/// Runs `f` with its data output fed back: each cycle reads its
/// external input followed by the previous cycle's data output (`o` in
/// the first cycle).  The result is the data outputs in order, the
/// final stored state and the last fed-back value.
pub open spec fn run_fed_back(f: SyncSpec, s: Seq<bool>, o: Seq<bool>, xs: Seq<Seq<bool>>) -> Result<
    (Seq<Seq<bool>>, Seq<bool>, Seq<bool>),
    SimErr,
>
    decreases xs.len(),
{
    if xs.len() == 0 {
        Ok((Seq::empty(), s, o))
    } else {
        match run_fed_back(f, s, o, xs.drop_last()) {
            Err(e) => Err(e),
            Ok(p) => match cycle_spec(f, p.1, xs.last() + p.2) {
                Err(e) => Err(e),
                Ok(c) => Ok((p.0.push(c.0), c.1, c.0)),
            },
        }
    }
}

/// Runs of `feedback_sync(f, init)` from `f`'s stored state followed by
/// the fed-back value.
proof fn lemma_feedback_run_from(f: SyncSpec, init: Seq<bool>, s: Seq<bool>, o: Seq<bool>, xs: Seq<Seq<bool>>)
    requires
        feedbackable(f),
        forall|k: int| 0 <= k < xs.len() ==> (#[trigger] xs[k]).len() == external_width(f),
        run_fed_back(f, s, o, xs) is Ok,
    ensures
        ({
            let p = run_fed_back(f, s, o, xs)->Ok_0;
            run_from(feedback_spec(f, init), s + o, xs) == Ok::<(Seq<Seq<bool>>, Seq<bool>), SimErr>((p.0, p.1 + p.2))
        }),
    decreases xs.len(),
{
    if xs.len() > 0 {
        let xp = xs.drop_last();
        assert forall|k: int| 0 <= k < xp.len() implies (#[trigger] xp[k]).len() == external_width(f) by {
            assert(xp[k] == xs[k]);
        }
        lemma_feedback_run_from(f, init, s, o, xp);
        let p = run_fed_back(f, s, o, xp)->Ok_0;
        assert(xs.last() == xs[xs.len() - 1]);
        lemma_feedback_cycle(f, init, p.1, p.2, xs.last());
    }
}

/// An empty value repeated any number of times is empty.
proof fn lemma_repeat_empty(d: nat)
    ensures
        repeat(Seq::<bool>::empty(), d) == Seq::<bool>::empty(),
    decreases d,
{
    if d > 0 {
        lemma_repeat_empty((d - 1) as nat);
        assert(Seq::<bool>::empty() + Seq::<bool>::empty() =~= Seq::<bool>::empty());
    }
}

/// A wire stored at its own width stores a value of that width as it
/// is.
proof fn lemma_expand_plain(g: GraphSpec, w: WireId, v: Seq<bool>)
    requires
        wire_storage_in(g, w) == wire_width_in(g, w),
        v.len() == wire_width_in(g, w),
    ensures
        expand(g, w, v) == v,
{
    if (w.0 as nat) < g.wires.len() {
        match g.wires[w.0 as int] {
            WireTy::Array { element_width, depth } => {
                let e = element_width as nat;
                let d = depth as nat;
                assert(e * d == e);
                if d == 1 {
                    assert(repeat(v, 0) =~= Seq::<bool>::empty());
                    assert(Seq::<bool>::empty() + v =~= v);
                } else {
                    assert(e == 0) by (nonlinear_arith)
                        requires
                            e * d == e,
                            d != 1,
                    ;
                    assert(v =~= Seq::<bool>::empty());
                    lemma_repeat_empty(d);
                }
            },
            _ => {},
        }
    }
}

/// A chunk cut at a width has that width.
proof fn lemma_chunk_len(bits: Seq<bool>, ws: Seq<nat>, k: int)
    requires
        bits.len() == total(ws),
        0 <= k < ws.len(),
    ensures
        chunks(bits, ws)[k].len() == ws[k],
{
    assert(ws.take(k + 1).drop_last() =~= ws.take(k));
    lemma_total_prefix(ws, k + 1);
}

/// The summed widths of wires are the total of their widths.
proof fn lemma_wires_width_total(g: GraphSpec, ws: Seq<WireId>)
    ensures
        wires_width_in(g, ws) == total(widths_of(g, ws)),
    decreases ws.len(),
{
    if ws.len() > 0 {
        lemma_wires_width_total(g, ws.drop_last());
        assert(widths_of(g, ws).drop_last() =~= widths_of(g, ws.drop_last()));
    }
}

/// The feedback machine starts from `f`'s initial storage followed by
/// the initial fed-back value.
proof fn lemma_feedback_initial(f: SyncSpec, init: Seq<bool>)
    requires
        feedbackable(f),
        f.init.len() == total(widths_of(f.graph, f.inputs.take(f.state_count as int))),
        init.len() == wires_width_in(f.graph, feedback_inputs(f)),
    ensures
        ({
            let m = feedback_spec(f, init);
            &&& m.init.len() == total(widths_of(m.graph, m.inputs.take(m.state_count as int)))
            &&& initial_storage(m) == initial_storage(f) + init
        }),
{
    let m = feedback_spec(f, init);
    let sc = f.state_count as int;
    let a = f.inputs.take(sc);
    let c = feedback_inputs(f);
    let fbc = feedback_count(f) as int;
    assert(c.len() == fbc);
    assert(m.inputs.take(sc + fbc) =~= a + c);
    let wa = widths_of(f.graph, a);
    let wc = widths_of(f.graph, c);
    assert(widths_of(f.graph, a + c) =~= wa + wc);
    lemma_wires_width_total(f.graph, c);
    lemma_total_split(wa + wc, wa.len() as int);
    assert((wa + wc).take(wa.len() as int) =~= wa);
    assert((wa + wc).skip(wa.len() as int) =~= wc);
    lemma_split_append(f.init, init, wa, wc);
    let va = chunks(f.init, wa);
    let vc = chunks(init, wc);
    assert(chunks(m.init, wa + wc) == va + vc);
    let ea = Seq::new(a.len(), |k: int| expand(f.graph, a[k], va[k]));
    let em = Seq::new((a + c).len(), |k: int| expand(f.graph, (a + c)[k], (va + vc)[k]));
    assert forall|k: int| 0 <= k < em.len() implies em[k] == (ea + vc)[k] by {
        if k >= a.len() {
            let j = k - a.len();
            lemma_chunk_len(init, wc, j);
            lemma_expand_plain(f.graph, c[j], vc[j]);
        }
    }
    assert(em =~= ea + vc);
    lemma_concat_append(ea, vc);
    lemma_concat_chunks(init, wc);
}

/// Cutting bits at widths that add up to their length and joining the
/// pieces gives them back.
proof fn lemma_concat_chunks(bits: Seq<bool>, ws: Seq<nat>)
    requires
        bits.len() == total(ws),
    ensures
        concat_all(chunks(bits, ws)) == bits,
    decreases ws.len(),
{
    if ws.len() == 0 {
        assert(bits =~= Seq::<bool>::empty());
    } else {
        let pw = ws.drop_last();
        let n = total(pw) as int;
        let pb = bits.take(n);
        lemma_concat_chunks(pb, pw);
        assert forall|k: int| 0 <= k < pw.len() implies #[trigger] chunks(bits, ws)[k] == chunks(pb, pw)[k] by {
            assert(pw.take(k) =~= ws.take(k));
            assert(pw.take(k + 1) =~= ws.take(k + 1));
            lemma_total_prefix(pw, k + 1);
            assert(pw.take(k + 1).take(k) =~= pw.take(k));
            lemma_total_prefix(pw.take(k + 1), k);
            assert(total(ws) == n + ws.last());
            assert(bits.subrange(total(ws.take(k)) as int, total(ws.take(k + 1)) as int) =~= pb.subrange(
                total(pw.take(k)) as int,
                total(pw.take(k + 1)) as int,
            ));
        }
        assert(chunks(bits, ws).drop_last() =~= chunks(pb, pw));
        assert(ws.take(ws.len() - 1) =~= pw);
        assert(ws.take(ws.len() as int) =~= ws);
        assert(chunks(bits, ws).last() == bits.subrange(n, bits.len() as int));
        assert(pb + bits.subrange(n, bits.len() as int) =~= bits);
    }
}

/// Running `feedback_sync(f, init)` is running `f` with each cycle's
/// data output fed back as the last part of the next cycle's input,
/// `init` in the first.  It holds for a machine [`feedbackable`], with
/// its initial state and `init` of the widths `feedback_sync` accepts,
/// every cycle's input of the external wires' total width, and the run
/// successful.
pub proof fn lemma_feedback_runs(f: SyncSpec, init: Seq<bool>, xs: Seq<Seq<bool>>)
    requires
        feedbackable(f),
        f.init.len() == total(widths_of(f.graph, f.inputs.take(f.state_count as int))),
        init.len() == wires_width_in(f.graph, feedback_inputs(f)),
        forall|k: int| 0 <= k < xs.len() ==> (#[trigger] xs[k]).len() == external_width(f),
        run_fed_back(f, initial_storage(f), init, xs) is Ok,
    ensures
        run_spec(feedback_spec(f, init), xs) == Ok::<Seq<Seq<bool>>, SimErr>(
            run_fed_back(f, initial_storage(f), init, xs)->Ok_0.0,
        ),
{
    lemma_feedback_initial(f, init);
    lemma_feedback_run_from(f, init, initial_storage(f), init, xs);
}

} // verus!
