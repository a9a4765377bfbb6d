//! The category laws that composition and tensor keep: exactly, on the
//! arrows' data, both are associative and the empty arrow is a unit for
//! the tensor; as interpreted, composites run their parts in sequence
//! or side by side, and the wired identity is a unit of composition.

use vstd::prelude::*;

use crate::circuit::arrow::{
    ArrowSpec, compose_spec, ids_below, instr_refs_below, remap_instr, remap_instrs, remap_wires, subst_wire,
    tensor_spec, well_wired,
};
use crate::circuit::arrow::wire_ids;
use crate::circuit::category::empty_arrow_spec;
use crate::circuit::coherence::{braid_spec, pass_through_spec};
use crate::ir::instr::InstrSpec;
use crate::ir::wire::{WireId, WireTy};
use crate::sync::laws::lemma_operands_of_lookups;
use crate::sim::interp::{EnvSpec, SimErr, apply_op_spec, first_value, initial_env, interpret_spec, lookup, operands,
    run_instrs, step_spec};

verus! {

/// A wire that no joined input names is only shifted.
pub(crate) proof fn lemma_subst_unmatched(gin: Seq<WireId>, fout: Seq<WireId>, off: nat, x: WireId)
    requires
        forall|k: int| 0 <= k < gin.len() ==> gin[k] != x,
    ensures
        subst_wire(gin, fout, off, x) == WireId((x.0 + off) as usize),
    decreases gin.len(),
{
    if gin.len() > 0 && fout.len() > 0 {
        lemma_subst_unmatched(gin.drop_first(), fout.drop_first(), off, x);
    }
}

/// Substituting through `g` then through `f` is substituting through
/// the composite `f ; g` joined at `g`'s outputs.
proof fn lemma_subst_compose(
    hin: Seq<WireId>,
    gout: Seq<WireId>,
    gin: Seq<WireId>,
    fout: Seq<WireId>,
    nf: nat,
    ng: nat,
    w: WireId,
)
    requires
        ids_below(gin, ng),
        w.0 + nf + ng <= usize::MAX,
    ensures
        subst_wire(hin, remap_wires(gout, gin, fout, nf), nf + ng, w) == subst_wire(
            gin,
            fout,
            nf,
            subst_wire(hin, gout, ng, w),
        ),
    decreases hin.len(),
{
    let fgout = remap_wires(gout, gin, fout, nf);
    if hin.len() == 0 || gout.len() == 0 {
        let x = WireId((w.0 + ng) as usize);
        assert forall|k: int| 0 <= k < gin.len() implies gin[k] != x by {
            assert((gin[k].0 as nat) < ng);
        }
        lemma_subst_unmatched(gin, fout, nf, x);
    } else if hin[0] == w {
    } else {
        assert(fgout.drop_first() =~= remap_wires(gout.drop_first(), gin, fout, nf));
        lemma_subst_compose(hin.drop_first(), gout.drop_first(), gin, fout, nf, ng, w);
    }
}

/// Shifting by `b` then by `a` is shifting by `a + b`.
proof fn lemma_shift_shift(a: nat, b: nat, w: WireId)
    requires
        w.0 + a + b <= usize::MAX,
    ensures
        subst_wire(Seq::empty(), Seq::empty(), a, subst_wire(Seq::empty(), Seq::empty(), b, w)) == subst_wire(
            Seq::empty(),
            Seq::empty(),
            a + b,
            w,
        ),
{
}

/// The instructions of `h`, remapped into `g ; h` and then into
/// `f ; (g ; h)`, are those remapped into `(f ; g) ; h`.
proof fn lemma_remap_instrs_compose(
    is: Seq<InstrSpec>,
    hin: Seq<WireId>,
    gout: Seq<WireId>,
    gin: Seq<WireId>,
    fout: Seq<WireId>,
    nf: nat,
    ng: nat,
    nh: nat,
)
    requires
        ids_below(gin, ng),
        nf + ng + nh <= usize::MAX,
        forall|j: int| 0 <= j < is.len() ==> instr_refs_below(#[trigger] is[j], nh),
    ensures
        remap_instrs(is, hin, remap_wires(gout, gin, fout, nf), nf + ng) == remap_instrs(
            remap_instrs(is, hin, gout, ng),
            gin,
            fout,
            nf,
        ),
{
    let fgout = remap_wires(gout, gin, fout, nf);
    assert forall|j: int| 0 <= j < is.len() implies #[trigger] remap_instr(is[j], hin, fgout, nf + ng)
        == remap_instr(remap_instr(is[j], hin, gout, ng), gin, fout, nf) by {
        let i = is[j];
        assert(instr_refs_below(i, nh));
        lemma_subst_compose(hin, gout, gin, fout, nf, ng, i.output);
        let l = remap_instr(i, hin, fgout, nf + ng).inputs;
        let r = remap_instr(remap_instr(i, hin, gout, ng), gin, fout, nf).inputs;
        assert forall|k: int| 0 <= k < i.inputs.len() implies l[k] == r[k] by {
            assert((i.inputs[k].0 as nat) < nh);
            lemma_subst_compose(hin, gout, gin, fout, nf, ng, i.inputs[k]);
        }
        assert(l =~= r);
    }
    assert(remap_instrs(is, hin, fgout, nf + ng) =~= remap_instrs(remap_instrs(is, hin, gout, ng), gin, fout, nf));
}

/// Sequential composition is associative: `(f ; g) ; h` and
/// `f ; (g ; h)` are the same circuit, wire for wire, for well-wired
/// arrows whose wires together fit in a `usize`.
pub proof fn lemma_compose_assoc(f: ArrowSpec, g: ArrowSpec, h: ArrowSpec)
    requires
        well_wired(f),
        well_wired(g),
        well_wired(h),
        f.graph.wires.len() + g.graph.wires.len() + h.graph.wires.len() <= usize::MAX,
    ensures
        compose_spec(compose_spec(f, g), h) == compose_spec(f, compose_spec(g, h)),
{
    let nf = f.graph.wires.len();
    let ng = g.graph.wires.len();
    let nh = h.graph.wires.len();
    let lhs = compose_spec(compose_spec(f, g), h);
    let rhs = compose_spec(f, compose_spec(g, h));
    lemma_remap_instrs_compose(h.graph.instrs, h.inputs, g.outputs, g.inputs, f.outputs, nf, ng, nh);
    let rg = remap_instrs(g.graph.instrs, g.inputs, f.outputs, nf);
    let rh = remap_instrs(h.graph.instrs, h.inputs, g.outputs, ng);
    assert(remap_instrs(g.graph.instrs + rh, g.inputs, f.outputs, nf) =~= rg + remap_instrs(
        rh,
        g.inputs,
        f.outputs,
        nf,
    ));
    assert(lhs.graph.wires =~= rhs.graph.wires);
    assert(lhs.graph.instrs =~= rhs.graph.instrs);
    assert forall|k: int| 0 <= k < h.outputs.len() implies lhs.outputs[k] == rhs.outputs[k] by {
        assert((h.outputs[k].0 as nat) < nh);
        lemma_subst_compose(h.inputs, g.outputs, g.inputs, f.outputs, nf, ng, h.outputs[k]);
    }
    assert(lhs.outputs =~= rhs.outputs);
}

/// Parallel composition is associative: `(f ⊗ g) ⊗ h` and
/// `f ⊗ (g ⊗ h)` are the same circuit, wire for wire, for well-wired
/// arrows whose wires together fit in a `usize`.
pub proof fn lemma_tensor_assoc(f: ArrowSpec, g: ArrowSpec, h: ArrowSpec)
    requires
        well_wired(f),
        well_wired(g),
        well_wired(h),
        f.graph.wires.len() + g.graph.wires.len() + h.graph.wires.len() <= usize::MAX,
    ensures
        tensor_spec(tensor_spec(f, g), h) == tensor_spec(f, tensor_spec(g, h)),
{
    let nf = f.graph.wires.len();
    let ng = g.graph.wires.len();
    let nh = h.graph.wires.len();
    let e = Seq::<WireId>::empty();
    let lhs = tensor_spec(tensor_spec(f, g), h);
    let rhs = tensor_spec(f, tensor_spec(g, h));
    let is = h.graph.instrs;
    assert forall|j: int| 0 <= j < is.len() implies #[trigger] remap_instr(is[j], e, e, nf + ng) == remap_instr(
        remap_instr(is[j], e, e, ng),
        e,
        e,
        nf,
    ) by {
        let i = is[j];
        assert(instr_refs_below(i, nh));
        lemma_shift_shift(nf, ng, i.output);
        let l = remap_instr(i, e, e, nf + ng).inputs;
        let r = remap_instr(remap_instr(i, e, e, ng), e, e, nf).inputs;
        assert forall|k: int| 0 <= k < i.inputs.len() implies l[k] == r[k] by {
            assert((i.inputs[k].0 as nat) < nh);
            lemma_shift_shift(nf, ng, i.inputs[k]);
        }
        assert(l =~= r);
    }
    assert(remap_instrs(is, e, e, nf + ng) =~= remap_instrs(remap_instrs(is, e, e, ng), e, e, nf));
    let rg = remap_instrs(g.graph.instrs, e, e, nf);
    let rh = remap_instrs(is, e, e, ng);
    assert(remap_instrs(g.graph.instrs + rh, e, e, nf) =~= rg + remap_instrs(rh, e, e, nf));
    assert(lhs.graph.wires =~= rhs.graph.wires);
    assert(lhs.graph.instrs =~= rhs.graph.instrs);
    assert forall|k: int| 0 <= k < h.inputs.len() implies remap_wires(h.inputs, e, e, nf + ng)[k] == remap_wires(
        remap_wires(h.inputs, e, e, ng),
        e,
        e,
        nf,
    )[k] by {
        assert((h.inputs[k].0 as nat) < nh);
        lemma_shift_shift(nf, ng, h.inputs[k]);
    }
    assert forall|k: int| 0 <= k < h.outputs.len() implies remap_wires(h.outputs, e, e, nf + ng)[k]
        == remap_wires(remap_wires(h.outputs, e, e, ng), e, e, nf)[k] by {
        assert((h.outputs[k].0 as nat) < nh);
        lemma_shift_shift(nf, ng, h.outputs[k]);
    }
    assert(remap_wires(g.inputs + remap_wires(h.inputs, e, e, ng), e, e, nf) =~= remap_wires(g.inputs, e, e, nf)
        + remap_wires(h.inputs, e, e, nf + ng));
    assert(remap_wires(g.outputs + remap_wires(h.outputs, e, e, ng), e, e, nf) =~= remap_wires(g.outputs, e, e, nf)
        + remap_wires(h.outputs, e, e, nf + ng));
    assert(lhs.inputs =~= rhs.inputs);
    assert(lhs.outputs =~= rhs.outputs);
}

/// Shifting by nothing leaves every wire in place.
proof fn lemma_shift_zero_wires(ws: Seq<WireId>)
    ensures
        remap_wires(ws, Seq::empty(), Seq::empty(), 0) == ws,
{
    assert(remap_wires(ws, Seq::empty(), Seq::empty(), 0) =~= ws);
}

/// The empty arrow (what `Circuit::id` gives) is a left and right unit
/// for parallel composition: `id ⊗ f` and `f ⊗ id` are `f`, wire for
/// wire.
pub proof fn lemma_tensor_unit(e: ArrowSpec, f: ArrowSpec)
    requires
        empty_arrow_spec(e),
    ensures
        tensor_spec(e, f) == f,
        tensor_spec(f, e) == f,
{
    let z = Seq::<WireId>::empty();
    let is = f.graph.instrs;
    assert forall|j: int| 0 <= j < is.len() implies #[trigger] remap_instr(is[j], z, z, 0) == is[j] by {
        lemma_shift_zero_wires(is[j].inputs);
        assert(is[j].inputs.map_values(|x: WireId| subst_wire(z, z, 0, x)) == remap_wires(is[j].inputs, z, z, 0));
    }
    assert(remap_instrs(is, z, z, 0) =~= is);
    lemma_shift_zero_wires(f.inputs);
    lemma_shift_zero_wires(f.outputs);
    assert(tensor_spec(e, f).graph.wires =~= f.graph.wires);
    assert(tensor_spec(e, f).graph.instrs =~= f.graph.instrs);
    assert(tensor_spec(e, f).inputs =~= f.inputs);
    assert(tensor_spec(e, f).outputs =~= f.outputs);
    let ne = f.graph.wires.len();
    assert(remap_instrs(e.graph.instrs, z, z, ne) =~= Seq::<InstrSpec>::empty());
    assert(tensor_spec(f, e).graph.wires =~= f.graph.wires);
    assert(tensor_spec(f, e).graph.instrs =~= f.graph.instrs);
    assert(tensor_spec(f, e).inputs =~= f.inputs);
    assert(tensor_spec(f, e).outputs =~= f.outputs);
}

/// A successful run keeps the environment's length.
pub(crate) proof fn lemma_run_len(env: EnvSpec, is: Seq<InstrSpec>)
    ensures
        run_instrs(env, is) matches Ok(e) ==> e.len() == env.len(),
    decreases is.len(),
{
    if is.len() > 0 {
        lemma_run_len(env, is.drop_last());
    }
}

/// Running `a` then `b` is running `a + b`.
pub(crate) proof fn lemma_run_append(env: EnvSpec, a: Seq<InstrSpec>, b: Seq<InstrSpec>)
    ensures
        run_instrs(env, a + b) == match run_instrs(env, a) {
            Ok(e) => run_instrs(e, b),
            Err(x) => Err(x),
        },
    decreases b.len(),
{
    if b.len() == 0 {
        assert(a + b =~= a);
    } else {
        assert((a + b).drop_last() =~= a + b.drop_last());
        assert((a + b).last() == b.last());
        lemma_run_append(env, a, b.drop_last());
    }
}

/// The values a successful read returns, wire by wire.
pub(crate) proof fn lemma_operands_ok(env: EnvSpec, ws: Seq<WireId>)
    ensures
        operands(env, ws) matches Ok(vs) ==> vs.len() == ws.len() && forall|k: int|
            0 <= k < ws.len() ==> lookup(env, #[trigger] ws[k]) == Some(vs[k]),
    decreases ws.len(),
{
    if ws.len() > 0 {
        lemma_operands_ok(env, ws.drop_last());
        if let Ok(vs) = operands(env, ws) {
            assert forall|k: int| 0 <= k < ws.len() implies lookup(env, #[trigger] ws[k]) == Some(vs[k]) by {
                if k < ws.len() - 1 {
                    assert(ws.drop_last()[k] == ws[k]);
                }
            }
        }
    }
}

/// Reading wires below `n` does not see what follows the first `n`
/// entries.
pub(crate) proof fn lemma_operands_pad(env: EnvSpec, p: EnvSpec, ws: Seq<WireId>)
    requires
        ids_below(ws, env.len()),
    ensures
        operands(env + p, ws) == operands(env, ws),
    decreases ws.len(),
{
    if ws.len() > 0 {
        assert(ids_below(ws.drop_last(), env.len()));
        lemma_operands_pad(env, p, ws.drop_last());
        assert((ws.last().0 as nat) < env.len());
    }
}

/// Instructions that touch only the first `env.len()` wires run the
/// same with anything appended, which they leave alone.
pub(crate) proof fn lemma_run_pad(env: EnvSpec, p: EnvSpec, is: Seq<InstrSpec>)
    requires
        forall|j: int| 0 <= j < is.len() ==> instr_refs_below(#[trigger] is[j], env.len()),
    ensures
        run_instrs(env + p, is) == match run_instrs(env, is) {
            Ok(e) => Ok::<EnvSpec, SimErr>(e + p),
            Err(x) => Err(x),
        },
    decreases is.len(),
{
    if is.len() > 0 {
        let init = is.drop_last();
        assert forall|j: int| 0 <= j < init.len() implies instr_refs_below(#[trigger] init[j], env.len()) by {
            assert(init[j] == is[j]);
        }
        lemma_run_pad(env, p, init);
        lemma_run_len(env, init);
        if let Ok(e) = run_instrs(env, init) {
            let i = is.last();
            assert(instr_refs_below(i, env.len()));
            assert(ids_below(i.inputs, e.len()));
            lemma_operands_pad(e, p, i.inputs);
            if let Ok(vs) = operands(e, i.inputs) {
                if let Ok(r) = apply_op_spec(i.op, vs) {
                    assert((e + p).update(i.output.0 as int, Some(r)) =~= e.update(i.output.0 as int, Some(r)) + p);
                }
            }
        }
    }
}

/// Where the substitution of `f ; g` sends `x`: to `fout[k]` for the
/// first joined input `gin[k]` equal to `x` (the index returned), or,
/// with `-1` returned, past the first circuit's `off` wires.
pub(crate) proof fn lemma_subst_index(gin: Seq<WireId>, fout: Seq<WireId>, off: nat, x: WireId) -> (k: int)
    ensures
        (0 <= k < gin.len() && k < fout.len() && gin[k] == x && subst_wire(gin, fout, off, x) == fout[k]) || (k
            == -1 && subst_wire(gin, fout, off, x) == WireId((x.0 + off) as usize)),
    decreases gin.len(),
{
    if gin.len() == 0 || fout.len() == 0 {
        -1
    } else if gin[0] == x {
        0
    } else {
        let k = lemma_subst_index(gin.drop_first(), fout.drop_first(), off, x);
        if k == -1 {
            -1
        } else {
            k + 1
        }
    }
}

/// The composite's environment `ec` agrees with `g`'s own environment
/// `eg` through the wire substitution of `f ; g`.
pub(crate) open spec fn related(ec: EnvSpec, eg: EnvSpec, gin: Seq<WireId>, fout: Seq<WireId>, nf: nat) -> bool {
    &&& ec.len() == nf + eg.len()
    &&& forall|x: nat|
        x < eg.len() ==> #[trigger] lookup(ec, subst_wire(gin, fout, nf, WireId(x as usize))) == eg[x as int]
}

/// Reading `g`'s wires in its own environment reads the substituted
/// wires in the composite's.
pub(crate) proof fn lemma_operands_related(
    ec: EnvSpec,
    eg: EnvSpec,
    gin: Seq<WireId>,
    fout: Seq<WireId>,
    nf: nat,
    ws: Seq<WireId>,
)
    requires
        related(ec, eg, gin, fout, nf),
        ids_below(ws, eg.len()),
    ensures
        operands(eg, ws) matches Ok(vs) ==> operands(ec, remap_wires(ws, gin, fout, nf)) == Ok::<
            Seq<Seq<bool>>,
            SimErr,
        >(vs),
    decreases ws.len(),
{
    if ws.len() > 0 {
        assert(remap_wires(ws, gin, fout, nf).drop_last() =~= remap_wires(ws.drop_last(), gin, fout, nf));
        assert(ids_below(ws.drop_last(), eg.len()));
        lemma_operands_related(ec, eg, gin, fout, nf, ws.drop_last());
        let w = ws.last();
        assert((w.0 as nat) < eg.len());
        assert(WireId((w.0 as nat) as usize) == w);
        assert(lookup(ec, subst_wire(gin, fout, nf, WireId((w.0 as nat) as usize))) == eg[w.0 as int]);
    }
}

/// The substitution of `f ; g` keeps distinct wires of `g` apart when
/// `f`'s outputs are distinct, or when one of them is no joined input.
proof fn lemma_subst_apart(gin: Seq<WireId>, fout: Seq<WireId>, nf: nat, x: WireId, o: WireId)
    requires
        x != o,
        ids_below(fout, nf),
        x.0 + nf <= usize::MAX,
        o.0 + nf <= usize::MAX,
        fout.no_duplicates() || forall|k: int| 0 <= k < gin.len() ==> gin[k] != o,
    ensures
        subst_wire(gin, fout, nf, x) != subst_wire(gin, fout, nf, o),
{
    let kx = lemma_subst_index(gin, fout, nf, x);
    let ko = lemma_subst_index(gin, fout, nf, o);
    if kx >= 0 {
        assert((fout[kx].0 as nat) < nf);
    }
    if ko >= 0 {
        assert((fout[ko].0 as nat) < nf);
    }
}

/// One instruction of `g`, run in `g`'s environment and (substituted)
/// in the composite's, keeps the two related.
proof fn lemma_step_related(ec: EnvSpec, eg: EnvSpec, gin: Seq<WireId>, fout: Seq<WireId>, nf: nat, i: InstrSpec)
    requires
        related(ec, eg, gin, fout, nf),
        instr_refs_below(i, eg.len()),
        ids_below(fout, nf),
        nf + eg.len() <= usize::MAX,
        fout.no_duplicates() || forall|k: int| 0 <= k < gin.len() ==> gin[k] != i.output,
    ensures
        step_spec(eg, i) matches Ok(eg2) ==> (step_spec(ec, remap_instr(i, gin, fout, nf)) matches Ok(ec2) && related(
            ec2,
            eg2,
            gin,
            fout,
            nf,
        )),
{
    let ri = remap_instr(i, gin, fout, nf);
    assert(ri.inputs =~= remap_wires(i.inputs, gin, fout, nf));
    assert(ids_below(i.inputs, eg.len()));
    lemma_operands_related(ec, eg, gin, fout, nf, i.inputs);
    if let Ok(eg2) = step_spec(eg, i) {
        let vs = operands(eg, i.inputs)->Ok_0;
        let r = apply_op_spec(i.op, vs)->Ok_0;
        let o = i.output;
        let so = subst_wire(gin, fout, nf, o);
        let ko = lemma_subst_index(gin, fout, nf, o);
        if ko >= 0 {
            assert((fout[ko].0 as nat) < nf);
        }
        assert((so.0 as nat) < ec.len());
        let ec2 = ec.update(so.0 as int, Some(r));
        assert(eg2 == eg.update(o.0 as int, Some(r)));
        assert forall|x: nat| x < eg2.len() implies #[trigger] lookup(ec2, subst_wire(gin, fout, nf, WireId(x as usize)))
            == eg2[x as int] by {
            let wx = WireId(x as usize);
            let sx = subst_wire(gin, fout, nf, wx);
            assert(lookup(ec, sx) == eg[x as int]);
            if x == o.0 {
                assert(wx == o);
            } else {
                lemma_subst_apart(gin, fout, nf, wx, o);
                let kx = lemma_subst_index(gin, fout, nf, wx);
                if kx >= 0 {
                    assert((fout[kx].0 as nat) < nf);
                }
            }
        }
    }
}

/// `g`'s instructions, run in `g`'s environment and (substituted) in
/// the composite's, keep the two related.
pub(crate) proof fn lemma_run_related(ec: EnvSpec, eg: EnvSpec, gin: Seq<WireId>, fout: Seq<WireId>, nf: nat, is: Seq<InstrSpec>)
    requires
        related(ec, eg, gin, fout, nf),
        ids_below(fout, nf),
        nf + eg.len() <= usize::MAX,
        forall|j: int| 0 <= j < is.len() ==> instr_refs_below(#[trigger] is[j], eg.len()),
        fout.no_duplicates() || forall|j: int, k: int|
            0 <= j < is.len() && 0 <= k < gin.len() ==> #[trigger] gin[k] != (#[trigger] is[j]).output,
    ensures
        run_instrs(eg, is) matches Ok(eg2) ==> (run_instrs(ec, remap_instrs(is, gin, fout, nf)) matches Ok(ec2)
            && related(ec2, eg2, gin, fout, nf)),
    decreases is.len(),
{
    if is.len() > 0 {
        let init = is.drop_last();
        assert(remap_instrs(is, gin, fout, nf).drop_last() =~= remap_instrs(init, gin, fout, nf));
        assert forall|j: int| 0 <= j < init.len() implies instr_refs_below(#[trigger] init[j], eg.len()) by {
            assert(init[j] == is[j]);
        }
        if !fout.no_duplicates() {
            assert forall|j: int, k: int| 0 <= j < init.len() && 0 <= k < gin.len() implies #[trigger] gin[k] != (
            #[trigger] init[j]).output by {
                assert(init[j] == is[j]);
            }
        }
        lemma_run_related(ec, eg, gin, fout, nf, init);
        lemma_run_len(eg, init);
        if let Ok(egm) = run_instrs(eg, init) {
            let ecm = run_instrs(ec, remap_instrs(init, gin, fout, nf))->Ok_0;
            let i = is.last();
            assert(instr_refs_below(i, eg.len()));
            if !fout.no_duplicates() {
                assert forall|k: int| 0 <= k < gin.len() implies gin[k] != i.output by {
                    assert(is[is.len() - 1] == i);
                }
            }
            lemma_step_related(ecm, egm, gin, fout, nf, i);
        }
    }
}

/// The value `g` starts with on wire `x` is what the substituted wire
/// holds after `f`: the joined output's value, or nothing on a wire
/// shifted past `f`'s.
pub(crate) proof fn lemma_first_value_subst(ef: EnvSpec, gin: Seq<WireId>, fout: Seq<WireId>, us: Seq<Seq<bool>>, nf: nat, x: nat)
    requires
        us.len() == fout.len(),
        ids_below(fout, nf),
        x <= usize::MAX,
        forall|k: int| 0 <= k < fout.len() ==> lookup(ef, #[trigger] fout[k]) == Some(us[k]),
    ensures
        match first_value(gin, us, x) {
            Some(v) => lookup(ef, subst_wire(gin, fout, nf, WireId(x as usize))) == Some(v) && (subst_wire(
                gin,
                fout,
                nf,
                WireId(x as usize),
            ).0 as nat) < nf,
            None => subst_wire(gin, fout, nf, WireId(x as usize)) == WireId((x + nf) as usize),
        },
    decreases gin.len(),
{
    if gin.len() == 0 || us.len() == 0 {
    } else if gin[0].0 == x {
        assert(gin[0] == WireId(x as usize));
        assert((fout[0].0 as nat) < nf);
    } else {
        assert(gin[0] != WireId(x as usize));
        let fo = fout.drop_first();
        assert forall|k: int| 0 <= k < fo.len() implies lookup(ef, #[trigger] fo[k]) == Some(us.drop_first()[k]) by {
            assert(fo[k] == fout[k + 1]);
        }
        assert(ids_below(fo, nf));
        lemma_first_value_subst(ef, gin.drop_first(), fo, us.drop_first(), nf, x);
    }
}

/// After `f` has run in the composite, its environment (with `g`'s
/// wires still empty) is related to `g`'s starting environment.
proof fn lemma_initial_related(ef: EnvSpec, gin: Seq<WireId>, fout: Seq<WireId>, us: Seq<Seq<bool>>, nf: nat, ng: nat)
    requires
        ef.len() == nf,
        us.len() == fout.len(),
        ids_below(fout, nf),
        nf + ng <= usize::MAX,
        forall|k: int| 0 <= k < fout.len() ==> lookup(ef, #[trigger] fout[k]) == Some(us[k]),
    ensures
        related(ef + Seq::new(ng, |i: int| None::<Seq<bool>>), initial_env(ng, gin, us), gin, fout, nf),
{
    let ec = ef + Seq::new(ng, |i: int| None::<Seq<bool>>);
    let eg = initial_env(ng, gin, us);
    assert forall|x: nat| x < eg.len() implies #[trigger] lookup(ec, subst_wire(gin, fout, nf, WireId(x as usize)))
        == eg[x as int] by {
        lemma_first_value_subst(ef, gin, fout, us, nf, x);
    }
}

/// Before any instruction, the composite's environment is `f`'s
/// starting one with `g`'s wires empty.
proof fn lemma_initial_env_pad(ws: Seq<WireId>, vs: Seq<Seq<bool>>, nf: nat, ng: nat)
    requires
        ids_below(ws, nf),
    ensures
        initial_env(nf + ng, ws, vs) == initial_env(nf, ws, vs) + Seq::new(ng, |i: int| None::<Seq<bool>>),
{
    let lhs = initial_env(nf + ng, ws, vs);
    let rhs = initial_env(nf, ws, vs) + Seq::new(ng, |i: int| None::<Seq<bool>>);
    assert forall|i: int| 0 <= i < lhs.len() implies lhs[i] == rhs[i] by {
        if i >= nf {
            assert forall|k: int| 0 <= k < ws.len() implies (#[trigger] ws[k].0 as nat) < i as nat by {
                assert((ws[k].0 as nat) < nf);
            }
            lemma_first_value_absent(ws, vs, i as nat);
        }
    }
    assert(lhs =~= rhs);
}

/// No wire of `ws` has index `idx`, so it holds no value there.
pub(crate) proof fn lemma_first_value_absent(ws: Seq<WireId>, vs: Seq<Seq<bool>>, idx: nat)
    requires
        forall|k: int| 0 <= k < ws.len() ==> (#[trigger] ws[k].0 as nat) < idx,
    ensures
        first_value(ws, vs, idx) == None::<Seq<bool>>,
    decreases ws.len(),
{
    if ws.len() > 0 && vs.len() > 0 {
        assert((ws[0].0 as nat) < idx);
        assert forall|k: int| 0 <= k < ws.drop_first().len() implies (#[trigger] ws.drop_first()[k].0 as nat) < idx by {
            assert(ws.drop_first()[k] == ws[k + 1]);
        }
        lemma_first_value_absent(ws.drop_first(), vs.drop_first(), idx);
    }
}

/// Interpreting `f ; g` runs `g` on what `f` outputs: when `f` maps
/// the input values `vs` to the output values `us`, and `g` maps `us`
/// to `os`, the composite maps `vs` to `os`.  It holds for well-wired
/// arrows whose wires together fit in a `usize`, where `f`'s output
/// wires are distinct or `g` writes none of its own input wires.
pub proof fn lemma_compose_interprets(
    f: ArrowSpec,
    g: ArrowSpec,
    vs: Seq<Seq<bool>>,
    us: Seq<Seq<bool>>,
    os: Seq<Seq<bool>>,
)
    requires
        well_wired(f),
        well_wired(g),
        f.graph.wires.len() + g.graph.wires.len() <= usize::MAX,
        f.outputs.no_duplicates() || forall|j: int, k: int|
            0 <= j < g.graph.instrs.len() && 0 <= k < g.inputs.len() ==> #[trigger] g.inputs[k]
                != (#[trigger] g.graph.instrs[j]).output,
        interpret_spec(f.graph, f.inputs, vs) matches Ok(ef) && operands(ef, f.outputs) == Ok::<
            Seq<Seq<bool>>,
            SimErr,
        >(us),
        interpret_spec(g.graph, g.inputs, us) matches Ok(eg) && operands(eg, g.outputs) == Ok::<
            Seq<Seq<bool>>,
            SimErr,
        >(os),
    ensures
        interpret_spec(compose_spec(f, g).graph, f.inputs, vs) matches Ok(ec) && operands(
            ec,
            compose_spec(f, g).outputs,
        ) == Ok::<Seq<Seq<bool>>, SimErr>(os),
{
    let nf = f.graph.wires.len();
    let ng = g.graph.wires.len();
    let c = compose_spec(f, g);
    let pad = Seq::new(ng, |i: int| None::<Seq<bool>>);
    let ef0 = initial_env(nf, f.inputs, vs);
    let ef = run_instrs(ef0, f.graph.instrs)->Ok_0;
    let eg0 = initial_env(ng, g.inputs, us);
    let eg = run_instrs(eg0, g.graph.instrs)->Ok_0;
    lemma_initial_env_pad(f.inputs, vs, nf, ng);
    lemma_run_append(ef0 + pad, f.graph.instrs, remap_instrs(g.graph.instrs, g.inputs, f.outputs, nf));
    lemma_run_pad(ef0, pad, f.graph.instrs);
    lemma_run_len(ef0, f.graph.instrs);
    lemma_operands_ok(ef, f.outputs);
    lemma_initial_related(ef, g.inputs, f.outputs, us, nf, ng);
    lemma_run_related(ef + pad, eg0, g.inputs, f.outputs, nf, g.graph.instrs);
    let ec = run_instrs(ef + pad, remap_instrs(g.graph.instrs, g.inputs, f.outputs, nf))->Ok_0;
    lemma_run_len(eg0, g.graph.instrs);
    lemma_operands_related(ec, eg, g.inputs, f.outputs, nf, g.outputs);
}

/// The first value of wire `idx` among two input lists, the first
/// paired in full with its values, is the first list's if it has one,
/// else the second's.
pub(crate) proof fn lemma_first_value_append(
    ws1: Seq<WireId>,
    vs1: Seq<Seq<bool>>,
    ws2: Seq<WireId>,
    vs2: Seq<Seq<bool>>,
    idx: nat,
)
    requires
        ws1.len() == vs1.len(),
    ensures
        first_value(ws1 + ws2, vs1 + vs2, idx) == match first_value(ws1, vs1, idx) {
            Some(v) => Some(v),
            None => first_value(ws2, vs2, idx),
        },
    decreases ws1.len(),
{
    if ws1.len() == 0 {
        assert(ws1 + ws2 =~= ws2);
        assert(vs1 + vs2 =~= vs2);
    } else {
        assert((ws1 + ws2).drop_first() =~= ws1.drop_first() + ws2);
        assert((vs1 + vs2).drop_first() =~= vs1.drop_first() + vs2);
        lemma_first_value_append(ws1.drop_first(), vs1.drop_first(), ws2, vs2, idx);
    }
}

/// Shifting every input wire by `off` shifts where the values sit.
pub(crate) proof fn lemma_first_value_shift(ws: Seq<WireId>, vs: Seq<Seq<bool>>, off: nat, ng: nat, x: nat)
    requires
        ids_below(ws, ng),
        off + ng <= usize::MAX,
    ensures
        first_value(remap_wires(ws, Seq::empty(), Seq::empty(), off), vs, x + off) == first_value(ws, vs, x),
    decreases ws.len(),
{
    let e = Seq::<WireId>::empty();
    let sh = remap_wires(ws, e, e, off);
    if ws.len() > 0 && vs.len() > 0 {
        assert((ws[0].0 as nat) < ng);
        assert(sh[0] == WireId((ws[0].0 + off) as usize));
        assert(sh.drop_first() =~= remap_wires(ws.drop_first(), e, e, off));
        assert(ids_below(ws.drop_first(), ng));
        lemma_first_value_shift(ws.drop_first(), vs.drop_first(), off, ng, x);
    }
}

/// Instructions that write only at or past `nf` leave the first `nf`
/// entries alone.
pub(crate) proof fn lemma_run_keeps_prefix(env: EnvSpec, is: Seq<InstrSpec>, nf: nat)
    requires
        forall|j: int| 0 <= j < is.len() ==> (#[trigger] is[j]).output.0 >= nf,
    ensures
        run_instrs(env, is) matches Ok(e2) ==> e2.len() == env.len() && forall|i: int| 0 <= i < nf && i < env.len()
            ==> e2[i] == env[i],
    decreases is.len(),
{
    if is.len() > 0 {
        let init = is.drop_last();
        assert forall|j: int| 0 <= j < init.len() implies (#[trigger] init[j]).output.0 >= nf by {
            assert(init[j] == is[j]);
        }
        lemma_run_keeps_prefix(env, init, nf);
        assert(is[is.len() - 1] == is.last());
    }
}

/// Reading two lists of wires that both read successfully reads their
/// concatenation.
pub(crate) proof fn lemma_operands_append(env: EnvSpec, a: Seq<WireId>, b: Seq<WireId>)
    ensures
        operands(env, a) matches Ok(x) ==> (operands(env, b) matches Ok(y) ==> operands(env, a + b) == Ok::<
            Seq<Seq<bool>>,
            SimErr,
        >(x + y)),
    decreases b.len(),
{
    if b.len() == 0 {
        assert(a + b =~= a);
        if let Ok(x) = operands(env, a) {
            assert(x + Seq::<Seq<bool>>::empty() =~= x);
        }
    } else {
        assert((a + b).drop_last() =~= a + b.drop_last());
        assert((a + b).last() == b.last());
        lemma_operands_append(env, a, b.drop_last());
        if let Ok(x) = operands(env, a) {
            if let Ok(y) = operands(env, b) {
                let y0 = operands(env, b.drop_last())->Ok_0;
                assert((x + y0).push(y.last()) =~= x + y);
                assert(y0.push(y.last()) =~= y);
            }
        }
    }
}

/// Interpreting `f ⊗ g` runs `f` and `g` side by side: when `f` maps
/// its input values `vf` to `of` and `g` maps `vg` to `og`, the tensor
/// maps `vf` followed by `vg` to `of` followed by `og`.  It holds for
/// well-wired arrows whose wires together fit in a `usize`.
pub proof fn lemma_tensor_interprets(
    f: ArrowSpec,
    g: ArrowSpec,
    vf: Seq<Seq<bool>>,
    vg: Seq<Seq<bool>>,
    of: Seq<Seq<bool>>,
    og: Seq<Seq<bool>>,
)
    requires
        well_wired(f),
        well_wired(g),
        f.graph.wires.len() + g.graph.wires.len() <= usize::MAX,
        interpret_spec(f.graph, f.inputs, vf) matches Ok(ef) && operands(ef, f.outputs) == Ok::<
            Seq<Seq<bool>>,
            SimErr,
        >(of),
        interpret_spec(g.graph, g.inputs, vg) matches Ok(eg) && operands(eg, g.outputs) == Ok::<
            Seq<Seq<bool>>,
            SimErr,
        >(og),
    ensures
        interpret_spec(tensor_spec(f, g).graph, tensor_spec(f, g).inputs, vf + vg) matches Ok(et) && operands(
            et,
            tensor_spec(f, g).outputs,
        ) == Ok::<Seq<Seq<bool>>, SimErr>(of + og),
{
    let nf = f.graph.wires.len();
    let ng = g.graph.wires.len();
    let e = Seq::<WireId>::empty();
    let t = tensor_spec(f, g);
    let gin = remap_wires(g.inputs, e, e, nf);
    let ef0 = initial_env(nf, f.inputs, vf);
    let eg0 = initial_env(ng, g.inputs, vg);
    let ef = run_instrs(ef0, f.graph.instrs)->Ok_0;
    let eg = run_instrs(eg0, g.graph.instrs)->Ok_0;
    let env0 = initial_env(nf + ng, t.inputs, vf + vg);
    assert(env0 =~= ef0 + eg0) by {
        assert forall|i: int| 0 <= i < nf + ng implies env0[i] == (ef0 + eg0)[i] by {
            lemma_first_value_append(f.inputs, vf, gin, vg, i as nat);
            if i < nf {
                assert forall|k: int| 0 <= k < gin.len() implies gin[k].0 != i by {
                    assert((g.inputs[k].0 as nat) < ng);
                }
                lemma_first_value_absent_ne(gin, vg, i as nat);
            } else {
                assert forall|k: int| 0 <= k < f.inputs.len() implies f.inputs[k].0 != i by {
                    assert((f.inputs[k].0 as nat) < nf);
                }
                lemma_first_value_absent_ne(f.inputs, vf, i as nat);
                lemma_first_value_shift(g.inputs, vg, nf, ng, (i - nf) as nat);
            }
        }
    }
    let rg = remap_instrs(g.graph.instrs, e, e, nf);
    lemma_run_append(env0, f.graph.instrs, rg);
    lemma_run_pad(ef0, eg0, f.graph.instrs);
    lemma_run_len(ef0, f.graph.instrs);
    lemma_run_len(eg0, g.graph.instrs);
    let ec0 = ef + eg0;
    assert(related(ec0, eg0, e, e, nf));
    lemma_run_related(ec0, eg0, e, e, nf, g.graph.instrs);
    let ec = run_instrs(ec0, rg)->Ok_0;
    assert forall|j: int| 0 <= j < rg.len() implies (#[trigger] rg[j]).output.0 >= nf by {
        assert(instr_refs_below(g.graph.instrs[j], ng));
    }
    lemma_run_keeps_prefix(ec0, rg, nf);
    assert(ec =~= ef + ec.skip(nf as int));
    lemma_operands_pad(ef, ec.skip(nf as int), f.outputs);
    lemma_operands_related(ec, eg, e, e, nf, g.outputs);
    lemma_operands_append(ec, f.outputs, remap_wires(g.outputs, e, e, nf));
}

/// No wire of `ws` has index `idx`, so it holds no value there.
pub(crate) proof fn lemma_first_value_absent_ne(ws: Seq<WireId>, vs: Seq<Seq<bool>>, idx: nat)
    requires
        forall|k: int| 0 <= k < ws.len() ==> (#[trigger] ws[k]).0 != idx,
    ensures
        first_value(ws, vs, idx) == None::<Seq<bool>>,
    decreases ws.len(),
{
    if ws.len() > 0 && vs.len() > 0 {
        assert(ws[0].0 != idx);
        assert forall|k: int| 0 <= k < ws.drop_first().len() implies (#[trigger] ws.drop_first()[k]).0 != idx by {
            assert(ws.drop_first()[k] == ws[k + 1]);
        }
        lemma_first_value_absent_ne(ws.drop_first(), vs.drop_first(), idx);
    }
}

/// Wires numbered from `start` hold the values listed for them.
pub(crate) proof fn lemma_first_value_ids(start: nat, n: nat, vs: Seq<Seq<bool>>, idx: nat)
    requires
        vs.len() == n,
        start <= idx < start + n,
        start + n <= usize::MAX,
    ensures
        first_value(wire_ids(start, n), vs, idx) == Some(vs[idx - start]),
    decreases n,
{
    let ws = wire_ids(start, n);
    if idx != start {
        assert(ws.drop_first() =~= wire_ids(start + 1, (n - 1) as nat));
        lemma_first_value_ids(start + 1, (n - 1) as nat, vs.drop_first(), idx);
    }
}

/// Interpreting a pass-through arrow hands its input values back.
proof fn lemma_pass_through_interprets(layout: Seq<WireTy>, vs: Seq<Seq<bool>>)
    requires
        vs.len() == layout.len(),
        layout.len() <= usize::MAX,
    ensures
        ({
            let p = pass_through_spec(layout);
            interpret_spec(p.graph, p.inputs, vs) matches Ok(e) && operands(e, p.outputs) == Ok::<
                Seq<Seq<bool>>,
                SimErr,
            >(vs)
        }),
{
    let p = pass_through_spec(layout);
    let n = layout.len();
    let ws = wire_ids(0, n);
    let env = initial_env(n, ws, vs);
    assert(run_instrs(env, p.graph.instrs) == Ok::<EnvSpec, SimErr>(env));
    assert forall|k: int| 0 <= k < ws.len() implies lookup(env, #[trigger] ws[k]) == Some(vs[k]) by {
        lemma_first_value_ids(0, n, vs, k as nat);
    }
    lemma_operands_of_lookups(env, ws, vs);
}

/// A pass-through arrow is well wired, and its outputs are distinct.
proof fn lemma_pass_through_wired(layout: Seq<WireTy>)
    requires
        layout.len() <= usize::MAX,
    ensures
        well_wired(pass_through_spec(layout)),
        pass_through_spec(layout).outputs.no_duplicates(),
{
    let p = pass_through_spec(layout);
    assert forall|k: int| 0 <= k < p.inputs.len() implies (#[trigger] p.inputs[k].0 as nat) < layout.len() by {}
    assert forall|j: int, k: int| 0 <= j < p.outputs.len() && 0 <= k < p.outputs.len() && j != k implies p.outputs[j]
        != p.outputs[k] by {}
}

/// The wired identity (a pass-through arrow, what `wired_identity`
/// builds) is a unit of sequential composition, as interpreted: when a
/// well-wired `f` maps the input values `vs` to the output values `os`,
/// so do `id ; f` with `id` over as many wires as `f` has inputs, and
/// `f ; id` with `id` over as many wires as `f` has outputs.  It holds
/// when the wires of each composite fit in a `usize`.
pub proof fn lemma_identity_interprets(
    la: Seq<WireTy>,
    lb: Seq<WireTy>,
    f: ArrowSpec,
    vs: Seq<Seq<bool>>,
    os: Seq<Seq<bool>>,
)
    requires
        well_wired(f),
        la.len() == f.inputs.len(),
        lb.len() == f.outputs.len(),
        la.len() + f.graph.wires.len() <= usize::MAX,
        f.graph.wires.len() + lb.len() <= usize::MAX,
        interpret_spec(f.graph, f.inputs, vs) matches Ok(e) && operands(e, f.outputs) == Ok::<
            Seq<Seq<bool>>,
            SimErr,
        >(os),
    ensures
        ({
            let l = compose_spec(pass_through_spec(la), f);
            interpret_spec(l.graph, l.inputs, vs) matches Ok(e) && operands(e, l.outputs) == Ok::<
                Seq<Seq<bool>>,
                SimErr,
            >(os)
        }),
        ({
            let r = compose_spec(f, pass_through_spec(lb));
            interpret_spec(r.graph, r.inputs, vs) matches Ok(e) && operands(e, r.outputs) == Ok::<
                Seq<Seq<bool>>,
                SimErr,
            >(os)
        }),
{
    let e = interpret_spec(f.graph, f.inputs, vs)->Ok_0;
    lemma_operands_ok(e, f.outputs);
    lemma_pass_through_wired(la);
    lemma_pass_through_wired(lb);
    lemma_pass_through_interprets(la, vs);
    lemma_pass_through_interprets(lb, os);
    lemma_compose_interprets(pass_through_spec(la), f, vs, vs, os);
    lemma_compose_interprets(f, pass_through_spec(lb), vs, os, os);
}

/// The braid swaps its two blocks of values: interpreting the braid
/// over `la ⊗ lb` on `va` followed by `vb` (one value per wire) outputs
/// `vb` followed by `va`.
pub proof fn lemma_braid_interprets(la: Seq<WireTy>, lb: Seq<WireTy>, va: Seq<Seq<bool>>, vb: Seq<Seq<bool>>)
    requires
        va.len() == la.len(),
        vb.len() == lb.len(),
        la.len() + lb.len() <= usize::MAX,
    ensures
        ({
            let b = braid_spec(la, lb);
            interpret_spec(b.graph, b.inputs, va + vb) matches Ok(e) && operands(e, b.outputs) == Ok::<
                Seq<Seq<bool>>,
                SimErr,
            >(vb + va)
        }),
{
    let b = braid_spec(la, lb);
    let na = la.len();
    let nb = lb.len();
    let n = na + nb;
    let vs = va + vb;
    let env = initial_env(n, wire_ids(0, n), vs);
    assert(run_instrs(env, b.graph.instrs) == Ok::<EnvSpec, SimErr>(env));
    assert forall|k: int| 0 <= k < b.outputs.len() implies lookup(env, #[trigger] b.outputs[k]) == Some((vb + va)[k]) by {
        if k < nb {
            assert(b.outputs[k] == WireId((na + k) as usize));
            lemma_first_value_ids(0, n, vs, (na + k) as nat);
        } else {
            assert(b.outputs[k] == WireId((k - nb) as usize));
            lemma_first_value_ids(0, n, vs, (k - nb) as nat);
        }
    }
    lemma_operands_of_lookups(env, b.outputs, vb + va);
}

} // verus!
