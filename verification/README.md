# hdl_cat

A hardware description library whose logic is verified with Verus:
bit-precise integers (`Bits<N>`, `SignedBits<N>`), a typed circuit IR and
its builder, circuits as arrows composed in sequence and side by side,
Mealy machines (`Sync`) composed in sequence, in parallel and through a
feedback loop, a cycle-accurate simulator with VCD traces, and Verilog
and Circom emitters.

- `src/` is the verified library. Each public function states its result
  over a mathematical model (the IR as a `GraphSpec`, a machine as a
  `SyncSpec`, emitted text as a spec function), and the laws that span
  several functions are public proof functions: `src/circuit/laws.rs`
  (category laws and what composites compute), `src/sync/laws.rs` (runs of
  composed machines), `src/laws.rs` (the standard components),
  `src/circom/semantics.rs` (what the emitted Circom computes).
- Effects and streams come from `comp_cat_rs`; the few calls into it sit
  behind small trusted wrappers whose contracts say what the crate's
  source shows.
- `app/` holds what Verus does not see: reading a kernel's source with
  `syn`, and the runnable examples.
