# logic_core

A digital logic workbench: four-valued signals, gate kinds and their
evaluation, a circuit graph kept in slot maps, event-driven settling,
truth-table generation and checking, Verilog/VHDL export, undo/redo, and
the state of the workbench windows. Everything under `src/` is verified
with Verus; `app/` is the egui/eframe desktop front end around it.

Layout:

- `src/signal.rs`, `src/component.rs`: signals and gate kinds.
- `src/graph.rs`, `src/slots.rs`: the circuit graph and its slot maps.
- `src/sim.rs`: evaluation, settling and clock ticks.
- `src/settle_laws.rs`: what settling guarantees (nets follow their
  drivers; a settle that finishes leaves the circuit stable; without
  subcircuit instances the library is never read) and the
  well-formedness every graph operation keeps.
- `src/verify.rs`: truth tables, reference tables and diffs.
- `src/hdl.rs`: Verilog and VHDL export.
- `src/history.rs`, `src/packaging.rs`, `src/waveform.rs`, `src/tools.rs`, `src/panel.rs`,
  `src/theme.rs`, `src/hdl_ui.rs`, `src/verification_ui.rs`: workbench state.
- `tests/`: executable tests of the library.
