//! Core model of a digital logic circuit simulator: four-valued signals,
//! gate kinds and their evaluation, the circuit graph, event-driven
//! propagation and what settling guarantees of the nets, truth-table
//! generation and HDL export, undo and redo, and the state of the
//! workbench's verification, export and logic-analyzer windows.

pub mod canvas;
pub mod component;
pub mod eval_laws;
pub mod graph;
pub mod hdl;
pub mod hdl_laws;
pub mod hdl_ui;
pub mod history;
pub mod packaging;
pub mod panel;
pub mod seqs;
pub mod settle_laws;
pub mod signal;
pub mod sim;
pub mod slots;
pub mod state_laws;
pub mod text;
pub mod theme;
pub mod tools;
pub mod verification_ui;
pub mod verify;
pub mod waveform;

pub use component::{ClockEdge, GateKind, PortSpec};
pub use graph::{Circuit, ComponentId, ComponentNode, Net, NetId, PortEndpoint, Rotation, SubcircuitDef};
pub use hdl::{id_suffix, sanitize_identifier, HdlExporter};
pub use signal::Signal;
pub use sim::Simulator;
pub use verify::{
    CircuitIO, MismatchRow, TruthTable, TruthTableDiff, TruthTableGenerator, TruthTableRow, VerifyError,
};
