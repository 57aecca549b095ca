//! Lowering of measurement-based quantum computation patterns into a typed
//! dataflow graph.
//!
//! A [`Pattern`] is a list of preparation, entanglement, measurement and
//! correction commands over qubits named by integers.  The converter walks the
//! commands in order and emits one graph node per operation, threading a wire
//! per live qubit and a wire per measured bit.
//!
//! The modules fall in three groups.
//!
//! * The data and the code that runs: [`types`] (patterns), [`hugr`] (graphs
//!   and their builder), [`float_bits`] (real parameters), [`ids`] (ordered
//!   lists of qubit identifiers) and [`converter`].
//! * The meaning of a pattern: [`lowering`] defines the graph that a pattern
//!   denotes as a mathematical function, and every executable function is
//!   proved to compute its part of it.
//! * What holds of every denoted graph: [`signature`] (numbering of nodes,
//!   inputs and outputs), [`registry`] (the operations that occur),
//!   [`parity`] (the nodes of a correction) and [`linearity`] (single use of
//!   wires), on the groundwork of [`growth`] and [`typing`].

pub mod converter;
pub mod float_bits;
pub mod growth;
pub mod hugr;
pub mod ids;
pub mod linearity;
pub mod lowering;
pub mod parity;
pub mod registry;
pub mod signature;
pub mod types;
pub mod typing;

pub use converter::{convert_graphix_pattern_to_hugr, ConversionError, GraphixToHugrConverter};
pub use float_bits::FloatBits;
pub use hugr::{ConstValue, DfgBuilder, FunctionType, Hugr, HugrType, Node, Operation, Wire};
pub use types::{CliffordGate, Command, CommandKind, Pattern, Plane};
