//! The instruction set of measurement patterns.

use std::collections::HashSet;
use vstd::prelude::*;
use vstd::std_specs::iter::IteratorSpec;

use crate::float_bits::FloatBits;

verus! {

/// The plane of the Bloch sphere in which a measurement angle is read.
#[derive(Debug, Clone, Copy, PartialEq, Eq, Structural)]
pub enum Plane {
    XY,
    YZ,
    XZ,
}

/// The six kinds of command, without their operands.
#[derive(Debug, Clone, Copy, PartialEq, Eq, Structural)]
pub enum CommandKind {
    /// Prepare a qubit.
    N,
    /// Entangle two qubits.
    E,
    /// Measure a qubit.
    M,
    /// Conditional Pauli X.
    X,
    /// Conditional Pauli Z.
    Z,
    /// A sequence of Clifford gates.
    C,
}

/// The single-qubit Clifford generators.
#[derive(Debug, Clone, Copy, PartialEq, Eq, Structural)]
pub enum CliffordGate {
    /// Identity; never emitted.
    I,
    X,
    Y,
    Z,
    S,
    /// The inverse of `S`.
    SDG,
    H,
}

/// One command of a pattern.  Qubits are named by integers that serve as keys
/// only.
#[derive(Debug)]
pub enum Command {
    /// Prepare a fresh qubit in the |+> state.
    N { node: usize },
    /// Apply a controlled-Z between two qubits.
    E { nodes: (usize, usize) },
    /// Measure a qubit in a plane at an angle in radians.
    M { node: usize, plane: Plane, angle: FloatBits },
    /// Apply Pauli X if the measured bits of `domain` have odd parity.
    X { node: usize, domain: HashSet<usize> },
    /// Apply Pauli Z if the measured bits of `domain` have odd parity.
    Z { node: usize, domain: HashSet<usize> },
    /// Apply Clifford gates in order.
    C { node: usize, clifford: Vec<CliffordGate> },
}

/// A command as a mathematical value.
pub enum CommandView {
    N { node: usize },
    E { nodes: (usize, usize) },
    M { node: usize, plane: Plane, angle: FloatBits },
    X { node: usize, domain: Set<usize> },
    Z { node: usize, domain: Set<usize> },
    C { node: usize, clifford: Seq<CliffordGate> },
}

impl View for Command {
    type V = CommandView;

    open spec fn view(&self) -> CommandView {
        match *self {
            Command::N { node } => CommandView::N { node },
            Command::E { nodes } => CommandView::E { nodes },
            Command::M { node, plane, angle } => CommandView::M { node, plane, angle },
            Command::X { node, domain } => CommandView::X { node, domain: domain@ },
            Command::Z { node, domain } => CommandView::Z { node, domain: domain@ },
            Command::C { node, clifford } => CommandView::C { node, clifford: clifford@ },
        }
    }
}

impl CommandView {
    /// The kind of the command.
    pub open spec fn kind(self) -> CommandKind {
        match self {
            CommandView::N { .. } => CommandKind::N,
            CommandView::E { .. } => CommandKind::E,
            CommandView::M { .. } => CommandKind::M,
            CommandView::X { .. } => CommandKind::X,
            CommandView::Z { .. } => CommandKind::Z,
            CommandView::C { .. } => CommandKind::C,
        }
    }
}

impl Command {
    /// The kind of the command.
    pub fn kind(&self) -> (k: CommandKind)
        ensures
            k == self@.kind(),
    {
        match self {
            Command::N { .. } => CommandKind::N,
            Command::E { .. } => CommandKind::E,
            Command::M { .. } => CommandKind::M,
            Command::X { .. } => CommandKind::X,
            Command::Z { .. } => CommandKind::Z,
            Command::C { .. } => CommandKind::C,
        }
    }
}

impl Clone for Command {
    fn clone(&self) -> (c: Command)
        ensures
            c@ == self@,
    {
        match self {
            Command::N { node } => Command::N { node: *node },
            Command::E { nodes } => Command::E { nodes: (nodes.0, nodes.1) },
            Command::M { node, plane, angle } => Command::M {
                node: *node,
                plane: *plane,
                angle: *angle,
            },
            Command::X { node, domain } => Command::X { node: *node, domain: crate::ids::copy_of_set(domain) },
            Command::Z { node, domain } => Command::Z { node: *node, domain: crate::ids::copy_of_set(domain) },
            Command::C { node, clifford } => Command::C {
                node: *node,
                clifford: clifford.clone(),
            },
        }
    }
}

/// A measurement pattern: the qubits it receives, the qubits it hands back,
/// and its commands in program order.
#[derive(Debug)]
pub struct Pattern {
    pub input_nodes: Vec<usize>,
    pub output_nodes: Vec<usize>,
    pub commands: Vec<Command>,
}

/// A pattern as a mathematical value.
pub struct PatternView {
    pub input_nodes: Seq<usize>,
    pub output_nodes: Seq<usize>,
    pub commands: Seq<CommandView>,
}

impl View for Pattern {
    type V = PatternView;

    open spec fn view(&self) -> PatternView {
        PatternView {
            input_nodes: self.input_nodes@,
            output_nodes: self.output_nodes@,
            commands: self.commands@.map_values(|c: Command| c@),
        }
    }
}

impl Clone for Pattern {
    fn clone(&self) -> (p: Pattern)
        ensures
            p@ == self@,
    {
        let p = Pattern {
            input_nodes: self.input_nodes.clone(),
            output_nodes: self.output_nodes.clone(),
            commands: self.commands.clone(),
        };
        assert(p@.commands =~= self@.commands);
        p
    }
}

impl Pattern {
    /// A pattern without commands.
    pub fn new(input_nodes: Vec<usize>, output_nodes: Vec<usize>) -> (p: Pattern)
        ensures
            p@.input_nodes == input_nodes@,
            p@.output_nodes == output_nodes@,
            p@.commands == Seq::<CommandView>::empty(),
    {
        Pattern { input_nodes, output_nodes, commands: Vec::new() }
    }

    /// An iterator over the commands in program order.
    pub fn iter(&self) -> (it: core::slice::Iter<'_, Command>)
        ensures
            vstd::std_specs::slice::into_iter_elts(it) == self.commands@,
            it.remaining().len() == self.commands@.len(),
            forall|i: int|
                0 <= i < self.commands@.len() ==> *(#[trigger] it.remaining()[i])
                    == self.commands@[i],
    {
        let it = self.commands.iter();
        assert(vstd::std_specs::slice::into_iter_elts(it) =~= self.commands@);
        it
    }

    /// Appends a command; the earlier ones stay in place.
    pub fn add_command(&mut self, command: Command)
        ensures
            final(self)@.input_nodes == old(self)@.input_nodes,
            final(self)@.output_nodes == old(self)@.output_nodes,
            final(self)@.commands == old(self)@.commands.push(command@),
    {
        self.commands.push(command);
    }
}

} // verus!
