//! Identifiers and wire types of a lowering in progress.
//!
//! A state is coherent when its nodes are numbered by their position, every
//! live qubit rides on a wire of type `Qubit` and every measured bit on a
//! wire of type `Bool`.  The initial state is coherent and every command
//! keeps it so, as long as the identifiers fit the machine word.

use vstd::prelude::*;

use crate::float_bits::FloatBits;
use crate::growth::{appends_to, extends, lemma_extends_index};
use crate::hugr::{HugrType, NodeView, OperationView, Wire};
use crate::ids::members_in_order;
use crate::lowering::{
    bind_inputs, conditional_op, cz_op, graph_of, measure_op, prepare_op, xor_op, Lowering,
};
use crate::types::{CliffordGate, CommandView, PatternView, Plane};

verus! {

/// Whether every node carries its position as identifier.
pub open spec fn numbered(nodes: Seq<NodeView>) -> bool {
    forall|i: int| 0 <= i < nodes.len() ==> (#[trigger] nodes[i]).id == i
}

/// Whether wire `w` carries a value of type `t` in the graph of `nodes`.
pub open spec fn typed(nodes: Seq<NodeView>, w: Wire, t: HugrType) -> bool {
    graph_of(nodes).wire_type(w) == Some(t)
}

/// A wire keeps its type when nodes are appended.
pub proof fn lemma_typed_stable(later: Seq<NodeView>, earlier: Seq<NodeView>, w: Wire, t: HugrType)
    requires
        extends(later, earlier),
        typed(earlier, w, t),
    ensures
        typed(later, w, t),
{
    let i = w.node_id as int;
    lemma_extends_index(later, earlier, i);
    if let OperationView::LoadConst { const_node } = earlier[i].operation {
        lemma_extends_index(later, earlier, const_node as int);
    }
}

/// The first output wire of a freshly emitted custom operation has the
/// first output type of its signature.
pub proof fn lemma_fresh_wire_typed(
    nodes: Seq<NodeView>,
    operation: OperationView,
    inputs: Seq<Wire>,
    port: usize,
)
    requires
        nodes.len() < usize::MAX,
        operation matches OperationView::Custom { signature, .. } && port
            < signature.outputs.len(),
    ensures
        typed(
            nodes.push(NodeView::wired(nodes.len() as usize, operation, inputs)),
            Wire { node_id: nodes.len() as usize, port },
            operation->Custom_signature.outputs[port as int],
        ),
{
}

impl Lowering {
    /// Whether identifiers and wire types are in order.
    pub open spec fn coherent(self) -> bool {
        &&& self.nodes.len() <= usize::MAX
        &&& numbered(self.nodes)
        &&& forall|k: usize| #[trigger]
            self.qubits.contains_key(k) ==> typed(self.nodes, self.qubits[k], HugrType::Qubit)
        &&& forall|k: usize| #[trigger]
            self.bits.contains_key(k) ==> typed(self.nodes, self.bits[k], HugrType::Bool)
    }

    /// A state that appends numbered nodes to a coherent state, with the
    /// same bindings, is coherent.
    pub proof fn lemma_coherent_appended(self, before: Lowering)
        requires
            before.coherent(),
            appends_to(self, before),
            numbered(self.nodes),
            self.nodes.len() <= usize::MAX,
        ensures
            self.coherent(),
    {
        assert forall|k: usize| #[trigger] self.qubits.contains_key(k) implies typed(
            self.nodes,
            self.qubits[k],
            HugrType::Qubit,
        ) by {
            lemma_typed_stable(self.nodes, before.nodes, before.qubits[k], HugrType::Qubit);
        }
        assert forall|k: usize| #[trigger] self.bits.contains_key(k) implies typed(
            self.nodes,
            self.bits[k],
            HugrType::Bool,
        ) by {
            lemma_typed_stable(self.nodes, before.nodes, before.bits[k], HugrType::Bool);
        }
    }

    /// Binding a qubit to a wire of type `Qubit` keeps a state coherent.
    pub proof fn lemma_bind_qubit_coherent(self, node: usize, wire: Wire)
        requires
            self.coherent(),
            typed(self.nodes, wire, HugrType::Qubit),
        ensures
            self.bind_qubit(node, wire).coherent(),
    {
    }

    /// Emitting a node keeps the numbering.
    pub proof fn lemma_emit_numbered(self, operation: OperationView, inputs: Seq<Wire>)
        requires
            numbered(self.nodes),
            self.nodes.len() < usize::MAX,
        ensures
            numbered(self.emit(operation, inputs).nodes),
    {
    }

    /// Loading `false` keeps the numbering and yields a wire of type `Bool`.
    pub proof fn lemma_load_false_typed(self)
        requires
            numbered(self.nodes),
            self.nodes.len() + 2 <= usize::MAX,
        ensures
            numbered(self.load_false().state.nodes),
            typed(self.load_false().state.nodes, self.load_false().wire, HugrType::Bool),
    {
    }

    /// A gate on one qubit keeps the numbering and yields a wire of the
    /// operation's output type.
    pub proof fn lemma_apply_typed(self, operation: OperationView, input: Wire)
        requires
            numbered(self.nodes),
            self.nodes.len() < usize::MAX,
            operation matches OperationView::Custom { signature, .. } && signature.outputs.len()
                >= 1,
        ensures
            numbered(self.apply(operation, input).state.nodes),
            typed(
                self.apply(operation, input).state.nodes,
                self.apply(operation, input).wire,
                operation->Custom_signature.outputs[0],
            ),
    {
        lemma_fresh_wire_typed(self.nodes, operation, seq![input], 0);
    }

    /// A change of basis keeps the numbering and yields a qubit wire.
    pub proof fn lemma_change_basis_typed(self, wire: Wire, plane: Plane, angle: FloatBits)
        requires
            numbered(self.nodes),
            typed(self.nodes, wire, HugrType::Qubit),
            self.change_basis(wire, plane, angle).state.nodes.len() <= usize::MAX,
        ensures
            numbered(self.change_basis(wire, plane, angle).state.nodes),
            typed(
                self.change_basis(wire, plane, angle).state.nodes,
                self.change_basis(wire, plane, angle).wire,
                HugrType::Qubit,
            ),
    {
        let rz = crate::lowering::rotation_op("Rz"@, angle.negated());
        let rx = crate::lowering::rotation_op("Rx"@, angle.negated());
        let ry = crate::lowering::rotation_op("Ry"@, angle);
        let h = crate::lowering::gate_op("H"@);
        match plane {
            Plane::XY => {
                if angle.exceeds_epsilon() {
                    self.lemma_apply_typed(rz, wire);
                    let rotated = self.apply(rz, wire);
                    rotated.state.lemma_apply_typed(h, rotated.wire);
                } else {
                    self.lemma_apply_typed(h, wire);
                }
            },
            Plane::YZ => {
                if angle.exceeds_epsilon() {
                    self.lemma_apply_typed(rx, wire);
                }
            },
            Plane::XZ => {
                if angle.exceeds_epsilon() {
                    self.lemma_apply_typed(ry, wire);
                }
            },
        }
    }

    /// Folding bits into a parity keeps the numbering and yields a wire of
    /// type `Bool`.
    pub proof fn lemma_xor_known_typed(self, acc: Wire, ids: Seq<usize>)
        requires
            numbered(self.nodes),
            typed(self.nodes, acc, HugrType::Bool),
            self.xor_known(acc, ids).state.nodes.len() <= usize::MAX,
        ensures
            numbered(self.xor_known(acc, ids).state.nodes),
            typed(
                self.xor_known(acc, ids).state.nodes,
                self.xor_known(acc, ids).wire,
                HugrType::Bool,
            ),
        decreases ids.len(),
    {
        if ids.len() > 0 {
            let before = self.xor_known(acc, ids.drop_last());
            if self.bits.contains_key(ids.last()) {
                self.lemma_xor_known_typed(acc, ids.drop_last());
                lemma_fresh_wire_typed(
                    before.state.nodes,
                    xor_op(),
                    seq![before.wire, self.bits[ids.last()]],
                    0,
                );
            } else {
                self.lemma_xor_known_typed(acc, ids.drop_last());
            }
        }
    }

    /// Computing a parity keeps the numbering and yields a wire of type
    /// `Bool`.
    pub proof fn lemma_parity_typed(self, domain: Seq<usize>)
        requires
            self.coherent(),
            self.parity(domain).state.nodes.len() <= usize::MAX,
        ensures
            numbered(self.parity(domain).state.nodes),
            typed(self.parity(domain).state.nodes, self.parity(domain).wire, HugrType::Bool),
    {
        if domain.len() > 0 && self.bits.contains_key(domain[0]) {
            self.lemma_xor_known_typed(
                self.bits[domain[0]],
                domain.subrange(1, domain.len() as int),
            );
        } else {
            self.lemma_load_false_typed();
        }
    }

    /// Threading a qubit wire through gates keeps the numbering and yields a
    /// qubit wire.
    pub proof fn lemma_apply_gates_typed(self, wire: Wire, gates: Seq<CliffordGate>)
        requires
            numbered(self.nodes),
            typed(self.nodes, wire, HugrType::Qubit),
            self.apply_gates(wire, gates).state.nodes.len() <= usize::MAX,
        ensures
            numbered(self.apply_gates(wire, gates).state.nodes),
            typed(
                self.apply_gates(wire, gates).state.nodes,
                self.apply_gates(wire, gates).wire,
                HugrType::Qubit,
            ),
        decreases gates.len(),
    {
        if gates.len() > 0 {
            let before = self.apply_gates(wire, gates.drop_last());
            self.lemma_apply_gates_typed(wire, gates.drop_last());
            match crate::lowering::clifford_op(gates.last()) {
                Some(operation) => {
                    before.state.lemma_apply_typed(operation, before.wire);
                },
                None => {},
            }
        }
    }
}

impl Lowering {
    /// Emitting a node keeps a state coherent.
    pub proof fn lemma_emit_coherent(self, operation: OperationView, inputs: Seq<Wire>)
        requires
            self.coherent(),
            self.nodes.len() < usize::MAX,
        ensures
            self.emit(operation, inputs).coherent(),
    {
        self.lemma_emit_numbered(operation, inputs);
        self.emit(operation, inputs).lemma_coherent_appended(self);
    }

    /// `N` keeps a state coherent.
    pub proof fn lemma_prepare_coherent(self, node: usize)
        requires
            self.coherent(),
            self.prepare(node).nodes.len() <= usize::MAX,
        ensures
            self.prepare(node).coherent(),
    {
        self.lemma_emit_coherent(prepare_op(), seq![]);
        lemma_fresh_wire_typed(self.nodes, prepare_op(), seq![], 0);
    }

    /// `E` keeps a state coherent.
    pub proof fn lemma_entangle_coherent(self, a: usize, b: usize)
        requires
            self.coherent(),
            self.entangle(a, b).nodes.len() <= usize::MAX,
        ensures
            self.entangle(a, b).coherent(),
    {
        if self.qubits.contains_key(a) && self.qubits.contains_key(b) {
            let inputs = seq![self.qubits[a], self.qubits[b]];
            self.lemma_emit_coherent(cz_op(), inputs);
            lemma_fresh_wire_typed(self.nodes, cz_op(), inputs, 0);
            lemma_fresh_wire_typed(self.nodes, cz_op(), inputs, 1);
            let emitted = self.emit(cz_op(), inputs);
            let first = Wire { node_id: self.next_id(), port: 0 };
            let second = Wire { node_id: self.next_id(), port: 1 };
            emitted.lemma_bind_qubit_coherent(a, first);
            emitted.bind_qubit(a, first).lemma_bind_qubit_coherent(b, second);
        }
    }

    /// `M` keeps a state coherent.
    pub proof fn lemma_measure_coherent(self, node: usize, plane: Plane, angle: FloatBits)
        requires
            self.coherent(),
            self.measure(node, plane, angle).nodes.len() <= usize::MAX,
        ensures
            self.measure(node, plane, angle).coherent(),
    {
        if self.qubits.contains_key(node) {
            let turned = self.change_basis(self.qubits[node], plane, angle);
            self.lemma_change_basis_appends(self.qubits[node], plane, angle);
            self.lemma_change_basis_typed(self.qubits[node], plane, angle);
            turned.state.lemma_coherent_appended(self);
            let measured = turned.state.apply(measure_op(), turned.wire);
            turned.state.lemma_emit_coherent(measure_op(), seq![turned.wire]);
            lemma_fresh_wire_typed(turned.state.nodes, measure_op(), seq![turned.wire], 0);
        }
    }

    /// `X` and `Z` keep a state coherent.
    pub proof fn lemma_correct_coherent(self, node: usize, domain: Set<usize>, name: Seq<char>)
        requires
            self.coherent(),
            self.correct(node, domain, name).nodes.len() <= usize::MAX,
        ensures
            self.correct(node, domain, name).coherent(),
    {
        if self.qubits.contains_key(node) {
            let ids = members_in_order(domain);
            let condition = self.parity(ids);
            let inputs = seq![condition.wire, self.qubits[node]];
            self.lemma_parity_appends(ids);
            self.lemma_parity_typed(ids);
            condition.state.lemma_coherent_appended(self);
            condition.state.lemma_emit_coherent(conditional_op(name), inputs);
            lemma_fresh_wire_typed(condition.state.nodes, conditional_op(name), inputs, 0);
        }
    }

    /// `C` keeps a state coherent.
    pub proof fn lemma_clifford_coherent(self, node: usize, gates: Seq<CliffordGate>)
        requires
            self.coherent(),
            self.clifford(node, gates).nodes.len() <= usize::MAX,
        ensures
            self.clifford(node, gates).coherent(),
    {
        if self.qubits.contains_key(node) {
            let done = self.apply_gates(self.qubits[node], gates);
            self.lemma_apply_gates_appends(self.qubits[node], gates);
            self.lemma_apply_gates_typed(self.qubits[node], gates);
            done.state.lemma_coherent_appended(self);
        }
    }

    /// A command keeps a state coherent.
    pub proof fn lemma_step_coherent(self, command: CommandView)
        requires
            self.coherent(),
            self.step(command).nodes.len() <= usize::MAX,
        ensures
            self.step(command).coherent(),
    {
        match command {
            CommandView::N { node } => self.lemma_prepare_coherent(node),
            CommandView::E { nodes } => self.lemma_entangle_coherent(nodes.0, nodes.1),
            CommandView::M { node, plane, angle } => self.lemma_measure_coherent(
                node,
                plane,
                angle,
            ),
            CommandView::X { node, domain } => self.lemma_correct_coherent(
                node,
                domain,
                "ConditionalX"@,
            ),
            CommandView::Z { node, domain } => self.lemma_correct_coherent(
                node,
                domain,
                "ConditionalZ"@,
            ),
            CommandView::C { node, clifford } => self.lemma_clifford_coherent(node, clifford),
        }
    }

    /// A run of commands keeps a state coherent.
    pub proof fn lemma_run_coherent(self, commands: Seq<CommandView>)
        requires
            self.coherent(),
            self.run(commands).nodes.len() <= usize::MAX,
        ensures
            self.run(commands).coherent(),
        decreases commands.len(),
    {
        if commands.len() > 0 {
            let before = self.run(commands.drop_last());
            before.lemma_step_extends(commands.last());
            self.lemma_run_coherent(commands.drop_last());
            before.lemma_step_coherent(commands.last());
        }
    }

    /// Reading off bits keeps a state coherent and yields wires of type
    /// `Bool`.
    pub proof fn lemma_gather_bits_coherent(self, ids: Seq<usize>)
        requires
            self.coherent(),
            self.gather_bits(ids).state.nodes.len() <= usize::MAX,
        ensures
            self.gather_bits(ids).state.coherent(),
            forall|i: int|
                0 <= i < ids.len() ==> typed(
                    self.gather_bits(ids).state.nodes,
                    #[trigger] self.gather_bits(ids).wires[i],
                    HugrType::Bool,
                ),
        decreases ids.len(),
    {
        if ids.len() > 0 {
            let before = self.gather_bits(ids.drop_last());
            let after = self.gather_bits(ids);
            self.lemma_gather_bits_appends(ids.drop_last());
            self.lemma_gather_bits_appends(ids);
            if self.bits.contains_key(ids.last()) {
                self.lemma_gather_bits_coherent(ids.drop_last());
            } else {
                before.state.lemma_load_false_appends();
                self.lemma_gather_bits_coherent(ids.drop_last());
                before.state.lemma_load_false_typed();
                after.state.lemma_coherent_appended(before.state);
            }
            assert forall|i: int| 0 <= i < ids.len() implies typed(
                after.state.nodes,
                #[trigger] after.wires[i],
                HugrType::Bool,
            ) by {
                if i < ids.len() - 1 {
                    assert(after.wires[i] == before.wires[i]);
                    lemma_typed_stable(
                        after.state.nodes,
                        before.state.nodes,
                        before.wires[i],
                        HugrType::Bool,
                    );
                } else if self.bits.contains_key(ids.last()) {
                    lemma_typed_stable(
                        after.state.nodes,
                        self.nodes,
                        self.bits[ids.last()],
                        HugrType::Bool,
                    );
                }
            }
        }
    }
}

/// Every input qubit is bound to a port of the `Input` node.
pub proof fn lemma_bind_inputs_ports(inputs: Seq<usize>, k: usize)
    requires
        inputs.len() <= usize::MAX,
        bind_inputs(inputs).contains_key(k),
    ensures
        bind_inputs(inputs)[k].node_id == 0,
        bind_inputs(inputs)[k].port < inputs.len(),
        inputs[bind_inputs(inputs)[k].port as int] == k,
    decreases inputs.len(),
{
    if inputs.len() > 0 {
        if k != inputs.last() {
            lemma_bind_inputs_ports(inputs.drop_last(), k);
        }
    }
}

impl PatternView {
    /// The initial state is coherent.
    pub proof fn lemma_initial_coherent(self)
        requires
            self.input_nodes.len() <= usize::MAX,
        ensures
            self.initial().coherent(),
    {
        let start = self.initial();
        crate::ids::lemma_in_order_ensures(self.input_nodes);
        assert forall|k: usize| #[trigger] start.qubits.contains_key(k) implies typed(
            start.nodes,
            start.qubits[k],
            HugrType::Qubit,
        ) by {
            lemma_bind_inputs_ports(self.sorted_inputs(), k);
        }
    }
}

} // verus!
