//! The operations that a lowered graph is made of.
//!
//! Consumers of the graph rely on a fixed set of operation names and
//! signatures.  This module states that set and proves that every node of a
//! lowered graph is taken from it; that no rotation by a negligible angle
//! and no identity gate is ever emitted follows.

use vstd::prelude::*;

use crate::converter::ConversionError;
use crate::float_bits::FloatBits;
use crate::hugr::{ConstValue, HugrView, NodeView, OperationView, Wire};
use crate::lowering::{
    conditional_op, cz_op, gate_op, measure_op, prepare_op, rotation_op, xor_op, Lowering,
};
use crate::types::{CliffordGate, CommandView, PatternView, Plane};

verus! {

/// Whether `operation` is a rotation about an axis.
pub open spec fn is_rotation(operation: OperationView) -> bool {
    operation matches OperationView::Custom { name, .. } && (name == "Rx"@ || name == "Ry"@
        || name == "Rz"@)
}

/// Whether `operation` is one of the operations that the lowering emits:
/// the frame of the graph (`Input`, `Output`, the constant `false` and its
/// load), the gates without parameters, and the rotations by an angle above
/// the threshold.
pub open spec fn registered(operation: OperationView) -> bool {
    ||| operation is Input
    ||| operation is Output
    ||| operation == (OperationView::Const { value: ConstValue::Bool(false) })
    ||| operation is LoadConst
    ||| operation == prepare_op()
    ||| operation == cz_op()
    ||| operation == measure_op()
    ||| operation == xor_op()
    ||| operation == gate_op("H"@)
    ||| operation == gate_op("X"@)
    ||| operation == gate_op("Y"@)
    ||| operation == gate_op("Z"@)
    ||| operation == gate_op("S"@)
    ||| operation == gate_op("Sdg"@)
    ||| operation == conditional_op("ConditionalX"@)
    ||| operation == conditional_op("ConditionalZ"@)
    ||| {
        &&& operation matches OperationView::Custom { args, .. }
        &&& args.len() == 1
        &&& args[0].exceeds_epsilon()
        &&& (operation == rotation_op("Rx"@, args[0]) || operation == rotation_op("Ry"@, args[0])
            || operation == rotation_op("Rz"@, args[0]))
    }
}

/// Whether every node carries a registered operation.
pub open spec fn all_registered(nodes: Seq<NodeView>) -> bool {
    forall|i: int| 0 <= i < nodes.len() ==> registered(#[trigger] nodes[i].operation)
}

/// Whether `name` is the name of a gate that is neither a rotation nor the
/// identity.
pub open spec fn is_plain_name(name: Seq<char>) -> bool {
    ||| name == "PrepareQubit"@
    ||| name == "CZ"@
    ||| name == "Measure"@
    ||| name == "XOR"@
    ||| name == "H"@
    ||| name == "X"@
    ||| name == "Y"@
    ||| name == "Z"@
    ||| name == "S"@
    ||| name == "Sdg"@
    ||| name == "ConditionalX"@
    ||| name == "ConditionalZ"@
}

/// The names of the rotations, the name of the identity and the other names
/// are pairwise different.
pub proof fn lemma_names_apart()
    ensures
        forall|name: Seq<char>| #[trigger]
            is_plain_name(name) ==> name != "Rx"@ && name != "Ry"@ && name != "Rz"@ && name
                != "I"@,
        "I"@ != "Rx"@,
        "I"@ != "Ry"@,
        "I"@ != "Rz"@,
{
    reveal_strlit("I");
    reveal_strlit("Rx");
    reveal_strlit("Ry");
    reveal_strlit("Rz");
    reveal_strlit("PrepareQubit");
    reveal_strlit("CZ");
    reveal_strlit("Measure");
    reveal_strlit("XOR");
    reveal_strlit("H");
    reveal_strlit("X");
    reveal_strlit("Y");
    reveal_strlit("Z");
    reveal_strlit("S");
    reveal_strlit("Sdg");
    reveal_strlit("ConditionalX");
    reveal_strlit("ConditionalZ");
    assert("I"@[0] == 'I');
    assert("H"@[0] == 'H');
    assert("X"@[0] == 'X');
    assert("Y"@[0] == 'Y');
    assert("Z"@[0] == 'Z');
    assert("S"@[0] == 'S');
    assert("CZ"@[0] == 'C');
    assert("Rx"@[0] == 'R');
    assert("Ry"@[0] == 'R');
    assert("Rz"@[0] == 'R');
}

/// A registered rotation has one parameter, an angle above the threshold.
pub proof fn lemma_registered_rotation(operation: OperationView)
    requires
        registered(operation),
        is_rotation(operation),
    ensures
        operation matches OperationView::Custom { args, .. } && args.len() == 1
            && args[0].exceeds_epsilon(),
{
    lemma_names_apart();
    if let OperationView::Custom { name, .. } = operation {
        if !is_plain_name(name) {
            assert(name == "Rx"@ || name == "Ry"@ || name == "Rz"@);
        }
    }
}

/// No registered operation is the identity gate.
pub proof fn lemma_registered_not_identity(operation: OperationView)
    requires
        registered(operation),
    ensures
        !(operation matches OperationView::Custom { name, .. } && name == "I"@),
{
    lemma_names_apart();
    if let OperationView::Custom { name, .. } = operation {
        if !is_plain_name(name) {
            assert(name == "Rx"@ || name == "Ry"@ || name == "Rz"@);
        }
    }
}

impl Lowering {
    /// A change of basis keeps the nodes registered: it emits a rotation
    /// only by an angle above the threshold, and negating the angle does not
    /// change its magnitude.
    pub proof fn lemma_change_basis_registered(self, wire: Wire, plane: Plane, angle: FloatBits)
        requires
            all_registered(self.nodes),
        ensures
            all_registered(self.change_basis(wire, plane, angle).state.nodes),
    {
        crate::float_bits::lemma_negation_keeps_magnitude(angle);
        if angle.exceeds_epsilon() {
            let minus = angle.negated();
            assert(registered(rotation_op("Rz"@, minus))) by {
                assert(rotation_op("Rz"@, minus)->Custom_args[0] == minus);
            }
            assert(registered(rotation_op("Rx"@, minus))) by {
                assert(rotation_op("Rx"@, minus)->Custom_args[0] == minus);
            }
            assert(registered(rotation_op("Ry"@, angle))) by {
                assert(rotation_op("Ry"@, angle)->Custom_args[0] == angle);
            }
        }
    }

    /// Folding bits into a parity keeps the nodes registered.
    pub proof fn lemma_xor_known_registered(self, acc: Wire, ids: Seq<usize>)
        requires
            all_registered(self.nodes),
        ensures
            all_registered(self.xor_known(acc, ids).state.nodes),
        decreases ids.len(),
    {
        if ids.len() > 0 {
            self.lemma_xor_known_registered(acc, ids.drop_last());
        }
    }

    /// Threading a wire through gates keeps the nodes registered; the
    /// identity emits nothing.
    pub proof fn lemma_apply_gates_registered(self, wire: Wire, gates: Seq<CliffordGate>)
        requires
            all_registered(self.nodes),
        ensures
            all_registered(self.apply_gates(wire, gates).state.nodes),
        decreases gates.len(),
    {
        if gates.len() > 0 {
            self.lemma_apply_gates_registered(wire, gates.drop_last());
        }
    }

    /// A correction keeps the nodes registered.
    pub proof fn lemma_correct_registered(self, node: usize, domain: Set<usize>, name: Seq<char>)
        requires
            all_registered(self.nodes),
            name == "ConditionalX"@ || name == "ConditionalZ"@,
        ensures
            all_registered(self.correct(node, domain, name).nodes),
    {
        let ids = crate::ids::members_in_order(domain);
        if ids.len() > 0 && self.bits.contains_key(ids[0]) {
            self.lemma_xor_known_registered(self.bits[ids[0]], ids.subrange(1, ids.len() as int));
        }
    }

    /// A command keeps the nodes registered.
    pub proof fn lemma_step_registered(self, command: CommandView)
        requires
            all_registered(self.nodes),
        ensures
            all_registered(self.step(command).nodes),
    {
        match command {
            CommandView::N { node } => {},
            CommandView::E { nodes } => {},
            CommandView::M { node, plane, angle } => {
                if self.qubits.contains_key(node) {
                    self.lemma_change_basis_registered(self.qubits[node], plane, angle);
                }
            },
            CommandView::X { node, domain } => {
                self.lemma_correct_registered(node, domain, "ConditionalX"@);
            },
            CommandView::Z { node, domain } => {
                self.lemma_correct_registered(node, domain, "ConditionalZ"@);
            },
            CommandView::C { node, clifford } => {
                if self.qubits.contains_key(node) {
                    self.lemma_apply_gates_registered(self.qubits[node], clifford);
                }
            },
        }
    }

    /// A run of commands keeps the nodes registered.
    pub proof fn lemma_run_registered(self, commands: Seq<CommandView>)
        requires
            all_registered(self.nodes),
        ensures
            all_registered(self.run(commands).nodes),
        decreases commands.len(),
    {
        if commands.len() > 0 {
            self.lemma_run_registered(commands.drop_last());
            self.run(commands.drop_last()).lemma_step_registered(commands.last());
        }
    }

    /// Reading off bits keeps the nodes registered.
    pub proof fn lemma_gather_bits_registered(self, ids: Seq<usize>)
        requires
            all_registered(self.nodes),
        ensures
            all_registered(self.gather_bits(ids).state.nodes),
        decreases ids.len(),
    {
        if ids.len() > 0 {
            self.lemma_gather_bits_registered(ids.drop_last());
        }
    }
}

/// Every node of the graph that a pattern denotes carries a registered
/// operation.
pub proof fn lemma_lowered_registered(pattern: PatternView, graph: HugrView, id: usize)
    requires
        pattern.lowered() == Ok::<HugrView, ConversionError>(graph),
        graph.nodes.contains_key(id),
    ensures
        registered(graph.nodes[id].operation),
{
    let done = pattern.executed();
    pattern.initial().lemma_run_registered(pattern.commands);
    done.lemma_gather_bits_registered(pattern.measured());
    let nodes = done.gather_bits(pattern.measured()).state.nodes;
    if id != nodes.len() as usize {
        assert(registered(nodes[id as int].operation));
    }
}

/// In the graph that a pattern denotes, every rotation `Rx`, `Ry` or `Rz`
/// has one parameter, and the magnitude of that angle exceeds `1e-10`.
pub proof fn lemma_no_negligible_rotation(pattern: PatternView, graph: HugrView, id: usize)
    requires
        pattern.lowered() == Ok::<HugrView, ConversionError>(graph),
        graph.nodes.contains_key(id),
        is_rotation(graph.nodes[id].operation),
    ensures
        graph.nodes[id].operation matches OperationView::Custom { args, .. } && args.len() == 1
            && args[0].exceeds_epsilon(),
{
    lemma_lowered_registered(pattern, graph, id);
    lemma_registered_rotation(graph.nodes[id].operation);
}

/// In the graph that a pattern denotes, no node is the identity gate `I`.
pub proof fn lemma_no_identity_gate(pattern: PatternView, graph: HugrView, id: usize)
    requires
        pattern.lowered() == Ok::<HugrView, ConversionError>(graph),
        graph.nodes.contains_key(id),
    ensures
        !(graph.nodes[id].operation matches OperationView::Custom { name, .. } && name == "I"@),
{
    lemma_lowered_registered(pattern, graph, id);
    lemma_registered_not_identity(graph.nodes[id].operation);
}

} // verus!

