//! Single use of wires.
//!
//! A qubit cannot be copied, so the wire of a qubit must feed at most one
//! input in the whole graph.  The lowering respects this because it replaces
//! the binding of a qubit whenever it consumes the qubit's wire.  The same
//! holds of the wires of constants and of parities.  The wire of a measured
//! bit is a classical value and may feed several corrections and the output.

use vstd::prelude::*;

use crate::converter::ConversionError;
use crate::float_bits::FloatBits;
use crate::growth::lemma_extends_index;
use crate::hugr::{Hugr, HugrType, HugrView, NodeView, OperationView, Wire};
use crate::ids::members_in_order;
use crate::lowering::{
    clifford_op, conditional_op, cz_op, gate_op, measure_op, nodes_of, prepare_op, rotation_op,
    xor_op, Lowering,
};
use crate::signature::{lemma_held_graph_fits, lemma_ids_count_up};
use crate::types::{CliffordGate, CommandView, Pattern, PatternView, Plane};

verus! {

/// How many of `inputs` are wire `w`.
pub open spec fn uses_in(inputs: Seq<Wire>, w: Wire) -> nat
    decreases inputs.len(),
{
    if inputs.len() == 0 {
        0
    } else {
        uses_in(inputs.drop_last(), w) + (if inputs.last() == w {
            1nat
        } else {
            0nat
        })
    }
}

/// How many inputs of `nodes` wire `w` feeds.
pub open spec fn uses(nodes: Seq<NodeView>, w: Wire) -> nat
    decreases nodes.len(),
{
    if nodes.len() == 0 {
        0
    } else {
        uses(nodes.drop_last(), w) + uses_in(nodes.last().inputs, w)
    }
}

/// Whether wire `w` comes out of a `Measure` node.
pub open spec fn from_measure(nodes: Seq<NodeView>, w: Wire) -> bool {
    w.node_id < nodes.len() && nodes[w.node_id as int].operation == measure_op()
}

/// Whether wire `w` is used no more often than it may be: not at all if its
/// node is yet to come, at most once unless it carries a measured bit.
pub open spec fn within(nodes: Seq<NodeView>, w: Wire) -> bool {
    if w.node_id >= nodes.len() {
        uses(nodes, w) == 0
    } else {
        from_measure(nodes, w) || uses(nodes, w) <= 1
    }
}

/// Whether wire `w` exists, feeds nothing yet, and does not carry a measured
/// bit.
pub open spec fn free(nodes: Seq<NodeView>, w: Wire) -> bool {
    w.node_id < nodes.len() && uses(nodes, w) == 0 && !from_measure(nodes, w)
}

/// A wire is used by a longer list as often as by the shorter, and as often
/// again as it feeds the added node.
pub proof fn lemma_uses_push(nodes: Seq<NodeView>, node: NodeView, w: Wire)
    ensures
        uses(nodes.push(node), w) == uses(nodes, w) + uses_in(node.inputs, w),
{
    assert(nodes.push(node).drop_last() =~= nodes);
}

/// The uses of a wire among no, one and two inputs.
pub proof fn lemma_uses_in_few(x: Wire, y: Wire, w: Wire)
    ensures
        uses_in(seq![], w) == 0,
        uses_in(seq![x], w) == if x == w {
            1nat
        } else {
            0nat
        },
        uses_in(seq![x, y], w) == (if x == w {
            1nat
        } else {
            0nat
        }) + (if y == w {
            1nat
        } else {
            0nat
        }),
{
    reveal_with_fuel(uses_in, 3);
    assert(seq![x].drop_last() =~= Seq::<Wire>::empty());
    assert(seq![x, y].drop_last() =~= seq![x]);
    assert(seq![x].last() == x);
    assert(seq![x, y].last() == y);
}

/// No operation that yields a qubit, and no `XOR`, is a measurement.
pub proof fn lemma_not_measure(name: Seq<char>, angle: FloatBits)
    ensures
        gate_op(name) != measure_op(),
        rotation_op(name, angle) != measure_op(),
        conditional_op(name) != measure_op(),
        prepare_op() != measure_op(),
        cz_op() != measure_op(),
        xor_op() != measure_op(),
{
    let bit = measure_op()->Custom_signature.outputs;
    assert(bit[0] == HugrType::Bool);
    assert(gate_op(name)->Custom_signature.outputs[0] == HugrType::Qubit);
    assert(rotation_op(name, angle)->Custom_signature.outputs[0] == HugrType::Qubit);
    assert(conditional_op(name)->Custom_signature.outputs[0] == HugrType::Qubit);
    assert(prepare_op()->Custom_signature.outputs[0] == HugrType::Qubit);
    assert(cz_op()->Custom_signature.outputs[0] == HugrType::Qubit);
    assert(xor_op()->Custom_signature.inputs.len() == 2);
    assert(measure_op()->Custom_signature.inputs.len() == 1);
}

impl Lowering {
    /// Whether every wire is used within bounds, the live qubits ride on
    /// different wires that feed nothing yet, and the measured bits come out
    /// of `Measure` nodes.
    pub open spec fn linear(self) -> bool {
        &&& self.nodes.len() <= usize::MAX
        &&& forall|w: Wire| #[trigger] within(self.nodes, w)
        &&& forall|k: usize| #[trigger]
            self.qubits.contains_key(k) ==> free(self.nodes, self.qubits[k])
        &&& forall|j: usize, k: usize|
            #![trigger self.qubits.contains_key(j), self.qubits.contains_key(k)]
            self.qubits.contains_key(j) && self.qubits.contains_key(k) && j != k
                ==> self.qubits[j] != self.qubits[k]
        &&& forall|k: usize| #[trigger]
            self.bits.contains_key(k) ==> from_measure(self.nodes, self.bits[k])
    }

    /// The same while the wire of qubit `node` is being threaded through
    /// gates: the wire in hand, `wire`, is free and differs from the wires
    /// of the other live qubits, whereas the binding of `node` is out of
    /// date.
    pub open spec fn threading(self, node: usize, wire: Wire) -> bool {
        &&& self.nodes.len() <= usize::MAX
        &&& forall|w: Wire| #[trigger] within(self.nodes, w)
        &&& forall|k: usize| #[trigger]
            self.qubits.contains_key(k) && k != node ==> free(self.nodes, self.qubits[k])
                && self.qubits[k] != wire
        &&& forall|j: usize, k: usize|
            #![trigger self.qubits.contains_key(j), self.qubits.contains_key(k)]
            self.qubits.contains_key(j) && self.qubits.contains_key(k) && j != k && j != node
                && k != node ==> self.qubits[j] != self.qubits[k]
        &&& forall|k: usize| #[trigger]
            self.bits.contains_key(k) ==> from_measure(self.nodes, self.bits[k])
        &&& free(self.nodes, wire)
    }

    /// A linear state can thread the wire of any live qubit.
    pub proof fn lemma_start_threading(self, node: usize)
        requires
            self.linear(),
            self.qubits.contains_key(node),
        ensures
            self.threading(node, self.qubits[node]),
    {
    }

    /// Binding the qubit to the wire in hand ends the threading.
    pub proof fn lemma_end_threading(self, node: usize, wire: Wire)
        requires
            self.threading(node, wire),
        ensures
            self.bind_qubit(node, wire).linear(),
    {
        let after = self.bind_qubit(node, wire);
        assert forall|k: usize| #[trigger] after.qubits.contains_key(k) implies free(
            after.nodes,
            after.qubits[k],
        ) by {
            if k != node {
                assert(self.qubits.contains_key(k));
            }
        }
        assert forall|j: usize, k: usize|
            #![trigger after.qubits.contains_key(j), after.qubits.contains_key(k)]
            after.qubits.contains_key(j) && after.qubits.contains_key(k) && j != k
                implies after.qubits[j] != after.qubits[k] by {
            if j != node {
                assert(self.qubits.contains_key(j));
            }
            if k != node {
                assert(self.qubits.contains_key(k));
            }
        }
    }

    /// A gate on the wire in hand continues the threading with the wire that
    /// it yields.
    pub proof fn lemma_apply_threading(self, node: usize, wire: Wire, operation: OperationView)
        requires
            self.threading(node, wire),
            self.nodes.len() < usize::MAX,
            operation != measure_op(),
        ensures
            self.apply(operation, wire).state.threading(node, self.apply(operation, wire).wire),
    {
        let after = self.apply(operation, wire).state;
        let fresh = self.apply(operation, wire).wire;
        let added = NodeView::wired(self.next_id(), operation, seq![wire]);
        assert forall|w: Wire| #[trigger] within(after.nodes, w) by {
            lemma_uses_push(self.nodes, added, w);
            lemma_uses_in_few(wire, wire, w);
            assert(within(self.nodes, w));
        }
        assert forall|k: usize| #[trigger] after.qubits.contains_key(k) && k != node implies free(
            after.nodes,
            after.qubits[k],
        ) && after.qubits[k] != fresh by {
            lemma_uses_push(self.nodes, added, self.qubits[k]);
            lemma_uses_in_few(wire, wire, self.qubits[k]);
        }
        assert(free(after.nodes, fresh)) by {
            lemma_uses_push(self.nodes, added, fresh);
            lemma_uses_in_few(wire, wire, fresh);
            assert(within(self.nodes, fresh));
        }
    }
}

/// Whether a correction may consume wire `w` as its condition: the wire
/// carries a measured bit, or it is free; and no live qubit rides on it.
pub open spec fn consumable(state: Lowering, w: Wire) -> bool {
    &&& from_measure(state.nodes, w) || free(state.nodes, w)
    &&& forall|k: usize| #[trigger] state.qubits.contains_key(k) ==> state.qubits[k] != w
}

impl Lowering {
    /// Emitting a node without inputs keeps a state linear and yields free
    /// wires.
    pub proof fn lemma_emit_source_linear(self, operation: OperationView, port: usize)
        requires
            self.linear(),
            self.nodes.len() < usize::MAX,
            operation != measure_op(),
        ensures
            self.emit(operation, seq![]).linear(),
            consumable(self.emit(operation, seq![]), Wire { node_id: self.next_id(), port }),
            free(self.emit(operation, seq![]).nodes, Wire { node_id: self.next_id(), port }),
    {
        let after = self.emit(operation, seq![]);
        let added = NodeView::wired(self.next_id(), operation, seq![]);
        let fresh = Wire { node_id: self.next_id(), port };
        assert forall|w: Wire| #[trigger] within(after.nodes, w) by {
            lemma_uses_push(self.nodes, added, w);
            lemma_uses_in_few(w, w, w);
            assert(within(self.nodes, w));
        }
        assert forall|k: usize| #[trigger] after.qubits.contains_key(k) implies free(
            after.nodes,
            after.qubits[k],
        ) by {
            lemma_uses_push(self.nodes, added, self.qubits[k]);
            lemma_uses_in_few(fresh, fresh, self.qubits[k]);
        }
        assert(within(after.nodes, fresh));
        assert(within(self.nodes, fresh));
        lemma_uses_push(self.nodes, added, fresh);
        lemma_uses_in_few(fresh, fresh, fresh);
    }

    /// Loading `false` keeps a state linear and yields a free wire.
    pub proof fn lemma_load_false_linear(self)
        requires
            self.linear(),
            self.nodes.len() + 2 <= usize::MAX,
        ensures
            self.load_false().state.linear(),
            consumable(self.load_false().state, self.load_false().wire),
            free(self.load_false().state.nodes, self.load_false().wire),
            self.load_false().wire.node_id > self.nodes.len(),
    {
        let constant = NodeView::bare(
            self.next_id(),
            OperationView::Const { value: crate::hugr::ConstValue::Bool(false) },
        );
        let middle = Lowering { nodes: self.nodes.push(constant), ..self };
        assert(middle.linear()) by {
            assert forall|w: Wire| #[trigger] within(middle.nodes, w) by {
                lemma_uses_push(self.nodes, constant, w);
                assert(within(self.nodes, w));
            }
            assert forall|k: usize| #[trigger] middle.qubits.contains_key(k) implies free(
                middle.nodes,
                middle.qubits[k],
            ) by {
                lemma_uses_push(self.nodes, constant, self.qubits[k]);
            }
        }
        let load = OperationView::LoadConst { const_node: self.next_id() };
        middle.lemma_emit_source_linear(load, 0);
    }
}

impl Lowering {
    /// `N` keeps a state linear.
    pub proof fn lemma_prepare_linear(self, node: usize)
        requires
            self.linear(),
            self.prepare(node).nodes.len() <= usize::MAX,
        ensures
            self.prepare(node).linear(),
    {
        lemma_not_measure(seq![], FloatBits { bits: 0 });
        self.lemma_emit_source_linear(prepare_op(), 0);
        let emitted = self.emit(prepare_op(), seq![]);
        let fresh = Wire { node_id: self.next_id(), port: 0 };
        let after = self.prepare(node);
        assert forall|k: usize| #[trigger] after.qubits.contains_key(k) implies free(
            after.nodes,
            after.qubits[k],
        ) by {
            if k != node {
                assert(emitted.qubits.contains_key(k));
            }
        }
        assert forall|j: usize, k: usize|
            #![trigger after.qubits.contains_key(j), after.qubits.contains_key(k)]
            after.qubits.contains_key(j) && after.qubits.contains_key(k) && j != k
                implies after.qubits[j] != after.qubits[k] by {
            if j != node {
                assert(emitted.qubits.contains_key(j));
            }
            if k != node {
                assert(emitted.qubits.contains_key(k));
            }
        }
    }

    /// `E` between two different qubits keeps a state linear.
    pub proof fn lemma_entangle_linear(self, a: usize, b: usize)
        requires
            self.linear(),
            a != b,
            self.entangle(a, b).nodes.len() <= usize::MAX,
        ensures
            self.entangle(a, b).linear(),
    {
        if self.qubits.contains_key(a) && self.qubits.contains_key(b) {
            lemma_not_measure(seq![], FloatBits { bits: 0 });
            let x = self.qubits[a];
            let y = self.qubits[b];
            let added = NodeView::wired(self.next_id(), cz_op(), seq![x, y]);
            let first = Wire { node_id: self.next_id(), port: 0 };
            let second = Wire { node_id: self.next_id(), port: 1 };
            let after = self.entangle(a, b);
            assert(x != y);
            assert forall|w: Wire| #[trigger] within(after.nodes, w) by {
                lemma_uses_push(self.nodes, added, w);
                lemma_uses_in_few(x, y, w);
                assert(within(self.nodes, w));
            }
            assert forall|k: usize| #[trigger] after.qubits.contains_key(k) implies free(
                after.nodes,
                after.qubits[k],
            ) by {
                lemma_uses_push(self.nodes, added, after.qubits[k]);
                lemma_uses_in_few(x, y, after.qubits[k]);
                assert(within(self.nodes, after.qubits[k]));
                if k != a && k != b {
                    assert(self.qubits.contains_key(k));
                }
            }
            assert forall|j: usize, k: usize|
                #![trigger after.qubits.contains_key(j), after.qubits.contains_key(k)]
                after.qubits.contains_key(j) && after.qubits.contains_key(k) && j != k
                    implies after.qubits[j] != after.qubits[k] by {
                if j != a && j != b {
                    assert(self.qubits.contains_key(j));
                }
                if k != a && k != b {
                    assert(self.qubits.contains_key(k));
                }
            }
        }
    }

    /// A change of basis continues the threading.
    pub proof fn lemma_change_basis_threading(
        self,
        node: usize,
        wire: Wire,
        plane: Plane,
        angle: FloatBits,
    )
        requires
            self.threading(node, wire),
            self.change_basis(wire, plane, angle).state.nodes.len() <= usize::MAX,
        ensures
            self.change_basis(wire, plane, angle).state.threading(
                node,
                self.change_basis(wire, plane, angle).wire,
            ),
    {
        lemma_not_measure("Rz"@, angle.negated());
        lemma_not_measure("Rx"@, angle.negated());
        lemma_not_measure("Ry"@, angle);
        lemma_not_measure("H"@, angle);
        match plane {
            Plane::XY => {
                if angle.exceeds_epsilon() {
                    let rz = rotation_op("Rz"@, angle.negated());
                    self.lemma_apply_threading(node, wire, rz);
                    let rotated = self.apply(rz, wire);
                    rotated.state.lemma_apply_threading(node, rotated.wire, gate_op("H"@));
                } else {
                    self.lemma_apply_threading(node, wire, gate_op("H"@));
                }
            },
            Plane::YZ => {
                if angle.exceeds_epsilon() {
                    self.lemma_apply_threading(node, wire, rotation_op("Rx"@, angle.negated()));
                }
            },
            Plane::XZ => {
                if angle.exceeds_epsilon() {
                    self.lemma_apply_threading(node, wire, rotation_op("Ry"@, angle));
                }
            },
        }
    }

    /// Threading a wire through gates continues the threading.
    pub proof fn lemma_apply_gates_threading(self, node: usize, wire: Wire, gates: Seq<CliffordGate>)
        requires
            self.threading(node, wire),
            self.apply_gates(wire, gates).state.nodes.len() <= usize::MAX,
        ensures
            self.apply_gates(wire, gates).state.threading(
                node,
                self.apply_gates(wire, gates).wire,
            ),
        decreases gates.len(),
    {
        if gates.len() > 0 {
            let before = self.apply_gates(wire, gates.drop_last());
            self.lemma_apply_gates_threading(node, wire, gates.drop_last());
            match clifford_op(gates.last()) {
                Some(operation) => {
                    lemma_not_measure("X"@, FloatBits { bits: 0 });
                    lemma_not_measure("Y"@, FloatBits { bits: 0 });
                    lemma_not_measure("Z"@, FloatBits { bits: 0 });
                    lemma_not_measure("S"@, FloatBits { bits: 0 });
                    lemma_not_measure("Sdg"@, FloatBits { bits: 0 });
                    lemma_not_measure("H"@, FloatBits { bits: 0 });
                    before.state.lemma_apply_threading(node, before.wire, operation);
                },
                None => {},
            }
        }
    }

    /// `C` keeps a state linear.
    pub proof fn lemma_clifford_linear(self, node: usize, gates: Seq<CliffordGate>)
        requires
            self.linear(),
            self.clifford(node, gates).nodes.len() <= usize::MAX,
        ensures
            self.clifford(node, gates).linear(),
    {
        if self.qubits.contains_key(node) {
            self.lemma_start_threading(node);
            self.lemma_apply_gates_threading(node, self.qubits[node], gates);
            let done = self.apply_gates(self.qubits[node], gates);
            done.state.lemma_end_threading(node, done.wire);
        }
    }

    /// `M` keeps a state linear: the wire in hand feeds the `Measure` node,
    /// the qubit stops being live, and its bit comes out of that node.
    pub proof fn lemma_measure_linear(self, node: usize, plane: Plane, angle: FloatBits)
        requires
            self.linear(),
            self.measure(node, plane, angle).nodes.len() <= usize::MAX,
        ensures
            self.measure(node, plane, angle).linear(),
    {
        if self.qubits.contains_key(node) {
            self.lemma_start_threading(node);
            self.lemma_change_basis_threading(node, self.qubits[node], plane, angle);
            let turned = self.change_basis(self.qubits[node], plane, angle);
            let before = turned.state;
            let wire = turned.wire;
            let added = NodeView::wired(before.next_id(), measure_op(), seq![wire]);
            let after = self.measure(node, plane, angle);
            assert forall|w: Wire| #[trigger] within(after.nodes, w) by {
                lemma_uses_push(before.nodes, added, w);
                lemma_uses_in_few(wire, wire, w);
                assert(within(before.nodes, w));
            }
            assert forall|k: usize| #[trigger] after.qubits.contains_key(k) implies free(
                after.nodes,
                after.qubits[k],
            ) by {
                assert(before.qubits.contains_key(k) && k != node);
                lemma_uses_push(before.nodes, added, before.qubits[k]);
                lemma_uses_in_few(wire, wire, before.qubits[k]);
            }
            assert forall|j: usize, k: usize|
                #![trigger after.qubits.contains_key(j), after.qubits.contains_key(k)]
                after.qubits.contains_key(j) && after.qubits.contains_key(k) && j != k
                    implies after.qubits[j] != after.qubits[k] by {
                assert(before.qubits.contains_key(j) && j != node);
                assert(before.qubits.contains_key(k) && k != node);
            }
            assert forall|k: usize| #[trigger] after.bits.contains_key(k) implies from_measure(
                after.nodes,
                after.bits[k],
            ) by {
                if k != node {
                    assert(before.bits.contains_key(k));
                }
            }
        }
    }
}

impl Lowering {
    /// An `XOR` of a consumable wire and a measured bit keeps a state linear
    /// and yields a consumable wire.
    pub proof fn lemma_xor_linear(self, acc: Wire, bit: Wire)
        requires
            self.linear(),
            consumable(self, acc),
            from_measure(self.nodes, bit),
            self.nodes.len() < usize::MAX,
        ensures
            self.emit(xor_op(), seq![acc, bit]).linear(),
            consumable(
                self.emit(xor_op(), seq![acc, bit]),
                Wire { node_id: self.next_id(), port: 0 },
            ),
    {
        lemma_not_measure(seq![], FloatBits { bits: 0 });
        let after = self.emit(xor_op(), seq![acc, bit]);
        let added = NodeView::wired(self.next_id(), xor_op(), seq![acc, bit]);
        let fresh = Wire { node_id: self.next_id(), port: 0 };
        assert forall|w: Wire| #[trigger] within(after.nodes, w) by {
            lemma_uses_push(self.nodes, added, w);
            lemma_uses_in_few(acc, bit, w);
            assert(within(self.nodes, w));
        }
        assert forall|k: usize| #[trigger] after.qubits.contains_key(k) implies free(
            after.nodes,
            after.qubits[k],
        ) by {
            lemma_uses_push(self.nodes, added, self.qubits[k]);
            lemma_uses_in_few(acc, bit, self.qubits[k]);
        }
        lemma_uses_push(self.nodes, added, fresh);
        lemma_uses_in_few(acc, bit, fresh);
        assert(within(self.nodes, fresh));
    }

    /// Folding bits into a parity keeps a state linear and yields a
    /// consumable wire.
    pub proof fn lemma_xor_known_linear(self, acc: Wire, ids: Seq<usize>)
        requires
            self.linear(),
            consumable(self, acc),
            self.xor_known(acc, ids).state.nodes.len() <= usize::MAX,
        ensures
            self.xor_known(acc, ids).state.linear(),
            consumable(self.xor_known(acc, ids).state, self.xor_known(acc, ids).wire),
        decreases ids.len(),
    {
        if ids.len() > 0 {
            let before = self.xor_known(acc, ids.drop_last());
            self.lemma_xor_known_linear(acc, ids.drop_last());
            self.lemma_xor_known_appends(acc, ids.drop_last());
            if self.bits.contains_key(ids.last()) {
                assert(before.state.bits.contains_key(ids.last()));
                before.state.lemma_xor_linear(before.wire, self.bits[ids.last()]);
            }
        }
    }

    /// Computing a parity keeps a state linear and yields a consumable wire.
    pub proof fn lemma_parity_linear(self, domain: Seq<usize>)
        requires
            self.linear(),
            self.parity(domain).state.nodes.len() <= usize::MAX,
        ensures
            self.parity(domain).state.linear(),
            consumable(self.parity(domain).state, self.parity(domain).wire),
    {
        if domain.len() > 0 && self.bits.contains_key(domain[0]) {
            self.lemma_xor_known_linear(
                self.bits[domain[0]],
                domain.subrange(1, domain.len() as int),
            );
        } else {
            self.lemma_load_false_linear();
        }
    }

    /// `X` and `Z` keep a state linear.
    pub proof fn lemma_correct_linear(self, node: usize, domain: Set<usize>, name: Seq<char>)
        requires
            self.linear(),
            self.correct(node, domain, name).nodes.len() <= usize::MAX,
        ensures
            self.correct(node, domain, name).linear(),
    {
        if self.qubits.contains_key(node) {
            lemma_not_measure(name, FloatBits { bits: 0 });
            let ids = members_in_order(domain);
            let condition = self.parity(ids);
            self.lemma_parity_linear(ids);
            self.lemma_parity_appends(ids);
            let before = condition.state;
            let x = condition.wire;
            let y = self.qubits[node];
            assert(before.qubits.contains_key(node));
            let added = NodeView::wired(before.next_id(), conditional_op(name), seq![x, y]);
            let after = self.correct(node, domain, name);
            let fresh = Wire { node_id: before.next_id(), port: 0 };
            assert forall|w: Wire| #[trigger] within(after.nodes, w) by {
                lemma_uses_push(before.nodes, added, w);
                lemma_uses_in_few(x, y, w);
                assert(within(before.nodes, w));
            }
            assert forall|k: usize| #[trigger] after.qubits.contains_key(k) implies free(
                after.nodes,
                after.qubits[k],
            ) by {
                lemma_uses_push(before.nodes, added, after.qubits[k]);
                lemma_uses_in_few(x, y, after.qubits[k]);
                assert(within(before.nodes, after.qubits[k]));
                if k != node {
                    assert(before.qubits.contains_key(k));
                }
            }
            assert forall|j: usize, k: usize|
                #![trigger after.qubits.contains_key(j), after.qubits.contains_key(k)]
                after.qubits.contains_key(j) && after.qubits.contains_key(k) && j != k
                    implies after.qubits[j] != after.qubits[k] by {
                if j != node {
                    assert(before.qubits.contains_key(j));
                }
                if k != node {
                    assert(before.qubits.contains_key(k));
                }
            }
        }
    }
}

impl Lowering {
    /// Whether the command entangles a live qubit with itself.
    pub open spec fn entangles_itself(self, command: CommandView) -> bool {
        command matches CommandView::E { nodes } && nodes.0 == nodes.1
            && self.qubits.contains_key(nodes.0)
    }

    /// Whether one of the commands, run in order, entangles a live qubit
    /// with itself.
    pub open spec fn meets_self_entangling(self, commands: Seq<CommandView>) -> bool {
        exists|c: int|
            0 <= c < commands.len() && self.run(commands.subrange(0, c)).entangles_itself(
                #[trigger] commands[c],
            )
    }

    /// A command that does not entangle a live qubit with itself keeps a
    /// state linear.
    pub proof fn lemma_step_linear(self, command: CommandView)
        requires
            self.linear(),
            !self.entangles_itself(command),
            self.step(command).nodes.len() <= usize::MAX,
        ensures
            self.step(command).linear(),
    {
        match command {
            CommandView::N { node } => self.lemma_prepare_linear(node),
            CommandView::E { nodes } => {
                if nodes.0 != nodes.1 {
                    self.lemma_entangle_linear(nodes.0, nodes.1);
                }
            },
            CommandView::M { node, plane, angle } => self.lemma_measure_linear(node, plane, angle),
            CommandView::X { node, domain } => self.lemma_correct_linear(
                node,
                domain,
                "ConditionalX"@,
            ),
            CommandView::Z { node, domain } => self.lemma_correct_linear(
                node,
                domain,
                "ConditionalZ"@,
            ),
            CommandView::C { node, clifford } => self.lemma_clifford_linear(node, clifford),
        }
    }

    /// Commands none of which entangles a live qubit with itself keep a
    /// state linear.
    pub proof fn lemma_run_linear(self, commands: Seq<CommandView>)
        requires
            self.linear(),
            !self.meets_self_entangling(commands),
            self.run(commands).nodes.len() <= usize::MAX,
        ensures
            self.run(commands).linear(),
        decreases commands.len(),
    {
        if commands.len() > 0 {
            let front = commands.drop_last();
            let before = self.run(front);
            before.lemma_step_extends(commands.last());
            assert(!self.meets_self_entangling(front)) by {
                if self.meets_self_entangling(front) {
                    let c = choose|c: int|
                        0 <= c < front.len() && self.run(front.subrange(0, c)).entangles_itself(
                            #[trigger] front[c],
                        );
                    assert(front.subrange(0, c) =~= commands.subrange(0, c));
                    assert(self.run(commands.subrange(0, c)).entangles_itself(commands[c]));
                }
            }
            assert(!before.entangles_itself(commands.last())) by {
                let c = commands.len() - 1;
                assert(commands.subrange(0, c) =~= front);
                assert(commands[c] == commands.last());
            }
            self.lemma_run_linear(front);
            before.lemma_step_linear(commands.last());
        }
    }
}

/// A wire that stands at most once in a list is used at most once by it,
/// and a wire that is used by a list stands in it.
pub proof fn lemma_uses_in_once(inputs: Seq<Wire>, w: Wire)
    ensures
        uses_in(inputs, w) > 0 ==> inputs.contains(w),
        (forall|i: int, j: int|
            0 <= i < j < inputs.len() && inputs[i] == w ==> inputs[j] != w) ==> uses_in(inputs, w)
            <= 1,
    decreases inputs.len(),
{
    if inputs.len() > 0 {
        let front = inputs.drop_last();
        lemma_uses_in_once(front, w);
        if uses_in(front, w) > 0 {
            let i = choose|i: int| 0 <= i < front.len() && front[i] == w;
            assert(inputs[i] == w);
        }
        if forall|i: int, j: int| 0 <= i < j < inputs.len() && inputs[i] == w ==> inputs[j] != w {
            assert forall|i: int, j: int| 0 <= i < j < front.len() && front[i] == w implies front[j]
                != w by {
                assert(inputs[i] == w);
                assert(inputs[j] == front[j]);
            }
            if inputs.last() == w && uses_in(front, w) > 0 {
                let i = choose|i: int| 0 <= i < front.len() && front[i] == w;
                assert(inputs[i] == w);
                assert(inputs[inputs.len() - 1] == w);
            }
        }
        if inputs.last() == w {
            assert(inputs[inputs.len() - 1] == w);
        }
    }
}

/// Appending a node without inputs changes no use count.
pub proof fn lemma_uses_source(nodes: Seq<NodeView>, node: NodeView, w: Wire)
    requires
        node.inputs.len() == 0,
    ensures
        uses(nodes.push(node), w) == uses(nodes, w),
{
    lemma_uses_push(nodes, node, w);
}

impl Lowering {
    /// Reading off bits keeps a state linear and changes no use count.  The
    /// wires read are consumable; those that do not carry a measured bit are
    /// fresh loads, each its own.
    pub proof fn lemma_gather_bits_linear(self, ids: Seq<usize>)
        requires
            self.linear(),
            self.gather_bits(ids).state.nodes.len() <= usize::MAX,
        ensures
            self.gather_bits(ids).state.linear(),
            forall|w: Wire| #[trigger]
                uses(self.gather_bits(ids).state.nodes, w) == uses(self.nodes, w),
            forall|i: int|
                0 <= i < ids.len() ==> from_measure(
                    self.gather_bits(ids).state.nodes,
                    #[trigger] self.gather_bits(ids).wires[i],
                ) || {
                    &&& free(self.gather_bits(ids).state.nodes, self.gather_bits(ids).wires[i])
                    &&& self.gather_bits(ids).wires[i].node_id >= self.nodes.len()
                    &&& forall|j: int|
                        0 <= j < ids.len() && j != i ==> self.gather_bits(ids).wires[j]
                            != self.gather_bits(ids).wires[i]
                },
        decreases ids.len(),
    {
        if ids.len() > 0 {
            let before = self.gather_bits(ids.drop_last());
            let after = self.gather_bits(ids);
            self.lemma_gather_bits_linear(ids.drop_last());
            self.lemma_gather_bits_appends(ids.drop_last());
            self.lemma_gather_bits_appends(ids);
            let last = ids.len() - 1;
            if self.bits.contains_key(ids.last()) {
                assert(before.state.bits.contains_key(ids.last()));
                assert forall|i: int| 0 <= i < ids.len() implies from_measure(
                    after.state.nodes,
                    #[trigger] after.wires[i],
                ) || {
                    &&& free(after.state.nodes, after.wires[i])
                    &&& after.wires[i].node_id >= self.nodes.len()
                    &&& forall|j: int|
                        0 <= j < ids.len() && j != i ==> after.wires[j] != after.wires[i]
                } by {
                    if i < last {
                        assert(after.wires[i] == before.wires[i]);
                        if !from_measure(before.state.nodes, before.wires[i]) {
                            assert forall|j: int| 0 <= j < ids.len() && j != i implies after.wires[j]
                                != after.wires[i] by {
                                if j < last {
                                    assert(after.wires[j] == before.wires[j]);
                                }
                            }
                        }
                    }
                }
            } else {
                let loaded = before.state.load_false();
                before.state.lemma_load_false_linear();
                before.state.lemma_load_false_appends();
                let constant = NodeView::bare(
                    before.state.next_id(),
                    OperationView::Const { value: crate::hugr::ConstValue::Bool(false) },
                );
                let load = NodeView::wired(
                    (before.state.nodes.len() + 1) as usize,
                    OperationView::LoadConst { const_node: before.state.next_id() },
                    seq![],
                );
                assert forall|w: Wire| #[trigger]
                    uses(after.state.nodes, w) == uses(self.nodes, w) by {
                    assert(uses(before.state.nodes, w) == uses(self.nodes, w));
                    lemma_uses_source(before.state.nodes, constant, w);
                    lemma_uses_source(before.state.nodes.push(constant), load, w);
                }
                assert forall|i: int| 0 <= i < ids.len() implies from_measure(
                    after.state.nodes,
                    #[trigger] after.wires[i],
                ) || {
                    &&& free(after.state.nodes, after.wires[i])
                    &&& after.wires[i].node_id >= self.nodes.len()
                    &&& forall|j: int|
                        0 <= j < ids.len() && j != i ==> after.wires[j] != after.wires[i]
                } by {
                    if i < last {
                        assert(after.wires[i] == before.wires[i]);
                        lemma_extends_index(
                            after.state.nodes,
                            before.state.nodes,
                            before.wires[i].node_id as int,
                        );
                        if !from_measure(before.state.nodes, before.wires[i]) {
                            assert(uses(before.state.nodes, before.wires[i]) == uses(
                                self.nodes,
                                before.wires[i],
                            ));
                            assert(uses(after.state.nodes, after.wires[i]) == uses(
                                self.nodes,
                                after.wires[i],
                            ));
                            assert forall|j: int| 0 <= j < ids.len() && j != i implies after.wires[j]
                                != after.wires[i] by {
                                if j < last {
                                    assert(after.wires[j] == before.wires[j]);
                                }
                            }
                        }
                    } else {
                        assert forall|j: int| 0 <= j < ids.len() && j != i implies after.wires[j]
                            != after.wires[i] by {
                            assert(after.wires[j] == before.wires[j]);
                            assert(before.wires[j].node_id < before.state.nodes.len());
                        }
                    }
                }
            }
        }
    }
}

impl PatternView {
    /// The initial state is linear.
    pub proof fn lemma_initial_linear(self)
        requires
            self.input_nodes.len() <= usize::MAX,
        ensures
            self.initial().linear(),
    {
        let start = self.initial();
        let ids = self.sorted_inputs();
        crate::ids::lemma_in_order_ensures(self.input_nodes);
        assert(start.nodes.drop_last() =~= Seq::<NodeView>::empty());
        assert forall|w: Wire| #[trigger] uses(start.nodes, w) == 0 by {
            assert(uses(start.nodes.drop_last(), w) == 0);
        }
        assert forall|w: Wire| #[trigger] within(start.nodes, w) by {
            assert(uses(start.nodes, w) == 0);
        }
        assert forall|k: usize| #[trigger] start.qubits.contains_key(k) implies free(
            start.nodes,
            start.qubits[k],
        ) by {
            crate::typing::lemma_bind_inputs_ports(ids, k);
            assert(uses(start.nodes, start.qubits[k]) == 0);
        }
        assert forall|j: usize, k: usize|
            #![trigger start.qubits.contains_key(j), start.qubits.contains_key(k)]
            start.qubits.contains_key(j) && start.qubits.contains_key(k) && j != k
                implies start.qubits[j] != start.qubits[k] by {
            crate::typing::lemma_bind_inputs_ports(ids, j);
            crate::typing::lemma_bind_inputs_ports(ids, k);
        }
    }
}

/// In the graph that a pattern denotes, a wire feeds at most one input,
/// unless it carries a measured bit.
///
/// This holds of every port of every node that is not a `Measure` node, if
/// no command of the pattern entangles a live qubit with itself and no qubit
/// is listed twice among the outputs.  Such a command feeds one wire to both
/// inputs of a `CZ`, and such an output feeds one wire to two inputs of the
/// `Output` node.
pub proof fn lemma_single_use(pattern: Pattern, hugr: Hugr, w: Wire)
    requires
        pattern@.lowered() == Ok::<HugrView, ConversionError>(hugr@),
        !pattern@.initial().meets_self_entangling(pattern@.commands),
        pattern@.output_nodes.no_duplicates(),
        hugr@.nodes.contains_key(w.node_id),
        hugr@.nodes[w.node_id].operation != measure_op(),
    ensures
        uses(nodes_of(hugr@), w) <= 1,
{
    let p = pattern@;
    let start = p.initial();
    let done = p.executed();
    let end = p.finished();
    let gathered = done.gather_bits(p.measured());
    let outs = p.sorted_outputs();
    let quantum = done.qubit_wires(outs);
    let wires = p.output_wires();
    let last = end.graph().output_node(wires);
    assert(p.input_nodes.len() == pattern.input_nodes.len());
    lemma_held_graph_fits(end.nodes, last, hugr);
    lemma_ids_count_up(pattern, hugr);
    done.lemma_gather_bits_appends(p.measured());
    start.lemma_run_extends(p.commands);
    p.lemma_initial_linear();
    start.lemma_run_linear(p.commands);
    done.lemma_gather_bits_linear(p.measured());
    done.lemma_none_dead(outs);
    lemma_uses_push(end.nodes, last, w);
    assert(within(end.nodes, w));
    if w.node_id < end.nodes.len() {
        assert(p.emitted()[w.node_id as int] == end.nodes[w.node_id as int]);
    }
    assert(!from_measure(end.nodes, w));
    // The output qubits are different, so their wires are.
    crate::ids::lemma_in_order_ensures(p.output_nodes);
    p.output_nodes.lemma_multiset_has_no_duplicates();
    outs.lemma_multiset_has_no_duplicates_conv();
    assert forall|i: int, j: int| 0 <= i < j < wires.len() && wires[i] == w implies wires[j]
        != w by {
        let n = quantum.len() as int;
        if j < n {
            assert(done.qubits.contains_key(outs[i]) && done.qubits.contains_key(outs[j]));
            assert(outs[i] != outs[j]);
        } else if i < n {
            assert(done.qubits.contains_key(outs[i]));
            assert(free(done.nodes, quantum[i]));
            assert(wires[j] == gathered.wires[j - n]);
        } else {
            assert(wires[i] == gathered.wires[i - n]);
            assert(wires[j] == gathered.wires[j - n]);
        }
    }
    lemma_uses_in_once(wires, w);
    if uses_in(wires, w) > 0 {
        let i = choose|i: int| 0 <= i < wires.len() && wires[i] == w;
        let n = quantum.len() as int;
        if i < n {
            assert(done.qubits.contains_key(outs[i]));
            assert(free(done.nodes, quantum[i]));
            assert(uses(end.nodes, w) == uses(done.nodes, w));
        } else {
            assert(wires[i] == gathered.wires[i - n]);
        }
        assert(uses(end.nodes, w) == 0);
    }
}

} // verus!
