//! The lowering as mathematics: what graph a pattern denotes.
//!
//! A [`Lowering`] is the state of a conversion between two commands: the nodes
//! emitted so far, in order of emission, the wire that carries each live
//! qubit, and the wire that carries each measured bit.  Every command is a
//! function from state to state, a pattern is their composition from the
//! initial state, and the finished graph is a function of the final state.
//! The executable converter is proved to compute exactly these functions.

use vstd::prelude::*;

use crate::converter::ConversionError;
use crate::float_bits::FloatBits;
use crate::hugr::{
    ConstValue, FunctionTypeView, HugrType, HugrView, NodeView, OperationView, Wire,
};
use crate::ids::{in_order, members_in_order};
use crate::types::{CliffordGate, CommandView, PatternView, Plane};

verus! {

/// A custom operation of extension `quantum.mbqc`.
pub open spec fn quantum_op(
    name: Seq<char>,
    inputs: Seq<HugrType>,
    outputs: Seq<HugrType>,
    args: Seq<FloatBits>,
) -> OperationView {
    OperationView::Custom {
        name,
        signature: FunctionTypeView { inputs, outputs },
        extension: "quantum.mbqc"@,
        args,
    }
}

/// A gate on one qubit, without parameters.
pub open spec fn gate_op(name: Seq<char>) -> OperationView {
    quantum_op(name, seq![HugrType::Qubit], seq![HugrType::Qubit], seq![])
}

/// A rotation of one qubit by `angle`.
pub open spec fn rotation_op(name: Seq<char>, angle: FloatBits) -> OperationView {
    quantum_op(name, seq![HugrType::Qubit], seq![HugrType::Qubit], seq![angle])
}

/// `PrepareQubit`: no input, one qubit.
pub open spec fn prepare_op() -> OperationView {
    quantum_op("PrepareQubit"@, seq![], seq![HugrType::Qubit], seq![])
}

/// `CZ`: two qubits in, two qubits out.
pub open spec fn cz_op() -> OperationView {
    quantum_op(
        "CZ"@,
        seq![HugrType::Qubit, HugrType::Qubit],
        seq![HugrType::Qubit, HugrType::Qubit],
        seq![],
    )
}

/// `Measure`: one qubit in, one bit out.
pub open spec fn measure_op() -> OperationView {
    quantum_op("Measure"@, seq![HugrType::Qubit], seq![HugrType::Bool], seq![])
}

/// A conditional Pauli gate: a bit and a qubit in, a qubit out.
pub open spec fn conditional_op(name: Seq<char>) -> OperationView {
    quantum_op(name, seq![HugrType::Bool, HugrType::Qubit], seq![HugrType::Qubit], seq![])
}

/// `XOR` of extension `logic`: two bits in, one bit out.
pub open spec fn xor_op() -> OperationView {
    OperationView::Custom {
        name: "XOR"@,
        signature: FunctionTypeView {
            inputs: seq![HugrType::Bool, HugrType::Bool],
            outputs: seq![HugrType::Bool],
        },
        extension: "logic"@,
        args: seq![],
    }
}

/// The operation that a Clifford gate lowers to; none for the identity.
pub open spec fn clifford_op(gate: CliffordGate) -> Option<OperationView> {
    match gate {
        CliffordGate::I => None,
        CliffordGate::X => Some(gate_op("X"@)),
        CliffordGate::Y => Some(gate_op("Y"@)),
        CliffordGate::Z => Some(gate_op("Z"@)),
        CliffordGate::S => Some(gate_op("S"@)),
        CliffordGate::SDG => Some(gate_op("Sdg"@)),
        CliffordGate::H => Some(gate_op("H"@)),
    }
}

/// The graph that holds `nodes` under their positions, rooted at node 0.
pub open spec fn graph_of(nodes: Seq<NodeView>) -> HugrView {
    HugrView {
        nodes: Map::new(|k: usize| k < nodes.len(), |k: usize| nodes[k as int]),
        next_node_id: nodes.len() as usize,
        root: 0,
    }
}

/// The nodes of a graph by ascending identifier.
pub open spec fn nodes_of(graph: HugrView) -> Seq<NodeView> {
    Seq::new(graph.next_node_id as nat, |i: int| graph.nodes[i as usize])
}

/// The state of a conversion between two commands.
pub struct Lowering {
    /// The nodes emitted so far, in order of emission.
    pub nodes: Seq<NodeView>,
    /// The wire of each live qubit.
    pub qubits: Map<usize, Wire>,
    /// The wire of each measured bit.
    pub bits: Map<usize, Wire>,
}

/// A state together with a wire that the last step produced or passed on.
pub struct Traced {
    pub state: Lowering,
    pub wire: Wire,
}

impl Lowering {
    /// The identifier that the next node gets.
    pub open spec fn next_id(self) -> usize {
        self.nodes.len() as usize
    }

    /// The graph of the nodes emitted so far.
    pub open spec fn graph(self) -> HugrView {
        graph_of(self.nodes)
    }

    /// Emits a node for `operation`, fed by `inputs`.
    pub open spec fn emit(self, operation: OperationView, inputs: Seq<Wire>) -> Lowering {
        Lowering {
            nodes: self.nodes.push(NodeView::wired(self.next_id(), operation, inputs)),
            ..self
        }
    }

    /// Emits a node with one input and hands on its first output wire.
    pub open spec fn apply(self, operation: OperationView, input: Wire) -> Traced {
        Traced {
            state: self.emit(operation, seq![input]),
            wire: Wire { node_id: self.next_id(), port: 0 },
        }
    }

    /// Emits a `Const` node for `false` and the node that loads it.
    pub open spec fn load_false(self) -> Traced {
        let constant = Lowering {
            nodes: self.nodes.push(
                NodeView::bare(
                    self.next_id(),
                    OperationView::Const { value: ConstValue::Bool(false) },
                ),
            ),
            ..self
        };
        Traced {
            state: constant.emit(
                OperationView::LoadConst { const_node: self.next_id() },
                seq![],
            ),
            wire: Wire { node_id: constant.next_id(), port: 0 },
        }
    }

    /// The state in which qubit `node` rides on `wire`.
    pub open spec fn bind_qubit(self, node: usize, wire: Wire) -> Lowering {
        Lowering { qubits: self.qubits.insert(node, wire), ..self }
    }

    /// The state in which qubit `node` is no longer live.
    pub open spec fn unbind_qubit(self, node: usize) -> Lowering {
        Lowering { qubits: self.qubits.remove(node), ..self }
    }

    /// The state in which the bit measured on qubit `node` rides on `wire`.
    pub open spec fn bind_bit(self, node: usize, wire: Wire) -> Lowering {
        Lowering { bits: self.bits.insert(node, wire), ..self }
    }

    /// `N`: a fresh qubit.  A binding that `node` had is replaced.
    pub open spec fn prepare(self, node: usize) -> Lowering {
        self.emit(prepare_op(), seq![]).bind_qubit(
            node,
            Wire { node_id: self.next_id(), port: 0 },
        )
    }

    /// `E`: a controlled-Z between two live qubits; nothing if either is
    /// not live.
    pub open spec fn entangle(self, a: usize, b: usize) -> Lowering {
        if self.qubits.contains_key(a) && self.qubits.contains_key(b) {
            self.emit(cz_op(), seq![self.qubits[a], self.qubits[b]]).bind_qubit(
                a,
                Wire { node_id: self.next_id(), port: 0 },
            ).bind_qubit(b, Wire { node_id: self.next_id(), port: 1 })
        } else {
            self
        }
    }

    /// The change of basis that turns a measurement in `plane` at `angle`
    /// into a measurement along Z.  A rotation whose angle does not exceed
    /// the threshold in magnitude is left out.
    pub open spec fn change_basis(self, wire: Wire, plane: Plane, angle: FloatBits) -> Traced {
        let kept = Traced { state: self, wire };
        match plane {
            Plane::XY => {
                let rotated = if angle.exceeds_epsilon() {
                    self.apply(rotation_op("Rz"@, angle.negated()), wire)
                } else {
                    kept
                };
                rotated.state.apply(gate_op("H"@), rotated.wire)
            },
            Plane::YZ => if angle.exceeds_epsilon() {
                self.apply(rotation_op("Rx"@, angle.negated()), wire)
            } else {
                kept
            },
            Plane::XZ => if angle.exceeds_epsilon() {
                self.apply(rotation_op("Ry"@, angle), wire)
            } else {
                kept
            },
        }
    }

    /// `M`: change of basis, then a measurement along Z.  The qubit stops
    /// being live and its bit becomes known.  Nothing if the qubit is not
    /// live.
    pub open spec fn measure(self, node: usize, plane: Plane, angle: FloatBits) -> Lowering {
        if self.qubits.contains_key(node) {
            let turned = self.change_basis(self.qubits[node], plane, angle);
            let measured = turned.state.apply(measure_op(), turned.wire);
            measured.state.bind_bit(node, measured.wire).unbind_qubit(node)
        } else {
            self
        }
    }

    /// Folds the known bits among `ids` into `acc` with one `XOR` node each,
    /// from left to right.  Identifiers without a bit are passed over.
    pub open spec fn xor_known(self, acc: Wire, ids: Seq<usize>) -> Traced
        decreases ids.len(),
    {
        if ids.len() == 0 {
            Traced { state: self, wire: acc }
        } else {
            let before = self.xor_known(acc, ids.drop_last());
            if self.bits.contains_key(ids.last()) {
                Traced {
                    state: before.state.emit(xor_op(), seq![before.wire, self.bits[ids.last()]]),
                    wire: Wire { node_id: before.state.next_id(), port: 0 },
                }
            } else {
                before
            }
        }
    }

    /// The wire that carries the parity of the bits of `domain`, given in
    /// ascending order.  An empty domain, or one whose least identifier has
    /// no bit, gives a freshly loaded `false`.
    pub open spec fn parity(self, domain: Seq<usize>) -> Traced {
        if domain.len() > 0 && self.bits.contains_key(domain[0]) {
            self.xor_known(self.bits[domain[0]], domain.subrange(1, domain.len() as int))
        } else {
            self.load_false()
        }
    }

    /// `X` and `Z`: the Pauli operation `name` on a live qubit, conditioned on the
    /// parity of `domain`.  Nothing if the qubit is not live.
    pub open spec fn correct(self, node: usize, domain: Set<usize>, name: Seq<char>) -> Lowering {
        if self.qubits.contains_key(node) {
            let condition = self.parity(members_in_order(domain));
            condition.state.emit(
                conditional_op(name),
                seq![condition.wire, self.qubits[node]],
            ).bind_qubit(node, Wire { node_id: condition.state.next_id(), port: 0 })
        } else {
            self
        }
    }

    /// Threads `wire` through the gates in order, the identity left out.
    pub open spec fn apply_gates(self, wire: Wire, gates: Seq<CliffordGate>) -> Traced
        decreases gates.len(),
    {
        if gates.len() == 0 {
            Traced { state: self, wire }
        } else {
            let before = self.apply_gates(wire, gates.drop_last());
            match clifford_op(gates.last()) {
                Some(operation) => before.state.apply(operation, before.wire),
                None => before,
            }
        }
    }

    /// `C`: Clifford gates on a live qubit; nothing if the qubit is not live.
    pub open spec fn clifford(self, node: usize, gates: Seq<CliffordGate>) -> Lowering {
        if self.qubits.contains_key(node) {
            let done = self.apply_gates(self.qubits[node], gates);
            done.state.bind_qubit(node, done.wire)
        } else {
            self
        }
    }

    /// One command.
    pub open spec fn step(self, command: CommandView) -> Lowering {
        match command {
            CommandView::N { node } => self.prepare(node),
            CommandView::E { nodes } => self.entangle(nodes.0, nodes.1),
            CommandView::M { node, plane, angle } => self.measure(node, plane, angle),
            CommandView::X { node, domain } => self.correct(node, domain, "ConditionalX"@),
            CommandView::Z { node, domain } => self.correct(node, domain, "ConditionalZ"@),
            CommandView::C { node, clifford } => self.clifford(node, clifford),
        }
    }

    /// The commands in order.
    pub open spec fn run(self, commands: Seq<CommandView>) -> Lowering
        decreases commands.len(),
    {
        if commands.len() == 0 {
            self
        } else {
            self.run(commands.drop_last()).step(commands.last())
        }
    }
}

/// The wire of each input qubit: the qubit at position `i` of `inputs` rides
/// on output port `i` of the `Input` node, node 0.  Of an identifier that
/// stands twice, the later position counts.
pub open spec fn bind_inputs(inputs: Seq<usize>) -> Map<usize, Wire>
    decreases inputs.len(),
{
    if inputs.len() == 0 {
        Map::empty()
    } else {
        bind_inputs(inputs.drop_last()).insert(
            inputs.last(),
            Wire { node_id: 0, port: (inputs.len() - 1) as usize },
        )
    }
}

/// Whether command `command` measures qubit `id`.
pub open spec fn measures(command: CommandView, id: usize) -> bool {
    command matches CommandView::M { node, .. } && node == id
}

impl PatternView {
    /// The input qubits in ascending order: the order of the graph's inputs.
    pub open spec fn sorted_inputs(self) -> Seq<usize> {
        in_order(self.input_nodes)
    }

    /// The output qubits in ascending order: the order of the graph's qubit
    /// outputs.
    pub open spec fn sorted_outputs(self) -> Seq<usize> {
        in_order(self.output_nodes)
    }

    /// The qubits that one of the first `n` commands measures and that are
    /// not outputs.
    pub open spec fn measured_among(self, n: int) -> Set<usize> {
        Set::new(
            |id: usize|
                !self.output_nodes.contains(id) && exists|i: int|
                    0 <= i < n && i < self.commands.len() && measures(
                        #[trigger] self.commands[i],
                        id,
                    ),
        )
    }

    /// The qubits that some command measures and that are not outputs.
    pub open spec fn measured_set(self) -> Set<usize> {
        self.measured_among(self.commands.len() as int)
    }

    /// The measured qubits in ascending order, each once: the order of the
    /// graph's bit outputs.
    pub open spec fn measured(self) -> Seq<usize> {
        members_in_order(self.measured_set())
    }

    /// The state before the first command: the `Input` node is emitted and
    /// the input qubits are live.
    pub open spec fn initial(self) -> Lowering {
        Lowering {
            nodes: seq![
                NodeView::bare(
                    0,
                    OperationView::Input {
                        types: Seq::new(self.input_nodes.len(), |i: int| HugrType::Qubit),
                    },
                ),
            ],
            qubits: bind_inputs(self.sorted_inputs()),
            bits: Map::empty(),
        }
    }

    /// The state after the last command.
    pub open spec fn executed(self) -> Lowering {
        self.initial().run(self.commands)
    }
}

/// The state after reading off the bits of `ids` in order, with the wires
/// read.  For an identifier without a bit a `false` is loaded.
pub struct Gathered {
    pub state: Lowering,
    pub wires: Seq<Wire>,
}

impl Lowering {
    /// The first of `ids` that is not a live qubit, if there is one.
    pub open spec fn first_dead(self, ids: Seq<usize>) -> Option<usize>
        decreases ids.len(),
    {
        if ids.len() == 0 {
            None
        } else {
            match self.first_dead(ids.drop_last()) {
                Some(id) => Some(id),
                None => if self.qubits.contains_key(ids.last()) {
                    None
                } else {
                    Some(ids.last())
                },
            }
        }
    }

    /// The wires of the live qubits `ids`, in order.
    pub open spec fn qubit_wires(self, ids: Seq<usize>) -> Seq<Wire> {
        Seq::new(ids.len(), |i: int| self.qubits[ids[i]])
    }

    /// Reads off the bits of `ids` in order.
    pub open spec fn gather_bits(self, ids: Seq<usize>) -> Gathered
        decreases ids.len(),
    {
        if ids.len() == 0 {
            Gathered { state: self, wires: Seq::empty() }
        } else {
            let before = self.gather_bits(ids.drop_last());
            if self.bits.contains_key(ids.last()) {
                Gathered { state: before.state, wires: before.wires.push(self.bits[ids.last()]) }
            } else {
                let loaded = before.state.load_false();
                Gathered { state: loaded.state, wires: before.wires.push(loaded.wire) }
            }
        }
    }

    /// The finished graph: the nodes emitted, then the `Output` node fed by
    /// `outputs`.
    pub open spec fn sealed(self, outputs: Seq<Wire>) -> HugrView {
        self.graph().with_node(self.graph().output_node(outputs))
    }
}

impl PatternView {
    /// The state after the last command and after reading off the measured
    /// bits: all nodes are emitted but the `Output` node.
    pub open spec fn finished(self) -> Lowering {
        self.executed().gather_bits(self.measured()).state
    }

    /// The wires that the `Output` node consumes: those of the output
    /// qubits in ascending order, then those of the measured bits in
    /// ascending order.
    pub open spec fn output_wires(self) -> Seq<Wire> {
        self.executed().qubit_wires(self.sorted_outputs()) + self.executed().gather_bits(
            self.measured(),
        ).wires
    }

    /// The graph that the pattern denotes, or why it denotes none.
    ///
    /// The graph's inputs are the input qubits in ascending order.  Its
    /// outputs are the output qubits in ascending order, followed by the
    /// bits of the measured qubits in ascending order.  A pattern denotes no
    /// graph exactly if one of its output qubits is not live at the end; the
    /// error names the least such qubit.
    pub open spec fn lowered(self) -> Result<HugrView, ConversionError> {
        let done = self.executed();
        match done.first_dead(self.sorted_outputs()) {
            Some(id) => Err(ConversionError::OutputNodeNotFound(id)),
            None => Ok(self.finished().sealed(self.output_wires())),
        }
    }
}

/// A well-formed graph holds as many nodes as its next identifier says, and
/// adding a node appends to them.
pub proof fn lemma_nodes_of_with_node(graph: HugrView, node: NodeView)
    requires
        graph.wf(),
        graph.next_node_id < usize::MAX,
    ensures
        nodes_of(graph).len() == graph.next_node_id,
        nodes_of(graph.with_node(node)) == nodes_of(graph).push(node),
{
    assert(nodes_of(graph.with_node(node)) =~= nodes_of(graph).push(node));
}

/// A well-formed graph rooted at node 0 is the graph of its nodes.
pub proof fn lemma_graph_of_nodes_of(graph: HugrView)
    requires
        graph.wf(),
        graph.root == 0,
    ensures
        graph_of(nodes_of(graph)) == graph,
{
    assert(graph_of(nodes_of(graph)).nodes =~= graph.nodes);
}

impl Lowering {
    /// A qubit that is dead among the first of `ids` is the first dead
    /// among all of them.
    pub proof fn lemma_first_dead_extends(self, ids: Seq<usize>, n: int)
        requires
            0 <= n <= ids.len(),
            self.first_dead(ids.subrange(0, n)) is Some,
        ensures
            self.first_dead(ids) == self.first_dead(ids.subrange(0, n)),
        decreases ids.len() - n,
    {
        if n < ids.len() {
            assert(ids.subrange(0, n + 1).drop_last() =~= ids.subrange(0, n));
            self.lemma_first_dead_extends(ids, n + 1);
        } else {
            assert(ids.subrange(0, n) =~= ids);
        }
    }
}

} // verus!
