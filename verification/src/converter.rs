//! The converter: walks a pattern and builds the graph that it denotes.

use std::collections::{HashMap, HashSet};
use vstd::prelude::*;

use crate::float_bits::FloatBits;
use crate::hugr::{
    port_wires, ConstValue, DfgBuilder, FunctionType, FunctionTypeView, Hugr, HugrType, HugrView,
    NodeView, Operation, OperationView, Wire,
};
use crate::ids::{members_in_order, sorted, sorted_distinct, sorted_members};
use crate::lowering::{
    bind_inputs, conditional_op, cz_op, gate_op, lemma_graph_of_nodes_of,
    lemma_nodes_of_with_node, measure_op, measures, nodes_of, rotation_op, Gathered, Lowering,
    Traced,
};
use crate::types::{CliffordGate, Command, Pattern, PatternView, Plane};

verus! {

/// Why a pattern has no graph.
#[derive(Debug, Clone, Copy, PartialEq, Eq, Structural)]
pub enum ConversionError {
    /// A declared output qubit carries no live wire when the commands are
    /// done: it was measured, never prepared, or never an input.
    OutputNodeNotFound(usize),
    /// Kept for stricter variants of the conversion; this one never gives it.
    NodeNotFound(usize),
}

/// Converts patterns to graphs, one at a time.  Between two commands it
/// holds the builder of the graph and the wire of every live qubit and of
/// every measured bit.
pub struct GraphixToHugrConverter {
    dfg: Option<DfgBuilder>,
    qubit_wires: HashMap<usize, Wire>,
    classical_wires: HashMap<usize, Wire>,
}

impl Default for GraphixToHugrConverter {
    fn default() -> (c: GraphixToHugrConverter)
        ensures
            !c.converting(),
    {
        GraphixToHugrConverter::new()
    }
}

/// Whether `result` is what the conversion of `pattern` gives: the graph
/// that the pattern denotes, well formed, or the reason why it denotes none.
pub open spec fn converts_to(pattern: PatternView, result: Result<Hugr, ConversionError>) -> bool {
    match result {
        Ok(hugr) => pattern.lowered() == Ok::<HugrView, ConversionError>(hugr@) && hugr.wf(),
        Err(e) => pattern.lowered() == Err::<HugrView, ConversionError>(e),
    }
}

/// Converts `pattern` to the graph that it denotes, with a converter of its
/// own.  Fails exactly if an output qubit of the pattern is not live when its
/// commands are done, and then names the least such qubit.
pub fn convert_graphix_pattern_to_hugr(pattern: &Pattern) -> (result: Result<
    Hugr,
    ConversionError,
>)
    ensures
        converts_to(pattern@, result),
{
    let mut converter = GraphixToHugrConverter::new();
    converter.convert(pattern)
}

impl GraphixToHugrConverter {
    /// Whether a conversion is under way on a well-formed, unsealed graph
    /// rooted at node 0.
    pub closed spec fn converting(&self) -> bool {
        &&& self.dfg matches Some(dfg)
        &&& dfg.wf()
        &&& !dfg.sealed()
        &&& dfg.hugr.root == 0
    }

    /// The state of the conversion under way.
    pub closed spec fn model(&self) -> Lowering {
        Lowering {
            nodes: nodes_of(self.dfg->0.hugr@),
            qubits: self.qubit_wires@,
            bits: self.classical_wires@,
        }
    }

    /// The graph under construction, if a conversion has begun.
    pub closed spec fn graph(&self) -> Option<HugrView> {
        match self.dfg {
            Some(dfg) => Some(dfg.hugr@),
            None => None,
        }
    }

    /// The wire of each qubit that the converter holds as live.
    pub closed spec fn live_qubits(&self) -> Map<usize, Wire> {
        self.qubit_wires@
    }

    /// The wire of each measured bit that the converter holds.
    pub closed spec fn known_bits(&self) -> Map<usize, Wire> {
        self.classical_wires@
    }

    /// A converter at rest: it has no graph under construction and holds no
    /// wire, neither of a qubit nor of a bit.
    pub fn new() -> (c: GraphixToHugrConverter)
        ensures
            c.graph() is None,
            c.live_qubits() == Map::<usize, Wire>::empty(),
            c.known_bits() == Map::<usize, Wire>::empty(),
            !c.converting(),
    {
        GraphixToHugrConverter {
            dfg: None,
            qubit_wires: HashMap::new(),
            classical_wires: HashMap::new(),
        }
    }

    /// Converts `pattern` to the graph that it denotes.  Fails exactly if an
    /// output qubit of the pattern is not live when its commands are done,
    /// and then names the least such qubit.  Each call starts afresh: what an
    /// earlier conversion bound is forgotten.
    pub fn convert(&mut self, pattern: &Pattern) -> (result: Result<Hugr, ConversionError>)
        ensures
            converts_to(pattern@, result),
    {
        let input_nodes = sorted(copy_ids(&pattern.input_nodes));
        let output_nodes = sorted(copy_ids(&pattern.output_nodes));
        let measured_nodes = self.get_measured_nodes(pattern);

        let n_inputs = input_nodes.len();
        let input_types = qubit_types(n_inputs);
        let dfg = DfgBuilder::new(input_types);

        self.qubit_wires = HashMap::new();
        self.classical_wires = HashMap::new();
        let mut i: usize = 0;
        while i < n_inputs
            invariant
                i <= n_inputs,
                n_inputs == input_nodes@.len(),
                dfg.input_wires@ == port_wires(0, n_inputs as nat),
                self.classical_wires@ == Map::<usize, Wire>::empty(),
                self.qubit_wires@ == bind_inputs(input_nodes@.subrange(0, i as int)),
            decreases n_inputs - i,
        {
            assert(input_nodes@.subrange(0, i + 1).drop_last() =~= input_nodes@.subrange(
                0,
                i as int,
            ));
            let wire = dfg.input_wires[i];
            self.qubit_wires.insert(input_nodes[i], wire);
            i += 1;
        }
        assert(input_nodes@.subrange(0, i as int) =~= input_nodes@);
        proof {
            lemma_nodes_of_with_node(
                HugrView::empty(),
                NodeView::bare(0, OperationView::Input { types: input_types@ }),
            );
            assert(nodes_of(HugrView::empty()) =~= Seq::<NodeView>::empty());
            assert(nodes_of(dfg.hugr@) =~= pattern@.initial().nodes);
        }
        self.dfg = Some(dfg);
        assert(self.model().nodes == pattern@.initial().nodes);
        assert(self.model().qubits == pattern@.initial().qubits);
        assert(self.model().bits =~= pattern@.initial().bits);
        assert(self.model() == pattern@.initial());

        let mut k: usize = 0;
        while k < pattern.commands.len()
            invariant
                k <= pattern.commands@.len(),
                self.converting(),
                self.model() == pattern@.initial().run(pattern@.commands.subrange(0, k as int)),
            decreases pattern.commands@.len() - k,
        {
            assert(pattern@.commands.subrange(0, k + 1).drop_last() =~= pattern@.commands.subrange(
                0,
                k as int,
            ));
            self.process_command(&pattern.commands[k]);
            k += 1;
        }
        assert(pattern@.commands.subrange(0, k as int) =~= pattern@.commands);
        let ghost done = self.model();

        let mut output_wires: Vec<Wire> = Vec::new();
        let mut j: usize = 0;
        while j < output_nodes.len()
            invariant
                j <= output_nodes@.len(),
                self.model() == done,
                done == pattern@.executed(),
                output_nodes@ == pattern@.sorted_outputs(),
                done.first_dead(output_nodes@.subrange(0, j as int)) is None,
                output_wires@ == done.qubit_wires(output_nodes@.subrange(0, j as int)),
            decreases output_nodes@.len() - j,
        {
            assert(output_nodes@.subrange(0, j + 1).drop_last() =~= output_nodes@.subrange(
                0,
                j as int,
            ));
            let node_idx = output_nodes[j];
            if let Some(wire) = self.qubit_wire(node_idx) {
                output_wires.push(wire);
                assert(output_wires@ =~= done.qubit_wires(output_nodes@.subrange(0, j + 1)));
            } else {
                proof {
                    assert(output_nodes@.subrange(0, j + 1).last() == node_idx);
                    assert(done.first_dead(output_nodes@.subrange(0, j + 1)) == Some(node_idx));
                    done.lemma_first_dead_extends(output_nodes@, j + 1);
                }
                return Err(ConversionError::OutputNodeNotFound(node_idx));
            }
            j += 1;
        }
        assert(output_nodes@.subrange(0, j as int) =~= output_nodes@);
        let ghost quantum = output_wires@;
        assert(output_wires@.subrange(quantum.len() as int, output_wires@.len() as int)
            =~= Seq::<Wire>::empty());

        let mut m: usize = 0;
        while m < measured_nodes.len()
            invariant
                m <= measured_nodes@.len(),
                self.converting(),
                self.model().bits == done.bits,
                done.gather_bits(measured_nodes@.subrange(0, m as int)) == (Gathered {
                    state: self.model(),
                    wires: output_wires@.subrange(quantum.len() as int, output_wires@.len() as int),
                }),
                output_wires@.subrange(0, quantum.len() as int) == quantum,
                quantum.len() <= output_wires@.len(),
            decreases measured_nodes@.len() - m,
        {
            assert(measured_nodes@.subrange(0, m + 1).drop_last() =~= measured_nodes@.subrange(
                0,
                m as int,
            ));
            let ghost before = output_wires@;
            let node_idx = measured_nodes[m];
            let wire = match self.classical_wire(node_idx) {
                Some(wire) => wire,
                None => self.emit_false(),
            };
            output_wires.push(wire);
            assert(output_wires@.subrange(quantum.len() as int, output_wires@.len() as int)
                =~= before.subrange(quantum.len() as int, before.len() as int).push(wire));
            assert(output_wires@.subrange(0, quantum.len() as int) =~= before.subrange(
                0,
                quantum.len() as int,
            ));
            m += 1;
        }
        assert(measured_nodes@.subrange(0, m as int) =~= measured_nodes@);
        let ghost gathered = done.gather_bits(pattern@.measured());
        assert(output_wires@ =~= quantum + gathered.wires);

        let dfg = self.dfg.as_mut().unwrap();
        proof {
            lemma_graph_of_nodes_of(dfg.hugr@);
        }
        dfg.set_outputs(output_wires);
        Ok(dfg.hugr.clone())
    }

    /// The qubits that some command of `pattern` measures and that are not
    /// among its outputs, in ascending order, each once.
    fn get_measured_nodes(&self, pattern: &Pattern) -> (measured: Vec<usize>)
        ensures
            measured@ == pattern@.measured(),
    {
        let mut output_set: HashSet<usize> = HashSet::new();
        let mut o: usize = 0;
        while o < pattern.output_nodes.len()
            invariant
                o <= pattern.output_nodes@.len(),
                output_set@ =~= pattern.output_nodes@.subrange(0, o as int).to_set(),
            decreases pattern.output_nodes@.len() - o,
        {
            assert(pattern.output_nodes@.subrange(0, o + 1) =~= pattern.output_nodes@.subrange(
                0,
                o as int,
            ).push(pattern.output_nodes@[o as int]));
            proof {
                pattern.output_nodes@.subrange(0, o as int).lemma_push_to_set_commute(
                    pattern.output_nodes@[o as int],
                );
            }
            output_set.insert(pattern.output_nodes[o]);
            o += 1;
        }
        assert(pattern.output_nodes@.subrange(0, o as int) =~= pattern.output_nodes@);

        let mut measured: Vec<usize> = Vec::new();
        let mut i: usize = 0;
        assert(measured@.to_set() =~= pattern@.measured_among(0));
        while i < pattern.commands.len()
            invariant
                i <= pattern.commands@.len(),
                output_set@ == pattern@.output_nodes.to_set(),
                measured@.to_set() == pattern@.measured_among(i as int),
            decreases pattern.commands@.len() - i,
        {
            let ghost before = measured@;
            let ghost pushed = false;
            if let Command::M { node, .. } = &pattern.commands[i] {
                if !output_set.contains(node) {
                    measured.push(*node);
                    proof {
                        pushed = true;
                        before.lemma_push_to_set_commute(*node);
                    }
                }
            }
            proof {
                let outputs = pattern@.output_nodes;
                let commands = pattern@.commands;
                let command = commands[i as int];
                assert(command == pattern.commands@[i as int]@);
                assert forall|id: usize|
                    measured@.to_set().contains(id) <==> pattern@.measured_among(
                        i + 1,
                    ).contains(id) by {
                    let fresh = pushed && measures(command, id);
                    assert(outputs.to_set().contains(id) <==> outputs.contains(id));
                    assert(measured@.to_set().contains(id) <==> before.to_set().contains(id)
                        || fresh);
                    if before.to_set().contains(id) {
                        let c = choose|c: int|
                            0 <= c < i && c < commands.len() && measures(
                                #[trigger] commands[c],
                                id,
                            );
                        assert(0 <= c < i + 1 && measures(commands[c], id));
                    }
                    if fresh {
                        assert(measures(commands[i as int], id));
                    }
                    if pattern@.measured_among(i + 1).contains(id) {
                        let c = choose|c: int|
                            0 <= c < i + 1 && c < commands.len() && measures(
                                #[trigger] commands[c],
                                id,
                            );
                        if c < i {
                            assert(pattern@.measured_among(i as int).contains(id));
                        } else {
                            assert(fresh);
                        }
                    }
                }
                assert(measured@.to_set() =~= pattern@.measured_among(i + 1));
            }
            i += 1;
        }
        sorted_distinct(measured)
    }

    /// Lays down a node for `operation`, fed by `inputs`, and returns its
    /// identifier.
    fn emit(&mut self, operation: Operation, inputs: Vec<Wire>) -> (id: usize)
        requires
            old(self).converting(),
        ensures
            final(self).converting(),
            id == old(self).model().next_id(),
            final(self).model() == old(self).model().emit(operation@, inputs@),
    {
        let dfg = self.dfg.as_mut().unwrap();
        let ghost before = dfg.hugr@;
        let node = dfg.add_op(operation, inputs);
        proof {
            lemma_nodes_of_with_node(before, node@);
        }
        node.id
    }

    /// Lays down a `Const` node for `false` and the node that loads it, and
    /// returns the loaded wire.
    fn emit_false(&mut self) -> (wire: Wire)
        requires
            old(self).converting(),
        ensures
            final(self).converting(),
            wire == old(self).model().load_false().wire,
            final(self).model() == old(self).model().load_false().state,
    {
        let dfg = self.dfg.as_mut().unwrap();
        let ghost before = dfg.hugr@;
        let false_const = dfg.add_const(ConstValue::Bool(false));
        let ghost between = dfg.hugr@;
        let wire = dfg.load_const(false_const);
        proof {
            lemma_nodes_of_with_node(
                before,
                NodeView::bare(
                    false_const,
                    OperationView::Const { value: ConstValue::Bool(false) },
                ),
            );
            lemma_nodes_of_with_node(
                between,
                NodeView::wired(
                    wire.node_id,
                    OperationView::LoadConst { const_node: false_const },
                    Seq::empty(),
                ),
            );
        }
        wire
    }

    /// Lays down a node with one input and returns its first output wire.
    fn apply(&mut self, operation: Operation, input: Wire) -> (wire: Wire)
        requires
            old(self).converting(),
        ensures
            final(self).converting(),
            wire == old(self).model().apply(operation@, input).wire,
            final(self).model() == old(self).model().apply(operation@, input).state,
    {
        let id = self.emit(operation, one_wire(input));
        Wire::new(id, 0)
    }

    /// The wire of qubit `node`, if it is live.
    fn qubit_wire(&self, node: usize) -> (w: Option<Wire>)
        ensures
            w == (if self.model().qubits.contains_key(node) {
                Some(self.model().qubits[node])
            } else {
                None
            }),
    {
        match self.qubit_wires.get(&node) {
            Some(wire) => Some(*wire),
            None => None,
        }
    }

    /// The wire of the bit measured on qubit `node`, if it is known.
    fn classical_wire(&self, node: usize) -> (w: Option<Wire>)
        ensures
            w == (if self.model().bits.contains_key(node) {
                Some(self.model().bits[node])
            } else {
                None
            }),
    {
        match self.classical_wires.get(&node) {
            Some(wire) => Some(*wire),
            None => None,
        }
    }

    fn process_prepare(&mut self, node: usize)
        requires
            old(self).converting(),
        ensures
            final(self).converting(),
            final(self).model() == old(self).model().prepare(node),
    {
        let prep_op = custom_op(
            "PrepareQubit",
            QUANTUM_EXTENSION,
            Vec::new(),
            one_type(HugrType::Qubit),
            Vec::new(),
        );
        let id = self.emit(prep_op, Vec::new());
        self.qubit_wires.insert(node, Wire::new(id, 0));
    }

    fn process_entangle(&mut self, nodes: (usize, usize))
        requires
            old(self).converting(),
        ensures
            final(self).converting(),
            final(self).model() == old(self).model().entangle(nodes.0, nodes.1),
    {
        let (node1, node2) = nodes;
        if let (Some(q1), Some(q2)) = (self.qubit_wire(node1), self.qubit_wire(node2)) {
            let cz_op = self.create_cz_gate();
            let id = self.emit(cz_op, two_wires(q1, q2));
            self.qubit_wires.insert(node1, Wire::new(id, 0));
            self.qubit_wires.insert(node2, Wire::new(id, 1));
        }
    }

    fn process_measure(&mut self, node: usize, plane: Plane, angle: FloatBits)
        requires
            old(self).converting(),
        ensures
            final(self).converting(),
            final(self).model() == old(self).model().measure(node, plane, angle),
    {
        if let Some(wire) = self.qubit_wire(node) {
            let mut qubit_wire = wire;
            match plane {
                Plane::XY => {
                    if angle.abs_exceeds_epsilon() {
                        let rz_op = self.create_rz_gate(angle.neg());
                        qubit_wire = self.apply(rz_op, qubit_wire);
                    }
                    let h_op = self.create_h_gate();
                    qubit_wire = self.apply(h_op, qubit_wire);
                },
                Plane::YZ => {
                    if angle.abs_exceeds_epsilon() {
                        let rx_op = self.create_rx_gate(angle.neg());
                        qubit_wire = self.apply(rx_op, qubit_wire);
                    }
                },
                Plane::XZ => {
                    if angle.abs_exceeds_epsilon() {
                        let ry_op = self.create_ry_gate(angle);
                        qubit_wire = self.apply(ry_op, qubit_wire);
                    }
                },
            }
            let meas_op = self.create_measure_op();
            let bit = self.apply(meas_op, qubit_wire);
            self.classical_wires.insert(node, bit);
            self.qubit_wires.remove(&node);
        }
    }

    fn process_pauli_x(&mut self, node: usize, domain: &HashSet<usize>)
        requires
            old(self).converting(),
        ensures
            final(self).converting(),
            final(self).model() == old(self).model().correct(node, domain@, "ConditionalX"@),
    {
        if let Some(qubit_wire) = self.qubit_wire(node) {
            let condition = self.compute_xor_of_measurements(domain);
            let new_wire = self.apply_conditional_gate(qubit_wire, condition, "ConditionalX");
            self.qubit_wires.insert(node, new_wire);
        }
    }

    fn process_pauli_z(&mut self, node: usize, domain: &HashSet<usize>)
        requires
            old(self).converting(),
        ensures
            final(self).converting(),
            final(self).model() == old(self).model().correct(node, domain@, "ConditionalZ"@),
    {
        if let Some(qubit_wire) = self.qubit_wire(node) {
            let condition = self.compute_xor_of_measurements(domain);
            let new_wire = self.apply_conditional_gate(qubit_wire, condition, "ConditionalZ");
            self.qubit_wires.insert(node, new_wire);
        }
    }

    fn process_clifford(&mut self, node: usize, clifford: &Vec<CliffordGate>)
        requires
            old(self).converting(),
        ensures
            final(self).converting(),
            final(self).model() == old(self).model().clifford(node, clifford@),
    {
        if let Some(wire) = self.qubit_wire(node) {
            let ghost start = self.model();
            let mut qubit_wire = wire;
            let mut i: usize = 0;
            while i < clifford.len()
                invariant
                    i <= clifford@.len(),
                    self.converting(),
                    start.apply_gates(wire, clifford@.subrange(0, i as int)) == (Traced {
                        state: self.model(),
                        wire: qubit_wire,
                    }),
                decreases clifford@.len() - i,
            {
                assert(clifford@.subrange(0, i + 1).drop_last() =~= clifford@.subrange(
                    0,
                    i as int,
                ));
                let op = match clifford[i] {
                    CliffordGate::H => Some(self.create_h_gate()),
                    CliffordGate::S => Some(self.create_s_gate()),
                    CliffordGate::X => Some(self.create_x_gate()),
                    CliffordGate::Y => Some(self.create_y_gate()),
                    CliffordGate::Z => Some(self.create_z_gate()),
                    CliffordGate::SDG => Some(self.create_sdg_gate()),
                    CliffordGate::I => None,
                };
                if let Some(op) = op {
                    qubit_wire = self.apply(op, qubit_wire);
                }
                i += 1;
            }
            assert(clifford@.subrange(0, i as int) =~= clifford@);
            self.qubit_wires.insert(node, qubit_wire);
        }
    }

    /// The wire that carries the parity of the known bits of `domain`.
    fn compute_xor_of_measurements(&mut self, domain: &HashSet<usize>) -> (wire: Wire)
        requires
            old(self).converting(),
        ensures
            final(self).converting(),
            wire == old(self).model().parity(members_in_order(domain@)).wire,
            final(self).model() == old(self).model().parity(members_in_order(domain@)).state,
    {
        let domain_list = sorted_members(domain);
        if domain_list.len() == 0 {
            return self.emit_false();
        }
        let first_node = domain_list[0];
        if let Some(result) = self.classical_wire(first_node) {
            let ghost start = self.model();
            let ghost rest = domain_list@.subrange(1, domain_list@.len() as int);
            let mut xor_result = result;
            let mut i: usize = 1;
            while i < domain_list.len()
                invariant
                    1 <= i <= domain_list@.len(),
                    self.converting(),
                    self.model().bits == start.bits,
                    rest == domain_list@.subrange(1, domain_list@.len() as int),
                    start.xor_known(result, rest.subrange(0, i - 1)) == (Traced {
                        state: self.model(),
                        wire: xor_result,
                    }),
                decreases domain_list@.len() - i,
            {
                assert(rest.subrange(0, i as int).drop_last() =~= rest.subrange(0, i - 1));
                assert(rest.subrange(0, i as int).last() == domain_list@[i as int]);
                if let Some(wire) = self.classical_wire(domain_list[i]) {
                    let xor_op = custom_op(
                        "XOR",
                        LOGIC_EXTENSION,
                        two_types(HugrType::Bool, HugrType::Bool),
                        one_type(HugrType::Bool),
                        Vec::new(),
                    );
                    let id = self.emit(xor_op, two_wires(xor_result, wire));
                    xor_result = Wire::new(id, 0);
                }
                i += 1;
            }
            assert(rest.subrange(0, i - 1) =~= rest);
            xor_result
        } else {
            self.emit_false()
        }
    }

    /// Lays down the conditional gate `gate_name` and returns the wire of the
    /// corrected qubit.
    fn apply_conditional_gate(&mut self, qubit_wire: Wire, condition: Wire, gate_name: &str) -> (wire:
        Wire)
        requires
            old(self).converting(),
        ensures
            final(self).converting(),
            wire == (Wire { node_id: old(self).model().next_id(), port: 0 }),
            final(self).model() == old(self).model().emit(
                conditional_op(gate_name@),
                seq![condition, qubit_wire],
            ),
    {
        let cond_gate_op = custom_op(
            gate_name,
            QUANTUM_EXTENSION,
            two_types(HugrType::Bool, HugrType::Qubit),
            one_type(HugrType::Qubit),
            Vec::new(),
        );
        let id = self.emit(cond_gate_op, two_wires(condition, qubit_wire));
        Wire::new(id, 0)
    }

    /// One command.
    fn process_command(&mut self, cmd: &Command)
        requires
            old(self).converting(),
        ensures
            final(self).converting(),
            final(self).model() == old(self).model().step(cmd@),
    {
        match cmd {
            Command::N { node } => self.process_prepare(*node),
            Command::E { nodes } => self.process_entangle(*nodes),
            Command::M { node, plane, angle } => self.process_measure(*node, *plane, *angle),
            Command::X { node, domain } => self.process_pauli_x(*node, domain),
            Command::Z { node, domain } => self.process_pauli_z(*node, domain),
            Command::C { node, clifford } => self.process_clifford(*node, clifford),
        }
    }

    fn create_h_gate(&self) -> (op: Operation)
        ensures
            op@ == gate_op("H"@),
    {
        custom_op(
            "H",
            QUANTUM_EXTENSION,
            one_type(HugrType::Qubit),
            one_type(HugrType::Qubit),
            Vec::new(),
        )
    }

    fn create_x_gate(&self) -> (op: Operation)
        ensures
            op@ == gate_op("X"@),
    {
        custom_op(
            "X",
            QUANTUM_EXTENSION,
            one_type(HugrType::Qubit),
            one_type(HugrType::Qubit),
            Vec::new(),
        )
    }

    fn create_y_gate(&self) -> (op: Operation)
        ensures
            op@ == gate_op("Y"@),
    {
        custom_op(
            "Y",
            QUANTUM_EXTENSION,
            one_type(HugrType::Qubit),
            one_type(HugrType::Qubit),
            Vec::new(),
        )
    }

    fn create_z_gate(&self) -> (op: Operation)
        ensures
            op@ == gate_op("Z"@),
    {
        custom_op(
            "Z",
            QUANTUM_EXTENSION,
            one_type(HugrType::Qubit),
            one_type(HugrType::Qubit),
            Vec::new(),
        )
    }

    fn create_s_gate(&self) -> (op: Operation)
        ensures
            op@ == gate_op("S"@),
    {
        custom_op(
            "S",
            QUANTUM_EXTENSION,
            one_type(HugrType::Qubit),
            one_type(HugrType::Qubit),
            Vec::new(),
        )
    }

    fn create_sdg_gate(&self) -> (op: Operation)
        ensures
            op@ == gate_op("Sdg"@),
    {
        custom_op(
            "Sdg",
            QUANTUM_EXTENSION,
            one_type(HugrType::Qubit),
            one_type(HugrType::Qubit),
            Vec::new(),
        )
    }

    fn create_cz_gate(&self) -> (op: Operation)
        ensures
            op@ == cz_op(),
    {
        custom_op(
            "CZ",
            QUANTUM_EXTENSION,
            two_types(HugrType::Qubit, HugrType::Qubit),
            two_types(HugrType::Qubit, HugrType::Qubit),
            Vec::new(),
        )
    }

    fn create_rz_gate(&self, angle: FloatBits) -> (op: Operation)
        ensures
            op@ == rotation_op("Rz"@, angle),
    {
        custom_op(
            "Rz",
            QUANTUM_EXTENSION,
            one_type(HugrType::Qubit),
            one_type(HugrType::Qubit),
            one_arg(angle),
        )
    }

    fn create_rx_gate(&self, angle: FloatBits) -> (op: Operation)
        ensures
            op@ == rotation_op("Rx"@, angle),
    {
        custom_op(
            "Rx",
            QUANTUM_EXTENSION,
            one_type(HugrType::Qubit),
            one_type(HugrType::Qubit),
            one_arg(angle),
        )
    }

    fn create_ry_gate(&self, angle: FloatBits) -> (op: Operation)
        ensures
            op@ == rotation_op("Ry"@, angle),
    {
        custom_op(
            "Ry",
            QUANTUM_EXTENSION,
            one_type(HugrType::Qubit),
            one_type(HugrType::Qubit),
            one_arg(angle),
        )
    }

    fn create_measure_op(&self) -> (op: Operation)
        ensures
            op@ == measure_op(),
    {
        custom_op(
            "Measure",
            QUANTUM_EXTENSION,
            one_type(HugrType::Qubit),
            one_type(HugrType::Bool),
            Vec::new(),
        )
    }
}

/// The extension of the quantum operations.
pub const QUANTUM_EXTENSION: &'static str = "quantum.mbqc";

/// The extension of the classical operations.
pub const LOGIC_EXTENSION: &'static str = "logic";

/// A vector of one wire.
fn one_wire(w: Wire) -> (v: Vec<Wire>)
    ensures
        v@ == seq![w],
{
    let v = vec![w];
    assert(v@ =~= seq![w]);
    v
}

/// A vector of two wires.
fn two_wires(a: Wire, b: Wire) -> (v: Vec<Wire>)
    ensures
        v@ == seq![a, b],
{
    let v = vec![a, b];
    assert(v@ =~= seq![a, b]);
    v
}

/// A vector of one parameter.
fn one_arg(x: FloatBits) -> (v: Vec<FloatBits>)
    ensures
        v@ == seq![x],
{
    let v = vec![x];
    assert(v@ =~= seq![x]);
    v
}

/// A copy of a list of identifiers.
fn copy_ids(ids: &Vec<usize>) -> (v: Vec<usize>)
    ensures
        v@ == ids@,
{
    let v = ids.clone();
    assert(v@ =~= ids@);
    v
}

/// The type `Qubit`, `n` times.
fn qubit_types(n: usize) -> (v: Vec<HugrType>)
    ensures
        v@ == Seq::new(n as nat, |i: int| HugrType::Qubit),
{
    let v = vec![HugrType::Qubit; n];
    assert(v@ =~= Seq::new(n as nat, |i: int| HugrType::Qubit));
    v
}

/// A vector of one type.
fn one_type(t: HugrType) -> (v: Vec<HugrType>)
    ensures
        v@ == seq![t],
{
    let v = vec![t];
    assert(v@ =~= seq![t]);
    v
}

/// A vector of two types.
fn two_types(a: HugrType, b: HugrType) -> (v: Vec<HugrType>)
    ensures
        v@ == seq![a, b],
{
    let v = vec![a, b];
    assert(v@ =~= seq![a, b]);
    v
}

/// A custom operation.
fn custom_op(
    name: &str,
    extension: &str,
    inputs: Vec<HugrType>,
    outputs: Vec<HugrType>,
    args: Vec<FloatBits>,
) -> (op: Operation)
    ensures
        op@ == (OperationView::Custom {
            name: name@,
            signature: FunctionTypeView { inputs: inputs@, outputs: outputs@ },
            extension: extension@,
            args: args@,
        }),
{
    Operation::Custom {
        name: name.to_string(),
        signature: FunctionType::new(inputs, outputs),
        extension: extension.to_string(),
        args,
    }
}

} // verus!
