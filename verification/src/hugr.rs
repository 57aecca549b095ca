//! The dataflow graph: typed wires, operation nodes, and the builder that
//! lays them down one by one.

use std::collections::hash_map::Entry;
use std::collections::HashMap;
use vstd::prelude::*;

use crate::float_bits::FloatBits;

verus! {

/// A value-producing endpoint: output port `port` of node `node_id`.  A wire
/// is a plain descriptor and owns nothing.
#[derive(Debug, Clone, Copy, PartialEq, Eq, Hash, Structural)]
pub struct Wire {
    pub node_id: usize,
    pub port: usize,
}

impl Wire {
    pub fn new(node_id: usize, port: usize) -> (w: Wire)
        ensures
            w.node_id == node_id,
            w.port == port,
    {
        Wire { node_id, port }
    }
}

/// The type of the value that a wire carries.
#[derive(Debug, Clone, Copy, PartialEq, Eq, Structural)]
pub enum HugrType {
    Qubit,
    Bool,
    Float64,
}

/// The signature of an operation: the types it consumes and produces, by
/// port.
#[derive(Debug)]
pub struct FunctionType {
    pub inputs: Vec<HugrType>,
    pub outputs: Vec<HugrType>,
}

/// A signature as a mathematical value.
pub struct FunctionTypeView {
    pub inputs: Seq<HugrType>,
    pub outputs: Seq<HugrType>,
}

impl View for FunctionType {
    type V = FunctionTypeView;

    open spec fn view(&self) -> FunctionTypeView {
        FunctionTypeView { inputs: self.inputs@, outputs: self.outputs@ }
    }
}

impl FunctionType {
    pub fn new(inputs: Vec<HugrType>, outputs: Vec<HugrType>) -> (t: FunctionType)
        ensures
            t@.inputs == inputs@,
            t@.outputs == outputs@,
    {
        FunctionType { inputs, outputs }
    }
}

impl Clone for FunctionType {
    fn clone(&self) -> (t: FunctionType)
        ensures
            t@ == self@,
    {
        let t = FunctionType { inputs: self.inputs.clone(), outputs: self.outputs.clone() };
        assert(t@.inputs =~= self@.inputs);
        assert(t@.outputs =~= self@.outputs);
        t
    }
}

/// A constant that a `Const` node holds.
#[derive(Debug, Clone, Copy)]
pub enum ConstValue {
    Bool(bool),
    Float(FloatBits),
}

impl ConstValue {
    /// The type of the wire that loads this constant.
    pub open spec fn type_of(self) -> HugrType {
        match self {
            ConstValue::Bool(_) => HugrType::Bool,
            ConstValue::Float(_) => HugrType::Float64,
        }
    }

    /// The type of the wire that loads this constant.
    pub fn hugr_type(&self) -> (t: HugrType)
        ensures
            t == self.type_of(),
    {
        match self {
            ConstValue::Bool(_) => HugrType::Bool,
            ConstValue::Float(_) => HugrType::Float64,
        }
    }
}

/// What a node does.
#[derive(Debug)]
pub enum Operation {
    /// The source of the graph's inputs.
    Input { types: Vec<HugrType> },
    /// The sink of the graph's outputs.
    Output { types: Vec<HugrType> },
    /// A named operation of an extension, such as a quantum gate.  `args`
    /// holds its real parameters, such as a rotation angle.
    Custom { name: String, signature: FunctionType, extension: String, args: Vec<FloatBits> },
    /// A constant value.
    Const { value: ConstValue },
    /// Loads the constant of node `const_node` onto a wire.
    LoadConst { const_node: usize },
    /// A nested dataflow graph.
    DFG { signature: FunctionType },
}

/// An operation as a mathematical value.
pub enum OperationView {
    Input { types: Seq<HugrType> },
    Output { types: Seq<HugrType> },
    Custom { name: Seq<char>, signature: FunctionTypeView, extension: Seq<char>, args: Seq<FloatBits> },
    Const { value: ConstValue },
    LoadConst { const_node: usize },
    DFG { signature: FunctionTypeView },
}

impl View for Operation {
    type V = OperationView;

    open spec fn view(&self) -> OperationView {
        match *self {
            Operation::Input { types } => OperationView::Input { types: types@ },
            Operation::Output { types } => OperationView::Output { types: types@ },
            Operation::Custom { name, signature, extension, args } => OperationView::Custom {
                name: name@,
                signature: signature@,
                extension: extension@,
                args: args@,
            },
            Operation::Const { value } => OperationView::Const { value },
            Operation::LoadConst { const_node } => OperationView::LoadConst { const_node },
            Operation::DFG { signature } => OperationView::DFG { signature: signature@ },
        }
    }
}

impl OperationView {
    /// How many wires a node of this operation produces when the builder lays
    /// it down: a custom operation as many as its signature has outputs, a
    /// load one, every other operation none.
    pub open spec fn output_count(self) -> nat {
        match self {
            OperationView::Custom { signature, .. } => signature.outputs.len(),
            OperationView::LoadConst { .. } => 1,
            _ => 0,
        }
    }
}

impl Operation {
    /// The number of output wires of a node of this operation.
    pub fn num_outputs(&self) -> (n: usize)
        ensures
            n == self@.output_count(),
    {
        match self {
            Operation::Custom { signature, .. } => signature.outputs.len(),
            Operation::LoadConst { .. } => 1,
            _ => 0,
        }
    }
}

impl Clone for Operation {
    fn clone(&self) -> (op: Operation)
        ensures
            op@ == self@,
    {
        match self {
            Operation::Input { types } => {
                let t = types.clone();
                assert(t@ =~= types@);
                Operation::Input { types: t }
            },
            Operation::Output { types } => {
                let t = types.clone();
                assert(t@ =~= types@);
                Operation::Output { types: t }
            },
            Operation::Custom { name, signature, extension, args } => {
                let a = args.clone();
                assert(a@ =~= args@);
                Operation::Custom {
                    name: name.clone(),
                    signature: signature.clone(),
                    extension: extension.clone(),
                    args: a,
                }
            },
            Operation::Const { value } => Operation::Const { value: *value },
            Operation::LoadConst { const_node } => Operation::LoadConst { const_node: *const_node },
            Operation::DFG { signature } => Operation::DFG { signature: signature.clone() },
        }
    }
}

/// A node of the graph.  `inputs[i]` is the wire that feeds input port `i`;
/// `outputs[i]` is the wire produced on output port `i`.
#[derive(Debug)]
pub struct Node {
    pub id: usize,
    pub operation: Operation,
    pub inputs: Vec<Wire>,
    pub outputs: Vec<Wire>,
}

/// A node as a mathematical value.
pub struct NodeView {
    pub id: usize,
    pub operation: OperationView,
    pub inputs: Seq<Wire>,
    pub outputs: Seq<Wire>,
}

impl View for Node {
    type V = NodeView;

    open spec fn view(&self) -> NodeView {
        NodeView {
            id: self.id,
            operation: self.operation@,
            inputs: self.inputs@,
            outputs: self.outputs@,
        }
    }
}

impl NodeView {
    /// A node that is not wired yet.
    pub open spec fn bare(id: usize, operation: OperationView) -> NodeView {
        NodeView { id, operation, inputs: Seq::empty(), outputs: Seq::empty() }
    }
}

impl Node {
    /// A node without input or output wires.
    pub fn new(id: usize, operation: Operation) -> (n: Node)
        ensures
            n@ == NodeView::bare(id, operation@),
    {
        Node { id, operation, inputs: Vec::new(), outputs: Vec::new() }
    }

    /// The wire of output port `port` of this node.
    pub fn out(&self, port: usize) -> (w: Wire)
        ensures
            w == (Wire { node_id: self.id, port }),
    {
        Wire::new(self.id, port)
    }
}

impl Clone for Node {
    fn clone(&self) -> (n: Node)
        ensures
            n@ == self@,
    {
        let inputs = self.inputs.clone();
        let outputs = self.outputs.clone();
        assert(inputs@ =~= self.inputs@);
        assert(outputs@ =~= self.outputs@);
        Node { id: self.id, operation: self.operation.clone(), inputs, outputs }
    }
}

/// The graph: its nodes by identifier, the identifier that the next node
/// will get, and the root.
#[derive(Debug)]
pub struct Hugr {
    pub nodes: HashMap<usize, Node>,
    pub next_node_id: usize,
    pub root: usize,
}

/// A graph as a mathematical value.
pub struct HugrView {
    pub nodes: Map<usize, NodeView>,
    pub next_node_id: usize,
    pub root: usize,
}

impl View for Hugr {
    type V = HugrView;

    open spec fn view(&self) -> HugrView {
        HugrView {
            nodes: self.nodes@.map_values(|n: Node| n@),
            next_node_id: self.next_node_id,
            root: self.root,
        }
    }
}

impl HugrView {
    /// The graph without nodes.
    pub open spec fn empty() -> HugrView {
        HugrView { nodes: Map::empty(), next_node_id: 0, root: 0 }
    }

    /// Identifiers are handed out densely from zero, and every node is kept
    /// under its own identifier.
    pub open spec fn wf(self) -> bool {
        &&& forall|k: usize| self.nodes.contains_key(k) <==> k < self.next_node_id
        &&& forall|k: usize| self.nodes.contains_key(k) ==> (#[trigger] self.nodes[k]).id == k
    }

    /// The graph with one more node, kept under the next identifier.
    pub open spec fn with_node(self, node: NodeView) -> HugrView {
        HugrView {
            nodes: self.nodes.insert(self.next_node_id, node),
            next_node_id: (self.next_node_id + 1) as usize,
            root: self.root,
        }
    }
}

impl Hugr {
    /// Whether the graph is well formed; see [`HugrView::wf`].
    pub open spec fn wf(&self) -> bool {
        self@.wf()
    }

    /// The view holds the views of the stored nodes under the same keys.
    pub proof fn lemma_view_nodes(&self)
        ensures
            self@.nodes.dom() == self.nodes@.dom(),
            forall|k: usize| #[trigger]
                self.nodes@.contains_key(k) ==> self@.nodes.contains_key(k) && self@.nodes[k]
                    == self.nodes@[k]@,
    {
        assert(self@.nodes.dom() =~= self.nodes@.dom());
    }

    /// The empty graph.
    pub fn new() -> (h: Hugr)
        ensures
            h@ == HugrView::empty(),
            h.wf(),
    {
        let h = Hugr { nodes: HashMap::new(), next_node_id: 0, root: 0 };
        assert(h@.nodes =~= Map::empty());
        h
    }

    /// Adds a bare node for `operation` and returns its identifier, the next
    /// in line.
    pub fn add_node(&mut self, operation: Operation) -> (id: usize)
        requires
            old(self).wf(),
        ensures
            id == old(self).next_node_id,
            id < usize::MAX,
            final(self)@ == old(self)@.with_node(NodeView::bare(id, operation@)),
            final(self).wf(),
    {
        let id = self.next_node_id;
        let node = Node::new(id, operation);
        self.nodes.insert(id, node);
        proof {
            assert(old(self)@.nodes.dom() =~= old(self).nodes@.dom());
            assert forall|k: usize| old(self).nodes@.contains_key(k) <==> k < id by {
                assert(old(self)@.nodes.contains_key(k) <==> old(self).nodes@.contains_key(k));
            }
            lemma_dense_keys_len(old(self).nodes@, id);
            assert(self.nodes@.len() == id + 1);
            assert(self.nodes.len() == self.nodes@.len());
        }
        self.next_node_id = id + 1;
        assert(self@.nodes =~= old(self)@.nodes.insert(id, NodeView::bare(id, operation@)));
        id
    }

    /// The node of identifier `id`, if there is one.
    pub fn get_node(&self, id: usize) -> (r: Option<&Node>)
        ensures
            match r {
                Some(n) => self.nodes@.contains_key(id) && *n == self.nodes@[id],
                None => !self.nodes@.contains_key(id),
            },
    {
        self.nodes.get(&id)
    }

    /// Mutable access to the node of identifier `id`, if there is one.  What
    /// the caller writes through the reference is what the graph then holds
    /// under `id`.
    pub fn get_node_mut(&mut self, id: usize) -> (r: Option<&mut Node>)
        ensures
            final(self).next_node_id == old(self).next_node_id,
            final(self).root == old(self).root,
            match r {
                Some(n) => {
                    &&& old(self).nodes@.contains_key(id)
                    &&& *n == old(self).nodes@[id]
                    &&& final(self).nodes@ == old(self).nodes@.insert(id, *final(n))
                },
                None => !old(self).nodes@.contains_key(id) && final(self).nodes@ == old(
                    self,
                ).nodes@,
            },
    {
        match self.nodes.entry(id) {
            Entry::Occupied(e) => Some(e.into_mut()),
            Entry::Vacant(_) => None,
        }
    }

    /// The number of nodes.
    pub fn len(&self) -> (n: usize)
        ensures
            n == self@.nodes.len(),
            self.wf() ==> n == self.next_node_id,
    {
        proof {
            assert(self@.nodes.dom() =~= self.nodes@.dom());
            if self.wf() {
                assert forall|k: usize| self.nodes@.contains_key(k) <==> k
                    < self.next_node_id by {
                    assert(self@.nodes.contains_key(k) <==> self.nodes@.contains_key(k));
                }
                lemma_dense_keys_len(self.nodes@, self.next_node_id);
            }
        }
        self.nodes.len()
    }
}

/// A map whose keys are the numbers below `n` has `n` entries.
pub proof fn lemma_dense_keys_len<V>(m: Map<usize, V>, n: usize)
    requires
        forall|k: usize| m.contains_key(k) <==> k < n,
    ensures
        m.dom().finite(),
        m.len() == n,
    decreases n,
{
    if n == 0 {
        assert(m.dom() =~= Set::empty());
    } else {
        let last = (n - 1) as usize;
        let rest = m.remove(last);
        lemma_dense_keys_len(rest, last);
        assert(m.dom() =~= rest.dom().insert(last));
    }
}

impl Default for Hugr {
    fn default() -> (h: Hugr)
        ensures
            h@ == HugrView::empty(),
    {
        Hugr::new()
    }
}

impl Clone for Hugr {
    fn clone(&self) -> (h: Hugr)
        ensures
            h@ == self@,
    {
        Hugr { nodes: self.nodes.clone(), next_node_id: self.next_node_id, root: self.root }
    }
}

/// The output wires of node `id` when it has `n` output ports.
pub open spec fn port_wires(id: usize, n: nat) -> Seq<Wire> {
    Seq::new(n, |p: int| Wire { node_id: id, port: p as usize })
}

/// The wires of the first `n` output ports of node `id`.
pub fn make_port_wires(id: usize, n: usize) -> (v: Vec<Wire>)
    ensures
        v@ == port_wires(id, n as nat),
{
    let mut v: Vec<Wire> = Vec::new();
    let mut port: usize = 0;
    while port < n
        invariant
            port <= n,
            v@ == port_wires(id, port as nat),
        decreases n - port,
    {
        v.push(Wire::new(id, port));
        port += 1;
        assert(v@ =~= port_wires(id, port as nat));
    }
    v
}

impl NodeView {
    /// A node as the builder lays it down: fed by `inputs`, with one output
    /// wire per output port of its operation.
    pub open spec fn wired(id: usize, operation: OperationView, inputs: Seq<Wire>) -> NodeView {
        NodeView { id, operation, inputs, outputs: port_wires(id, operation.output_count()) }
    }
}

/// Builds a dataflow graph node by node.
pub struct DfgBuilder {
    pub hugr: Hugr,
    pub input_node_id: usize,
    pub output_node_id: Option<usize>,
    pub input_wires: Vec<Wire>,
}

impl DfgBuilder {
    /// Whether the graph under construction is well formed.
    pub open spec fn wf(&self) -> bool {
        self.hugr.wf()
    }

    /// Whether the outputs have been set.
    pub open spec fn sealed(&self) -> bool {
        self.output_node_id is Some
    }

    /// A builder whose graph holds the `Input` node alone.  The wires of that
    /// node, one per input type, are `input_wires`.
    pub fn new(input_types: Vec<HugrType>) -> (b: DfgBuilder)
        ensures
            b.hugr@ == HugrView::empty().with_node(
                NodeView::bare(0, OperationView::Input { types: input_types@ }),
            ),
            b.input_node_id == 0,
            b.output_node_id is None,
            b.input_wires@ == port_wires(0, input_types@.len()),
            b.wf(),
    {
        let mut hugr = Hugr::new();
        let n = input_types.len();
        let input_op = Operation::Input { types: input_types };
        let input_node_id = hugr.add_node(input_op);
        let input_wires = make_port_wires(input_node_id, n);
        DfgBuilder { hugr, input_node_id, output_node_id: None, input_wires }
    }

    /// Lays down a node for `operation`, fed by `inputs`, and returns it.  Its
    /// output wires are those of its own ports, in order.  Whether the inputs
    /// fit the operation's signature is the caller's concern.
    pub fn add_op(&mut self, operation: Operation, inputs: Vec<Wire>) -> (node: &Node)
        requires
            old(self).wf(),
        ensures
            node@ == NodeView::wired(old(self).hugr.next_node_id, operation@, inputs@),
            final(self).hugr@ == old(self).hugr@.with_node(node@),
            final(self).hugr.next_node_id == old(self).hugr.next_node_id + 1,
            final(self).input_node_id == old(self).input_node_id,
            final(self).output_node_id == old(self).output_node_id,
            final(self).input_wires == old(self).input_wires,
            final(self).wf(),
    {
        let num_outputs = operation.num_outputs();
        let node_id = self.hugr.add_node(operation);
        let outputs = make_port_wires(node_id, num_outputs);
        let ghost bare = self.hugr;
        proof {
            bare.lemma_view_nodes();
            assert(bare@.nodes.contains_key(node_id));
        }
        if let Some(node) = self.hugr.get_node_mut(node_id) {
            node.inputs = inputs;
            node.outputs = outputs;
        }
        proof {
            self.hugr.lemma_view_nodes();
            assert(self.hugr.nodes@[node_id]@ == NodeView::wired(node_id, operation@, inputs@));
            assert(self.hugr@.nodes =~= old(self).hugr@.nodes.insert(
                node_id,
                NodeView::wired(node_id, operation@, inputs@),
            ));
        }
        self.hugr.get_node(node_id).unwrap()
    }
}

impl HugrView {
    /// The type of the value on wire `w`, read off the node that produces it:
    /// a declared input type, an output type of a custom operation's
    /// signature, or the type of the constant that a load refers to.  `None`
    /// where the graph has no such port.
    pub open spec fn wire_type(self, w: Wire) -> Option<HugrType> {
        if !self.nodes.contains_key(w.node_id) {
            None
        } else {
            match self.nodes[w.node_id].operation {
                OperationView::Input { types } => if w.port < types.len() {
                    Some(types[w.port as int])
                } else {
                    None
                },
                OperationView::Custom { signature, .. } => if w.port < signature.outputs.len() {
                    Some(signature.outputs[w.port as int])
                } else {
                    None
                },
                OperationView::LoadConst { const_node } => if w.port == 0
                    && self.nodes.contains_key(const_node) {
                    match self.nodes[const_node].operation {
                        OperationView::Const { value } => Some(value.type_of()),
                        _ => None,
                    }
                } else {
                    None
                },
                _ => None,
            }
        }
    }

    /// The type that an `Output` node declares for wire `w`: the wire's type,
    /// or `Qubit` for a wire that the graph does not describe.
    pub open spec fn declared_type(self, w: Wire) -> HugrType {
        match self.wire_type(w) {
            Some(t) => t,
            None => HugrType::Qubit,
        }
    }

    /// The `Output` node that consumes `outputs`, in order.
    pub open spec fn output_node(self, outputs: Seq<Wire>) -> NodeView {
        NodeView {
            id: self.next_node_id,
            operation: OperationView::Output {
                types: Seq::new(outputs.len(), |i: int| self.declared_type(outputs[i])),
            },
            inputs: outputs,
            outputs: Seq::empty(),
        }
    }
}

impl Hugr {
    /// The type of the value on wire `w`; see [`HugrView::wire_type`].
    pub fn wire_type(&self, w: Wire) -> (t: Option<HugrType>)
        ensures
            t == self@.wire_type(w),
    {
        proof {
            self.lemma_view_nodes();
        }
        match self.nodes.get(&w.node_id) {
            None => None,
            Some(node) => match &node.operation {
                Operation::Input { types } => if w.port < types.len() {
                    Some(types[w.port])
                } else {
                    None
                },
                Operation::Custom { signature, .. } => if w.port < signature.outputs.len() {
                    Some(signature.outputs[w.port])
                } else {
                    None
                },
                Operation::LoadConst { const_node } => if w.port == 0 {
                    match self.nodes.get(const_node) {
                        Some(source) => match &source.operation {
                            Operation::Const { value } => Some(value.hugr_type()),
                            _ => None,
                        },
                        None => None,
                    }
                } else {
                    None
                },
                _ => None,
            },
        }
    }
}

impl DfgBuilder {
    /// Lays down a `Const` node and returns its identifier.
    pub fn add_const(&mut self, value: ConstValue) -> (id: usize)
        requires
            old(self).wf(),
        ensures
            id == old(self).hugr.next_node_id,
            final(self).hugr@ == old(self).hugr@.with_node(
                NodeView::bare(id, OperationView::Const { value }),
            ),
            final(self).hugr.next_node_id == id + 1,
            final(self).input_node_id == old(self).input_node_id,
            final(self).output_node_id == old(self).output_node_id,
            final(self).input_wires == old(self).input_wires,
            final(self).wf(),
    {
        let const_op = Operation::Const { value };
        self.hugr.add_node(const_op)
    }

    /// Lays down a `LoadConst` node that refers to node `const_node_id`, and
    /// returns its one output wire.
    pub fn load_const(&mut self, const_node_id: usize) -> (w: Wire)
        requires
            old(self).wf(),
        ensures
            w == (Wire { node_id: old(self).hugr.next_node_id, port: 0 }),
            final(self).hugr@ == old(self).hugr@.with_node(
                NodeView::wired(
                    w.node_id,
                    OperationView::LoadConst { const_node: const_node_id },
                    Seq::empty(),
                ),
            ),
            final(self).hugr.next_node_id == w.node_id + 1,
            final(self).input_node_id == old(self).input_node_id,
            final(self).output_node_id == old(self).output_node_id,
            final(self).input_wires == old(self).input_wires,
            final(self).wf(),
    {
        let load_op = Operation::LoadConst { const_node: const_node_id };
        let node = self.add_op(load_op, Vec::new());
        node.out(0)
    }

    /// Lays down the `Output` node, fed by `outputs` in order, and records
    /// its identifier.  The node declares for each wire the type that the
    /// graph gives it.  To be called once, when the graph is complete.
    pub fn set_outputs(&mut self, outputs: Vec<Wire>)
        requires
            old(self).wf(),
            !old(self).sealed(),
        ensures
            final(self).hugr@ == old(self).hugr@.with_node(
                old(self).hugr@.output_node(outputs@),
            ),
            final(self).hugr.next_node_id == old(self).hugr.next_node_id + 1,
            final(self).output_node_id == Some(old(self).hugr.next_node_id),
            final(self).input_node_id == old(self).input_node_id,
            final(self).input_wires == old(self).input_wires,
            final(self).wf(),
    {
        let mut output_types: Vec<HugrType> = Vec::new();
        let mut i: usize = 0;
        while i < outputs.len()
            invariant
                i <= outputs@.len(),
                output_types@.len() == i,
                forall|j: int|
                    0 <= j < i ==> output_types@[j] == self.hugr@.declared_type(outputs@[j]),
            decreases outputs@.len() - i,
        {
            let t = match self.hugr.wire_type(outputs[i]) {
                Some(t) => t,
                None => HugrType::Qubit,
            };
            output_types.push(t);
            i += 1;
        }
        let ghost before = self.hugr@;
        assert(output_types@ =~= Seq::new(
            outputs@.len(),
            |i: int| before.declared_type(outputs@[i]),
        ));
        let output_op = Operation::Output { types: output_types };
        let output_node_id = self.hugr.add_node(output_op);
        let ghost bare = self.hugr;
        proof {
            bare.lemma_view_nodes();
            assert(bare@.nodes.contains_key(output_node_id));
        }
        if let Some(node) = self.hugr.get_node_mut(output_node_id) {
            node.inputs = outputs;
        }
        proof {
            self.hugr.lemma_view_nodes();
            assert(self.hugr.nodes@[output_node_id]@ == before.output_node(outputs@));
            assert(self.hugr@.nodes =~= before.nodes.insert(
                output_node_id,
                before.output_node(outputs@),
            ));
        }
        self.output_node_id = Some(output_node_id);
    }
}

} // verus!
