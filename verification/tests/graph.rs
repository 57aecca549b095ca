use graphix_to_hugr::hugr::make_port_wires;
use graphix_to_hugr::{
    ConstValue, DfgBuilder, FloatBits, FunctionType, Hugr, HugrType, Node, Operation, Wire,
};

fn custom(name: &str, inputs: Vec<HugrType>, outputs: Vec<HugrType>) -> Operation {
    Operation::Custom {
        name: name.to_string(),
        signature: FunctionType::new(inputs, outputs),
        extension: "quantum.mbqc".to_string(),
        args: vec![],
    }
}

#[test]
fn wire_new_sets_both_fields() {
    let w = Wire::new(4, 2);
    assert_eq!(w.node_id, 4);
    assert_eq!(w.port, 2);
    assert_eq!(w, Wire { node_id: 4, port: 2 });
    assert_ne!(w, Wire::new(2, 4));
}

#[test]
fn function_type_new_keeps_both_lists() {
    let t = FunctionType::new(vec![HugrType::Bool, HugrType::Qubit], vec![HugrType::Float64]);
    assert_eq!(t.inputs, vec![HugrType::Bool, HugrType::Qubit]);
    assert_eq!(t.outputs, vec![HugrType::Float64]);
    let c = t.clone();
    assert_eq!(c.inputs, t.inputs);
    assert_eq!(c.outputs, t.outputs);
}

#[test]
fn node_new_is_bare_and_out_names_its_ports() {
    let n = Node::new(7, Operation::LoadConst { const_node: 3 });
    assert_eq!(n.id, 7);
    assert!(n.inputs.is_empty());
    assert!(n.outputs.is_empty());
    assert_eq!(n.out(0), Wire::new(7, 0));
    assert_eq!(n.out(5), Wire::new(7, 5));
    match n.operation {
        Operation::LoadConst { const_node } => assert_eq!(const_node, 3),
        _ => panic!("the operation changed"),
    }
}

#[test]
fn operation_num_outputs_follows_the_kind() {
    assert_eq!(custom("CZ", vec![], vec![HugrType::Qubit, HugrType::Qubit]).num_outputs(), 2);
    assert_eq!(custom("Sink", vec![HugrType::Qubit], vec![]).num_outputs(), 0);
    assert_eq!(Operation::LoadConst { const_node: 0 }.num_outputs(), 1);
    assert_eq!(Operation::Const { value: ConstValue::Bool(true) }.num_outputs(), 0);
    assert_eq!(Operation::Input { types: vec![HugrType::Qubit] }.num_outputs(), 0);
    assert_eq!(Operation::Output { types: vec![HugrType::Qubit] }.num_outputs(), 0);
    let dfg = Operation::DFG { signature: FunctionType::new(vec![], vec![HugrType::Bool]) };
    assert_eq!(dfg.num_outputs(), 0);
}

#[test]
fn const_value_types() {
    assert_eq!(ConstValue::Bool(false).hugr_type(), HugrType::Bool);
    assert_eq!(ConstValue::Float(FloatBits::from_bits(0)).hugr_type(), HugrType::Float64);
}

#[test]
fn hugr_hands_out_identifiers_from_zero() {
    let mut hugr = Hugr::new();
    assert_eq!(hugr.len(), 0);
    assert_eq!(hugr.next_node_id, 0);
    assert_eq!(hugr.root, 0);
    for expected in 0..5 {
        let id = hugr.add_node(Operation::Const { value: ConstValue::Bool(true) });
        assert_eq!(id, expected);
        assert_eq!(hugr.next_node_id, expected + 1);
        assert_eq!(hugr.len(), expected + 1);
        assert_eq!(hugr.get_node(id).unwrap().id, id);
    }
    assert!(hugr.get_node(5).is_none());
    let d = Hugr::default();
    assert_eq!(d.len(), 0);
    assert_eq!(d.next_node_id, 0);
}

#[test]
fn hugr_get_node_mut_writes_through() {
    let mut hugr = Hugr::new();
    let a = hugr.add_node(Operation::LoadConst { const_node: 9 });
    let b = hugr.add_node(Operation::LoadConst { const_node: 8 });
    {
        let node = hugr.get_node_mut(a).unwrap();
        node.inputs = vec![Wire::new(3, 1)];
        node.outputs = vec![Wire::new(a, 0)];
    }
    assert_eq!(hugr.get_node(a).unwrap().inputs, vec![Wire::new(3, 1)]);
    assert_eq!(hugr.get_node(a).unwrap().outputs, vec![Wire::new(a, 0)]);
    assert!(hugr.get_node(b).unwrap().inputs.is_empty());
    assert!(hugr.get_node_mut(17).is_none());
    assert_eq!(hugr.len(), 2);
    assert_eq!(hugr.next_node_id, 2);
}

#[test]
fn hugr_clone_is_equal_node_for_node() {
    let mut builder = DfgBuilder::new(vec![HugrType::Qubit]);
    builder.add_op(custom("H", vec![HugrType::Qubit], vec![HugrType::Qubit]), vec![Wire::new(0, 0)]);
    let copy = builder.hugr.clone();
    assert_eq!(copy.len(), builder.hugr.len());
    assert_eq!(copy.next_node_id, builder.hugr.next_node_id);
    assert_eq!(copy.root, builder.hugr.root);
    for id in 0..copy.len() {
        assert_eq!(
            format!("{:?}", copy.get_node(id).unwrap()),
            format!("{:?}", builder.hugr.get_node(id).unwrap())
        );
    }
}

#[test]
fn make_port_wires_counts_up() {
    assert_eq!(make_port_wires(3, 0), Vec::<Wire>::new());
    assert_eq!(make_port_wires(3, 2), vec![Wire::new(3, 0), Wire::new(3, 1)]);
}

#[test]
fn builder_starts_with_the_input_node() {
    let builder = DfgBuilder::new(vec![HugrType::Qubit, HugrType::Bool, HugrType::Qubit]);
    assert_eq!(builder.input_node_id, 0);
    assert_eq!(builder.output_node_id, None);
    assert_eq!(builder.input_wires, vec![Wire::new(0, 0), Wire::new(0, 1), Wire::new(0, 2)]);
    assert_eq!(builder.hugr.len(), 1);
    let input = builder.hugr.get_node(0).unwrap();
    assert!(input.inputs.is_empty());
    assert!(input.outputs.is_empty());
    match &input.operation {
        Operation::Input { types } => {
            assert_eq!(types, &vec![HugrType::Qubit, HugrType::Bool, HugrType::Qubit])
        },
        _ => panic!("node 0 is not the Input node"),
    }
}

#[test]
fn builder_add_op_wires_the_node() {
    let mut builder = DfgBuilder::new(vec![HugrType::Qubit, HugrType::Qubit]);
    let ins = vec![Wire::new(0, 0), Wire::new(0, 1)];
    let op = custom(
        "CZ",
        vec![HugrType::Qubit, HugrType::Qubit],
        vec![HugrType::Qubit, HugrType::Qubit],
    );
    let node = builder.add_op(op, ins.clone());
    assert_eq!(node.id, 1);
    assert_eq!(node.inputs, ins);
    assert_eq!(node.outputs, vec![Wire::new(1, 0), Wire::new(1, 1)]);
    assert_eq!(node.out(1), Wire::new(1, 1));
    assert_eq!(builder.hugr.len(), 2);
    assert_eq!(builder.output_node_id, None);

    let sink = builder.add_op(custom("Discard", vec![HugrType::Qubit], vec![]), vec![Wire::new(1, 0)]);
    assert_eq!(sink.id, 2);
    assert!(sink.outputs.is_empty());
}

#[test]
fn builder_constants() {
    let mut builder = DfgBuilder::new(vec![]);
    let c = builder.add_const(ConstValue::Bool(true));
    assert_eq!(c, 1);
    let constant = builder.hugr.get_node(c).unwrap();
    assert!(constant.inputs.is_empty());
    assert!(constant.outputs.is_empty());
    match &constant.operation {
        Operation::Const { value: ConstValue::Bool(b) } => assert!(*b),
        _ => panic!("node 1 is not the constant"),
    }
    let w = builder.load_const(c);
    assert_eq!(w, Wire::new(2, 0));
    let load = builder.hugr.get_node(2).unwrap();
    assert!(load.inputs.is_empty());
    assert_eq!(load.outputs, vec![Wire::new(2, 0)]);
    match &load.operation {
        Operation::LoadConst { const_node } => assert_eq!(*const_node, c),
        _ => panic!("node 2 does not load the constant"),
    }
}

#[test]
fn wire_types_are_read_off_the_graph() {
    let mut builder = DfgBuilder::new(vec![HugrType::Qubit, HugrType::Bool]);
    let f = builder.add_const(ConstValue::Float(FloatBits::from_bits(1.5f64.to_bits())));
    let fw = builder.load_const(f);
    let b = builder.add_const(ConstValue::Bool(false));
    let bw = builder.load_const(b);
    builder.add_op(
        custom("Measure", vec![HugrType::Qubit], vec![HugrType::Bool]),
        vec![Wire::new(0, 0)],
    );
    let dangling = builder.load_const(99);
    let not_a_const = builder.load_const(0);
    let hugr = &builder.hugr;
    assert_eq!(hugr.wire_type(Wire::new(0, 0)), Some(HugrType::Qubit));
    assert_eq!(hugr.wire_type(Wire::new(0, 1)), Some(HugrType::Bool));
    assert_eq!(hugr.wire_type(Wire::new(0, 2)), None);
    assert_eq!(hugr.wire_type(fw), Some(HugrType::Float64));
    assert_eq!(hugr.wire_type(bw), Some(HugrType::Bool));
    assert_eq!(hugr.wire_type(Wire::new(fw.node_id, 1)), None);
    assert_eq!(hugr.wire_type(Wire::new(5, 0)), Some(HugrType::Bool));
    assert_eq!(hugr.wire_type(Wire::new(5, 1)), None);
    assert_eq!(hugr.wire_type(Wire::new(f, 0)), None);
    assert_eq!(hugr.wire_type(dangling), None);
    assert_eq!(hugr.wire_type(not_a_const), None);
    assert_eq!(hugr.wire_type(Wire::new(1000, 0)), None);
}

#[test]
fn builder_set_outputs_declares_the_wire_types() {
    let mut builder = DfgBuilder::new(vec![HugrType::Qubit]);
    let c = builder.add_const(ConstValue::Bool(false));
    let bit = builder.load_const(c);
    let outs = vec![bit, Wire::new(0, 0), Wire::new(40, 0)];
    builder.set_outputs(outs.clone());
    assert_eq!(builder.output_node_id, Some(3));
    assert_eq!(builder.hugr.len(), 4);
    let out = builder.hugr.get_node(3).unwrap();
    assert_eq!(out.inputs, outs);
    assert!(out.outputs.is_empty());
    match &out.operation {
        Operation::Output { types } => {
            assert_eq!(types, &vec![HugrType::Bool, HugrType::Qubit, HugrType::Qubit])
        },
        _ => panic!("node 3 is not the Output node"),
    }
}
