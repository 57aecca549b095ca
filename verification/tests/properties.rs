use graphix_to_hugr::{
    convert_graphix_pattern_to_hugr, CliffordGate, Command, ConstValue, FloatBits,
    GraphixToHugrConverter, Hugr, HugrType, Operation, Pattern, Plane, Wire,
};
use std::collections::HashSet;

fn angle(x: f64) -> FloatBits {
    FloatBits::from_bits(x.to_bits())
}

fn set(ids: &[usize]) -> HashSet<usize> {
    let mut s = HashSet::new();
    for id in ids {
        s.insert(*id);
    }
    s
}

fn name_of(hugr: &Hugr, id: usize) -> String {
    match &hugr.get_node(id).unwrap().operation {
        Operation::Input { .. } => "Input".to_string(),
        Operation::Output { .. } => "Output".to_string(),
        Operation::Custom { name, .. } => name.clone(),
        Operation::Const { .. } => "Const".to_string(),
        Operation::LoadConst { .. } => "LoadConst".to_string(),
        Operation::DFG { .. } => "DFG".to_string(),
    }
}

fn names(hugr: &Hugr) -> Vec<String> {
    (0..hugr.len()).map(|id| name_of(hugr, id)).collect()
}

fn inputs_of(hugr: &Hugr, id: usize) -> Vec<Wire> {
    hugr.get_node(id).unwrap().inputs.clone()
}

fn output_types(hugr: &Hugr) -> Vec<HugrType> {
    match &hugr.get_node(hugr.len() - 1).unwrap().operation {
        Operation::Output { types } => types.clone(),
        _ => panic!("the last node is not the Output node"),
    }
}

fn rotation_args(hugr: &Hugr, id: usize) -> Vec<f64> {
    match &hugr.get_node(id).unwrap().operation {
        Operation::Custom { args, .. } => args.iter().map(|a| f64::from_bits(a.to_bits())).collect(),
        _ => panic!("not a custom operation"),
    }
}

fn dump(hugr: &Hugr) -> Vec<String> {
    let mut v = vec![format!("{} {}", hugr.next_node_id, hugr.root)];
    for id in 0..hugr.len() {
        v.push(format!("{:?}", hugr.get_node(id).unwrap()));
    }
    v
}

/// A teleportation-like pattern that uses every kind of command.
fn rich_pattern() -> Pattern {
    let mut p = Pattern::new(vec![4, 0], vec![3, 0]);
    p.add_command(Command::N { node: 1 });
    p.add_command(Command::N { node: 2 });
    p.add_command(Command::N { node: 3 });
    p.add_command(Command::E { nodes: (0, 1) });
    p.add_command(Command::E { nodes: (1, 2) });
    p.add_command(Command::E { nodes: (2, 3) });
    p.add_command(Command::M { node: 1, plane: Plane::XY, angle: angle(0.3) });
    p.add_command(Command::M { node: 2, plane: Plane::YZ, angle: angle(-0.7) });
    p.add_command(Command::M { node: 4, plane: Plane::XZ, angle: angle(0.0) });
    p.add_command(Command::X { node: 3, domain: set(&[2, 1, 4]) });
    p.add_command(Command::Z { node: 3, domain: set(&[1]) });
    p.add_command(Command::C {
        node: 0,
        clifford: vec![CliffordGate::H, CliffordGate::I, CliffordGate::SDG],
    });
    p
}

#[test]
fn output_consumes_qubits_then_bits() {
    let hugr = convert_graphix_pattern_to_hugr(&rich_pattern()).unwrap();
    let last = hugr.len() - 1;
    assert_eq!(name_of(&hugr, last), "Output");
    let ins = inputs_of(&hugr, last);
    // Two output qubits (0 and 3) and three measured qubits (1, 2 and 4).
    assert_eq!(ins.len(), 2 + 3);
    assert_eq!(
        output_types(&hugr),
        vec![HugrType::Qubit, HugrType::Qubit, HugrType::Bool, HugrType::Bool, HugrType::Bool]
    );
    for (i, w) in ins.iter().enumerate() {
        let expected = if i < 2 { HugrType::Qubit } else { HugrType::Bool };
        assert_eq!(hugr.wire_type(*w), Some(expected));
    }
    match &hugr.get_node(0).unwrap().operation {
        Operation::Input { types } => assert_eq!(types, &vec![HugrType::Qubit, HugrType::Qubit]),
        _ => panic!("node 0 is not the Input node"),
    }
}

#[test]
fn inputs_are_bound_in_ascending_order() {
    // Inputs 4 and 0: qubit 0 rides on port 0 and qubit 4 on port 1.
    let mut p = Pattern::new(vec![4, 0], vec![4, 0]);
    p.add_command(Command::C { node: 4, clifford: vec![CliffordGate::X] });
    let hugr = convert_graphix_pattern_to_hugr(&p).unwrap();
    assert_eq!(names(&hugr), vec!["Input", "X", "Output"]);
    assert_eq!(inputs_of(&hugr, 1), vec![Wire::new(0, 1)]);
    assert_eq!(inputs_of(&hugr, 2), vec![Wire::new(0, 0), Wire::new(1, 0)]);
}

#[test]
fn a_repeated_input_takes_the_later_port() {
    let p = Pattern::new(vec![5, 5], vec![5]);
    let hugr = convert_graphix_pattern_to_hugr(&p).unwrap();
    match &hugr.get_node(0).unwrap().operation {
        Operation::Input { types } => assert_eq!(types.len(), 2),
        _ => panic!("node 0 is not the Input node"),
    }
    assert_eq!(inputs_of(&hugr, 1), vec![Wire::new(0, 1)]);
}

#[test]
fn every_wire_but_a_measured_bit_feeds_at_most_one_input() {
    let hugr = convert_graphix_pattern_to_hugr(&rich_pattern()).unwrap();
    for id in 0..hugr.len() {
        if name_of(&hugr, id) == "Measure" {
            continue;
        }
        for port in 0..3 {
            let w = Wire::new(id, port);
            let mut uses = 0;
            for consumer in 0..hugr.len() {
                uses += inputs_of(&hugr, consumer).iter().filter(|x| **x == w).count();
            }
            assert!(uses <= 1, "wire {:?} feeds {} inputs", w, uses);
        }
    }
    // The bit of qubit 1 feeds an XOR, the Z correction and the output.
    let bit = (0..hugr.len())
        .filter(|id| name_of(&hugr, *id) == "Measure")
        .map(|id| Wire::new(id, 0))
        .next()
        .unwrap();
    let mut uses = 0;
    for consumer in 0..hugr.len() {
        uses += inputs_of(&hugr, consumer).iter().filter(|x| **x == bit).count();
    }
    assert_eq!(uses, 3);
}

#[test]
fn node_identifiers_count_up_from_zero() {
    let hugr = convert_graphix_pattern_to_hugr(&rich_pattern()).unwrap();
    assert_eq!(hugr.next_node_id, hugr.len());
    assert_eq!(hugr.nodes.len(), hugr.len());
    for id in 0..hugr.len() {
        let node = hugr.get_node(id).unwrap();
        assert_eq!(node.id, id);
        for (port, w) in node.outputs.iter().enumerate() {
            assert_eq!(*w, Wire::new(id, port));
        }
        for w in &node.inputs {
            assert!(w.node_id < id);
        }
    }
    assert!(hugr.get_node(hugr.len()).is_none());
}

#[test]
fn conversion_is_deterministic() {
    let a = convert_graphix_pattern_to_hugr(&rich_pattern()).unwrap();
    let b = convert_graphix_pattern_to_hugr(&rich_pattern()).unwrap();
    assert_eq!(dump(&a), dump(&b));
    let c = convert_graphix_pattern_to_hugr(&rich_pattern().clone()).unwrap();
    assert_eq!(dump(&a), dump(&c));
}

#[test]
fn a_converter_forgets_the_pattern_before() {
    let mut converter = GraphixToHugrConverter::new();
    let fresh = convert_graphix_pattern_to_hugr(&rich_pattern()).unwrap();
    let mut other = Pattern::new(vec![], vec![0, 1]);
    other.add_command(Command::N { node: 0 });
    other.add_command(Command::N { node: 1 });
    converter.convert(&other).unwrap();
    let reused = converter.convert(&rich_pattern()).unwrap();
    assert_eq!(dump(&fresh), dump(&reused));

    // Qubits 0 and 1 were live in `other`; here they are not, so the CZ is
    // left out.
    let mut vacuous = Pattern::new(vec![], vec![]);
    vacuous.add_command(Command::E { nodes: (0, 1) });
    let hugr = converter.convert(&vacuous).unwrap();
    assert_eq!(names(&hugr), vec!["Input", "Output"]);
    let default = GraphixToHugrConverter::default().convert(&vacuous).unwrap();
    assert_eq!(dump(&hugr), dump(&default));
}

#[test]
fn rotations_by_negligible_angles_are_left_out() {
    let above = f64::from_bits(1e-10f64.to_bits() + 1);
    for plane in [Plane::XY, Plane::YZ, Plane::XZ] {
        for a in [0.0, -0.0, 1e-10, -1e-10, 5e-11, f64::NAN] {
            let mut p = Pattern::new(vec![0], vec![]);
            p.add_command(Command::M { node: 0, plane, angle: angle(a) });
            let hugr = convert_graphix_pattern_to_hugr(&p).unwrap();
            let expected: Vec<&str> = if plane == Plane::XY {
                vec!["Input", "H", "Measure", "Output"]
            } else {
                vec!["Input", "Measure", "Output"]
            };
            assert_eq!(names(&hugr), expected);
        }
        for a in [above, -above, 1.0, -2.5, f64::INFINITY] {
            let mut p = Pattern::new(vec![0], vec![]);
            p.add_command(Command::M { node: 0, plane, angle: angle(a) });
            let hugr = convert_graphix_pattern_to_hugr(&p).unwrap();
            let (expected, arg): (Vec<&str>, f64) = match plane {
                Plane::XY => (vec!["Input", "Rz", "H", "Measure", "Output"], -a),
                Plane::YZ => (vec!["Input", "Rx", "Measure", "Output"], -a),
                Plane::XZ => (vec!["Input", "Ry", "Measure", "Output"], a),
            };
            assert_eq!(names(&hugr), expected);
            assert_eq!(rotation_args(&hugr, 1), vec![arg]);
            assert_eq!(inputs_of(&hugr, 1), vec![Wire::new(0, 0)]);
        }
    }
}

#[test]
fn no_rotation_in_a_graph_has_a_negligible_angle() {
    let hugr = convert_graphix_pattern_to_hugr(&rich_pattern()).unwrap();
    let mut rotations = 0;
    for id in 0..hugr.len() {
        let name = name_of(&hugr, id);
        if name == "Rx" || name == "Ry" || name == "Rz" {
            rotations += 1;
            let args = rotation_args(&hugr, id);
            assert_eq!(args.len(), 1);
            assert!(args[0].abs() > 1e-10);
        } else if let Operation::Custom { args, .. } = &hugr.get_node(id).unwrap().operation {
            assert!(args.is_empty());
        }
    }
    // Rz(-0.3) and Rx(0.7); the measurement at angle 0 has no rotation.
    assert_eq!(rotations, 2);
}

#[test]
fn the_identity_gate_is_left_out() {
    let mut p = Pattern::new(vec![0], vec![0]);
    p.add_command(Command::C {
        node: 0,
        clifford: vec![
            CliffordGate::I,
            CliffordGate::H,
            CliffordGate::I,
            CliffordGate::S,
            CliffordGate::X,
            CliffordGate::Y,
            CliffordGate::Z,
            CliffordGate::SDG,
            CliffordGate::I,
        ],
    });
    p.add_command(Command::C { node: 0, clifford: vec![CliffordGate::I] });
    p.add_command(Command::C { node: 0, clifford: vec![] });
    let hugr = convert_graphix_pattern_to_hugr(&p).unwrap();
    assert_eq!(names(&hugr), vec!["Input", "H", "S", "X", "Y", "Z", "Sdg", "Output"]);
    for id in 1..7 {
        assert_eq!(inputs_of(&hugr, id), vec![Wire::new(id - 1, 0)]);
        match &hugr.get_node(id).unwrap().operation {
            Operation::Custom { signature, extension, args, .. } => {
                assert_eq!(extension, "quantum.mbqc");
                assert_eq!(signature.inputs, vec![HugrType::Qubit]);
                assert_eq!(signature.outputs, vec![HugrType::Qubit]);
                assert!(args.is_empty());
            },
            _ => panic!("not a custom operation"),
        }
    }
    assert_eq!(inputs_of(&hugr, 7), vec![Wire::new(6, 0)]);
    assert!(!names(&hugr).contains(&"I".to_string()));
}

#[test]
fn an_output_qubit_hands_out_no_bit() {
    // Qubit 0 is measured and prepared again; as an output it is no
    // measured qubit.
    let mut p = Pattern::new(vec![], vec![0]);
    p.add_command(Command::N { node: 0 });
    p.add_command(Command::M { node: 0, plane: Plane::YZ, angle: angle(0.0) });
    p.add_command(Command::N { node: 0 });
    p.add_command(Command::N { node: 1 });
    p.add_command(Command::M { node: 1, plane: Plane::YZ, angle: angle(0.0) });
    p.add_command(Command::M { node: 1, plane: Plane::YZ, angle: angle(0.0) });
    let hugr = convert_graphix_pattern_to_hugr(&p).unwrap();
    assert_eq!(
        names(&hugr),
        vec!["Input", "PrepareQubit", "Measure", "PrepareQubit", "PrepareQubit", "Measure", "Output"]
    );
    assert_eq!(inputs_of(&hugr, 6), vec![Wire::new(3, 0), Wire::new(5, 0)]);
    assert_eq!(output_types(&hugr), vec![HugrType::Qubit, HugrType::Bool]);
}

#[test]
fn measured_qubits_are_listed_once_in_ascending_order() {
    let mut p = Pattern::new(vec![9, 3, 6], vec![]);
    p.add_command(Command::M { node: 9, plane: Plane::YZ, angle: angle(0.0) });
    p.add_command(Command::M { node: 3, plane: Plane::YZ, angle: angle(0.0) });
    p.add_command(Command::M { node: 9, plane: Plane::YZ, angle: angle(0.0) });
    p.add_command(Command::M { node: 6, plane: Plane::YZ, angle: angle(0.0) });
    let hugr = convert_graphix_pattern_to_hugr(&p).unwrap();
    // Inputs 3, 6, 9 ride on ports 0, 1, 2; the measurements are nodes 1
    // (qubit 9), 2 (qubit 3) and 3 (qubit 6).
    assert_eq!(names(&hugr), vec!["Input", "Measure", "Measure", "Measure", "Output"]);
    assert_eq!(inputs_of(&hugr, 1), vec![Wire::new(0, 2)]);
    assert_eq!(inputs_of(&hugr, 2), vec![Wire::new(0, 0)]);
    assert_eq!(inputs_of(&hugr, 3), vec![Wire::new(0, 1)]);
    assert_eq!(inputs_of(&hugr, 4), vec![Wire::new(2, 0), Wire::new(3, 0), Wire::new(1, 0)]);
}

#[test]
fn a_parity_of_k_bits_takes_k_minus_one_xor_nodes() {
    let mut p = Pattern::new(vec![0, 1, 2, 3], vec![0]);
    p.add_command(Command::M { node: 3, plane: Plane::YZ, angle: angle(0.0) });
    p.add_command(Command::M { node: 1, plane: Plane::YZ, angle: angle(0.0) });
    p.add_command(Command::M { node: 2, plane: Plane::YZ, angle: angle(0.0) });
    p.add_command(Command::Z { node: 0, domain: set(&[3, 2, 1]) });
    let hugr = convert_graphix_pattern_to_hugr(&p).unwrap();
    // Bits: qubit 3 on node 1, qubit 1 on node 2, qubit 2 on node 3.
    assert_eq!(
        names(&hugr),
        vec!["Input", "Measure", "Measure", "Measure", "XOR", "XOR", "ConditionalZ", "Output"]
    );
    assert_eq!(inputs_of(&hugr, 4), vec![Wire::new(2, 0), Wire::new(3, 0)]);
    assert_eq!(inputs_of(&hugr, 5), vec![Wire::new(4, 0), Wire::new(1, 0)]);
    assert_eq!(inputs_of(&hugr, 6), vec![Wire::new(5, 0), Wire::new(0, 0)]);
    match &hugr.get_node(4).unwrap().operation {
        Operation::Custom { name, signature, extension, args } => {
            assert_eq!(name, "XOR");
            assert_eq!(extension, "logic");
            assert_eq!(signature.inputs, vec![HugrType::Bool, HugrType::Bool]);
            assert_eq!(signature.outputs, vec![HugrType::Bool]);
            assert!(args.is_empty());
        },
        _ => panic!("node 4 is not a custom operation"),
    }
}

#[test]
fn a_parity_of_one_bit_takes_no_node() {
    let mut p = Pattern::new(vec![0, 1], vec![0]);
    p.add_command(Command::M { node: 1, plane: Plane::YZ, angle: angle(0.0) });
    p.add_command(Command::X { node: 0, domain: set(&[1]) });
    let hugr = convert_graphix_pattern_to_hugr(&p).unwrap();
    assert_eq!(names(&hugr), vec!["Input", "Measure", "ConditionalX", "Output"]);
    assert_eq!(inputs_of(&hugr, 2), vec![Wire::new(1, 0), Wire::new(0, 0)]);
}

#[test]
fn unknown_bits_after_the_first_are_passed_over() {
    let mut p = Pattern::new(vec![0, 1, 5], vec![0]);
    p.add_command(Command::M { node: 1, plane: Plane::YZ, angle: angle(0.0) });
    p.add_command(Command::M { node: 5, plane: Plane::YZ, angle: angle(0.0) });
    p.add_command(Command::X { node: 0, domain: set(&[1, 2, 5, 8]) });
    let hugr = convert_graphix_pattern_to_hugr(&p).unwrap();
    assert_eq!(names(&hugr), vec!["Input", "Measure", "Measure", "XOR", "ConditionalX", "Output"]);
    assert_eq!(inputs_of(&hugr, 3), vec![Wire::new(1, 0), Wire::new(2, 0)]);
}

#[test]
fn an_unknown_least_bit_degrades_to_false() {
    let mut p = Pattern::new(vec![0, 5], vec![0]);
    p.add_command(Command::M { node: 5, plane: Plane::YZ, angle: angle(0.0) });
    p.add_command(Command::X { node: 0, domain: set(&[1, 5]) });
    let hugr = convert_graphix_pattern_to_hugr(&p).unwrap();
    assert_eq!(
        names(&hugr),
        vec!["Input", "Measure", "Const", "LoadConst", "ConditionalX", "Output"]
    );
    match &hugr.get_node(2).unwrap().operation {
        Operation::Const { value: ConstValue::Bool(b) } => assert!(!*b),
        _ => panic!("node 2 is not the constant false"),
    }
    assert_eq!(inputs_of(&hugr, 4), vec![Wire::new(3, 0), Wire::new(0, 0)]);
}

#[test]
fn commands_on_qubits_that_are_not_live_are_passed_over() {
    let mut p = Pattern::new(vec![0], vec![0]);
    p.add_command(Command::E { nodes: (0, 1) });
    p.add_command(Command::E { nodes: (1, 0) });
    p.add_command(Command::M { node: 7, plane: Plane::XY, angle: angle(1.0) });
    p.add_command(Command::X { node: 2, domain: set(&[7]) });
    p.add_command(Command::Z { node: 2, domain: set(&[]) });
    p.add_command(Command::C { node: 3, clifford: vec![CliffordGate::H] });
    let hugr = convert_graphix_pattern_to_hugr(&p).unwrap();
    // Qubit 7 counts as measured although its measurement was passed over;
    // its bit is a loaded false.
    assert_eq!(names(&hugr), vec!["Input", "Const", "LoadConst", "Output"]);
    assert_eq!(inputs_of(&hugr, 3), vec![Wire::new(0, 0), Wire::new(2, 0)]);
    assert_eq!(output_types(&hugr), vec![HugrType::Qubit, HugrType::Bool]);
}

#[test]
fn preparing_a_live_qubit_replaces_its_wire() {
    let mut p = Pattern::new(vec![0], vec![0]);
    p.add_command(Command::N { node: 0 });
    let hugr = convert_graphix_pattern_to_hugr(&p).unwrap();
    assert_eq!(names(&hugr), vec!["Input", "PrepareQubit", "Output"]);
    assert_eq!(inputs_of(&hugr, 2), vec![Wire::new(1, 0)]);
    match &hugr.get_node(1).unwrap().operation {
        Operation::Custom { signature, extension, args, .. } => {
            assert_eq!(extension, "quantum.mbqc");
            assert!(signature.inputs.is_empty());
            assert_eq!(signature.outputs, vec![HugrType::Qubit]);
            assert!(args.is_empty());
        },
        _ => panic!("node 1 is not a custom operation"),
    }
}

#[test]
fn the_empty_pattern_is_input_and_output() {
    let hugr = convert_graphix_pattern_to_hugr(&Pattern::new(vec![], vec![])).unwrap();
    assert_eq!(names(&hugr), vec!["Input", "Output"]);
    assert!(inputs_of(&hugr, 1).is_empty());
    assert!(output_types(&hugr).is_empty());
}
