use graphix_to_hugr::{
    convert_graphix_pattern_to_hugr, Command, ConstValue, FloatBits, Hugr, HugrType, Node,
    Operation, Pattern, Plane, Wire,
};
use std::collections::HashSet;

fn angle(x: f64) -> FloatBits {
    FloatBits::from_bits(x.to_bits())
}

fn node(hugr: &Hugr, id: usize) -> &Node {
    hugr.get_node(id).unwrap()
}

fn name_of(hugr: &Hugr, id: usize) -> String {
    match &node(hugr, id).operation {
        Operation::Input { .. } => "Input".to_string(),
        Operation::Output { .. } => "Output".to_string(),
        Operation::Custom { name, .. } => name.clone(),
        Operation::Const { .. } => "Const".to_string(),
        Operation::LoadConst { .. } => "LoadConst".to_string(),
        Operation::DFG { .. } => "DFG".to_string(),
    }
}

fn names(hugr: &Hugr) -> Vec<String> {
    let mut v = Vec::new();
    for id in 0..hugr.len() {
        v.push(name_of(hugr, id));
    }
    v
}

fn output_types(hugr: &Hugr) -> Vec<HugrType> {
    match &node(hugr, hugr.len() - 1).operation {
        Operation::Output { types } => types.clone(),
        _ => panic!("the last node is not the Output node"),
    }
}

fn set(ids: &[usize]) -> HashSet<usize> {
    let mut s = HashSet::new();
    for id in ids {
        s.insert(*id);
    }
    s
}

#[test]
fn single_prepare() {
    let mut pattern = Pattern::new(vec![], vec![0]);
    pattern.add_command(Command::N { node: 0 });
    let hugr = convert_graphix_pattern_to_hugr(&pattern).unwrap();

    assert_eq!(hugr.len(), 3);
    assert_eq!(names(&hugr), vec!["Input", "PrepareQubit", "Output"]);
    assert!(node(&hugr, 0).outputs.is_empty());
    match &node(&hugr, 0).operation {
        Operation::Input { types } => assert!(types.is_empty()),
        _ => panic!("node 0 is not the Input node"),
    }
    assert!(node(&hugr, 1).inputs.is_empty());
    assert_eq!(node(&hugr, 1).outputs, vec![Wire::new(1, 0)]);
    assert_eq!(node(&hugr, 2).inputs, vec![Wire::new(1, 0)]);
    assert_eq!(output_types(&hugr), vec![HugrType::Qubit]);
    assert_eq!(hugr.next_node_id, 3);
    assert_eq!(hugr.root, 0);
}

#[test]
fn bell_pair() {
    let mut pattern = Pattern::new(vec![], vec![0, 1]);
    pattern.add_command(Command::N { node: 0 });
    pattern.add_command(Command::N { node: 1 });
    pattern.add_command(Command::E { nodes: (0, 1) });
    let hugr = convert_graphix_pattern_to_hugr(&pattern).unwrap();

    assert_eq!(names(&hugr), vec!["Input", "PrepareQubit", "PrepareQubit", "CZ", "Output"]);
    assert_eq!(node(&hugr, 3).inputs, vec![Wire::new(1, 0), Wire::new(2, 0)]);
    assert_eq!(node(&hugr, 3).outputs, vec![Wire::new(3, 0), Wire::new(3, 1)]);
    assert_eq!(node(&hugr, 4).inputs, vec![Wire::new(3, 0), Wire::new(3, 1)]);
    assert_eq!(output_types(&hugr), vec![HugrType::Qubit, HugrType::Qubit]);
    match &node(&hugr, 3).operation {
        Operation::Custom { name, signature, extension, args } => {
            assert_eq!(name, "CZ");
            assert_eq!(extension, "quantum.mbqc");
            assert_eq!(signature.inputs, vec![HugrType::Qubit, HugrType::Qubit]);
            assert_eq!(signature.outputs, vec![HugrType::Qubit, HugrType::Qubit]);
            assert!(args.is_empty());
        },
        _ => panic!("node 3 is not a custom operation"),
    }
}

#[test]
fn measured_ancilla_with_x_correction() {
    let mut pattern = Pattern::new(vec![0], vec![0]);
    pattern.add_command(Command::N { node: 1 });
    pattern.add_command(Command::M { node: 1, plane: Plane::XY, angle: angle(0.0) });
    pattern.add_command(Command::X { node: 0, domain: set(&[1]) });
    let hugr = convert_graphix_pattern_to_hugr(&pattern).unwrap();

    assert_eq!(
        names(&hugr),
        vec!["Input", "PrepareQubit", "H", "Measure", "ConditionalX", "Output"]
    );
    match &node(&hugr, 0).operation {
        Operation::Input { types } => assert_eq!(types, &vec![HugrType::Qubit]),
        _ => panic!("node 0 is not the Input node"),
    }
    assert_eq!(node(&hugr, 2).inputs, vec![Wire::new(1, 0)]);
    assert_eq!(node(&hugr, 3).inputs, vec![Wire::new(2, 0)]);
    assert_eq!(node(&hugr, 4).inputs, vec![Wire::new(3, 0), Wire::new(0, 0)]);
    assert_eq!(node(&hugr, 5).inputs, vec![Wire::new(4, 0), Wire::new(3, 0)]);
    assert_eq!(output_types(&hugr), vec![HugrType::Qubit, HugrType::Bool]);
    match &node(&hugr, 3).operation {
        Operation::Custom { signature, extension, .. } => {
            assert_eq!(extension, "quantum.mbqc");
            assert_eq!(signature.inputs, vec![HugrType::Qubit]);
            assert_eq!(signature.outputs, vec![HugrType::Bool]);
        },
        _ => panic!("node 3 is not a custom operation"),
    }
    match &node(&hugr, 4).operation {
        Operation::Custom { signature, extension, args, .. } => {
            assert_eq!(extension, "quantum.mbqc");
            assert_eq!(signature.inputs, vec![HugrType::Bool, HugrType::Qubit]);
            assert_eq!(signature.outputs, vec![HugrType::Qubit]);
            assert!(args.is_empty());
        },
        _ => panic!("node 4 is not a custom operation"),
    }
}

#[test]
fn xy_measurement_at_quarter_pi() {
    let quarter = std::f64::consts::PI / 4.0;
    let mut pattern = Pattern::new(vec![], vec![]);
    pattern.add_command(Command::N { node: 0 });
    pattern.add_command(Command::M { node: 0, plane: Plane::XY, angle: angle(quarter) });
    let hugr = convert_graphix_pattern_to_hugr(&pattern).unwrap();

    assert_eq!(names(&hugr), vec!["Input", "PrepareQubit", "Rz", "H", "Measure", "Output"]);
    match &node(&hugr, 2).operation {
        Operation::Custom { signature, extension, args, .. } => {
            assert_eq!(extension, "quantum.mbqc");
            assert_eq!(signature.inputs, vec![HugrType::Qubit]);
            assert_eq!(signature.outputs, vec![HugrType::Qubit]);
            assert_eq!(args.len(), 1);
            assert_eq!(f64::from_bits(args[0].to_bits()), -quarter);
        },
        _ => panic!("node 2 is not a custom operation"),
    }
    assert_eq!(node(&hugr, 2).inputs, vec![Wire::new(1, 0)]);
    assert_eq!(node(&hugr, 3).inputs, vec![Wire::new(2, 0)]);
    assert_eq!(node(&hugr, 4).inputs, vec![Wire::new(3, 0)]);
    assert_eq!(node(&hugr, 5).inputs, vec![Wire::new(4, 0)]);
    assert_eq!(output_types(&hugr), vec![HugrType::Bool]);
}

#[test]
fn empty_domain_correction() {
    let mut pattern = Pattern::new(vec![0], vec![0]);
    pattern.add_command(Command::X { node: 0, domain: HashSet::new() });
    let hugr = convert_graphix_pattern_to_hugr(&pattern).unwrap();

    assert_eq!(names(&hugr), vec!["Input", "Const", "LoadConst", "ConditionalX", "Output"]);
    match &node(&hugr, 1).operation {
        Operation::Const { value: ConstValue::Bool(b) } => assert!(!*b),
        _ => panic!("node 1 is not the constant false"),
    }
    match &node(&hugr, 2).operation {
        Operation::LoadConst { const_node } => assert_eq!(*const_node, 1),
        _ => panic!("node 2 does not load a constant"),
    }
    assert!(node(&hugr, 1).outputs.is_empty());
    assert_eq!(node(&hugr, 2).outputs, vec![Wire::new(2, 0)]);
    assert_eq!(node(&hugr, 3).inputs, vec![Wire::new(2, 0), Wire::new(0, 0)]);
    assert_eq!(node(&hugr, 4).inputs, vec![Wire::new(3, 0)]);
    assert_eq!(output_types(&hugr), vec![HugrType::Qubit]);
}

#[test]
fn three_by_three_cluster() {
    let ids: Vec<usize> = (0..9).collect();
    let mut pattern = Pattern::new(vec![], ids.clone());
    for id in 0..9 {
        pattern.add_command(Command::N { node: id });
    }
    let mut edges: Vec<(usize, usize)> = Vec::new();
    for row in 0..3 {
        for col in 0..2 {
            edges.push((3 * row + col, 3 * row + col + 1));
        }
    }
    for row in 0..2 {
        for col in 0..3 {
            edges.push((3 * row + col, 3 * (row + 1) + col));
        }
    }
    assert_eq!(edges.len(), 12);
    for edge in &edges {
        pattern.add_command(Command::E { nodes: *edge });
    }
    let hugr = convert_graphix_pattern_to_hugr(&pattern).unwrap();

    let all = names(&hugr);
    assert_eq!(all.len(), 1 + 9 + 12 + 1);
    assert_eq!(all.iter().filter(|n| n.as_str() == "PrepareQubit").count(), 9);
    assert_eq!(all.iter().filter(|n| n.as_str() == "CZ").count(), 12);

    // The CZ of edge `e` is node 10 + e; a qubit leaves on the port of the
    // last CZ that touched it.
    let mut expected = Vec::new();
    for id in 0..9 {
        let mut wire = Wire::new(1 + id, 0);
        for (e, edge) in edges.iter().enumerate() {
            if edge.0 == id {
                wire = Wire::new(10 + e, 0);
            }
            if edge.1 == id {
                wire = Wire::new(10 + e, 1);
            }
        }
        expected.push(wire);
    }
    assert_eq!(node(&hugr, 22).inputs, expected);
    assert_eq!(output_types(&hugr), vec![HugrType::Qubit; 9]);
}
