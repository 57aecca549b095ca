use graphix_to_hugr::{CliffordGate, Command, CommandKind, FloatBits, Pattern, Plane};
use std::collections::HashSet;

fn domain(ids: &[usize]) -> HashSet<usize> {
    let mut s = HashSet::new();
    for id in ids {
        s.insert(*id);
    }
    s
}

fn one_of_each() -> Vec<Command> {
    vec![
        Command::N { node: 0 },
        Command::E { nodes: (0, 1) },
        Command::M { node: 1, plane: Plane::XZ, angle: FloatBits::from_bits(0.75f64.to_bits()) },
        Command::X { node: 0, domain: domain(&[1, 4]) },
        Command::Z { node: 0, domain: domain(&[]) },
        Command::C { node: 0, clifford: vec![CliffordGate::SDG, CliffordGate::I] },
    ]
}

#[test]
fn kind_names_the_variant() {
    let kinds: Vec<CommandKind> = one_of_each().iter().map(|c| c.kind()).collect();
    assert_eq!(
        kinds,
        vec![
            CommandKind::N,
            CommandKind::E,
            CommandKind::M,
            CommandKind::X,
            CommandKind::Z,
            CommandKind::C,
        ]
    );
}

#[test]
fn pattern_new_has_no_commands() {
    let p = Pattern::new(vec![2, 0], vec![1]);
    assert_eq!(p.input_nodes, vec![2, 0]);
    assert_eq!(p.output_nodes, vec![1]);
    assert!(p.commands.is_empty());
    assert_eq!(p.iter().count(), 0);
}

#[test]
fn add_command_appends_and_iter_keeps_the_order() {
    let mut p = Pattern::new(vec![], vec![]);
    for c in one_of_each() {
        p.add_command(c);
    }
    assert_eq!(p.commands.len(), 6);
    let kinds: Vec<CommandKind> = p.iter().map(|c| c.kind()).collect();
    assert_eq!(
        kinds,
        vec![
            CommandKind::N,
            CommandKind::E,
            CommandKind::M,
            CommandKind::X,
            CommandKind::Z,
            CommandKind::C,
        ]
    );
    p.add_command(Command::N { node: 8 });
    assert_eq!(p.iter().count(), 7);
    assert_eq!(p.iter().last().unwrap().kind(), CommandKind::N);
    assert_eq!(p.input_nodes, Vec::<usize>::new());
}

#[test]
fn commands_and_patterns_clone_field_for_field() {
    let mut p = Pattern::new(vec![3], vec![4, 5]);
    for c in one_of_each() {
        p.add_command(c);
    }
    let q = p.clone();
    assert_eq!(q.input_nodes, p.input_nodes);
    assert_eq!(q.output_nodes, p.output_nodes);
    assert_eq!(q.commands.len(), p.commands.len());
    for (a, b) in p.iter().zip(q.iter()) {
        match (a, b) {
            (Command::N { node: x }, Command::N { node: y }) => assert_eq!(x, y),
            (Command::E { nodes: x }, Command::E { nodes: y }) => assert_eq!(x, y),
            (
                Command::M { node: x, plane: px, angle: ax },
                Command::M { node: y, plane: py, angle: ay },
            ) => {
                assert_eq!(x, y);
                assert_eq!(px, py);
                assert_eq!(ax, ay);
            },
            (Command::X { node: x, domain: dx }, Command::X { node: y, domain: dy }) => {
                assert_eq!(x, y);
                assert_eq!(dx, dy);
            },
            (Command::Z { node: x, domain: dx }, Command::Z { node: y, domain: dy }) => {
                assert_eq!(x, y);
                assert_eq!(dx, dy);
            },
            (Command::C { node: x, clifford: cx }, Command::C { node: y, clifford: cy }) => {
                assert_eq!(x, y);
                assert_eq!(cx, cy);
            },
            _ => panic!("a command changed its kind"),
        }
    }
}
