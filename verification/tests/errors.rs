use graphix_to_hugr::{
    convert_graphix_pattern_to_hugr, Command, ConversionError, FloatBits, GraphixToHugrConverter,
    Pattern, Plane,
};

fn angle(x: f64) -> FloatBits {
    FloatBits::from_bits(x.to_bits())
}

#[test]
fn output_never_prepared_is_an_error() {
    let pattern = Pattern::new(vec![], vec![0]);
    let result = convert_graphix_pattern_to_hugr(&pattern);
    assert_eq!(result.err(), Some(ConversionError::OutputNodeNotFound(0)));
}

#[test]
fn measured_output_is_an_error() {
    let mut pattern = Pattern::new(vec![0], vec![0]);
    pattern.add_command(Command::M { node: 0, plane: Plane::YZ, angle: angle(0.5) });
    let result = convert_graphix_pattern_to_hugr(&pattern);
    assert_eq!(result.err(), Some(ConversionError::OutputNodeNotFound(0)));
}

#[test]
fn the_least_missing_output_is_named() {
    let mut pattern = Pattern::new(vec![], vec![7, 2, 5]);
    pattern.add_command(Command::N { node: 5 });
    let result = convert_graphix_pattern_to_hugr(&pattern);
    assert_eq!(result.err(), Some(ConversionError::OutputNodeNotFound(2)));
}

#[test]
fn a_live_output_after_a_missing_one_does_not_hide_the_error() {
    let mut pattern = Pattern::new(vec![1], vec![1, 9]);
    pattern.add_command(Command::N { node: 3 });
    let result = convert_graphix_pattern_to_hugr(&pattern);
    assert_eq!(result.err(), Some(ConversionError::OutputNodeNotFound(9)));
}

#[test]
fn the_reserved_error_differs_from_the_one_in_use() {
    assert_ne!(ConversionError::NodeNotFound(1), ConversionError::OutputNodeNotFound(1));
    assert_ne!(ConversionError::OutputNodeNotFound(1), ConversionError::OutputNodeNotFound(2));
}

#[test]
fn a_failed_conversion_leaves_nothing_behind() {
    let mut converter = GraphixToHugrConverter::new();
    let mut first = Pattern::new(vec![], vec![0, 1]);
    first.add_command(Command::N { node: 0 });
    assert_eq!(converter.convert(&first).err(), Some(ConversionError::OutputNodeNotFound(1)));

    // Qubit 0 was live in the failed conversion; it is not in the next.
    let second = Pattern::new(vec![], vec![0]);
    assert_eq!(converter.convert(&second).err(), Some(ConversionError::OutputNodeNotFound(0)));
}
