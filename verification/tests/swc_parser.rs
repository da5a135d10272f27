use swc2dot::swc_parser::parse_line;
use swc2dot::swc_parser::parse_line_as_compartment;
use swc2dot::swc_parser::parse_lines;
use swc2dot::swc_parser::ParseError;
use swc2dot::swc_parser::Point;
use swc2dot::swc_parser::RecordField;
use swc2dot::swc_parser::SWCCompartment;
use swc2dot::swc_parser::SWCCompartmentKind;
use swc2dot::swc_parser::SWCLine;
use swc2dot::swc_parser::SWCNeuron;

/// An SWC line should have exactly seven space-delimited items. These
/// tests ensure that lines are parsed as the correct length.

#[test]
fn too_many_space_delimited_items_raises_error() {
    let line = "2 3 4 5 6 7 1 1";
    match parse_line_as_compartment(line) {
        Ok(_) => assert!(false),
        Err(e) => assert!(e.message().contains("got 8 items")),
    }
}

#[test]
fn too_few_space_delimited_items_raises_error() {
    let line = "2 3 4 5 6 7";
    match parse_line_as_compartment(line) {
        Ok(_) => assert!(false),
        Err(e) => {
            assert!(e.message().contains("got 6 items"));
            assert!(matches!(e, ParseError::MalformedRecord { n_items: 6 }));
        }
    }
}

#[test]
fn leading_space_does_not_trigger_error() {
    let line = " 2 3 4 5 6 7 1";
    match parse_line_as_compartment(line) {
        Ok(_) => assert!(true),
        Err(_) => assert!(false),
    }
}

#[test]
fn trailing_space_does_not_trigger_error() {
    let line = "2 3 4 5 6 7 1 ";
    match parse_line_as_compartment(line) {
        Ok(_) => assert!(true),
        Err(_) => assert!(false),
    }
}

#[test]
fn extra_infix_spaces_do_not_trigger_error() {
    let line = "2 3   4  5 6     7 1";
    match parse_line_as_compartment(line) {
        Ok(_) => assert!(true),
        Err(_) => assert!(false),
    }
}

#[test]
fn first_item_is_id() {
    let trailing_values = " 2 3 4 5 6 7";
    for id in [10usize, 645, 938274].iter() {
        let mut swc_line = id.to_string();
        swc_line.push_str(trailing_values);
        let swc_compartment = parse_line_as_compartment(&swc_line).unwrap();
        assert_eq!(swc_compartment.id, *id);
    }
}

#[test]
fn position() {
    for (x, y, z) in [(1.2, 2.2, 3.7), (4.5, 5.5, 6.5), (-32.0, 125.333, -3.4)].iter() {
        let swc_line = format!("10 1 {} {} {} 5 6", x, y, z);
        let swc_compartment = parse_line_as_compartment(&swc_line).unwrap();
        assert_eq!(
            swc_compartment.position,
            Point { x: x.to_string(), y: y.to_string(), z: z.to_string() }
        );
    }
}

#[test]
fn radius() {
    for rad in [4.3, 7.7, 9.9, 3.2].iter() {
        let swc_line = format!("10 1 3 3 3 {} 6", rad);
        let swc_compartment = parse_line_as_compartment(&swc_line).unwrap();
        assert_eq!(swc_compartment.radius, rad.to_string());
    }
}

#[test]
fn positive_last_item_is_parent() {
    for parent_id in [2usize, 54, 893].iter() {
        let swc_line = format!("1000 1 3 3 3 3 {}", parent_id);
        let swc_compartment = parse_line_as_compartment(&swc_line).unwrap();
        match swc_compartment.parent_id {
            Some(parent) => assert_eq!(parent, *parent_id),
            None => assert!(false, "Failed because no parent was found."),
        }
    }
}

#[test]
fn negative_last_item_means_no_parent() {
    for parent_id in [-244i64, -2, -1].iter() {
        let swc_line = format!("1 1 3 3 3 3 {}", parent_id);
        let swc_compartment = parse_line_as_compartment(&swc_line).unwrap();
        match swc_compartment.parent_id {
            Some(_) => assert!(
                false,
                "A negative parent is no parent at all! Parent is not None for swc string `{}`",
                swc_line
            ),
            None => assert!(true),
        }
    }
}

fn test_point() -> Point {
    Point { x: "0".to_string(), y: "0".to_string(), z: "0".to_string() }
}

#[test]
fn insert_compartments_with_unique_ids() {
    // Create a neuron and insert a single root compartment.
    let mut neuron = SWCNeuron::new();
    let mut compartment = SWCCompartment::new(
        0,
        SWCCompartmentKind::Soma,
        test_point(),
        "0.5".to_string(),
        None,
    );
    neuron
        .try_insert(compartment.clone())
        .expect("Could not insert root node.");

    for compartment_id in [2usize, 5, 4, 7, 88, 903].iter() {
        compartment.parent_id = Some(0);
        compartment.id = *compartment_id;
        neuron.try_insert(compartment.clone()).unwrap_or_else(|_| {
            panic!("Could not insert compartment with unique id {}", compartment_id)
        });
    }
}

#[test]
fn insert_compartment_with_duplicate_ids_is_error() {
    // Create a neuron and insert a single root compartment.
    let mut neuron = SWCNeuron::new();
    let mut compartment = SWCCompartment::new(
        1,
        SWCCompartmentKind::Soma,
        test_point(),
        "0.5".to_string(),
        None,
    );
    neuron
        .try_insert(compartment.clone())
        .expect("Could not insert root node.");

    // Change all compartment attributes except id.
    compartment.radius = "1.5".to_string();
    compartment.position.x = "1".to_string();
    compartment.position.y = "1".to_string();
    compartment.position.z = "1".to_string();
    compartment.kind = SWCCompartmentKind::ApicalDendrite;
    compartment.parent_id = Some(0);

    // Since id is still the same, inserting compartment again is an error.
    match neuron.try_insert(compartment.clone()) {
        Ok(_) => assert!(false, "Inserting compartments with the same id should be an error"),
        Err(e) => assert!(e
            .message()
            .to_lowercase()
            .contains("more than one compartment with id 1")),
    }
}

#[test]
fn duplicate_insert_retains_first_compartment() {
    let mut neuron = SWCNeuron::new();
    let first = SWCCompartment::new(
        7,
        SWCCompartmentKind::Axon,
        test_point(),
        "2.5".to_string(),
        None,
    );
    neuron.try_insert(first).expect("Could not insert root node.");

    let second = SWCCompartment::new(
        7,
        SWCCompartmentKind::Soma,
        test_point(),
        "9".to_string(),
        None,
    );
    assert!(matches!(
        neuron.try_insert(second),
        Err(ParseError::DuplicateIdentifier { id: 7 })
    ));
    assert_eq!(neuron.len(), 1);
    let kept = neuron.get_index(0);
    assert_eq!(kept.kind, SWCCompartmentKind::Axon);
    assert_eq!(kept.radius, "2.5".to_string());
}

#[test]
fn kind_codes_map_onto_kinds() {
    assert_eq!(SWCCompartmentKind::from(0usize), SWCCompartmentKind::Undefined);
    assert_eq!(SWCCompartmentKind::from(1usize), SWCCompartmentKind::Soma);
    assert_eq!(SWCCompartmentKind::from(2usize), SWCCompartmentKind::Axon);
    assert_eq!(SWCCompartmentKind::from(3usize), SWCCompartmentKind::Dendrite);
    assert_eq!(SWCCompartmentKind::from(4usize), SWCCompartmentKind::ApicalDendrite);
    assert_eq!(SWCCompartmentKind::from(5usize), SWCCompartmentKind::Custom);
    assert_eq!(SWCCompartmentKind::from(6usize), SWCCompartmentKind::Custom);
    assert_eq!(SWCCompartmentKind::from(5000usize), SWCCompartmentKind::Custom);
}

#[test]
fn huge_kind_code_is_custom() {
    let line = "1 99999999999999999999999999 0 0 0 1.0 -1";
    let compartment = parse_line_as_compartment(line).unwrap();
    assert_eq!(compartment.kind, SWCCompartmentKind::Custom);
}

#[test]
fn unparsable_id_is_invalid_field() {
    match parse_line_as_compartment("x 1 0 0 0 1.0 -1") {
        Err(ParseError::InvalidField { field, text }) => {
            assert_eq!(field, RecordField::Identifier);
            assert_eq!(text, "x".to_string());
        }
        _ => assert!(false),
    }
}

#[test]
fn huge_id_is_invalid_field() {
    match parse_line_as_compartment("99999999999999999999999999 1 0 0 0 1.0 -1") {
        Err(ParseError::InvalidField { field, .. }) => {
            assert_eq!(field, RecordField::Identifier);
        }
        _ => assert!(false),
    }
}

#[test]
fn unparsable_kind_is_invalid_field() {
    match parse_line_as_compartment("1 soma 0 0 0 1.0 -1") {
        Err(ParseError::InvalidField { field, .. }) => assert_eq!(field, RecordField::KindCode),
        _ => assert!(false),
    }
}

#[test]
fn unparsable_coordinate_is_invalid_field() {
    match parse_line_as_compartment("1 1 east 0 0 1.0 -1") {
        Err(ParseError::InvalidField { field, text }) => {
            assert_eq!(field, RecordField::PositionX);
            assert_eq!(text, "east".to_string());
        }
        _ => assert!(false),
    }
    match parse_line_as_compartment("1 1 0 nan.0 0 1.0 -1") {
        Err(ParseError::InvalidField { field, .. }) => assert_eq!(field, RecordField::PositionY),
        _ => assert!(false),
    }
    match parse_line_as_compartment("1 1 0 0 1e 1.0 -1") {
        Err(ParseError::InvalidField { field, .. }) => assert_eq!(field, RecordField::PositionZ),
        _ => assert!(false),
    }
}

#[test]
fn negative_radius_is_invalid_field() {
    match parse_line_as_compartment("1 1 0 0 0 -1.0 -1") {
        Err(ParseError::InvalidField { field, text }) => {
            assert_eq!(field, RecordField::Radius);
            assert_eq!(text, "-1.0".to_string());
        }
        _ => assert!(false),
    }
}

#[test]
fn unparsable_parent_is_invalid_field() {
    match parse_line_as_compartment("2 1 0 0 0 1.0 p") {
        Err(ParseError::InvalidField { field, text }) => {
            assert_eq!(field, RecordField::Parent);
            assert_eq!(text, "p".to_string());
        }
        _ => assert!(false),
    }
}

#[test]
fn float_literal_forms_are_accepted() {
    let line = "1 1 .5 1e3 +2.5E-4 3. -1";
    let compartment = parse_line_as_compartment(line).unwrap();
    assert_eq!(compartment.position.x, ".5".to_string());
    assert_eq!(compartment.position.y, "1e3".to_string());
    assert_eq!(compartment.position.z, "+2.5E-4".to_string());
    assert_eq!(compartment.radius, "3.".to_string());
}

#[test]
fn parent_not_below_id_is_ordering_error() {
    // Parent 5 is not strictly less than id 2, and the ordering check
    // fires before any existence check could.
    match parse_line_as_compartment("2 1 0 0 0 1 5") {
        Err(ParseError::InvalidParentOrdering { id, parent }) => {
            assert_eq!(id, 2);
            assert_eq!(parent, "5".to_string());
        }
        _ => assert!(false),
    }

    let lines = vec!["1 1 0 0 0 1 -1".to_string(), "2 1 0 0 0 1 5".to_string()];
    assert!(matches!(
        parse_lines(&lines),
        Err(ParseError::InvalidParentOrdering { id: 2, .. })
    ));
}

#[test]
fn parent_equal_to_id_is_ordering_error() {
    assert!(matches!(
        parse_line_as_compartment("3 1 0 0 0 1 3"),
        Err(ParseError::InvalidParentOrdering { id: 3, .. })
    ));
}

#[test]
fn overflowing_parent_is_ordering_error() {
    assert!(matches!(
        parse_line_as_compartment("5 1 0 0 0 1 99999999999999999999999999"),
        Err(ParseError::InvalidParentOrdering { id: 5, .. })
    ));
}

#[test]
fn blank_and_comment_lines_are_skipped() {
    assert!(matches!(parse_line("   \t  "), Ok(SWCLine::Blank)));
    assert!(matches!(parse_line(""), Ok(SWCLine::Blank)));
    match parse_line("  # a comment \t") {
        Ok(SWCLine::Comment(text)) => assert_eq!(text, "# a comment".to_string()),
        _ => assert!(false),
    }

    let lines = vec![
        "# header".to_string(),
        "".to_string(),
        "1 1 0 0 0 1.0 -1".to_string(),
        "   ".to_string(),
    ];
    let neuron = parse_lines(&lines).unwrap();
    assert_eq!(neuron.len(), 1);
}

#[test]
fn assembly_fails_on_duplicate_identifier() {
    let lines = vec!["1 1 0 0 0 1.0 -1".to_string(), "1 2 0 0 0 1.0 -1".to_string()];
    match parse_lines(&lines) {
        Err(ParseError::DuplicateIdentifier { id }) => assert_eq!(id, 1),
        _ => assert!(false),
    }
}

#[test]
fn store_is_ordered_by_identifier() {
    let mut neuron = SWCNeuron::new();
    for id in [5usize, 1, 3].iter() {
        let c = SWCCompartment::new(
            *id,
            SWCCompartmentKind::Soma,
            test_point(),
            "1".to_string(),
            None,
        );
        neuron.try_insert(c).unwrap();
    }
    assert_eq!(neuron.len(), 3);
    assert_eq!(neuron.get_index(0).id, 1);
    assert_eq!(neuron.get_index(1).id, 3);
    assert_eq!(neuron.get_index(2).id, 5);
}

#[test]
fn filename_extension_is_stripped() {
    assert_eq!(
        swc2dot::get_filename_without_extension("morphology.swc".to_string()),
        "morphology".to_string()
    );
    assert_eq!(
        swc2dot::get_filename_without_extension("no_extension".to_string()),
        "no_extension".to_string()
    );
    assert_eq!(
        swc2dot::get_filename_without_extension("a.b.c".to_string()),
        "a.b".to_string()
    );
}
