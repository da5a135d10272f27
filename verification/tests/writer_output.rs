use swc2dot::components::Graph;
use swc2dot::components::ShortTree;
use swc2dot::components::Vertex;
use swc2dot::config::Config;
use swc2dot::string_buffer::Indent;
use swc2dot::string_buffer::StringBuffer;
use swc2dot::swc_parser::parse_lines;
use swc2dot::swc_parser::Point;
use swc2dot::swc_parser::SWCCompartment;
use swc2dot::swc_parser::SWCCompartmentKind;
use swc2dot::writer::ConfiguredToDot;
use swc2dot::writer::ToDot;

fn test_point() -> Point {
    Point { x: "1.0".to_string(), y: "1.0".to_string(), z: "1.0".to_string() }
}

fn get_test_vertex() -> Vertex {
    Vertex::from(SWCCompartment::new(
        64,
        SWCCompartmentKind::Dendrite,
        test_point(),
        "1.0".to_string(),
        None,
    ))
}

#[test]
fn formatted_id_appears_in_output() {
    let vertex = get_test_vertex();
    assert!(vertex
        .to_dot(false, Indent::zero())
        .contains(&format!("{}; ", vertex.get_id())));
}

#[test]
fn leading_newline_zero_indent() {
    let vertex = get_test_vertex();
    assert_eq!(
        vertex.to_dot(true, Indent::zero()).chars().next().unwrap(),
        '\n',
        "Expected first char to be newline when argument `newline=true`"
    )
}

#[test]
fn no_leading_newline_zero_indent() {
    let vertex = get_test_vertex();
    assert!(
        vertex.to_dot(false, Indent::zero()).chars().next().unwrap() != '\n',
        "Expected first char to not be newline when arguemnt `newline=false`"
    )
}

fn build_graph(lines: &[&str]) -> Graph {
    let owned: Vec<String> = lines.iter().map(|l| l.to_string()).collect();
    let neuron = parse_lines(&owned).unwrap();
    Graph::from(neuron)
}

#[test]
fn graph_links_children_in_ascending_order() {
    let graph = build_graph(&[
        "1 1 0 0 0 1.0 -1",
        "2 2 0 0 0 1.0 1",
        "3 3 0 0 0 1.0 1",
        "4 2 0 0 0 1.0 2",
    ]);
    assert_eq!(graph.len(), 4);
    let root = graph.get_vertex(0);
    assert_eq!(root.get_id(), 1);
    assert_eq!(root.get_parent_id(), None);
    assert_eq!(root.get_child_ids(), &vec![2usize, 3]);
    let axon = graph.get_vertex(1);
    assert_eq!(axon.get_id(), 2);
    assert_eq!(axon.get_parent_id(), Some(1));
    assert_eq!(axon.get_child_ids(), &vec![4usize]);
    let leaf = graph.get_vertex(3);
    assert_eq!(leaf.get_child_ids(), &Vec::<usize>::new());
}

#[test]
fn short_tree_snapshots_vertex_children() {
    let graph = build_graph(&["1 1 0 0 0 1.0 -1", "2 2 0 0 0 1.0 1", "3 3 0 0 0 1.0 1"]);
    let vertex = graph.get_vertex(0);
    let tree = ShortTree::from(vertex);
    assert_eq!(tree.get_root_id(), vertex.get_id());
    assert_eq!(tree.get_child_ids(), vertex.get_child_ids());
}

#[test]
fn short_tree_iterator_walks_in_identifier_order() {
    let graph = build_graph(&["1 1 0 0 0 1.0 -1", "2 2 0 0 0 1.0 1"]);
    let mut iter = graph.iter_short_trees();
    let first = iter.next().unwrap();
    assert_eq!(first.get_root_id(), 1);
    assert_eq!(first.get_child_ids(), &vec![2usize]);
    let second = iter.next().unwrap();
    assert_eq!(second.get_root_id(), 2);
    assert!(second.get_child_ids().is_empty());
    assert!(iter.next().is_none());
    assert!(iter.next().is_none());
}

#[test]
fn short_tree_rendering_by_child_count() {
    let graph = build_graph(&[
        "1 1 0 0 0 1.0 -1",
        "2 2 0 0 0 1.0 1",
        "3 3 0 0 0 1.0 1",
        "4 2 0 0 0 1.0 2",
    ]);
    let mut iter = graph.iter_short_trees();
    let two_children = iter.next().unwrap();
    assert_eq!(two_children.to_dot(false, Indent::zero()), "1 -- {2, 3};");
    let one_child = iter.next().unwrap();
    assert_eq!(one_child.to_dot(false, Indent::zero()), "2 -- 4;");
    let _ = iter.next();
    let leaf = iter.next().unwrap();
    // A childless vertex contributes no edge statement at all.
    assert_eq!(leaf.to_dot(true, Indent::flat(1)), "");
}

#[test]
fn rendered_document_contains_blocks_and_edges() {
    let graph = build_graph(&["1 1 0 0 0 1.0 -1", "2 2 1 1 1 0.5 1"]);
    let config = Config::new();
    let document = graph.to_dot(false, Indent::zero(), &config);

    assert!(document.starts_with("graph{"));
    assert!(document.ends_with("\n}"));
    // The somatic block declares vertex 1 and the axonal block vertex 2.
    assert!(document.contains("/* Configuration for somatic vertices. */"));
    assert!(document.contains("1; "));
    assert!(document.contains("/* Configuration for axonal vertices. */"));
    assert!(document.contains("2; "));
    // Vertex 1 has the single child 2.
    assert!(document.contains("1 -- 2;"));
    // Vertex 2 is a leaf: no edge statement names it as a parent.
    assert!(!document.contains("2 -- "));
}

#[test]
fn absent_kinds_are_suppressed() {
    let graph = build_graph(&["1 1 0 0 0 1.0 -1", "2 2 1 1 1 0.5 1"]);
    let config = Config::new();
    let document = graph.to_dot(false, Indent::zero(), &config);

    // No vertex of these kinds exists, so their style blocks are left
    // out of the output entirely.
    assert!(!document.contains("undefined"));
    assert!(!document.contains("(basal) dendritic"));
    assert!(!document.contains("apical dendritic"));
    assert!(!document.contains("custom"));
}

#[test]
fn style_line_appears_in_populated_block() {
    let graph = build_graph(&["1 1 0 0 0 1.0 -1"]);
    let mut config = Config::new();
    config
        .overload_from_str("soma:\n  color: red\ndendrite:\n  color: blue\n", "test config")
        .unwrap();
    let document = graph.to_dot(false, Indent::zero(), &config);

    // The somatic block carries its merged style line.
    assert!(document.contains("color: red;"));
    // The dendritic style was configured but no dendrite exists, so its
    // whole block (style line included) is suppressed.
    assert!(!document.contains("color: blue;"));
}

#[test]
fn tokens_wrap_exactly_at_line_width() {
    // A buffer at a 4-space indent against the 80-column width: twelve
    // 6-character tokens reach column 76, and the thirteenth would pass
    // 80, so the line breaks exactly before it.
    let mut buffer = StringBuffer::new(false, Indent::flat(1), 32);
    let mut k = 0;
    while k < 13 {
        buffer.push_str("NNNN; ");
        k += 1;
    }
    let mut expected = String::from("    ");
    for _ in 0..12 {
        expected.push_str("NNNN; ");
    }
    expected.push_str("\n    ");
    expected.push_str("NNNN; ");
    assert_eq!(buffer.to_string(), expected);
}

#[test]
fn overlong_token_is_kept_and_forces_a_break() {
    // A token longer than the line width is appended whole (never
    // truncated) and the cursor is forced onto a fresh line after it.
    let mut buffer = StringBuffer::new(false, Indent::flat(0), 32);
    buffer.set_line_width(4);
    buffer.push_str("123456");
    buffer.push_str("a");
    assert_eq!(buffer.to_string(), "123456\na");
}
