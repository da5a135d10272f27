use swc2dot::string_buffer::Indent;
use swc2dot::string_buffer::StringBuffer;
use swc2dot::swc_parser::SWCCompartmentKind;
use swc2dot::writer::ToDot;
use swc2dot::writer::VertexConfigFormatter;

#[test]
fn string_buffer_returns_empty_if_push_str_is_never_called() {
    // Initialize a `StringBuffer` with a newline and big indent.
    let string = StringBuffer::new(true, Indent::flat(5), 32);
    assert_eq!("".to_string(), string.to_string())
}

#[test]
fn string_buffer_returns_indented_if_push_str_is_called() {
    let mut string = StringBuffer::new(false, Indent::flat(1), 32);
    string.push_str("something");
    assert_eq!("    something".to_string(), string.to_string());
}

#[test]
fn string_buffer_returns_newline_if_push_str_is_called() {
    let mut string = StringBuffer::new(true, Indent::flat(0), 32);
    string.push_str("something");
    assert_eq!("\nsomething".to_string(), string.to_string());
}

fn compare_str_ref(a: &str, b: &str) -> bool {
    a == b
}

#[test]
fn string_buffer_asref_str_empty_if_push_str_is_never_called() {
    // Initialize a `StringBuffer` with a newline and big indent.
    let string = StringBuffer::new(true, Indent::flat(5), 32);
    if !compare_str_ref(string.as_str(), "") {
        panic!("Failed");
    }
}

#[test]
fn string_buffer_asref_str_indented_if_push_str_is_called() {
    let mut string = StringBuffer::new(false, Indent::flat(1), 32);
    string.push_str("something");
    if !compare_str_ref(string.as_str(), "    something") {
        panic!("Failed");
    }
}

#[test]
fn string_buffer_asref_str_newline_if_push_str_is_called() {
    let mut string = StringBuffer::new(true, Indent::flat(0), 32);
    string.push_str("something");
    if !compare_str_ref(string.as_str(), "\nsomething") {
        panic!("Failed");
    }
}

// LINE WRAPPING TESTS

#[test]
fn string_buffer_hard_wrap_short_line_without_indent() {
    let mut string = StringBuffer::new(false, Indent::flat(0), 32);
    string.set_line_width(4);
    string.push_str("123");
    string.push_str("456");
    assert_eq!("123\n456".to_string(), string.to_string());
}

#[test]
fn string_buffer_hard_wrap_full_line_without_indent() {
    let mut string = StringBuffer::new(false, Indent::flat(0), 32);
    string.set_line_width(4);
    string.push_str("1234");
    string.push_str("5678");
    assert_eq!("1234\n5678".to_string(), string.to_string());
}

#[test]
fn string_buffer_hard_wrap_short_line_with_indent() {
    let mut string = StringBuffer::new(false, Indent::flat(1), 32);
    string.set_line_width(8);
    string.push_str("123");
    string.push_str("456");
    assert_eq!("    123\n    456".to_string(), string.to_string());
}

#[test]
fn string_buffer_hard_wrap_full_line_with_indent() {
    let mut string = StringBuffer::new(false, Indent::flat(1), 32);
    string.set_line_width(8);
    string.push_str("1234");
    string.push_str("5678");
    assert_eq!("    1234\n    5678".to_string(), string.to_string());
}

#[test]
fn string_buffer_hard_wrap_long_line_without_indent() {
    let mut string = StringBuffer::new(false, Indent::flat(0), 32);
    string.set_line_width(4);
    string.push_str("12345");
    string.push_str("678");
    assert_eq!("12345\n678".to_string(), string.to_string());
}

#[test]
fn string_buffer_hard_wrap_long_second_line_with_indent() {
    let mut string = StringBuffer::new(false, Indent::flat(1), 32);
    string.set_line_width(8);
    string.push_str("123");
    string.push_str("456789");
    string.push_str("0");
    assert_eq!("    123\n    456789\n    0".to_string(), string.to_string());
}

#[test]
fn writer_returns_empty_if_push_str_is_never_called() {
    let string = StringBuffer::new(true, Indent::flat(5), 32);
    assert_eq!("".to_string(), string.to_string())
}

#[test]
fn writer_returns_indented_if_push_str_is_called() {
    let mut string = StringBuffer::new(false, Indent::flat(1), 32);
    string.push_str("something");
    assert_eq!("    something".to_string(), string.to_string());
}

#[test]
fn writer_returns_newline_if_push_str_is_called() {
    let mut string = StringBuffer::new(true, Indent::flat(0), 32);
    string.push_str("something");
    assert_eq!("\nsomething".to_string(), string.to_string());
}

#[test]
fn writer_asref_str_empty_if_push_str_is_never_called() {
    let string = StringBuffer::new(true, Indent::flat(5), 32);
    if !compare_str_ref(string.as_str(), "") {
        panic!("Failed");
    }
}

#[test]
fn writer_asref_str_indented_if_push_str_is_called() {
    let mut string = StringBuffer::new(false, Indent::flat(1), 32);
    string.push_str("something");
    if !compare_str_ref(string.as_str(), "    something") {
        panic!("Failed");
    }
}

#[test]
fn writer_asref_str_newline_if_push_str_is_called() {
    let mut string = StringBuffer::new(true, Indent::flat(0), 32);
    string.push_str("something");
    if !compare_str_ref(string.as_str(), "\nsomething") {
        panic!("Failed");
    }
}

#[test]
fn writer_hard_wrap_short_line_without_indent() {
    let mut string = StringBuffer::new(false, Indent::flat(0), 32);
    string.set_line_width(4);
    string.push_str("123");
    string.push_str("456");
    assert_eq!("123\n456".to_string(), string.to_string());
}

#[test]
fn writer_hard_wrap_full_line_without_indent() {
    let mut string = StringBuffer::new(false, Indent::flat(0), 32);
    string.set_line_width(4);
    string.push_str("1234");
    string.push_str("5678");
    assert_eq!("1234\n5678".to_string(), string.to_string());
}

#[test]
fn writer_hard_wrap_short_line_with_indent() {
    let mut string = StringBuffer::new(false, Indent::flat(1), 32);
    string.set_line_width(8);
    string.push_str("123");
    string.push_str("456");
    assert_eq!("    123\n    456".to_string(), string.to_string());
}

#[test]
fn writer_hard_wrap_full_line_with_indent() {
    let mut string = StringBuffer::new(false, Indent::flat(1), 32);
    string.set_line_width(8);
    string.push_str("1234");
    string.push_str("5678");
    assert_eq!("    1234\n    5678".to_string(), string.to_string());
}

#[test]
fn writer_hard_wrap_long_line_without_indent() {
    let mut string = StringBuffer::new(false, Indent::flat(0), 32);
    string.set_line_width(4);
    string.push_str("12345");
    string.push_str("678");
    assert_eq!("12345\n678".to_string(), string.to_string());
}

#[test]
fn writer_hard_wrap_long_second_line_with_indent() {
    let mut string = StringBuffer::new(false, Indent::flat(1), 32);
    string.set_line_width(8);
    string.push_str("123");
    string.push_str("456789");
    string.push_str("0");
    assert_eq!("    123\n    456789\n    0".to_string(), string.to_string());
}

#[test]
fn weak_push_yields_empty_string() {
    let mut formatter = VertexConfigFormatter::new(true, Indent::flat(1), 1024);

    // Push content that does not need to be printed.
    let mut kinds = SWCCompartmentKind::iter();
    loop {
        match kinds.next() {
            Some(kind) => formatter.weak_push_config_str(kind, "unnecessary content"),
            None => break,
        }
    }

    assert_eq!(formatter.to_dot(true, Indent::flat(1)), "");
}

#[test]
fn newline_does_not_mark_buffer_as_modified() {
    let mut string = StringBuffer::new(false, Indent::flat(2), 32);
    string.newline();
    assert_eq!("".to_string(), string.to_string());
    assert_eq!(string.len(), 0);
}

#[test]
fn weak_push_is_revealed_by_later_push() {
    let mut string = StringBuffer::new(false, Indent::flat(0), 32);
    string.weak_push_str("hidden ");
    assert_eq!("".to_string(), string.to_string());
    string.push_str("visible");
    assert_eq!("hidden visible".to_string(), string.to_string());
}

#[test]
fn indent_constructors_agree() {
    assert_eq!(Indent::flat(3), Indent::absolute_first_line(3, 3));
    assert_eq!(Indent::flat(3), Indent::relative_first_line(0, 3));
    assert_eq!(Indent::zero(), Indent::flat(0));
    let relative = Indent::relative_first_line(1, 3);
    assert_eq!(relative, Indent::absolute_first_line(2, 3));
}

#[test]
fn get_indent_is_four_spaces_per_level() {
    assert_eq!(swc2dot::string_buffer::get_indent(0), "");
    assert_eq!(swc2dot::string_buffer::get_indent(2), "        ");
    assert_eq!(swc2dot::writer::indent(1), "    ");
}
