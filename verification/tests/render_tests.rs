use preprocess::render::render;
use preprocess::Node;

#[test]
fn null_renders_literal() {
    assert_eq!(render(&Node::Null, 0), "null\n");
}

#[test]
fn booleans_render_words() {
    assert_eq!(render(&Node::Boolean(true), 0), "true\n");
    assert_eq!(render(&Node::Boolean(false), 0), "false\n");
}

#[test]
fn integer_renders_decimal() {
    assert_eq!(render(&Node::Integer(42), 0), "42\n");
    assert_eq!(render(&Node::Integer(0), 0), "0\n");
    assert_eq!(render(&Node::Integer(-5), 0), "-5\n");
    assert_eq!(render(&Node::Integer(i64::MIN), 0), "-9223372036854775808\n");
}

#[test]
fn real_renders_source_text() {
    assert_eq!(render(&Node::Real("3.14".to_string()), 0), "3.14\n");
}

#[test]
fn alias_and_malformed_render_placeholders() {
    assert_eq!(render(&Node::Alias, 0), "Alias\n");
    assert_eq!(render(&Node::Malformed, 0), "Bad Value\n");
}

#[test]
fn text_lines_are_indented() {
    assert_eq!(render(&Node::Text("x\ny".to_string()), 2), "        x\n        y\n");
}

#[test]
fn empty_text_emits_one_indented_line() {
    assert_eq!(render(&Node::Text(String::new()), 1), "    \n");
}

#[test]
fn text_trailing_break_adds_no_extra_line() {
    assert_eq!(render(&Node::Text("a\n".to_string()), 0), "a\n");
}

#[test]
fn sequence_concatenates_elements() {
    let seq = Node::Sequence(vec![Node::Integer(1), Node::Integer(2), Node::Integer(3)]);
    assert_eq!(render(&seq, 0), "1\n2\n3\n");
}

#[test]
fn empty_sequence_renders_nothing() {
    assert_eq!(render(&Node::Sequence(vec![]), 0), "");
}

#[test]
fn nested_mapping_renders_headings() {
    let inner = Node::Mapping(vec![(Node::Text("b".to_string()), Node::Integer(1))]);
    let doc = Node::Mapping(vec![(Node::Text("a".to_string()), inner)]);
    assert_eq!(render(&doc, 0), "\n# a  \n\n\n## b  \n\n1\n");
}

#[test]
fn non_text_key_falls_back_to_debug_style() {
    let doc = Node::Mapping(vec![(Node::Integer(3), Node::Null)]);
    assert_eq!(render(&doc, 0), "\n# Integer(3)  \n\nnull\n");
    let doc2 = Node::Mapping(vec![(Node::Null, Node::Null)]);
    assert_eq!(render(&doc2, 0), "\n# Null  \n\nnull\n");
}

#[test]
fn heading_level_caps_at_six() {
    let mut node = Node::Integer(1);
    for _ in 0..10 {
        node = Node::Mapping(vec![(Node::Text("k".to_string()), node)]);
    }
    let out = render(&node, 0);
    assert!(out.contains("###### k"));
    assert!(!out.contains("#######"));
}

#[test]
fn every_rendered_text_ends_in_a_line_break() {
    let samples = vec![
        Node::Null,
        Node::Boolean(true),
        Node::Integer(-7),
        Node::Real("2.5".to_string()),
        Node::Text("line".to_string()),
        Node::Sequence(vec![Node::Null, Node::Alias]),
        Node::Mapping(vec![(Node::Text("k".to_string()), Node::Sequence(vec![]))]),
        Node::Malformed,
    ];
    for n in &samples {
        let out = render(n, 0);
        assert!(out.is_empty() || out.ends_with('\n'));
    }
}
