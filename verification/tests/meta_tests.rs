use preprocess::meta::{build_front_matter, compose_output, extract_tags, extract_title};
use preprocess::Node;

fn text(s: &str) -> Node {
    Node::Text(s.to_string())
}

fn sample_doc() -> Node {
    let info = Node::Mapping(vec![(text("title"), text("Hello"))]);
    let tags = Node::Sequence(vec![text("a"), text("b")]);
    Node::Mapping(vec![(text("info"), info), (text("tags"), tags)])
}

#[test]
fn title_is_found_at_info_title() {
    assert_eq!(extract_title(&sample_doc()), Some("Hello".to_string()));
}

#[test]
fn title_absent_when_path_missing() {
    assert_eq!(extract_title(&Node::Mapping(vec![])), None);
    assert_eq!(extract_title(&Node::Integer(1)), None);
    let info_not_mapping = Node::Mapping(vec![(text("info"), text("x"))]);
    assert_eq!(extract_title(&info_not_mapping), None);
    let title_not_text = Node::Mapping(vec![(
        text("info"),
        Node::Mapping(vec![(text("title"), Node::Integer(1))]),
    )]);
    assert_eq!(extract_title(&title_not_text), None);
}

#[test]
fn tags_collect_text_elements() {
    assert_eq!(
        extract_tags(&sample_doc()),
        Some(vec!["a".to_string(), "b".to_string()])
    );
}

#[test]
fn tags_skip_non_text_elements() {
    let doc = Node::Mapping(vec![(
        text("tags"),
        Node::Sequence(vec![text("a"), Node::Integer(1), text("b")]),
    )]);
    assert_eq!(extract_tags(&doc), Some(vec!["a".to_string(), "b".to_string()]));
}

#[test]
fn tags_absent_when_not_a_sequence() {
    let doc = Node::Mapping(vec![(text("tags"), text("a"))]);
    assert_eq!(extract_tags(&doc), None);
    assert_eq!(extract_tags(&Node::Null), None);
}

#[test]
fn front_matter_defaults_title_and_date() {
    let fm = build_front_matter(&None, &None, &None);
    assert_eq!(fm, "---\ntitle: Untitled\ndate: Unknown\n---\n\n");
}

#[test]
fn front_matter_with_all_fields() {
    let fm = build_front_matter(
        &Some("T".to_string()),
        &Some(vec!["x".to_string(), "y".to_string()]),
        &Some("2021-01-01".to_string()),
    );
    assert_eq!(fm, "---\ntitle: T\ntags:\n  - x\n  - y\ndate: 2021-01-01\n---\n\n");
}

#[test]
fn front_matter_omits_tags_block_when_absent() {
    let fm = build_front_matter(&Some("T".to_string()), &None, &None);
    assert!(!fm.contains("tags"));
}

#[test]
fn composed_document_with_no_history_uses_unknown_date() {
    let out = compose_output(&sample_doc(), &None);
    let mut expected = String::new();
    expected.push_str("---\ntitle: Hello\ntags:\n  - a\n  - b\ndate: Unknown\n---\n\n");
    expected.push_str("\n# info  \n\n\n## title  \n\n        Hello\n");
    expected.push_str("\n# tags  \n\n    a\n    b\n");
    assert_eq!(out, expected);
}

#[test]
fn composed_scalar_document_has_plain_body() {
    let out = compose_output(&Node::Integer(42), &None);
    assert_eq!(out, "---\ntitle: Untitled\ndate: Unknown\n---\n\n42\n");
}
