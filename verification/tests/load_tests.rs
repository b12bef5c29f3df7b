use preprocess::load::{load_text, recover, Loaded};
use preprocess::report::batch_summary;
use preprocess::Node;

#[test]
fn valid_text_loads_strictly() {
    match load_text("42") {
        Loaded::Strict(docs) => assert_eq!(docs, vec![Node::Integer(42)]),
        other => panic!("expected a strict parse, got {:?}", other),
    }
}

#[test]
fn valid_mapping_loads_strictly_not_recovered() {
    let text = "info:\n  title: Hello\ntags:\n  - a\n  - b\n";
    match load_text(text) {
        Loaded::Strict(docs) => {
            assert_eq!(docs.len(), 1);
            let expected = Node::Mapping(vec![
                (
                    Node::Text("info".to_string()),
                    Node::Mapping(vec![(
                        Node::Text("title".to_string()),
                        Node::Text("Hello".to_string()),
                    )]),
                ),
                (
                    Node::Text("tags".to_string()),
                    Node::Sequence(vec![
                        Node::Text("a".to_string()),
                        Node::Text("b".to_string()),
                    ]),
                ),
            ]);
            assert_eq!(docs[0], expected);
        }
        other => panic!("expected a strict parse, got {:?}", other),
    }
}

#[test]
fn empty_text_is_strict_with_no_documents() {
    match load_text("") {
        Loaded::Strict(docs) => assert!(docs.is_empty()),
        other => panic!("expected a strict parse, got {:?}", other),
    }
}

#[test]
fn broken_tail_recovers_the_minimal_valid_prefix() {
    let valid_prefix = "[1,\n2,\n3,\n4,\n5]\n";
    let broken = "[1,\n2,\n3,\n4,\n5]\nx: ]bad\n";
    let strict_of_prefix = match load_text(valid_prefix) {
        Loaded::Strict(docs) => {
            assert_eq!(docs.len(), 1);
            docs.into_iter().next().unwrap()
        }
        other => panic!("expected the prefix to parse strictly, got {:?}", other),
    };
    match load_text(broken) {
        Loaded::Recovered(doc) => assert_eq!(doc, strict_of_prefix),
        other => panic!("expected recovery, got {:?}", other),
    }
    assert_eq!(recover(broken), Some(strict_of_prefix));
}

#[test]
fn unrecoverable_text_yields_nothing() {
    let text = "x: ]bad";
    assert_eq!(recover(text), None);
    assert_eq!(load_text(text), Loaded::Unparsed);
}

#[test]
fn zero_files_report_distinct_message() {
    assert_eq!(
        batch_summary(0),
        "No files were processed. Please check the glob pattern and file locations."
    );
}

#[test]
fn nonzero_count_reports_number() {
    assert_eq!(batch_summary(1), "Processed 1 file(s).");
    assert_eq!(batch_summary(37), "Processed 37 file(s).");
}
