use vstd::prelude::*;

verus! {

use vstd::string::StringExecFns;
use crate::tree::Node;
use crate::strings::{lines_of, split_lines, views_of};

/// The documents that strict parsing yields for a source text, or nothing
/// when the text does not parse. Parsing is a pure function of the text, so
/// the result carries a name rather than a page of grammar.
pub uninterp spec fn parsed_docs(s: Seq<char>) -> Option<Seq<Node>>;

#[verifier::external_type_specification]
#[verifier::external_body]
pub struct ExYaml(yaml_rust::Yaml);

/// Relies on yaml_rust's `Yaml` value enum: each variant is moved, one for
/// one, into the library's own node type; an alias's id and a bad value's
/// place are kept as bare markers, as the renderer treats them.
#[verifier::external_body]
fn node_from_yaml(y: &yaml_rust::Yaml) -> Node {
    match y {
        yaml_rust::Yaml::Null => Node::Null,
        yaml_rust::Yaml::Boolean(b) => Node::Boolean(*b),
        yaml_rust::Yaml::Integer(i) => Node::Integer(*i),
        yaml_rust::Yaml::Real(r) => Node::Real(r.clone()),
        yaml_rust::Yaml::String(s) => Node::Text(s.clone()),
        yaml_rust::Yaml::Array(items) => Node::Sequence(items.iter().map(node_from_yaml).collect()),
        yaml_rust::Yaml::Hash(h) => Node::Mapping(
            h.iter().map(|(k, v)| (node_from_yaml(k), node_from_yaml(v))).collect(),
        ),
        yaml_rust::Yaml::Alias(_) => Node::Alias,
        yaml_rust::Yaml::BadValue => Node::Malformed,
    }
}

/// Relies on yaml_rust::YamlLoader::load_from_str: strict whole-text parsing,
/// deterministic in the text alone; its outcome is the one `parsed_docs`
/// names. A scan error is reported as no outcome.
#[verifier::external_body]
fn parse_documents(text: &str) -> (r: Option<Vec<Node>>)
    ensures
        parsed_docs(text@) == (match r {
            Some(docs) => Some(docs@),
            None => None::<Seq<Node>>,
        }),
{
    match yaml_rust::YamlLoader::load_from_str(text) {
        Ok(docs) => Some(docs.iter().map(node_from_yaml).collect()),
        Err(_) => None,
    }
}

/// The first `k` lines joined back into a text, each closed with a line
/// break: the prefix the recovery loop hands to the parser at step `k`.
pub open spec fn joined_prefix(lines: Seq<Seq<char>>, k: int) -> Seq<char>
    decreases k,
{
    if k <= 0 {
        Seq::empty()
    } else {
        joined_prefix(lines, k - 1) + lines[k - 1] + "\n"@
    }
}

/// Whether the first `k` lines of the text strict-parse to at least one
/// document.
pub open spec fn prefix_parses(s: Seq<char>, k: int) -> bool {
    parsed_docs(joined_prefix(lines_of(s), k)) matches Some(ds) && ds.len() > 0
}

/// Whether `k` is the least line count whose prefix strict-parses to at
/// least one document.
pub open spec fn first_success(s: Seq<char>, k: int) -> bool {
    &&& 1 <= k <= lines_of(s).len()
    &&& prefix_parses(s, k)
    &&& forall|j: int| 1 <= j < k ==> !prefix_parses(s, j)
}

/// The first document of the minimal strict-parsing line prefix.
pub open spec fn recovered_doc(s: Seq<char>, k: int) -> Node
    recommends
        prefix_parses(s, k),
{
    match parsed_docs(joined_prefix(lines_of(s), k)) {
        Some(ds) => ds[0],
        None => Node::Malformed,
    }
}

/// Salvages a best-effort partial document from a text whose strict parse
/// failed: grows a prefix line by line, re-parses after each line, and
/// returns the first document of the first prefix that parses to at least
/// one document; nothing if no prefix does. The recovered tree is exactly
/// the strict parse of that minimal prefix — later lines are dropped.
pub fn recover(text: &str) -> (r: Option<Node>)
    ensures
        match r {
            Some(n) => exists|k: int| first_success(text@, k) && n == recovered_doc(text@, k),
            None => forall|k: int| 1 <= k <= lines_of(text@).len() ==> !prefix_parses(text@, k),
        },
{
    let lines = split_lines(text);
    let mut content = String::new();
    let mut i: usize = 0;
    proof {
        assert(content@ =~= joined_prefix(lines_of(text@), 0));
    }
    while i < lines.len()
        invariant
            views_of(lines@) == lines_of(text@),
            i <= lines.len(),
            content@ == joined_prefix(lines_of(text@), i as int),
            forall|j: int| 1 <= j <= i ==> !prefix_parses(text@, j),
        decreases lines.len() - i,
    {
        content.append(lines[i].as_str());
        content.append("\n");
        i = i + 1;
        proof {
            assert(content@ == joined_prefix(lines_of(text@), i as int));
        }
        let parsed = parse_documents(content.as_str());
        match parsed {
            Some(mut docs) => {
                if docs.len() > 0 {
                    let first = docs.remove(0);
                    proof {
                        assert(prefix_parses(text@, i as int));
                        assert(first_success(text@, i as int));
                    }
                    return Some(first);
                }
            },
            None => {},
        }
    }
    None
}

/// The outcome of loading one source text: the strict parse's documents, a
/// single recovered document, or nothing.
#[derive(Debug, PartialEq)]
pub enum Loaded {
    /// Strict parsing succeeded; every parsed document, in order.
    Strict(Vec<Node>),
    /// Strict parsing failed and line-prefix recovery salvaged a document.
    Recovered(Node),
    /// Strict parsing failed and no line prefix parsed.
    Unparsed,
}

/// Loads a source text: strict-parses it, and only when that fails falls
/// back to line-prefix recovery — a strict success never invokes recovery.
pub fn load_text(text: &str) -> (r: Loaded)
    ensures
        match parsed_docs(text@) {
            Some(ds) => r matches Loaded::Strict(docs) && docs@ == ds,
            None => match r {
                Loaded::Strict(_) => false,
                Loaded::Recovered(n) => exists|k: int|
                    first_success(text@, k) && n == recovered_doc(text@, k),
                Loaded::Unparsed => forall|k: int|
                    1 <= k <= lines_of(text@).len() ==> !prefix_parses(text@, k),
            },
        },
{
    match parse_documents(text) {
        Some(docs) => Loaded::Strict(docs),
        None => match recover(text) {
            Some(n) => Loaded::Recovered(n),
            None => Loaded::Unparsed,
        },
    }
}

} // verus!
