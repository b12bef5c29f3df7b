//! Converts trees of parsed hierarchical documents into flat, heading
//! structured text with a metadata front matter, for a static site
//! generator. The tree model, the recursive renderer, the line-prefix
//! recovery of texts that fail strict parsing, the metadata extraction and
//! the output-name flattening live here, each with its contract; reading
//! files, writing files and the version-control date lookup stay with the
//! caller.

pub mod load;
pub mod meta;
pub mod paths;
pub mod render;
pub mod report;
pub mod strings;
pub mod tree;

pub use tree::Node;
