//! A converter for a lightweight block/inline markup notation.
//!
//! Input text is segmented into blocks (paragraphs, headings, blockquotes,
//! footnotes), each block's inner text is tokenized into inline nodes
//! (emphasis spans, links, footnote references, typographic symbols), the
//! result is assembled into a single document tree, and the tree is
//! serialized to markup output.

pub mod chars;
pub mod convenience;
pub mod error;
pub mod laws;
pub mod lexer;
pub mod modifiers;
pub mod options;
pub mod parcom;
pub mod parser;
pub mod pulp;
pub mod renderer;

pub use convenience::convert;
pub use convenience::textile_to_html_with_options;
pub use error::Error;
pub use options::Options;
