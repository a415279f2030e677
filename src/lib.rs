//! Model interchange and metadata bridge for Boolean network models.
//!
//! - `text`: splitting and trimming character sequences.
//! - `layout`: position directives `#position:<id>:<x>,<y>` in model text.
//! - `metadata`: directives `#<key>[:<key>]*:<value>` gathered into a tree.
//! - `document`: a network as plain values and its document for a user interface.
//! - `convert`: conversions between model formats and to documents.
//! - `bridge`: routing of interface messages and the answers sent back.
pub mod bridge;
pub mod convert;
pub mod document;
pub mod layout;
pub mod metadata;
pub mod text;
