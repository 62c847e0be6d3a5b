//! Rendering of parsed Org documents: an HTML fragment, a nested table of
//! contents and a metadata record, each produced by one traversal of the
//! document tree.

pub mod attrs;
pub mod balance;
pub mod escape;
pub mod export;
pub mod html;
pub mod markup;
pub mod metadata;
pub mod render;
pub mod slug;
pub mod text;
pub mod toc;
pub mod tree;
pub mod url;

