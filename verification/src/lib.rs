//! An in-memory hierarchical index of a virtual file/folder tree.
//!
//! The tree is a recursive ownership structure: a [`folder::Folder`] owns an
//! ordered sequence of children, each either a leaf [`file::File`] or a nested
//! folder.  Nodes are addressed by integer identifiers, and equality of nodes
//! is identity: two nodes are the same entity exactly when their ids agree.
//! Every operation's contract is stated over a mathematical view of the tree
//! ([`folder::FolderV`]), so lookups, insertions, removals and moves are
//! pinned down for every input.

pub mod file;
pub mod folder;
pub mod laws;
