//! The pieces of the context working tree that plain data can carry: the
//! node kinds, a commit, and the key fragments that name tree edges.

use vstd::prelude::*;

verus! {

/// Whether a tree node is an inner node or a leaf.
#[derive(Debug, Clone, Copy, PartialEq, Eq, Structural)]
pub enum NodeKind {
    NonLeaf,
    Leaf,
}

/// A commit of the context tree.
#[derive(Debug, Clone, PartialEq)]
pub struct Commit {
    pub parent_commit_hash: Option<[u8; 32]>,
    pub root_hash: [u8; 32],
    pub time: u64,
    pub author: String,
    pub message: String,
}

/// One segment of a key path in the tree.
#[derive(Debug, Clone, PartialEq)]
pub struct KeyFragment(pub String);

impl KeyFragment {
    /// A fragment holding this text.
    pub fn new(value: &str) -> (r: Self)
        ensures
            r.0@ == value@,
    {
        KeyFragment(value.to_owned())
    }

    /// The fragment's text.
    pub fn as_text(&self) -> (r: &str)
        ensures
            r@ == self.0@,
    {
        self.0.as_str()
    }
}

} // verus!
