//! What a scaffold lays out: files with their bodies and symlinks, with paths
//! relative to a kind's tree, and the values a scaffold is rendered from.

use vstd::prelude::*;

verus! {

/// One thing a scaffold writes.
#[derive(Debug, Clone, PartialEq, Eq)]
pub enum Artifact {
    File { rel_path: String, body: String },
    Symlink { rel_path: String, target: String },
}

/// An artifact by kind, path, and body or target.
pub open spec fn artifact_model(a: Artifact) -> (bool, Seq<char>, Seq<char>) {
    match a {
        Artifact::File { rel_path, body } => (true, rel_path@, body@),
        Artifact::Symlink { rel_path, target } => (false, rel_path@, target@),
    }
}

/// An entity kind: the tree it lives in and its id prefix.
#[derive(Debug, Clone, Copy, PartialEq, Eq)]
pub struct Kind {
    pub dir: &'static str,
    pub prefix: &'static str,
}

/// The values a new entity is scaffolded from.
#[derive(Debug, Clone, Copy)]
pub struct ScaffoldCtx<'a> {
    pub id: u32,
    pub canonical: &'a str,
    pub slug: &'a str,
    pub title: &'a str,
    pub date: &'a str,
}

} // verus!
