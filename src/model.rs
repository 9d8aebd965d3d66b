//! An in-memory picture of a directory tree, and the changes that a pass plans
//! on it.

use vstd::prelude::*;

verus! {

/// A path below the walked directory, one name per component.
pub type PathV = Seq<Seq<char>>;

/// What an entry of the tree is, as the walk found it.
pub enum Kind {
    /// A directory that could be listed.
    Dir,
    /// A directory whose listing failed: a walk that enters it stops there.
    UnlistableDir,
    /// A file whose bytes are text.
    TextFile(Vec<char>),
    /// A file whose bytes do not decode as text.
    BinaryFile,
    /// A file that could not be read.
    UnreadableFile,
}

/// One entry of the tree: its path below the walked directory and its kind.
/// A tree is a sequence of entries in depth-first order, each directory
/// before its contents.
pub struct Node {
    pub path: Vec<String>,
    pub kind: Kind,
}

/// A change to carry out on disk, in the order in which the walk makes it.
pub enum Action {
    /// Rename the entry at `from` to `to`.
    Rename { from: Vec<String>, to: Vec<String> },
    /// Overwrite the file at `path` with `text`.
    Write { path: Vec<String>, text: Vec<char> },
}

/// A `Kind` as Verus reasons about it, texts as character sequences.
pub enum KindV {
    Dir,
    UnlistableDir,
    TextFile(Seq<char>),
    BinaryFile,
    UnreadableFile,
}

/// A `Node` as Verus reasons about it.
pub struct NodeV {
    pub path: PathV,
    pub kind: KindV,
}

/// An `Action` as Verus reasons about it.
pub enum ActionV {
    Rename { from: PathV, to: PathV },
    Write { path: PathV, text: Seq<char> },
}

/// A path as a sequence of names.
pub open spec fn path_view(p: Seq<String>) -> PathV {
    p.map_values(|s: String| s@)
}

impl View for Kind {
    type V = KindV;

    open spec fn view(&self) -> KindV {
        match self {
            Kind::Dir => KindV::Dir,
            Kind::UnlistableDir => KindV::UnlistableDir,
            Kind::TextFile(t) => KindV::TextFile(t@),
            Kind::BinaryFile => KindV::BinaryFile,
            Kind::UnreadableFile => KindV::UnreadableFile,
        }
    }
}

impl View for Node {
    type V = NodeV;

    open spec fn view(&self) -> NodeV {
        NodeV { path: path_view(self.path@), kind: self.kind@ }
    }
}

impl View for Action {
    type V = ActionV;

    open spec fn view(&self) -> ActionV {
        match self {
            Action::Rename { from, to } => ActionV::Rename {
                from: path_view(from@),
                to: path_view(to@),
            },
            Action::Write { path, text } => ActionV::Write { path: path_view(path@), text: text@ },
        }
    }
}

/// A tree as Verus reasons about it.
pub open spec fn nodes_view(v: Seq<Node>) -> Seq<NodeV> {
    v.map_values(|n: Node| n@)
}

/// Actions as Verus reasons about them.
pub open spec fn actions_view(v: Seq<Action>) -> Seq<ActionV> {
    v.map_values(|a: Action| a@)
}

/// The path that an action leaves changed: the new name of a rename, the
/// file that a write rewrites.
pub open spec fn target(a: ActionV) -> PathV {
    match a {
        ActionV::Rename { from, to } => to,
        ActionV::Write { path, text } => path,
    }
}

/// The targets of `v`, in order.
pub open spec fn targets(v: Seq<ActionV>) -> Seq<PathV> {
    v.map_values(|a: ActionV| target(a))
}

impl KindV {
    /// A directory, listable or not.
    pub open spec fn is_dir(&self) -> bool {
        self is Dir || self is UnlistableDir
    }
}

impl Kind {
    /// Whether the entry is a directory, listable or not.
    pub fn is_dir(&self) -> (r: bool)
        ensures
            r == self@.is_dir(),
    {
        match self {
            Kind::Dir => true,
            Kind::UnlistableDir => true,
            _ => false,
        }
    }
}

/// A copy of `v`.
pub fn copy_chars(v: &Vec<char>) -> (r: Vec<char>)
    ensures
        r@ == v@,
{
    let mut out: Vec<char> = Vec::new();
    let mut i: usize = 0;
    while i < v.len()
        invariant
            i <= v.len(),
            out@ == v@.subrange(0, i as int),
        decreases v.len() - i,
    {
        out.push(v[i]);
        i = i + 1;
        assert(out@ =~= v@.subrange(0, i as int));
    }
    assert(out@ =~= v@);
    out
}

/// A copy of the first `n` components of `p`.
pub fn copy_prefix(p: &Vec<String>, n: usize) -> (r: Vec<String>)
    requires
        n <= p@.len(),
    ensures
        path_view(r@) == path_view(p@).subrange(0, n as int),
{
    let mut out: Vec<String> = Vec::new();
    let mut i: usize = 0;
    while i < n
        invariant
            n <= p@.len(),
            i <= n,
            out@.len() == i,
            path_view(out@) == path_view(p@).subrange(0, i as int),
        decreases n - i,
    {
        let s: String = p[i].clone();
        let ghost before = out@;
        out.push(s);
        proof {
            assert(out@ == before.push(s));
            assert(s@ == path_view(p@)[i as int]);
            assert forall|j: int| 0 <= j < i implies path_view(out@)[j] == path_view(before)[j] by {
                assert(out@[j] == before[j]);
            }
            assert(path_view(out@) =~= path_view(p@).subrange(0, i + 1));
        }
        i = i + 1;
    }
    out
}

/// A copy of `p`.
pub fn copy_path(p: &Vec<String>) -> (r: Vec<String>)
    ensures
        path_view(r@) == path_view(p@),
{
    let r = copy_prefix(p, p.len());
    assert(path_view(p@).subrange(0, p@.len() as int) =~= path_view(p@));
    r
}

impl Kind {
    /// A copy of this kind.
    pub fn copy(&self) -> (r: Kind)
        ensures
            r@ == self@,
    {
        match self {
            Kind::Dir => Kind::Dir,
            Kind::UnlistableDir => Kind::UnlistableDir,
            Kind::TextFile(t) => Kind::TextFile(copy_chars(t)),
            Kind::BinaryFile => Kind::BinaryFile,
            Kind::UnreadableFile => Kind::UnreadableFile,
        }
    }
}

impl Node {
    /// A copy of this entry.
    pub fn copy(&self) -> (r: Node)
        ensures
            r@ == self@,
    {
        Node { path: copy_path(&self.path), kind: self.kind.copy() }
    }
}

impl Action {
    /// The path that this action leaves changed.
    pub fn target(&self) -> (r: Vec<String>)
        ensures
            path_view(r@) == target(self@),
    {
        match self {
            Action::Rename { from, to } => copy_path(to),
            Action::Write { path, text } => copy_path(path),
        }
    }
}

} // verus!
