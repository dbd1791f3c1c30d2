//! The attributed tree that queries run over.
//!
//! A tree is an arena of nodes; a node id is its index in the arena.  Every
//! node carries a name, an optional parent id, and an ordered list of named,
//! typed attributes.  Attribute values form a closed variant set: scalars,
//! timestamps, nested attribute lists, reflected structs whose fields appear
//! as attributes, and lazily openable byte content.
use vstd::prelude::*;

use crate::filter::strictly_sorted;

verus! {

/// A named, typed value attached to a node; may nest further attributes.
pub struct Attribute {
    pub name: String,
    pub value: AttrValue,
}

/// The closed set of attribute value kinds.
pub enum AttrValue {
    /// A text-renderable scalar.
    Scalar(String),
    /// A timestamp, counted in seconds relative to an epoch.
    Time(i64),
    /// An ordered list of child attributes.
    Nested(Vec<Attribute>),
    /// An aggregate that exposes its fields as an attribute list.
    Reflect(Vec<Attribute>),
    /// A lazily openable byte-content capability.
    File(FileHandle),
}

/// Lazy byte content: a declared size and a source that opens to a byte
/// stream or fails.  The declared size is authoritative for how many bytes a
/// whole-file scan reads, and may disagree with what the source delivers.
pub struct FileHandle {
    /// Declared byte length.
    pub size: usize,
    /// What opening the handle yields.
    pub source: FileSource,
}

/// The outcome of opening a file handle.
pub enum FileSource {
    /// The content, delivered as a byte stream.
    Bytes(Vec<u8>),
    /// Opening fails; content search treats the node as a non-match.
    Unavailable,
}

/// One element of the tree: a name, an optional parent id, and an ordered
/// attribute list.
pub struct Node {
    pub name: String,
    pub parent: Option<usize>,
    pub attributes: Vec<Attribute>,
}

/// The arena of nodes.  A node id is an index into `nodes`.
pub struct Tree {
    pub nodes: Vec<Node>,
}

/// The first node at or after `from` whose parent and name both match, if
/// any: path resolution picks the earliest sibling with the wanted name.
pub open spec fn first_child_from(
    nodes: Seq<Node>,
    parent: Option<usize>,
    name: Seq<char>,
    from: int,
) -> Option<usize>
    decreases nodes.len() - from,
{
    if from < 0 || from >= nodes.len() {
        Option::None
    } else if nodes[from].parent == parent && nodes[from].name@ == name {
        Option::Some(from as usize)
    } else {
        first_child_from(nodes, parent, name, from + 1)
    }
}

/// Walks the path segments starting below `cur` (`None` stands for the
/// arena's root level) and returns the resolved node id, if every segment
/// resolves.
pub open spec fn resolve_from(
    nodes: Seq<Node>,
    cur: Option<usize>,
    path: Seq<String>,
    k: int,
) -> Option<usize>
    decreases path.len() - k,
{
    if k < 0 || k >= path.len() {
        Option::None
    } else {
        match first_child_from(nodes, cur, path[k]@, 0) {
            Option::None => Option::None,
            Option::Some(c) => if k == path.len() - 1 {
                Option::Some(c)
            } else {
                resolve_from(nodes, Option::Some(c), path, k + 1)
            },
        }
    }
}

/// The node a path names, if it resolves.  An empty path names no node.
pub open spec fn resolve_path(nodes: Seq<Node>, path: Seq<String>) -> Option<usize> {
    resolve_from(nodes, Option::None, path, 0)
}

/// Whether `anc` lies on the parent chain of `id` (a node counts as its own
/// ancestor).
pub open spec fn is_under(nodes: Seq<Node>, id: int, anc: int) -> bool
    decreases id,
{
    if id == anc {
        true
    } else if 0 <= id < nodes.len() {
        match nodes[id].parent {
            Option::Some(p) => if p < id {
                is_under(nodes, p as int, anc)
            } else {
                false
            },
            Option::None => false,
        }
    } else {
        false
    }
}

/// Equality on optional ids.
fn opt_id_eq(a: &Option<usize>, b: &Option<usize>) -> (r: bool)
    ensures
        r == (*a == *b),
{
    match (a, b) {
        (Option::None, Option::None) => true,
        (Option::Some(x), Option::Some(y)) => *x == *y,
        _ => false,
    }
}

impl Tree {
    /// Well-formed arena: every parent stands earlier than its child, so
    /// parent chains terminate.
    pub open spec fn wf(self) -> bool {
        forall|i: int|
            0 <= i < self.nodes@.len() ==> (#[trigger] self.nodes@[i].parent matches Option::Some(
                p,
            ) ==> p < i)
    }

    /// Borrows the node with the given id, or nothing for an id outside the
    /// arena.
    pub fn get_node_from_id(&self, id: usize) -> (r: Option<&Node>)
        ensures
            r is Some <==> id < self.nodes@.len(),
            r matches Some(n) ==> *n == self.nodes@[id as int],
    {
        if id < self.nodes.len() {
            Some(&self.nodes[id])
        } else {
            None
        }
    }

    /// Whether `anc` lies on the parent chain of `id`.
    fn id_is_under(&self, id: usize, anc: usize) -> (r: bool)
        requires
            self.wf(),
            id < self.nodes@.len(),
        ensures
            r == is_under(self.nodes@, id as int, anc as int),
    {
        let mut cur: usize = id;
        loop
            invariant
                self.wf(),
                cur < self.nodes@.len() || cur == anc,
                is_under(self.nodes@, id as int, anc as int) == is_under(
                    self.nodes@,
                    cur as int,
                    anc as int,
                ),
            decreases cur,
        {
            if cur == anc {
                return true;
            }
            match &self.nodes[cur].parent {
                Option::None => {
                    return false;
                },
                Option::Some(p) => {
                    assert(*p < cur);
                    cur = *p;
                },
            }
        }
    }

    /// The candidate node set of a query scope: every id in the arena, or,
    /// for a path, the resolved node and all its descendants.  Fails exactly
    /// when the path does not resolve.
    pub fn children_rec(&self, path: Option<&Vec<String>>) -> (r: Option<Vec<usize>>)
        requires
            self.wf(),
        ensures
            path is None ==> r is Some,
            path matches Some(p) ==> ((r is Some) <==> resolve_path(self.nodes@, p@) is Some),
            r matches Some(ids) ==> strictly_sorted(ids@),
            path is None ==> (r matches Some(ids) && (forall|x: usize|
                #[trigger] ids@.contains(x) <==> x < self.nodes@.len())),
            path matches Some(p) ==> (resolve_path(self.nodes@, p@) matches Some(t) ==> (
            r matches Some(ids) && (forall|x: usize|
                #[trigger] ids@.contains(x) <==> x < self.nodes@.len() && is_under(
                    self.nodes@,
                    x as int,
                    t as int,
                )))),
    {
        let scope: Option<usize> = match path {
            None => None,
            Some(p) => {
                match self.resolve(p) {
                    None => {
                        return None;
                    },
                    Some(t) => Some(t),
                }
            },
        };
        let mut ids: Vec<usize> = Vec::new();
        let mut i: usize = 0;
        while i < self.nodes.len()
            invariant
                self.wf(),
                i <= self.nodes@.len(),
                scope matches Some(t) ==> t < self.nodes@.len(),
                forall|q: int| 0 <= q < ids@.len() ==> ids@[q] < i,
                strictly_sorted(ids@),
                forall|x: usize| #[trigger] ids@.contains(x) <==> x < i && (scope matches Some(t)
                    ==> is_under(self.nodes@, x as int, t as int)),
            decreases self.nodes@.len() - i,
        {
            let keep = match scope {
                None => true,
                Some(t) => self.id_is_under(i, t),
            };
            let ghost before = ids@;
            if keep {
                ids.push(i);
            }
            proof {
                if keep {
                    assert forall|x: usize| #[trigger] ids@.contains(x) implies before.contains(x)
                        || x == i by {
                        let k = choose|k: int| 0 <= k < ids@.len() && #[trigger] ids@[k] == x;
                        if k < before.len() {
                            assert(before[k] == x);
                        }
                    }
                    assert(forall|k: int| 0 <= k < before.len() ==> ids@[k] == before[k]);
                    assert(ids@[before.len() as int] == i);
                    assert forall|x: usize| before.contains(x) || x == i implies
                        #[trigger] ids@.contains(x) by {
                        if x == i {
                            assert(ids@[before.len() as int] == i);
                        } else {
                            let k = choose|k: int| 0 <= k < before.len() && #[trigger] before[k]
                                == x;
                            assert(ids@[k] == x);
                        }
                    }
                }
            }
            i += 1;
        }
        Some(ids)
    }

    /// Resolves a path of node names, each segment naming the earliest child
    /// of the node reached so far.
    fn resolve(&self, path: &Vec<String>) -> (r: Option<usize>)
        ensures
            r == resolve_path(self.nodes@, path@),
            r matches Some(t) ==> t < self.nodes@.len(),
    {
        if path.len() == 0 {
            return None;
        }
        let mut cur: Option<usize> = None;
        let mut k: usize = 0;
        loop
            invariant
                k < path@.len(),
                cur matches Some(c) ==> c < self.nodes@.len(),
                resolve_path(self.nodes@, path@) == resolve_from(self.nodes@, cur, path@, k as int),
            decreases path@.len() - k,
        {
            let c = match self.first_child(&cur, &path[k]) {
                None => {
                    return None;
                },
                Some(c) => c,
            };
            if k == path.len() - 1 {
                return Some(c);
            }
            cur = Some(c);
            k += 1;
        }
    }

    /// The earliest node whose parent and name both match, if any.
    fn first_child(&self, parent: &Option<usize>, name: &String) -> (r: Option<usize>)
        ensures
            r == first_child_from(self.nodes@, *parent, name@, 0),
            r matches Some(c) ==> c < self.nodes@.len(),
    {
        let mut j: usize = 0;
        while j < self.nodes.len()
            invariant
                j <= self.nodes@.len(),
                first_child_from(self.nodes@, *parent, name@, 0) == first_child_from(
                    self.nodes@,
                    *parent,
                    name@,
                    j as int,
                ),
            decreases self.nodes@.len() - j,
        {
            if opt_id_eq(&self.nodes[j].parent, parent) && self.nodes[j].name == *name {
                return Some(j);
            }
            j += 1;
        }
        None
    }
}

} // verus!
