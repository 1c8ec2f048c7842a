use vstd::prelude::*;

verus! {

/// What a name in a directory leads to: another directory (by its index) or a leaf value.
#[derive(Clone, Copy, Debug, PartialEq, Eq, Structural)]
pub enum DirectoryEntry {
    Dir(usize),
    Leaf(u64),
}

/// One named entry of a directory; names are interned file names.
#[derive(Clone, Copy, Debug, PartialEq, Eq, Structural)]
pub struct Child {
    pub name: u64,
    pub entry: DirectoryEntry,
}

/// A tree of directories held as a table: directory `n` is the list of its entries.
#[derive(Debug)]
pub struct Directory {
    pub nodes: Vec<Vec<Child>>,
}

impl View for Directory {
    type V = Seq<Seq<Child>>;

    open spec fn view(&self) -> Seq<Seq<Child>> {
        self.nodes@.map_values(|c: Vec<Child>| c@)
    }
}

#[derive(Debug, PartialEq, Eq)]
pub enum DirectoryFindError {
    /// The path has no component.
    EmptyPath,
    /// The path goes on below a leaf; `path` runs from the root to the first component
    /// under the leaf.
    CannotTraverseLeaf { path: Vec<u64> },
}

/// The entry named `name` among `children` (the last one, should a name repeat).
pub open spec fn entry_named(children: Seq<Child>, name: u64) -> Option<DirectoryEntry>
    decreases children.len(),
{
    if children.len() == 0 {
        None
    } else if children.last().name == name {
        Some(children.last().entry)
    } else {
        entry_named(children.drop_last(), name)
    }
}

/// Where a walk down a path ends.
pub enum Walk {
    /// Some component names nothing.
    Missing,
    /// The last component names this entry.
    Found(DirectoryEntry),
    /// Component `at` names a leaf, and the path goes on after it.
    Blocked(u64, nat),
}

/// The walk of `path` from component `i` on, starting in directory `n`.
pub open spec fn walk(d: Seq<Seq<Child>>, n: usize, path: Seq<u64>, i: nat) -> Walk
    decreases path.len() - i,
{
    if i >= path.len() || n >= d.len() {
        Walk::Missing
    } else {
        match entry_named(d[n as int], path[i as int]) {
            None => Walk::Missing,
            Some(e) => if i + 1 == path.len() {
                Walk::Found(e)
            } else {
                match e {
                    DirectoryEntry::Dir(c) => walk(d, c, path, i + 1),
                    DirectoryEntry::Leaf(v) => Walk::Blocked(v, i),
                }
            },
        }
    }
}

fn lookup_name(children: &Vec<Child>, name: u64) -> (r: Option<DirectoryEntry>)
    ensures
        r == entry_named(children@, name),
{
    let mut i: usize = children.len();
    proof {
        assert(children@.take(i as int) =~= children@);
    }
    while i > 0
        invariant
            i <= children.len(),
            entry_named(children@, name) == entry_named(children@.take(i as int), name),
        decreases i,
    {
        let c = children[i - 1];
        proof {
            assert(children@.take(i as int).drop_last() =~= children@.take(i - 1));
        }
        if c.name == name {
            return Some(c.entry);
        }
        i = i - 1;
    }
    proof {
        assert(children@.take(0) =~= Seq::<Child>::empty());
    }
    None
}

impl Directory {
    /// Runs the walk of a non-empty `path` from directory `root`.
    fn walk_from(&self, root: usize, path: &Vec<u64>) -> (r: (Option<DirectoryEntry>, Option<(u64, usize)>))
        requires
            path@.len() > 0,
        ensures
            match walk(self@, root, path@, 0) {
                Walk::Missing => r == (None::<DirectoryEntry>, None::<(u64, usize)>),
                Walk::Found(e) => r == (Some(e), None::<(u64, usize)>),
                Walk::Blocked(v, i) => r.0 is None && r.1 == Some((v, i as usize)) && i + 1 < path@.len(),
            },
    {
        let mut n: usize = root;
        let mut i: usize = 0;
        while i < path.len()
            invariant
                i < path@.len(),
                walk(self@, root, path@, 0) == walk(self@, n, path@, i as nat),
            decreases path.len() - i,
        {
            if n >= self.nodes.len() {
                return (None, None);
            }
            proof {
                assert(self@[n as int] == self.nodes@[n as int]@);
            }
            match lookup_name(&self.nodes[n], path[i]) {
                None => {
                    return (None, None);
                },
                Some(e) => {
                    if i + 1 == path.len() {
                        return (Some(e), None);
                    }
                    match e {
                        DirectoryEntry::Dir(c) => {
                            n = c;
                            i = i + 1;
                        },
                        DirectoryEntry::Leaf(v) => {
                            return (None, Some((v, i)));
                        },
                    }
                },
            }
        }
        (None, None)
    }

    /// The entry that `path` names below directory `root`. A path that goes on below a leaf
    /// is an error naming the path up to the component after the leaf.
    pub fn find(&self, root: usize, path: &Vec<u64>) -> (r: Result<Option<DirectoryEntry>, DirectoryFindError>)
        ensures
            path@.len() == 0 ==> r == Err::<Option<DirectoryEntry>, DirectoryFindError>(
                DirectoryFindError::EmptyPath,
            ),
            path@.len() > 0 ==> match walk(self@, root, path@, 0) {
                Walk::Missing => r == Ok::<Option<DirectoryEntry>, DirectoryFindError>(None),
                Walk::Found(e) => r == Ok::<Option<DirectoryEntry>, DirectoryFindError>(Some(e)),
                Walk::Blocked(_, i) => r is Err && r->Err_0 is CannotTraverseLeaf
                    && r->Err_0->CannotTraverseLeaf_path@ == path@.take(i + 2 as int),
            },
    {
        if path.len() == 0 {
            return Err(DirectoryFindError::EmptyPath);
        }
        match self.walk_from(root, path) {
            (_, Some((_, i))) => {
                proof {
                    assert(i + 2 <= path@.len()) by {
                        match walk(self@, root, path@, 0) {
                            Walk::Blocked(_, k) => assert(k as usize == i),
                            _ => {},
                        }
                    }
                }
                let mut p: Vec<u64> = Vec::new();
                let mut j: usize = 0;
                let end: usize = i + 2;
                while j < end
                    invariant
                        end == i + 2,
                        end <= path@.len(),
                        j <= end,
                        p@ == path@.take(j as int),
                    decreases end - j,
                {
                    p.push(path[j]);
                    j = j + 1;
                    assert(p@ =~= path@.take(j as int));
                }
                Err(DirectoryFindError::CannotTraverseLeaf { path: p })
            },
            (e, None) => Ok(e),
        }
    }

    /// Like `find`, but a path that goes on below a leaf gives that leaf together with the
    /// rest of the path below it.
    pub fn find_prefix(&self, root: usize, path: &Vec<u64>) -> (r: Result<Option<(DirectoryEntry, Option<Vec<u64>>)>, DirectoryFindError>)
        ensures
            path@.len() == 0 ==> r is Err && r->Err_0 == DirectoryFindError::EmptyPath,
            path@.len() > 0 ==> r is Ok && match walk(self@, root, path@, 0) {
                Walk::Missing => r->Ok_0 is None,
                Walk::Found(e) => r->Ok_0 is Some && r->Ok_0->Some_0.0 == e && r->Ok_0->Some_0.1 is None,
                Walk::Blocked(v, i) => r->Ok_0 is Some && r->Ok_0->Some_0.0 == DirectoryEntry::Leaf(v)
                    && r->Ok_0->Some_0.1 is Some && r->Ok_0->Some_0.1->Some_0@ == path@.skip(i + 1 as int),
            },
    {
        if path.len() == 0 {
            return Err(DirectoryFindError::EmptyPath);
        }
        match self.walk_from(root, path) {
            (_, Some((v, i))) => {
                let mut rest: Vec<u64> = Vec::new();
                let mut j: usize = i + 1;
                while j < path.len()
                    invariant
                        i + 1 <= j <= path@.len(),
                        rest@ == path@.subrange(i + 1, j as int),
                    decreases path.len() - j,
                {
                    rest.push(path[j]);
                    j = j + 1;
                    assert(rest@ =~= path@.subrange(i + 1, j as int));
                }
                assert(rest@ =~= path@.skip(i + 1));
                Ok(Some((DirectoryEntry::Leaf(v), Some(rest))))
            },
            (Some(e), None) => Ok(Some((e, None))),
            (None, None) => Ok(None),
        }
    }
}

} // verus!
