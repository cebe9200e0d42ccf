//! Relative paths, as lists of segments, and sets of them.

use vstd::prelude::*;
use vstd::string::*;
use crate::text::{same_text, texts};

verus! {

/// A path below the target directory: its segments, outermost first. The
/// empty path is the target directory itself.
pub type Path = Seq<Seq<char>>;

/// A finite set of paths that exist.
pub struct PathSet {
    pub paths: Vec<Vec<String>>,
}

impl View for PathSet {
    type V = Set<Path>;

    open spec fn view(&self) -> Set<Path> {
        Set::new(|p: Path| exists|i: int| 0 <= i < self.paths@.len() && texts(#[trigger] self.paths@[i]@) == p)
    }
}

/// Whether two paths have the same segments.
pub fn same_path(a: &Vec<String>, b: &Vec<String>) -> (r: bool)
    ensures
        r == (texts(a@) == texts(b@)),
{
    if a.len() != b.len() {
        assert(texts(a@).len() != texts(b@).len());
        return false;
    }
    let mut i: usize = 0;
    while i < a.len()
        invariant
            i <= a.len(),
            a.len() == b.len(),
            forall|j: int| 0 <= j < i ==> a@[j]@ == b@[j]@,
        decreases a.len() - i,
    {
        if !same_text(a[i].as_str(), b[i].as_str()) {
            assert(texts(a@)[i as int] != texts(b@)[i as int]);
            return false;
        }
        i += 1;
    }
    assert(texts(a@) =~= texts(b@));
    true
}

/// A copy of `parent` with `name` appended.
pub fn child_path(parent: &Vec<String>, name: &String) -> (r: Vec<String>)
    ensures
        texts(r@) == texts(parent@).push(name@),
{
    let mut out: Vec<String> = Vec::new();
    let mut i: usize = 0;
    while i < parent.len()
        invariant
            i <= parent.len(),
            out@.len() == i,
            forall|j: int| 0 <= j < i ==> out@[j]@ == parent@[j]@,
        decreases parent.len() - i,
    {
        out.push(parent[i].clone());
        i += 1;
    }
    out.push(name.clone());
    assert(texts(out@) =~= texts(parent@).push(name@));
    out
}

impl PathSet {
    /// The empty set.
    pub fn new() -> (r: PathSet)
        ensures
            r@ == Set::<Path>::empty(),
    {
        let r = PathSet { paths: Vec::new() };
        assert(r@ =~= Set::<Path>::empty());
        r
    }

    /// Whether `path` is in the set.
    pub fn contains(&self, path: &Vec<String>) -> (r: bool)
        ensures
            r == self@.contains(texts(path@)),
    {
        let mut i: usize = 0;
        while i < self.paths.len()
            invariant
                i <= self.paths.len(),
                forall|j: int| 0 <= j < i ==> texts(#[trigger] self.paths@[j]@) != texts(path@),
            decreases self.paths.len() - i,
        {
            if same_path(&self.paths[i], path) {
                return true;
            }
            i += 1;
        }
        false
    }

    /// Adds `path` to the set.
    pub fn insert(&mut self, path: Vec<String>)
        ensures
            final(self)@ == old(self)@.insert(texts(path@)),
    {
        let ghost before = self.paths@;
        let ghost added = texts(path@);
        self.paths.push(path);
        proof {
            assert forall|p: Path| self@.contains(p) == old(self)@.insert(added).contains(p) by {
                if old(self)@.contains(p) {
                    let i = choose|i: int| 0 <= i < before.len() && texts(#[trigger] before[i]@) == p;
                    assert(texts(self.paths@[i]@) == p);
                }
                if p == added {
                    assert(texts(self.paths@[before.len() as int]@) == p);
                }
                if self@.contains(p) {
                    let i = choose|i: int|
                        0 <= i < self.paths@.len() && texts(#[trigger] self.paths@[i]@) == p;
                    if i < before.len() {
                        assert(texts(before[i]@) == p);
                    }
                }
            }
            assert(self@ =~= old(self)@.insert(added));
        }
    }
}

/// The segments written one after the other with a slash between them.
pub open spec fn joined(path: Path) -> Seq<char>
    decreases path.len(),
{
    if path.len() == 0 {
        Seq::empty()
    } else if path.len() == 1 {
        path[0]
    } else {
        joined(path.drop_last()) + "/"@ + path.last()
    }
}

/// Writes a path as text, with a slash between its segments.
pub fn join_path(path: &Vec<String>) -> (r: String)
    ensures
        r@ == joined(texts(path@)),
{
    let mut out = String::new();
    let mut i: usize = 0;
    while i < path.len()
        invariant
            i <= path.len(),
            out@ == joined(texts(path@).take(i as int)),
        decreases path.len() - i,
    {
        proof {
            let longer = texts(path@).take(i + 1);
            assert(longer.drop_last() =~= texts(path@).take(i as int));
            assert(longer.last() == path@[i as int]@);
            if i == 0 {
                assert(out@ + path@[0]@ =~= path@[0]@);
            }
        }
        if i > 0 {
            out.append("/");
        }
        out.append(path[i].as_str());
        i += 1;
    }
    assert(texts(path@).take(path@.len() as int) =~= texts(path@));
    out
}

} // verus!
