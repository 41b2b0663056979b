//! The canonical configuration tree: the common representation every
//! supported format parses into and serializes from.

use vstd::prelude::*;

verus! {

broadcast use vstd::std_specs::vec::group_vec_axioms;

/// Mathematical model of a canonical configuration value.
///
/// Objects keep their keys in insertion order; keys and scalar texts are
/// byte sequences (UTF-8 at the boundaries of the crate). Numbers carry
/// their decimal text, so no precision is lost in the model.
pub enum TreeV {
    Null,
    Bool(bool),
    Num(Seq<u8>),
    Str(Seq<u8>),
    Arr(Seq<TreeV>),
    Obj(Seq<(Seq<u8>, TreeV)>),
}

/// Executable canonical configuration value. `Obj` entries are ordered;
/// well-formed objects have pairwise distinct keys (see `TreeV::wf`).
pub enum Tree {
    Null,
    Bool(bool),
    Num(Vec<u8>),
    Str(Vec<u8>),
    Arr(Vec<Tree>),
    Obj(Vec<(Vec<u8>, Tree)>),
}

impl Tree {
    /// The abstraction of an executable tree.
    pub open spec fn view(&self) -> TreeV
        decreases self,
    {
        match self {
            Tree::Null => TreeV::Null,
            Tree::Bool(b) => TreeV::Bool(*b),
            Tree::Num(n) => TreeV::Num(n@),
            Tree::Str(s) => TreeV::Str(s@),
            Tree::Arr(items) => {
                proof {
                    assert(decreases_to!(*self => self->Arr_0));
                    assert(decreases_to!(self->Arr_0 => self->Arr_0@));
                }
                TreeV::Arr(views_of_trees(items@))
            },
            Tree::Obj(entries) => {
                proof {
                    assert(decreases_to!(*self => self->Obj_0));
                    assert(decreases_to!(self->Obj_0 => self->Obj_0@));
                }
                TreeV::Obj(views_of_entries(entries@))
            },
        }
    }
}

/// The views of a sequence of trees, element by element.
pub open spec fn views_of_trees(s: Seq<Tree>) -> Seq<TreeV>
    decreases s,
{
    if s.len() == 0 {
        Seq::empty()
    } else {
        seq![s[0].view()] + views_of_trees(s.drop_first())
    }
}

/// The views of a sequence of object entries, element by element.
pub open spec fn views_of_entries(s: Seq<(Vec<u8>, Tree)>) -> Seq<(Seq<u8>, TreeV)>
    decreases s,
{
    if s.len() == 0 {
        Seq::empty()
    } else {
        proof {
            assert(decreases_to!(s => s[0]));
            assert(decreases_to!(s[0] => s[0].1));
        }
        seq![(s[0].0@, s[0].1.view())] + views_of_entries(s.drop_first())
    }
}

/// `views_of_trees` indexes pointwise.
pub proof fn lemma_views_of_trees(s: Seq<Tree>)
    ensures
        views_of_trees(s).len() == s.len(),
        forall|i: int| 0 <= i < s.len() ==> #[trigger] views_of_trees(s)[i] == s[i]@,
    decreases s,
{
    if s.len() > 0 {
        lemma_views_of_trees(s.drop_first());
    }
}

/// `views_of_entries` indexes pointwise.
pub proof fn lemma_views_of_entries(s: Seq<(Vec<u8>, Tree)>)
    ensures
        views_of_entries(s).len() == s.len(),
        forall|i: int| 0 <= i < s.len() ==> #[trigger] views_of_entries(s)[i]
            == (s[i].0@, s[i].1@),
    decreases s,
{
    if s.len() > 0 {
        lemma_views_of_entries(s.drop_first());
    }
}

impl TreeV {
    /// Whether an object entry sequence binds a key.
    pub open spec fn obj_contains_key(entries: Seq<(Seq<u8>, TreeV)>, key: Seq<u8>) -> bool {
        exists|i: int| 0 <= i < entries.len() && entries[i].0 == key
    }

    /// The value an object entry sequence binds a key to; arbitrary if unbound.
    pub open spec fn obj_index(entries: Seq<(Seq<u8>, TreeV)>, key: Seq<u8>) -> TreeV {
        let i = choose|i: int| 0 <= i < entries.len() && entries[i].0 == key;
        entries[i].1
    }

    /// Well-formedness: every object along the tree has pairwise distinct keys.
    pub open spec fn wf(self) -> bool
        decreases self,
    {
        match self {
            TreeV::Arr(items) => forall|i: int| 0 <= i < items.len() ==> (#[trigger] items[i]).wf(),
            TreeV::Obj(entries) => entries_ok(entries),
            _ => true,
        }
    }
}

/// Distinctness of keys in an object entry sequence.
pub open spec fn distinct_keys(es: Seq<(Seq<u8>, TreeV)>) -> bool {
    forall|i: int, j: int| 0 <= i < j < es.len() ==> es[i].0 != es[j].0
}

/// A valid object entry sequence: distinct keys, well-formed values.
pub open spec fn entries_ok(es: Seq<(Seq<u8>, TreeV)>) -> bool
    decreases es,
{
    &&& distinct_keys(es)
    &&& forall|i: int| 0 <= i < es.len() ==> (#[trigger] es[i].1).wf()
}

/// Byte-vector equality, decided executably.
pub fn bytes_eq(a: &[u8], b: &[u8]) -> (r: bool)
    ensures
        r <==> a@ == b@,
{
    if a.len() != b.len() {
        assert(a@.len() != b@.len());
        return false;
    }
    let mut i: usize = 0;
    while i < a.len()
        invariant
            0 <= i <= a@.len(),
            a@.len() == b@.len(),
            forall|j: int| 0 <= j < i ==> a@[j] == b@[j],
        decreases a@.len() - i,
    {
        if a[i] != b[i] {
            return false;
        }
        i += 1;
    }
    assert(a@ =~= b@);
    true
}

impl Tree {
    /// Structural equality with the model's equality as its meaning.
    pub fn tree_eq(&self, other: &Tree) -> (r: bool)
        ensures
            r <==> self@ == other@,
        decreases self,
    {
        match (self, other) {
            (Tree::Null, Tree::Null) => true,
            (Tree::Bool(a), Tree::Bool(b)) => a == b,
            (Tree::Num(a), Tree::Num(b)) => bytes_eq(a.as_slice(), b.as_slice()),
            (Tree::Str(a), Tree::Str(b)) => bytes_eq(a.as_slice(), b.as_slice()),
            (Tree::Arr(xs), Tree::Arr(ys)) => {
                proof {
                    lemma_views_of_trees(xs@);
                    lemma_views_of_trees(ys@);
                }
                if xs.len() != ys.len() {
                    assert(self@->Arr_0.len() != other@->Arr_0.len());
                    return false;
                }
                let mut i: usize = 0;
                while i < xs.len()
                    invariant
                        0 <= i <= xs@.len(),
                        xs@.len() == ys@.len(),
                        *self == Tree::Arr(*xs),
                        *other == Tree::Arr(*ys),
                        forall|j: int| 0 <= j < i ==> #[trigger] xs@[j]@ == ys@[j]@,
                    decreases xs@.len() - i,
                {
                    proof {
                        assert(decreases_to!(*self => self->Arr_0));
                        assert(self->Arr_0 == *xs);
                        assert(decreases_to!(*xs => xs[i as int]));
                        assert(decreases_to!(*self => xs[i as int]));
                    }
                    if !xs[i].tree_eq(&ys[i]) {
                        proof {
                            lemma_views_of_trees(xs@);
                            lemma_views_of_trees(ys@);
                            assert(self@->Arr_0[i as int] != other@->Arr_0[i as int]);
                        }
                        return false;
                    }
                    i += 1;
                }
                proof {
                    lemma_views_of_trees(xs@);
                    lemma_views_of_trees(ys@);
                    assert(self@->Arr_0 =~= other@->Arr_0);
                }
                true
            },
            (Tree::Obj(xs), Tree::Obj(ys)) => {
                if xs.len() != ys.len() {
                    proof {
                        lemma_views_of_entries(xs@);
                        lemma_views_of_entries(ys@);
                        assert(self@->Obj_0.len() != other@->Obj_0.len());
                    }
                    return false;
                }
                let mut i: usize = 0;
                while i < xs.len()
                    invariant
                        0 <= i <= xs@.len(),
                        xs@.len() == ys@.len(),
                        *self == Tree::Obj(*xs),
                        *other == Tree::Obj(*ys),
                        forall|j: int| 0 <= j < i ==> (#[trigger] xs@[j]).0@ == ys@[j].0@,
                        forall|j: int| 0 <= j < i ==> (#[trigger] xs@[j]).1@ == ys@[j].1@,
                    decreases xs@.len() - i,
                {
                    if !bytes_eq(xs[i].0.as_slice(), ys[i].0.as_slice()) {
                        proof {
                            lemma_views_of_entries(xs@);
                            lemma_views_of_entries(ys@);
                            assert(self@->Obj_0[i as int].0 != other@->Obj_0[i as int].0);
                        }
                        return false;
                    }
                    proof {
                        assert(decreases_to!(*self => self->Obj_0));
                        assert(self->Obj_0 == *xs);
                        assert(decreases_to!(*xs => xs[i as int]));
                        assert(decreases_to!(xs[i as int] => xs[i as int].1));
                        assert(decreases_to!(*self => xs[i as int].1));
                    }
                    if !xs[i].1.tree_eq(&ys[i].1) {
                        proof {
                            lemma_views_of_entries(xs@);
                            lemma_views_of_entries(ys@);
                            assert(self@->Obj_0[i as int].1 != other@->Obj_0[i as int].1);
                        }
                        return false;
                    }
                    i += 1;
                }
                proof {
                    lemma_views_of_entries(xs@);
                    lemma_views_of_entries(ys@);
                    assert(self@->Obj_0 =~= other@->Obj_0);
                }
                true
            },
            _ => {
                false
            },
        }
    }
}

impl Tree {
    /// A deep copy whose abstraction equals the original's.
    pub fn tree_clone(&self) -> (r: Tree)
        ensures
            r@ == self@,
        decreases self,
    {
        match self {
            Tree::Null => Tree::Null,
            Tree::Bool(b) => Tree::Bool(*b),
            Tree::Num(n) => Tree::Num(clone_bytes(n)),
            Tree::Str(s) => Tree::Str(clone_bytes(s)),
            Tree::Arr(xs) => {
                let mut items: Vec<Tree> = Vec::new();
                let mut i: usize = 0;
                while i < xs.len()
                    invariant
                        0 <= i <= xs@.len(),
                        *self == Tree::Arr(*xs),
                        items@.len() == i,
                        forall|j: int| 0 <= j < i ==> #[trigger] items@[j]@ == xs@[j]@,
                    decreases xs@.len() - i,
                {
                    proof {
                        assert(decreases_to!(*self => self->Arr_0));
                        assert(self->Arr_0 == *xs);
                        assert(decreases_to!(*xs => xs[i as int]));
                        assert(decreases_to!(*self => xs[i as int]));
                    }
                    let c = xs[i].tree_clone();
                    items.push(c);
                    i += 1;
                }
                proof {
                    lemma_views_of_trees(xs@);
                    lemma_views_of_trees(items@);
                    assert(views_of_trees(items@) =~= views_of_trees(xs@));
                }
                Tree::Arr(items)
            },
            Tree::Obj(xs) => {
                let mut entries: Vec<(Vec<u8>, Tree)> = Vec::new();
                let mut i: usize = 0;
                while i < xs.len()
                    invariant
                        0 <= i <= xs@.len(),
                        *self == Tree::Obj(*xs),
                        entries@.len() == i,
                        forall|j: int| 0 <= j < i ==> #[trigger] entries@[j].0@ == xs@[j].0@
                            && #[trigger] entries@[j].1@ == xs@[j].1@,
                    decreases xs@.len() - i,
                {
                    proof {
                        assert(decreases_to!(*self => self->Obj_0));
                        assert(self->Obj_0 == *xs);
                        assert(decreases_to!(*xs => xs[i as int]));
                        assert(decreases_to!(xs[i as int] => xs[i as int].1));
                        assert(decreases_to!(*self => xs[i as int].1));
                    }
                    let k = clone_bytes(&xs[i].0);
                    let v = xs[i].1.tree_clone();
                    entries.push((k, v));
                    i += 1;
                }
                proof {
                    lemma_views_of_entries(xs@);
                    lemma_views_of_entries(entries@);
                    assert(views_of_entries(entries@) =~= views_of_entries(xs@));
                }
                Tree::Obj(entries)
            },
        }
    }
}

impl Tree {
    /// Decides well-formedness: every object along the tree has pairwise
    /// distinct keys.
    pub fn check_wf(&self) -> (r: bool)
        ensures
            r == self@.wf(),
        decreases self,
    {
        match self {
            Tree::Null => true,
            Tree::Bool(_) => true,
            Tree::Num(_) => true,
            Tree::Str(_) => true,
            Tree::Arr(xs) => {
                proof {
                    lemma_views_of_trees(xs@);
                }
                let mut i: usize = 0;
                while i < xs.len()
                    invariant
                        0 <= i <= xs@.len(),
                        *self == Tree::Arr(*xs),
                        forall|j: int| 0 <= j < i ==> (#[trigger] xs@[j]@).wf(),
                    decreases xs@.len() - i,
                {
                    proof {
                        assert(decreases_to!(*self => self->Arr_0));
                        assert(self->Arr_0 == *xs);
                        assert(decreases_to!(*xs => xs[i as int]));
                        assert(decreases_to!(*self => xs[i as int]));
                    }
                    if !xs[i].check_wf() {
                        proof {
                            lemma_views_of_trees(xs@);
                            assert(self@->Arr_0[i as int] == xs@[i as int]@);
                            if self@.wf() {
                                assert((self@->Arr_0[i as int]).wf());
                            }
                        }
                        return false;
                    }
                    i += 1;
                }
                proof {
                    lemma_views_of_trees(xs@);
                    assert forall|j: int| 0 <= j < self@->Arr_0.len() implies (
                    #[trigger] self@->Arr_0[j]).wf() by {
                        assert(self@->Arr_0[j] == xs@[j]@);
                    }
                }
                true
            },
            Tree::Obj(xs) => {
                proof {
                    lemma_views_of_entries(xs@);
                }
                let mut i: usize = 0;
                while i < xs.len()
                    invariant
                        0 <= i <= xs@.len(),
                        *self == Tree::Obj(*xs),
                        forall|j: int| 0 <= j < i ==> (#[trigger] xs@[j].1@).wf(),
                        forall|j1: int, j2: int|
                            0 <= j1 < j2 <= i - 1 ==> xs@[j1].0@ != xs@[j2].0@,
                    decreases xs@.len() - i,
                {
                    let mut j: usize = 0;
                    while j < i
                        invariant
                            0 <= j <= i < xs@.len(),
                            *self == Tree::Obj(*xs),
                            forall|j1: int| 0 <= j1 < j ==> xs@[j1].0@ != xs@[i as int].0@,
                        decreases i - j,
                    {
                        if bytes_eq(xs[j].0.as_slice(), xs[i].0.as_slice()) {
                            proof {
                                lemma_views_of_entries(xs@);
                                assert(views_of_entries(xs@)[j as int].0 == views_of_entries(
                                    xs@,
                                )[i as int].0);
                                assert(!entries_ok(views_of_entries(xs@)));
                            }
                            return false;
                        }
                        j += 1;
                    }
                    proof {
                        assert(decreases_to!(*self => self->Obj_0));
                        assert(self->Obj_0 == *xs);
                        assert(decreases_to!(*xs => xs[i as int]));
                        assert(decreases_to!(xs[i as int] => xs[i as int].1));
                        assert(decreases_to!(*self => xs[i as int].1));
                    }
                    if !xs[i].1.check_wf() {
                        proof {
                            lemma_views_of_entries(xs@);
                            assert(views_of_entries(xs@)[i as int].1 == xs@[i as int].1@);
                            assert(!entries_ok(views_of_entries(xs@)));
                        }
                        return false;
                    }
                    i += 1;
                }
                proof {
                    lemma_views_of_entries(xs@);
                    let evs = views_of_entries(xs@);
                    assert forall|j: int| 0 <= j < evs.len() implies (#[trigger] evs[j].1).wf() by {
                        assert(evs[j].1 == xs@[j].1@);
                    }
                    assert forall|j1: int, j2: int|
                        0 <= j1 < j2 < evs.len() implies evs[j1].0 != evs[j2].0 by {
                        assert(evs[j1].0 == xs@[j1].0@ && evs[j2].0 == xs@[j2].0@);
                    }
                    assert(entries_ok(evs));
                }
                true
            },
        }
    }
}

/// A copy of a tree vector, element views kept.
pub fn clone_trees(xs: &Vec<Tree>) -> (r: Vec<Tree>)
    ensures
        views_of_trees(r@) == views_of_trees(xs@),
{
    proof {
        lemma_views_of_trees(xs@);
    }
    let mut r: Vec<Tree> = Vec::new();
    let mut i: usize = 0;
    while i < xs.len()
        invariant
            0 <= i <= xs@.len(),
            r@.len() == i,
            forall|j: int| 0 <= j < i ==> #[trigger] r@[j]@ == xs@[j]@,
        decreases xs@.len() - i,
    {
        let c = xs[i].tree_clone();
        r.push(c);
        i += 1;
    }
    proof {
        lemma_views_of_trees(r@);
        assert(views_of_trees(r@) =~= views_of_trees(xs@));
    }
    r
}

/// A copy of an object entry vector, key and value views kept.
pub fn clone_entries(xs: &Vec<(Vec<u8>, Tree)>) -> (r: Vec<(Vec<u8>, Tree)>)
    ensures
        views_of_entries(r@) == views_of_entries(xs@),
{
    proof {
        lemma_views_of_entries(xs@);
    }
    let mut r: Vec<(Vec<u8>, Tree)> = Vec::new();
    let mut i: usize = 0;
    while i < xs.len()
        invariant
            0 <= i <= xs@.len(),
            r@.len() == i,
            forall|j: int| 0 <= j < i ==> #[trigger] r@[j].0@ == xs@[j].0@
                && #[trigger] r@[j].1@ == xs@[j].1@,
        decreases xs@.len() - i,
    {
        let k = clone_bytes(&xs[i].0);
        let v = xs[i].1.tree_clone();
        r.push((k, v));
        i += 1;
    }
    proof {
        lemma_views_of_entries(r@);
        assert(views_of_entries(r@) =~= views_of_entries(xs@));
    }
    r
}

/// A copy of a byte vector with the same contents.
pub fn clone_bytes(v: &Vec<u8>) -> (r: Vec<u8>)
    ensures
        r@ == v@,
{
    let mut r: Vec<u8> = Vec::new();
    let mut i: usize = 0;
    while i < v.len()
        invariant
            0 <= i <= v@.len(),
            r@ == v@.take(i as int),
        decreases v@.len() - i,
    {
        r.push(v[i]);
        proof {
            assert(r@ =~= v@.take(i + 1 as int));
        }
        i += 1;
    }
    proof {
        assert(r@ =~= v@);
    }
    r
}

} // verus!
