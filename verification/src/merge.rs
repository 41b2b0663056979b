//! The merge engine: deep-merges two canonical trees. When both sides are
//! objects the entries merge key by key, with the source winning on scalar
//! or mixed conflicts; any other pair is fully overwritten by the source.
//! The target's key order is kept and new source keys are appended.

use vstd::prelude::*;

use crate::tree::{
    clone_bytes, bytes_eq, distinct_keys, entries_ok, lemma_views_of_entries, lemma_views_of_trees,
    views_of_entries, views_of_trees, Tree, TreeV,
};

verus! {

/// Merging a single source entry into a target entry sequence: an existing
/// key is overwritten in place (recursively merging the values), a new key
/// is appended.
pub open spec fn spec_merge_one(
    ea: Seq<(Seq<u8>, TreeV)>,
    e: (Seq<u8>, TreeV),
) -> Seq<(Seq<u8>, TreeV)>
    decreases e,
{
    if TreeV::obj_contains_key(ea, e.0) {
        let i = choose|i: int| 0 <= i < ea.len() && ea[i].0 == e.0;
        ea.update(i, (e.0, spec_merge(ea[i].1, e.1)))
    } else {
        ea.push(e)
    }
}

/// Folding every source entry into the target entry sequence, in order.
pub open spec fn spec_merge_entries(
    ea: Seq<(Seq<u8>, TreeV)>,
    eb: Seq<(Seq<u8>, TreeV)>,
) -> Seq<(Seq<u8>, TreeV)>
    decreases eb,
{
    if eb.len() == 0 {
        ea
    } else {
        spec_merge_entries(spec_merge_one(ea, eb[0]), eb.drop_first())
    }
}

/// The merge of two canonical trees: objects merge entry-wise, any other
/// pair is overwritten by the source.
pub open spec fn spec_merge(a: TreeV, b: TreeV) -> TreeV
    decreases b,
{
    if a is Obj && b is Obj {
        TreeV::Obj(spec_merge_entries(a->Obj_0, b->Obj_0))
    } else {
        b
    }
}

/// How `spec_merge_one` acts on membership, lookups, length and order.
pub proof fn lemma_merge_one(ea: Seq<(Seq<u8>, TreeV)>, e: (Seq<u8>, TreeV))
    requires
        distinct_keys(ea),
    ensures
        distinct_keys(spec_merge_one(ea, e)),
        forall|k: Seq<u8>|
            TreeV::obj_contains_key(spec_merge_one(ea, e), k) <==> TreeV::obj_contains_key(ea, k)
                || k == e.0,
        TreeV::obj_contains_key(ea, e.0) ==> spec_merge_one(ea, e).len() == ea.len(),
        !TreeV::obj_contains_key(ea, e.0) ==> spec_merge_one(ea, e) == ea.push(e),
        forall|k: Seq<u8>|
            TreeV::obj_contains_key(ea, k) && k != e.0 ==> TreeV::obj_index(
                spec_merge_one(ea, e),
                k,
            ) == TreeV::obj_index(ea, k),
        TreeV::obj_contains_key(ea, e.0) ==> TreeV::obj_index(spec_merge_one(ea, e), e.0)
            == spec_merge(TreeV::obj_index(ea, e.0), e.1),
        !TreeV::obj_contains_key(ea, e.0) ==> TreeV::obj_index(spec_merge_one(ea, e), e.0) == e.1,
{
    let r = spec_merge_one(ea, e);
    if TreeV::obj_contains_key(ea, e.0) {
        let i = choose|i: int| 0 <= i < ea.len() && ea[i].0 == e.0;
        assert forall|k: Seq<u8>|
            TreeV::obj_contains_key(r, k) implies TreeV::obj_contains_key(ea, k) || k == e.0 by {
            let j = choose|j: int| 0 <= j < r.len() && r[j].0 == k;
            if j != i {
                assert(ea[j].0 == k);
            }
        }
        assert forall|k: Seq<u8>|
            TreeV::obj_contains_key(ea, k) && k != e.0 implies TreeV::obj_index(r, k)
            == TreeV::obj_index(ea, k) by {
            let j = choose|j: int| 0 <= j < ea.len() && ea[j].0 == k;
            assert(r[j].0 == k && r[j].1 == ea[j].1);
            let j2 = choose|j2: int| 0 <= j2 < r.len() && r[j2].0 == k;
            assert(j2 != i);
            assert(ea[j2].0 == k);
            assert(j2 == j);
        }
        assert forall|k: Seq<u8>|
            TreeV::obj_contains_key(ea, k) || k == e.0 implies TreeV::obj_contains_key(r, k) by {
            if k == e.0 {
                assert(r[i].0 == e.0);
            } else {
                let j = choose|j: int| 0 <= j < ea.len() && ea[j].0 == k;
                assert(j != i);
                assert(r[j].0 == k);
            }
        }
        assert(r[i].0 == e.0);
        let i2 = choose|i2: int| 0 <= i2 < r.len() && r[i2].0 == e.0;
        assert(i2 == i) by {
            if i2 != i {
                assert(ea[i2].0 == e.0);
            }
        }
        let ia = choose|ia: int| 0 <= ia < ea.len() && ea[ia].0 == e.0;
        assert(ia == i);
    } else {
        assert forall|k: Seq<u8>|
            TreeV::obj_contains_key(r, k) implies TreeV::obj_contains_key(ea, k) || k == e.0 by {
            let j = choose|j: int| 0 <= j < r.len() && r[j].0 == k;
            if j < ea.len() {
                assert(ea[j].0 == k);
            }
        }
        assert(r[ea.len() as int].0 == e.0);
        assert forall|k: Seq<u8>|
            TreeV::obj_contains_key(ea, k) || k == e.0 implies TreeV::obj_contains_key(r, k) by {
            if k == e.0 {
                assert(r[ea.len() as int].0 == e.0);
            } else {
                let j = choose|j: int| 0 <= j < ea.len() && ea[j].0 == k;
                assert(r[j].0 == k);
            }
        }
        assert forall|k: Seq<u8>|
            TreeV::obj_contains_key(ea, k) && k != e.0 implies TreeV::obj_index(r, k)
            == TreeV::obj_index(ea, k) by {
            let j = choose|j: int| 0 <= j < ea.len() && ea[j].0 == k;
            assert(r[j].0 == k);
            let j2 = choose|j2: int| 0 <= j2 < r.len() && r[j2].0 == k;
            assert(j2 != ea.len());
            assert(ea[j2].0 == k);
            assert(j2 == j);
        }
        let i2 = choose|i2: int| 0 <= i2 < r.len() && r[i2].0 == e.0;
        assert(i2 == ea.len()) by {
            if i2 < ea.len() {
                assert(ea[i2].0 == e.0);
            }
        }
    }
}

/// How the entry fold acts on membership and lookups: every target key and
/// every source key survives; a key on both sides carries the merged value,
/// a key on one side carries that side's value.
pub proof fn lemma_merge_entries(ea: Seq<(Seq<u8>, TreeV)>, eb: Seq<(Seq<u8>, TreeV)>)
    requires
        distinct_keys(ea),
        distinct_keys(eb),
    ensures
        distinct_keys(spec_merge_entries(ea, eb)),
        forall|k: Seq<u8>|
            TreeV::obj_contains_key(spec_merge_entries(ea, eb), k) <==> TreeV::obj_contains_key(
                ea,
                k,
            ) || TreeV::obj_contains_key(eb, k),
        forall|k: Seq<u8>|
            TreeV::obj_contains_key(ea, k) && !TreeV::obj_contains_key(eb, k)
                ==> TreeV::obj_index(spec_merge_entries(ea, eb), k) == TreeV::obj_index(ea, k),
        forall|k: Seq<u8>|
            !TreeV::obj_contains_key(ea, k) && TreeV::obj_contains_key(eb, k)
                ==> TreeV::obj_index(spec_merge_entries(ea, eb), k) == TreeV::obj_index(eb, k),
        forall|k: Seq<u8>|
            TreeV::obj_contains_key(ea, k) && TreeV::obj_contains_key(eb, k) ==> TreeV::obj_index(
                spec_merge_entries(ea, eb),
                k,
            ) == spec_merge(TreeV::obj_index(ea, k), TreeV::obj_index(eb, k)),
    decreases eb,
{
    if eb.len() == 0 {
    } else {
        let e = eb[0];
        let rest = eb.drop_first();
        let ea1 = spec_merge_one(ea, e);
        lemma_merge_one(ea, e);
        assert forall|k: Seq<u8>|
            TreeV::obj_contains_key(rest, k) implies TreeV::obj_contains_key(eb, k) by {
            let j = choose|j: int| 0 <= j < rest.len() && rest[j].0 == k;
            assert(eb[j + 1].0 == k);
        }
        lemma_merge_entries(ea1, rest);
        assert forall|k: Seq<u8>|
            TreeV::obj_contains_key(eb, k) && k != e.0 implies TreeV::obj_contains_key(rest, k) by {
            let j = choose|j: int| 0 <= j < eb.len() && eb[j].0 == k;
            assert(j != 0);
            assert(rest[j - 1].0 == k);
        }
        // eb's keys are distinct, so the head key never recurs in the rest.
        assert(!TreeV::obj_contains_key(rest, e.0)) by {
            if TreeV::obj_contains_key(rest, e.0) {
                let j = choose|j: int| 0 <= j < rest.len() && rest[j].0 == e.0;
                assert(eb[j + 1].0 == e.0 && eb[0].0 == e.0);
            }
        }
        assert(eb[0].0 == e.0);
        assert forall|k: Seq<u8>| TreeV::obj_contains_key(eb, k) implies
            TreeV::obj_contains_key(rest, k) || k == e.0 by {
            let j = choose|j: int| 0 <= j < eb.len() && eb[j].0 == k;
            if j != 0 {
                assert(rest[j - 1].0 == k);
            }
        }
    }
}

/// Merging well-formed trees yields a well-formed tree.
pub proof fn lemma_merge_wf(a: TreeV, b: TreeV)
    requires
        a.wf(),
        b.wf(),
    ensures
        spec_merge(a, b).wf(),
    decreases b,
{
    if a is Obj && b is Obj {
        lemma_merge_entries_wf(a->Obj_0, b->Obj_0);
    }
}

/// Entry-level helper for `lemma_merge_wf`.
pub proof fn lemma_merge_entries_wf(ea: Seq<(Seq<u8>, TreeV)>, eb: Seq<(Seq<u8>, TreeV)>)
    requires
        entries_ok(ea),
        entries_ok(eb),
    ensures
        entries_ok(spec_merge_entries(ea, eb)),
    decreases eb,
{
    if eb.len() == 0 {
    } else {
        let e = eb[0];
        let rest = eb.drop_first();
        let ea1 = spec_merge_one(ea, e);
        lemma_merge_one(ea, e);
        assert(e.1.wf());
        assert forall|i: int| 0 <= i < ea1.len() implies (#[trigger] ea1[i].1).wf() by {
            if TreeV::obj_contains_key(ea, e.0) {
                let j = choose|j: int| 0 <= j < ea.len() && ea[j].0 == e.0;
                if i == j {
                    assert(ea[j].1.wf());
                    lemma_merge_wf(ea[j].1, e.1);
                    assert(ea1[i] == (e.0, spec_merge(ea[j].1, e.1)));
                } else {
                    assert(ea1[i].1 == ea[i].1);
                }
            } else {
                if i < ea.len() {
                    assert(ea1[i].1 == ea[i].1);
                } else {
                    assert(ea1[i].1 == e.1);
                }
            }
        }
        assert forall|i: int| 0 <= i < rest.len() implies (#[trigger] rest[i].1).wf() by {
            assert(rest[i] == eb[i + 1]);
        }
        assert(distinct_keys(rest));
        lemma_merge_entries_wf(ea1, rest);
    }
}

/// Folding a source that grows by one entry at the end: the fold of the
/// longer source is one more `spec_merge_one` step.
pub proof fn lemma_merge_entries_snoc(
    ea: Seq<(Seq<u8>, TreeV)>,
    eb: Seq<(Seq<u8>, TreeV)>,
    e: (Seq<u8>, TreeV),
)
    ensures
        spec_merge_entries(ea, eb.push(e)) == spec_merge_one(spec_merge_entries(ea, eb), e),
    decreases eb,
{
    let pushed = eb.push(e);
    assert(pushed.len() > 0);
    assert(spec_merge_entries(ea, pushed) == spec_merge_entries(
        spec_merge_one(ea, pushed[0]),
        pushed.drop_first(),
    ));
    if eb.len() == 0 {
        assert(pushed[0] == e);
        assert(pushed.drop_first() =~= Seq::<(Seq<u8>, TreeV)>::empty());
        assert(spec_merge_entries(spec_merge_one(ea, e), pushed.drop_first())
            == spec_merge_one(ea, e));
        assert(spec_merge_entries(ea, eb) == ea);
    } else {
        assert(pushed[0] == eb[0]);
        assert(pushed.drop_first() =~= eb.drop_first().push(e));
        lemma_merge_entries_snoc(spec_merge_one(ea, eb[0]), eb.drop_first(), e);
        assert(spec_merge_entries(ea, eb) == spec_merge_entries(
            spec_merge_one(ea, eb[0]),
            eb.drop_first(),
        ));
    }
}

/// Executable merge of one source entry into a target entry vector.
fn merge_one(entries: &mut Vec<(Vec<u8>, Tree)>, key: &Vec<u8>, value: &Tree)
    requires
        entries_ok(views_of_entries(old(entries)@)),
        value@.wf(),
    ensures
        views_of_entries(final(entries)@) == spec_merge_one(
            views_of_entries(old(entries)@),
            (key@, value@),
        ),
    decreases value, 1nat,
{
    proof {
        lemma_views_of_entries(entries@);
    }
    let ghost orig = views_of_entries(entries@);
    let mut i: usize = 0;
    while i < entries.len()
        invariant
            0 <= i <= entries@.len(),
            entries@ == old(entries)@,
            orig == views_of_entries(entries@),
            entries_ok(orig),
            value@.wf(),
            orig.len() == entries@.len(),
            forall|j: int| 0 <= j < entries@.len() ==> #[trigger] orig[j]
                == (entries@[j].0@, entries@[j].1@),
            forall|j: int| 0 <= j < i ==> #[trigger] entries@[j].0@ != key@,
        decreases entries@.len() - i,
    {
        if bytes_eq(entries[i].0.as_slice(), key.as_slice()) {
            proof {
                assert(entries@[i as int].1@ == orig[i as int].1);
                assert(orig[i as int].1.wf());
            }
            let merged = merge(&entries[i].1, value);
            let k = clone_bytes(key);
            entries[i] = (k, merged);
            proof {
                lemma_views_of_entries(entries@);
                assert(TreeV::obj_contains_key(orig, key@)) by {
                    assert(orig[i as int].0 == key@);
                }
                let w = choose|w: int| 0 <= w < orig.len() && orig[w].0 == key@;
                assert(w == i) by {
                    if w != i {
                        assert(orig[w].0 == key@ && orig[i as int].0 == key@);
                    }
                }
                assert(views_of_entries(entries@) =~= orig.update(
                    i as int,
                    (key@, spec_merge(orig[i as int].1, value@)),
                ));
            }
            return;
        }
        i += 1;
    }
    let k = clone_bytes(key);
    let v = value.tree_clone();
    entries.push((k, v));
    proof {
        lemma_views_of_entries(entries@);
        assert(!TreeV::obj_contains_key(orig, key@)) by {
            if TreeV::obj_contains_key(orig, key@) {
                let w = choose|w: int| 0 <= w < orig.len() && orig[w].0 == key@;
                assert(old(entries)@[w].0@ == key@);
            }
        }
        assert(views_of_entries(entries@) =~= orig.push((key@, value@)));
    }
}

/// Executable merge of two canonical trees.
///
/// The result is exactly `spec_merge` of the two abstractions: objects merge
/// recursively key by key with the source winning on conflicts and the
/// target's key order kept, and every other pairing is overwritten by the
/// source.
pub fn merge(target: &Tree, source: &Tree) -> (r: Tree)
    requires
        target@.wf(),
        source@.wf(),
    ensures
        r@ == spec_merge(target@, source@),
    decreases source, 0nat,
{
    match (target, source) {
        (Tree::Obj(ea), Tree::Obj(eb)) => {
            proof {
                lemma_views_of_entries(ea@);
                lemma_views_of_entries(eb@);
            }
            let ghost eav = views_of_entries(ea@);
            let ghost ebv = views_of_entries(eb@);
            proof {
                assert(target@ == TreeV::Obj(eav));
                assert(source@ == TreeV::Obj(ebv));
                assert(entries_ok(eav));
                assert(entries_ok(ebv));
            }
            let mut entries: Vec<(Vec<u8>, Tree)> = Vec::new();
            let mut i: usize = 0;
            // Start from a copy of the target's entries.
            while i < ea.len()
                invariant
                    0 <= i <= ea@.len(),
                    *target == Tree::Obj(*ea),
                    entries@.len() == i,
                    forall|j: int| 0 <= j < i ==> #[trigger] entries@[j].0@ == ea@[j].0@
                        && #[trigger] entries@[j].1@ == ea@[j].1@,
                decreases ea@.len() - i,
            {
                proof {
                    assert(decreases_to!(*target => target->Obj_0));
                    assert(target->Obj_0 == *ea);
                    assert(decreases_to!(*ea => ea[i as int]));
                    assert(decreases_to!(ea[i as int] => ea[i as int].1));
                }
                let k = clone_bytes(&ea[i].0);
                let v = ea[i].1.tree_clone();
                entries.push((k, v));
                i += 1;
            }
            proof {
                lemma_views_of_entries(entries@);
                assert(views_of_entries(entries@) =~= eav);
            }
            let mut i: usize = 0;
            while i < eb.len()
                invariant
                    0 <= i <= eb@.len(),
                    *target == Tree::Obj(*ea),
                    *source == Tree::Obj(*eb),
                    eav == views_of_entries(ea@),
                    ebv == views_of_entries(eb@),
                    entries_ok(eav),
                    entries_ok(ebv),
                    ebv.len() == eb@.len(),
                    forall|j: int| 0 <= j < eb@.len() ==> #[trigger] ebv[j]
                        == (eb@[j].0@, eb@[j].1@),
                    views_of_entries(entries@) == spec_merge_entries(eav, ebv.take(i as int)),
                decreases eb@.len() - i,
            {
                proof {
                    assert(decreases_to!(*source => source->Obj_0));
                    assert(source->Obj_0 == *eb);
                    assert(decreases_to!(*eb => eb[i as int]));
                    assert(decreases_to!(eb[i as int] => eb[i as int].1));
                    assert(decreases_to!(*source => eb[i as int].1));
                    // The running entries stay a valid object: distinct keys,
                    // well-formed values.
                    assert(distinct_keys(ebv.take(i as int)));
                    assert forall|j: int| 0 <= j < i implies (#[trigger] ebv.take(
                        i as int,
                    )[j].1).wf() by {
                        assert(ebv.take(i as int)[j] == ebv[j]);
                        assert(ebv[j].1.wf());
                    }
                    lemma_merge_entries_wf(eav, ebv.take(i as int));
                    assert(eb@[i as int].1@ == ebv[i as int].1);
                    assert(ebv[i as int].1.wf());
                }
                merge_one(&mut entries, &eb[i].0, &eb[i].1);
                proof {
                    assert(ebv.take(i + 1).drop_last() =~= ebv.take(i as int));
                    assert(ebv.take(i + 1).last() == ebv[i as int]);
                    assert(ebv.take(i + 1) =~= ebv.take(i as int).push(ebv[i as int]));
                    lemma_merge_entries_snoc(eav, ebv.take(i as int), ebv[i as int]);
                    assert(ebv[i as int] == (eb@[i as int].0@, eb@[i as int].1@));
                }
                i += 1;
            }
            proof {
                assert(ebv.take(eb@.len() as int) =~= ebv);
            }
            Tree::Obj(entries)
        },
        _ => {
            let r = source.tree_clone();
            proof {
                if target@ is Obj && source@ is Obj {
                    assert(target matches Tree::Obj(_) && source matches Tree::Obj(_));
                }
            }
            r
        },
    }
}

/// Left-biased composition of a non-empty list of sources, in order:
/// `acc = merge(acc, next)`, so later entries win on leaf conflicts.
pub open spec fn spec_merge_all(ts: Seq<TreeV>) -> TreeV
    recommends
        ts.len() > 0,
    decreases ts,
{
    if ts.len() <= 1 {
        ts[0]
    } else {
        spec_merge(spec_merge_all(ts.drop_last()), ts.last())
    }
}

/// Merge associativity-order law, first half: resolving `[a, b, c]` in
/// declared order is exactly `merge(merge(a, b), c)`.
pub proof fn lemma_merge_all_three(a: TreeV, b: TreeV, c: TreeV)
    ensures
        spec_merge_all(seq![a, b, c]) == spec_merge(spec_merge(a, b), c),
{
    let s = seq![a, b, c];
    assert(s.drop_last() =~= seq![a, b]);
    assert(seq![a, b].drop_last() =~= seq![a]);
    assert(spec_merge_all(seq![a]) == a);
    assert(spec_merge_all(seq![a, b]) == spec_merge(a, b));
}

/// Merge associativity-order law, second half: however two objects are
/// ordered, no key of either side is dropped — the merged object binds a
/// key exactly when one of the sides binds it.
pub proof fn lemma_merge_drops_no_key(a: TreeV, b: TreeV, k: Seq<u8>)
    requires
        a.wf(),
        b.wf(),
        a is Obj,
        b is Obj,
    ensures
        spec_merge(a, b) is Obj,
        TreeV::obj_contains_key(spec_merge(a, b)->Obj_0, k) <==> TreeV::obj_contains_key(
            a->Obj_0,
            k,
        ) || TreeV::obj_contains_key(b->Obj_0, k),
{
    assert(entries_ok(a->Obj_0));
    assert(entries_ok(b->Obj_0));
    lemma_merge_entries(a->Obj_0, b->Obj_0);
}

/// What the merged object binds each key to: a key on both sides carries
/// the recursive merge of the two values (so the source side wins on any
/// non-object conflict), a key on one side keeps that side's value.
pub proof fn lemma_merge_lookup(a: TreeV, b: TreeV, k: Seq<u8>)
    requires
        a.wf(),
        b.wf(),
        a is Obj,
        b is Obj,
    ensures
        TreeV::obj_contains_key(a->Obj_0, k) && TreeV::obj_contains_key(b->Obj_0, k)
            ==> TreeV::obj_index(spec_merge(a, b)->Obj_0, k) == spec_merge(
            TreeV::obj_index(a->Obj_0, k),
            TreeV::obj_index(b->Obj_0, k),
        ),
        TreeV::obj_contains_key(a->Obj_0, k) && !TreeV::obj_contains_key(b->Obj_0, k)
            ==> TreeV::obj_index(spec_merge(a, b)->Obj_0, k) == TreeV::obj_index(a->Obj_0, k),
        !TreeV::obj_contains_key(a->Obj_0, k) && TreeV::obj_contains_key(b->Obj_0, k)
            ==> TreeV::obj_index(spec_merge(a, b)->Obj_0, k) == TreeV::obj_index(b->Obj_0, k),
{
    assert(entries_ok(a->Obj_0));
    assert(entries_ok(b->Obj_0));
    lemma_merge_entries(a->Obj_0, b->Obj_0);
}

/// Executable left-biased composition of a non-empty list of sources.
pub fn merge_all(sources: &Vec<Tree>) -> (r: Tree)
    requires
        sources@.len() > 0,
        forall|i: int| 0 <= i < sources@.len() ==> (#[trigger] sources@[i]@).wf(),
    ensures
        r@ == spec_merge_all(views_of_trees(sources@)),
        r@.wf(),
{
    proof {
        lemma_views_of_trees(sources@);
    }
    let ghost vs = views_of_trees(sources@);
    let mut acc = sources[0].tree_clone();
    proof {
        assert(vs.take(1) =~= seq![vs[0]]);
        assert(spec_merge_all(vs.take(1)) == vs[0]);
    }
    let mut i: usize = 1;
    while i < sources.len()
        invariant
            1 <= i <= sources@.len(),
            vs == views_of_trees(sources@),
            vs.len() == sources@.len(),
            forall|j: int| 0 <= j < sources@.len() ==> #[trigger] vs[j] == sources@[j]@,
            forall|j: int| 0 <= j < sources@.len() ==> (#[trigger] sources@[j]@).wf(),
            acc@ == spec_merge_all(vs.take(i as int)),
            acc@.wf(),
        decreases sources@.len() - i,
    {
        proof {
            lemma_merge_wf(acc@, sources@[i as int]@);
            assert(vs.take(i + 1).drop_last() =~= vs.take(i as int));
            assert(vs.take(i + 1).last() == vs[i as int]);
        }
        acc = merge(&acc, &sources[i]);
        i += 1;
    }
    proof {
        assert(vs.take(vs.len() as int) =~= vs);
    }
    acc
}

} // verus!
