//! Flattening a canonical tree into ordered key-value pairs, the heart of
//! the properties and env-file serializers.
//!
//! Each object key is case-transformed, separator occurrences inside a
//! transformed segment are replaced with an escape text, segments join
//! with the separator, array elements take their position as one more
//! segment, and leaves render as plain text. The collected pairs form a
//! map ordered lexicographically by key, a later duplicate overwriting an
//! earlier one.

use vstd::prelude::*;

use crate::codec::{json_compact_of, render_json_compact};
use crate::tree::{
    clone_bytes, bytes_eq, lemma_views_of_entries, lemma_views_of_trees, views_of_entries,
    views_of_trees, Tree, TreeV,
};

verus! {

/// The case transform applied to each object key segment.
pub enum KeyTransform {
    Identity,
    UpperSnake,
}

/// The upper-snake-case rendering of a text.
pub uninterp spec fn upper_snake_of(s: Seq<u8>) -> Seq<u8>;

/// Relies on convert_case: the upper-snake-case rendering of a text
/// depends on its characters alone.
#[verifier::external_body]
pub fn upper_snake(s: &Vec<u8>) -> (r: Vec<u8>)
    ensures
        r@ == upper_snake_of(s@),
{
    convert_case::Converter::new().to_case(convert_case::Case::UpperSnake).convert(
        String::from_utf8_lossy(s.as_slice()),
    ).into_bytes()
}

/// A key segment after the case transform.
pub open spec fn spec_transform(k: Seq<u8>, tr: KeyTransform) -> Seq<u8> {
    match tr {
        KeyTransform::Identity => k,
        KeyTransform::UpperSnake => upper_snake_of(k),
    }
}

/// Separator occurrences inside a segment replaced by the escape text.
pub open spec fn spec_escape(s: Seq<u8>, sep: u8, esc: Seq<u8>) -> Seq<u8>
    decreases s,
{
    if s.len() == 0 {
        Seq::empty()
    } else {
        (if s[0] == sep {
            esc
        } else {
            seq![s[0]]
        }) + spec_escape(s.drop_first(), sep, esc)
    }
}

/// A segment appended to a path: the separator joins non-empty paths.
pub open spec fn spec_join(prefix: Seq<u8>, seg: Seq<u8>, sep: u8) -> Seq<u8> {
    if prefix.len() == 0 {
        seg
    } else {
        prefix + seq![sep] + seg
    }
}

/// The full path of a child under `prefix` reached by object key `k`.
pub open spec fn spec_child_path(prefix: Seq<u8>, k: Seq<u8>, sep: u8, esc: Seq<u8>,
    tr: KeyTransform) -> Seq<u8> {
    spec_join(prefix, spec_escape(spec_transform(k, tr), sep, esc), sep)
}

/// The decimal digits of a non-negative number.
pub open spec fn digits_of(n: int) -> Seq<u8>
    recommends
        n >= 0,
    decreases n,
{
    if n < 10 {
        seq![(48 + if n >= 0 { n } else { 0 }) as u8]
    } else {
        digits_of(n / 10).push((48 + n % 10) as u8)
    }
}

/// The plain text a leaf renders to: strings stay themselves, numbers
/// keep their decimal text, booleans and null their keywords; a nested
/// array or object leaf renders as its compact JSON text.
pub open spec fn spec_leaf_text(v: TreeV) -> Seq<u8> {
    match v {
        TreeV::Str(s) => s,
        TreeV::Num(n) => n,
        TreeV::Bool(b) => if b {
            seq![116u8, 114u8, 117u8, 101u8]  // "true"
        } else {
            seq![102u8, 97u8, 108u8, 115u8, 101u8]  // "false"
        },
        TreeV::Null => seq![110u8, 117u8, 108u8, 108u8],  // "null"
        _ => json_compact_of(v),
    }
}

/// The raw key-value pairs of a value at a path, in traversal order.
pub open spec fn pairs_of_value(
    prefix: Seq<u8>,
    v: TreeV,
    sep: u8,
    esc: Seq<u8>,
    tr: KeyTransform,
) -> Seq<(Seq<u8>, Seq<u8>)>
    decreases v,
{
    match v {
        TreeV::Obj(entries) => pairs_of_entries(prefix, entries, sep, esc, tr),
        TreeV::Arr(items) => pairs_of_items(prefix, items, 0, sep, esc, tr),
        _ => seq![(prefix, spec_leaf_text(v))],
    }
}

/// The raw pairs of an object's entries, in order.
pub open spec fn pairs_of_entries(
    prefix: Seq<u8>,
    entries: Seq<(Seq<u8>, TreeV)>,
    sep: u8,
    esc: Seq<u8>,
    tr: KeyTransform,
) -> Seq<(Seq<u8>, Seq<u8>)>
    decreases entries,
{
    if entries.len() == 0 {
        Seq::empty()
    } else {
        pairs_of_value(
            spec_child_path(prefix, entries[0].0, sep, esc, tr),
            entries[0].1,
            sep,
            esc,
            tr,
        ) + pairs_of_entries(prefix, entries.drop_first(), sep, esc, tr)
    }
}

/// The raw pairs of an array's items, each indexed by its position; an
/// object item recurses, any other item is a leaf.
pub open spec fn pairs_of_items(
    prefix: Seq<u8>,
    items: Seq<TreeV>,
    base: int,
    sep: u8,
    esc: Seq<u8>,
    tr: KeyTransform,
) -> Seq<(Seq<u8>, Seq<u8>)>
    decreases items,
{
    if items.len() == 0 {
        Seq::empty()
    } else {
        let path = spec_join(prefix, digits_of(base), sep);
        (if items[0] is Obj {
            pairs_of_value(path, items[0], sep, esc, tr)
        } else {
            seq![(path, spec_leaf_text(items[0]))]
        }) + pairs_of_items(prefix, items.drop_first(), base + 1, sep, esc, tr)
    }
}

/// Strict lexicographic order on byte sequences.
pub open spec fn bytes_lt(a: Seq<u8>, b: Seq<u8>) -> bool
    decreases a,
{
    if b.len() == 0 {
        false
    } else if a.len() == 0 {
        true
    } else if a[0] < b[0] {
        true
    } else if a[0] > b[0] {
        false
    } else {
        bytes_lt(a.drop_first(), b.drop_first())
    }
}

/// Exactly one of `a < b`, `a == b`, `b < a` holds.
pub proof fn lemma_bytes_lt_trichotomy(a: Seq<u8>, b: Seq<u8>)
    ensures
        bytes_lt(a, b) || a == b || bytes_lt(b, a),
        bytes_lt(a, b) ==> a != b && !bytes_lt(b, a),
        a == b ==> !bytes_lt(a, b) && !bytes_lt(b, a),
    decreases a,
{
    if a.len() == 0 || b.len() == 0 {
        if a.len() == 0 && b.len() == 0 {
            assert(a =~= b);
        }
    } else {
        lemma_bytes_lt_trichotomy(a.drop_first(), b.drop_first());
        if a[0] == b[0] && a.drop_first() == b.drop_first() {
            assert forall|k: int| 0 <= k < a.len() implies a[k] == b[k] by {
                if k > 0 {
                    assert(a.drop_first()[k - 1] == b.drop_first()[k - 1]);
                }
            }
            assert(a =~= b);
        }
        if a == b {
            assert(a.drop_first() =~= b.drop_first());
        }
    }
}

/// Executable strict lexicographic comparison.
pub fn bytes_lt_exec(a: &[u8], b: &[u8]) -> (r: bool)
    ensures
        r == bytes_lt(a@, b@),
{
    let mut i: usize = 0;
    proof {
        assert(a@.skip(0) =~= a@);
        assert(b@.skip(0) =~= b@);
    }
    loop
        invariant
            0 <= i <= a@.len(),
            i <= b@.len(),
            forall|j: int| 0 <= j < i ==> a@[j] == b@[j],
            bytes_lt(a@, b@) == bytes_lt(a@.skip(i as int), b@.skip(i as int)),
        decreases a@.len() - i,
    {
        if i >= b.len() {
            proof {
                assert(b@.skip(i as int).len() == 0);
            }
            return false;
        }
        if i >= a.len() {
            proof {
                assert(a@.skip(i as int).len() == 0 && b@.skip(i as int).len() > 0);
            }
            return true;
        }
        let x = a[i];
        let y = b[i];
        proof {
            assert(a@.skip(i as int)[0] == a@[i as int]);
            assert(b@.skip(i as int)[0] == b@[i as int]);
            assert(a@.skip(i as int).drop_first() =~= a@.skip(i + 1));
            assert(b@.skip(i as int).drop_first() =~= b@.skip(i + 1));
        }
        if x < y {
            return true;
        }
        if x > y {
            return false;
        }
        i += 1;
    }
}

/// Insertion of a pair into a key-ordered pair sequence: an equal key is
/// overwritten, otherwise the pair takes its ordered place.
pub open spec fn spec_insert(
    ps: Seq<(Seq<u8>, Seq<u8>)>,
    k: Seq<u8>,
    v: Seq<u8>,
) -> Seq<(Seq<u8>, Seq<u8>)>
    decreases ps,
{
    if ps.len() == 0 {
        seq![(k, v)]
    } else if bytes_lt(k, ps[0].0) {
        seq![(k, v)] + ps
    } else if k == ps[0].0 {
        seq![(k, v)] + ps.drop_first()
    } else {
        seq![ps[0]] + spec_insert(ps.drop_first(), k, v)
    }
}

/// All raw pairs inserted in traversal order into the ordered map.
pub open spec fn spec_insert_all(
    acc: Seq<(Seq<u8>, Seq<u8>)>,
    raw: Seq<(Seq<u8>, Seq<u8>)>,
) -> Seq<(Seq<u8>, Seq<u8>)>
    decreases raw,
{
    if raw.len() == 0 {
        acc
    } else {
        spec_insert_all(spec_insert(acc, raw[0].0, raw[0].1), raw.drop_first())
    }
}

/// The flattening of a tree: its raw pairs collected into the ordered map.
pub open spec fn spec_flatten(t: TreeV, sep: u8, esc: Seq<u8>, tr: KeyTransform) -> Seq<
    (Seq<u8>, Seq<u8>),
> {
    spec_insert_all(Seq::empty(), pairs_of_value(Seq::empty(), t, sep, esc, tr))
}

/// The views of a sequence of byte-pair vectors.
pub open spec fn views_of_pairs(s: Seq<(Vec<u8>, Vec<u8>)>) -> Seq<(Seq<u8>, Seq<u8>)>
    decreases s,
{
    if s.len() == 0 {
        Seq::empty()
    } else {
        seq![(s[0].0@, s[0].1@)] + views_of_pairs(s.drop_first())
    }
}

/// `views_of_pairs` indexes pointwise.
pub proof fn lemma_views_of_pairs(s: Seq<(Vec<u8>, Vec<u8>)>)
    ensures
        views_of_pairs(s).len() == s.len(),
        forall|i: int| 0 <= i < s.len() ==> #[trigger] views_of_pairs(s)[i]
            == (s[i].0@, s[i].1@),
    decreases s,
{
    if s.len() > 0 {
        lemma_views_of_pairs(s.drop_first());
    }
}

/// Appending one entry at the end of an object is one more block of pairs.
pub proof fn lemma_pairs_of_entries_snoc(
    prefix: Seq<u8>,
    entries: Seq<(Seq<u8>, TreeV)>,
    e: (Seq<u8>, TreeV),
    sep: u8,
    esc: Seq<u8>,
    tr: KeyTransform,
)
    ensures
        pairs_of_entries(prefix, entries.push(e), sep, esc, tr) == pairs_of_entries(
            prefix,
            entries,
            sep,
            esc,
            tr,
        ) + pairs_of_value(spec_child_path(prefix, e.0, sep, esc, tr), e.1, sep, esc, tr),
    decreases entries,
{
    let pushed = entries.push(e);
    if entries.len() == 0 {
        assert(pushed[0] == e);
        assert(pushed.drop_first() =~= Seq::<(Seq<u8>, TreeV)>::empty());
        assert(pairs_of_entries(prefix, pushed.drop_first(), sep, esc, tr)
            =~= Seq::<(Seq<u8>, Seq<u8>)>::empty());
        assert(pairs_of_entries(prefix, entries, sep, esc, tr)
            =~= Seq::<(Seq<u8>, Seq<u8>)>::empty());
        assert(pairs_of_entries(prefix, pushed, sep, esc, tr) =~= pairs_of_value(
            spec_child_path(prefix, e.0, sep, esc, tr),
            e.1,
            sep,
            esc,
            tr,
        ));
    } else {
        assert(pushed[0] == entries[0]);
        assert(pushed.drop_first() =~= entries.drop_first().push(e));
        lemma_pairs_of_entries_snoc(prefix, entries.drop_first(), e, sep, esc, tr);
        assert(pairs_of_entries(prefix, pushed, sep, esc, tr) =~= pairs_of_entries(
            prefix,
            entries,
            sep,
            esc,
            tr,
        ) + pairs_of_value(spec_child_path(prefix, e.0, sep, esc, tr), e.1, sep, esc, tr));
    }
}

/// Appending one item at the end of an array is one more block of pairs.
pub proof fn lemma_pairs_of_items_snoc(
    prefix: Seq<u8>,
    items: Seq<TreeV>,
    x: TreeV,
    base: int,
    sep: u8,
    esc: Seq<u8>,
    tr: KeyTransform,
)
    ensures
        pairs_of_items(prefix, items.push(x), base, sep, esc, tr) == pairs_of_items(
            prefix,
            items,
            base,
            sep,
            esc,
            tr,
        ) + (if x is Obj {
            pairs_of_value(
                spec_join(prefix, digits_of(base + items.len()), sep),
                x,
                sep,
                esc,
                tr,
            )
        } else {
            seq![(spec_join(prefix, digits_of(base + items.len()), sep), spec_leaf_text(x))]
        }),
    decreases items,
{
    let pushed = items.push(x);
    if items.len() == 0 {
        assert(pushed[0] == x);
        assert(pushed.drop_first() =~= Seq::<TreeV>::empty());
        assert(pairs_of_items(prefix, pushed.drop_first(), base + 1, sep, esc, tr)
            =~= Seq::<(Seq<u8>, Seq<u8>)>::empty());
        let block = if x is Obj {
            pairs_of_value(spec_join(prefix, digits_of(base), sep), x, sep, esc, tr)
        } else {
            seq![(spec_join(prefix, digits_of(base), sep), spec_leaf_text(x))]
        };
        assert(pairs_of_items(prefix, pushed, base, sep, esc, tr) =~= block);
        assert(pairs_of_items(prefix, items, base, sep, esc, tr) + block =~= block);
    } else {
        assert(pushed[0] == items[0]);
        assert(pushed.drop_first() =~= items.drop_first().push(x));
        lemma_pairs_of_items_snoc(prefix, items.drop_first(), x, base + 1, sep, esc, tr);
    }
}

/// Case-transform of one key segment, executable.
pub fn transform_key_part(k: &Vec<u8>, tr: &KeyTransform) -> (r: Vec<u8>)
    ensures
        r@ == spec_transform(k@, *tr),
{
    match tr {
        KeyTransform::Identity => clone_bytes(k),
        KeyTransform::UpperSnake => upper_snake(k),
    }
}

/// Separator replacement inside one segment, executable.
pub fn escape_segment(s: &Vec<u8>, sep: u8, esc: &Vec<u8>) -> (r: Vec<u8>)
    ensures
        r@ == spec_escape(s@, sep, esc@),
{
    let mut r: Vec<u8> = Vec::new();
    let mut i: usize = 0;
    while i < s.len()
        invariant
            0 <= i <= s@.len(),
            r@ == spec_escape(s@.take(i as int), sep, esc@),
        decreases s@.len() - i,
    {
        let b = s[i];
        if b == sep {
            let mut e = clone_bytes(esc);
            r.append(&mut e);
        } else {
            r.push(b);
        }
        proof {
            lemma_escape_snoc(s@.take(i as int), b, sep, esc@);
            assert(s@.take(i + 1) =~= s@.take(i as int).push(s@[i as int]));
        }
        i += 1;
    }
    proof {
        assert(s@.take(s@.len() as int) =~= s@);
    }
    r
}

/// One more byte at the end of a segment is one more replacement block.
pub proof fn lemma_escape_snoc(s: Seq<u8>, b: u8, sep: u8, esc: Seq<u8>)
    ensures
        spec_escape(s.push(b), sep, esc) == spec_escape(s, sep, esc) + (if b == sep {
            esc
        } else {
            seq![b]
        }),
    decreases s,
{
    let pushed = s.push(b);
    if s.len() == 0 {
        assert(pushed[0] == b);
        assert(pushed.drop_first() =~= Seq::<u8>::empty());
        assert(spec_escape(pushed.drop_first(), sep, esc) =~= Seq::<u8>::empty());
        assert(spec_escape(s, sep, esc) =~= Seq::<u8>::empty());
        assert(spec_escape(pushed, sep, esc) =~= (if b == sep {
            esc
        } else {
            seq![b]
        }));
    } else {
        assert(pushed[0] == s[0]);
        assert(pushed.drop_first() =~= s.drop_first().push(b));
        lemma_escape_snoc(s.drop_first(), b, sep, esc);
        assert(spec_escape(pushed, sep, esc) =~= spec_escape(s, sep, esc) + (if b == sep {
            esc
        } else {
            seq![b]
        }));
    }
}

/// The joined path of a segment under a prefix, executable.
pub fn join_path(prefix: &Vec<u8>, seg: &Vec<u8>, sep: u8) -> (r: Vec<u8>)
    ensures
        r@ == spec_join(prefix@, seg@, sep),
{
    if prefix.len() == 0 {
        let r = clone_bytes(seg);
        proof {
            assert(r@ =~= spec_join(prefix@, seg@, sep));
        }
        r
    } else {
        let mut r = clone_bytes(prefix);
        r.push(sep);
        let mut s = clone_bytes(seg);
        r.append(&mut s);
        proof {
            assert(r@ =~= prefix@ + seq![sep] + seg@);
        }
        r
    }
}

/// The decimal text of a number, executable.
pub fn digits(n: usize) -> (r: Vec<u8>)
    ensures
        r@ == digits_of(n as int),
    decreases n,
{
    if n < 10 {
        let mut r: Vec<u8> = Vec::new();
        r.push(48 + (n as u8));
        proof {
            assert(r@ =~= digits_of(n as int));
        }
        r
    } else {
        let mut r = digits(n / 10);
        r.push(48 + ((n % 10) as u8));
        r
    }
}

/// The leaf text of a non-object value, executable.
pub fn leaf_text(v: &Tree) -> (r: Vec<u8>)
    ensures
        r@ == spec_leaf_text(v@),
{
    match v {
        Tree::Str(s) => clone_bytes(s),
        Tree::Num(n) => clone_bytes(n),
        Tree::Bool(b) => {
            let mut r: Vec<u8> = Vec::new();
            if *b {
                r.push(116);
                r.push(114);
                r.push(117);
                r.push(101);
                proof {
                    assert(r@ =~= seq![116u8, 114u8, 117u8, 101u8]);
                }
            } else {
                r.push(102);
                r.push(97);
                r.push(108);
                r.push(115);
                r.push(101);
                proof {
                    assert(r@ =~= seq![102u8, 97u8, 108u8, 115u8, 101u8]);
                }
            }
            r
        },
        Tree::Null => {
            let mut r: Vec<u8> = Vec::new();
            r.push(110);
            r.push(117);
            r.push(108);
            r.push(108);
            proof {
                assert(r@ =~= seq![110u8, 117u8, 108u8, 108u8]);
            }
            r
        },
        _ => render_json_compact(v),
    }
}

/// The raw pairs of a value at a path, in traversal order, executable.
pub fn collect_pairs(
    prefix: &Vec<u8>,
    v: &Tree,
    sep: u8,
    esc: &Vec<u8>,
    tr: &KeyTransform,
) -> (r: Vec<(Vec<u8>, Vec<u8>)>)
    ensures
        views_of_pairs(r@) == pairs_of_value(prefix@, v@, sep, esc@, *tr),
    decreases v,
{
    match v {
        Tree::Obj(entries) => {
            proof {
                lemma_views_of_entries(entries@);
            }
            let ghost evs = views_of_entries(entries@);
            let mut out: Vec<(Vec<u8>, Vec<u8>)> = Vec::new();
            let mut i: usize = 0;
            while i < entries.len()
                invariant
                    0 <= i <= entries@.len(),
                    *v == Tree::Obj(*entries),
                    evs == views_of_entries(entries@),
                    evs.len() == entries@.len(),
                    forall|j: int| 0 <= j < entries@.len() ==> #[trigger] evs[j]
                        == (entries@[j].0@, entries@[j].1@),
                    views_of_pairs(out@) == pairs_of_entries(
                        prefix@,
                        evs.take(i as int),
                        sep,
                        esc@,
                        *tr,
                    ),
                decreases entries@.len() - i,
            {
                proof {
                    assert(decreases_to!(*v => v->Obj_0));
                    assert(v->Obj_0 == *entries);
                    assert(decreases_to!(*entries => entries[i as int]));
                    assert(decreases_to!(entries[i as int] => entries[i as int].1));
                    assert(decreases_to!(*v => entries[i as int].1));
                }
                let seg0 = transform_key_part(&entries[i].0, tr);
                let seg = escape_segment(&seg0, sep, esc);
                let path = join_path(prefix, &seg, sep);
                let mut child = collect_pairs(&path, &entries[i].1, sep, esc, tr);
                proof {
                    lemma_views_of_pairs(out@);
                    lemma_views_of_pairs(child@);
                }
                let ghost out_before = out@;
                let ghost child_before = child@;
                out.append(&mut child);
                proof {
                    lemma_views_concat(out_before, child_before);
                    assert(evs.take(i + 1).drop_last() =~= evs.take(i as int));
                    assert(evs.take(i + 1) =~= evs.take(i as int).push(evs[i as int]));
                    lemma_pairs_of_entries_snoc(
                        prefix@,
                        evs.take(i as int),
                        evs[i as int],
                        sep,
                        esc@,
                        *tr,
                    );
                }
                i += 1;
            }
            proof {
                assert(evs.take(evs.len() as int) =~= evs);
            }
            out
        },
        Tree::Arr(items) => {
            proof {
                lemma_views_of_trees(items@);
            }
            let ghost ivs = views_of_trees(items@);
            let mut out: Vec<(Vec<u8>, Vec<u8>)> = Vec::new();
            let mut i: usize = 0;
            while i < items.len()
                invariant
                    0 <= i <= items@.len(),
                    *v == Tree::Arr(*items),
                    ivs == views_of_trees(items@),
                    ivs.len() == items@.len(),
                    forall|j: int| 0 <= j < items@.len() ==> #[trigger] ivs[j] == items@[j]@,
                    views_of_pairs(out@) == pairs_of_items(
                        prefix@,
                        ivs.take(i as int),
                        0,
                        sep,
                        esc@,
                        *tr,
                    ),
                decreases items@.len() - i,
            {
                proof {
                    assert(decreases_to!(*v => v->Arr_0));
                    assert(v->Arr_0 == *items);
                    assert(decreases_to!(*items => items[i as int]));
                    assert(decreases_to!(*v => items[i as int]));
                }
                let d = digits(i);
                let path = join_path(prefix, &d, sep);
                let is_obj = match &items[i] {
                    Tree::Obj(_) => true,
                    _ => false,
                };
                if is_obj {
                    let mut child = collect_pairs(&path, &items[i], sep, esc, tr);
                    proof {
                        lemma_views_of_pairs(out@);
                        lemma_views_of_pairs(child@);
                    }
                    let ghost out_before = out@;
                    let ghost child_before = child@;
                    out.append(&mut child);
                    proof {
                        lemma_views_concat(out_before, child_before);
                    }
                } else {
                    let text = leaf_text(&items[i]);
                    let ghost out_before = out@;
                    out.push((path, text));
                    proof {
                        lemma_views_snoc(out_before, (out@[out@.len() - 1]));
                        assert(out@ =~= out_before.push(out@[out@.len() - 1]));
                    }
                }
                proof {
                    assert(ivs.take(i + 1).drop_last() =~= ivs.take(i as int));
                    assert(ivs.take(i + 1) =~= ivs.take(i as int).push(ivs[i as int]));
                    lemma_pairs_of_items_snoc(
                        prefix@,
                        ivs.take(i as int),
                        ivs[i as int],
                        0,
                        sep,
                        esc@,
                        *tr,
                    );
                    assert(ivs.take(i as int).len() == i as int);
                }
                i += 1;
            }
            proof {
                assert(ivs.take(ivs.len() as int) =~= ivs);
            }
            out
        },
        _ => {
            let text = leaf_text(v);
            let path = clone_bytes(prefix);
            let mut out: Vec<(Vec<u8>, Vec<u8>)> = Vec::new();
            out.push((path, text));
            proof {
                lemma_views_of_pairs(out@);
                assert(views_of_pairs(out@) =~= seq![(prefix@, spec_leaf_text(v@))]);
                assert(!(v@ is Obj) && !(v@ is Arr)) by {
                    if v@ is Obj {
                        assert(v matches Tree::Obj(_));
                    }
                    if v@ is Arr {
                        assert(v matches Tree::Arr(_));
                    }
                }
            }
            out
        },
    }
}

/// One more raw pair at the end is one more insertion.
pub proof fn lemma_insert_all_snoc(
    acc: Seq<(Seq<u8>, Seq<u8>)>,
    raw: Seq<(Seq<u8>, Seq<u8>)>,
    e: (Seq<u8>, Seq<u8>),
)
    ensures
        spec_insert_all(acc, raw.push(e)) == spec_insert(spec_insert_all(acc, raw), e.0, e.1),
    decreases raw,
{
    let pushed = raw.push(e);
    assert(pushed.len() > 0);
    if raw.len() == 0 {
        assert(pushed[0] == e);
        assert(pushed.drop_first() =~= Seq::<(Seq<u8>, Seq<u8>)>::empty());
        assert(spec_insert_all(spec_insert(acc, e.0, e.1), pushed.drop_first())
            == spec_insert(acc, e.0, e.1));
        assert(spec_insert_all(acc, raw) == acc);
    } else {
        assert(pushed[0] == raw[0]);
        assert(pushed.drop_first() =~= raw.drop_first().push(e));
        lemma_insert_all_snoc(spec_insert(acc, raw[0].0, raw[0].1), raw.drop_first(), e);
    }
}

/// The walked part of an ordered insertion: entries whose keys precede the
/// new key stay in front, and the insertion continues behind them.
pub proof fn lemma_insert_skip(ps: Seq<(Seq<u8>, Seq<u8>)>, k: Seq<u8>, v: Seq<u8>, i: int)
    requires
        0 <= i <= ps.len(),
        forall|j: int| 0 <= j < i ==> bytes_lt(#[trigger] ps[j].0, k),
    ensures
        spec_insert(ps, k, v) == ps.take(i) + spec_insert(ps.skip(i), k, v),
    decreases i,
{
    if i == 0 {
        assert(ps.take(0) =~= Seq::<(Seq<u8>, Seq<u8>)>::empty());
        assert(ps.skip(0) =~= ps);
        assert(spec_insert(ps, k, v) =~= ps.take(0) + spec_insert(ps.skip(0), k, v));
    } else {
        assert(bytes_lt(ps[0].0, k));
        lemma_bytes_lt_trichotomy(k, ps[0].0);
        assert(spec_insert(ps, k, v) == seq![ps[0]] + spec_insert(ps.drop_first(), k, v));
        assert forall|j: int| 0 <= j < i - 1 implies bytes_lt(
            #[trigger] ps.drop_first()[j].0,
            k,
        ) by {
            assert(ps.drop_first()[j] == ps[j + 1]);
        }
        lemma_insert_skip(ps.drop_first(), k, v, i - 1);
        assert(ps.drop_first().take(i - 1) =~= ps.take(i).drop_first());
        assert(ps.drop_first().skip(i - 1) =~= ps.skip(i));
        assert(seq![ps[0]] + (ps.take(i).drop_first() + spec_insert(ps.skip(i), k, v)) =~= ps.take(
            i,
        ) + spec_insert(ps.skip(i), k, v));
    }
}

/// Ordered insertion of one pair, executable: walks past smaller keys,
/// overwrites an equal key, inserts before a greater one.
pub fn insert_sorted(ps: &mut Vec<(Vec<u8>, Vec<u8>)>, k: Vec<u8>, v: Vec<u8>)
    ensures
        views_of_pairs(final(ps)@) == spec_insert(views_of_pairs(old(ps)@), k@, v@),
{
    proof {
        lemma_views_of_pairs(ps@);
    }
    let ghost orig = views_of_pairs(ps@);
    let mut i: usize = 0;
    while i < ps.len() && bytes_lt_exec(ps[i].0.as_slice(), k.as_slice())
        invariant
            0 <= i <= ps@.len(),
            ps@ == old(ps)@,
            orig == views_of_pairs(ps@),
            orig.len() == ps@.len(),
            forall|j: int| 0 <= j < ps@.len() ==> #[trigger] orig[j] == (ps@[j].0@, ps@[j].1@),
            forall|j: int| 0 <= j < i ==> bytes_lt(#[trigger] orig[j].0, k@),
        decreases ps@.len() - i,
    {
        i += 1;
    }
    proof {
        lemma_insert_skip(orig, k@, v@, i as int);
    }
    if i < ps.len() && bytes_eq(ps[i].0.as_slice(), k.as_slice()) {
        ps[i] = (k, v);
        proof {
            lemma_views_of_pairs(ps@);
            assert(orig.skip(i as int)[0].0 == orig[i as int].0);
            assert(orig.skip(i as int).drop_first() =~= orig.skip(i + 1));
            assert(views_of_pairs(ps@) =~= orig.take(i as int) + (seq![
                (k@, v@),
            ] + orig.skip(i + 1)));
        }
    } else {
        proof {
            if i < ps@.len() {
                lemma_bytes_lt_trichotomy(k@, orig[i as int].0);
                assert(orig.skip(i as int)[0].0 == orig[i as int].0);
                assert(bytes_lt(k@, orig.skip(i as int)[0].0));
            } else {
                assert(orig.skip(i as int).len() == 0);
            }
        }
        ps.insert(i, (k, v));
        proof {
            lemma_views_of_pairs(ps@);
            if i < orig.len() {
                assert(views_of_pairs(ps@) =~= orig.take(i as int) + (seq![(k@, v@)] + orig.skip(
                    i as int,
                )));
            } else {
                assert(orig.skip(i as int) =~= Seq::<(Seq<u8>, Seq<u8>)>::empty());
                assert(views_of_pairs(ps@) =~= orig.take(i as int) + seq![(k@, v@)]);
            }
        }
    }
}

/// The flattening of a tree, executable: raw pairs collected in traversal
/// order, then inserted into the key-ordered map, later duplicates
/// overwriting earlier ones.
pub fn flatten(t: &Tree, sep: u8, esc: &Vec<u8>, tr: &KeyTransform) -> (r: Vec<
    (Vec<u8>, Vec<u8>),
>)
    ensures
        views_of_pairs(r@) == spec_flatten(t@, sep, esc@, *tr),
{
    let empty: Vec<u8> = Vec::new();
    let raw = collect_pairs(&empty, t, sep, esc, tr);
    proof {
        lemma_views_of_pairs(raw@);
    }
    let ghost rawv = views_of_pairs(raw@);
    let mut out: Vec<(Vec<u8>, Vec<u8>)> = Vec::new();
    let mut i: usize = 0;
    while i < raw.len()
        invariant
            0 <= i <= raw@.len(),
            rawv == views_of_pairs(raw@),
            rawv.len() == raw@.len(),
            forall|j: int| 0 <= j < raw@.len() ==> #[trigger] rawv[j]
                == (raw@[j].0@, raw@[j].1@),
            views_of_pairs(out@) == spec_insert_all(Seq::empty(), rawv.take(i as int)),
        decreases raw@.len() - i,
    {
        let kk = clone_bytes(&raw[i].0);
        let vv = clone_bytes(&raw[i].1);
        insert_sorted(&mut out, kk, vv);
        proof {
            assert(rawv.take(i + 1).drop_last() =~= rawv.take(i as int));
            assert(rawv.take(i + 1) =~= rawv.take(i as int).push(rawv[i as int]));
            lemma_insert_all_snoc(Seq::empty(), rawv.take(i as int), rawv[i as int]);
        }
        i += 1;
    }
    proof {
        assert(rawv.take(rawv.len() as int) =~= rawv);
    }
    out
}

/// Pair keys in strictly increasing order (no duplicates).
pub open spec fn sorted_flat_pairs(ps: Seq<(Seq<u8>, Seq<u8>)>) -> bool {
    forall|i: int, j: int| 0 <= i < j < ps.len() ==> bytes_lt(ps[i].0, ps[j].0)
}

/// Ordered insertion keeps the pairs in strictly increasing key order.
pub proof fn lemma_insert_keeps_order(ps: Seq<(Seq<u8>, Seq<u8>)>, k: Seq<u8>, v: Seq<u8>)
    requires
        sorted_flat_pairs(ps),
    ensures
        sorted_flat_pairs(spec_insert(ps, k, v)),
        forall|k2: Seq<u8>| #![trigger pair_key_present(spec_insert(ps, k, v), k2)]
            pair_key_present(spec_insert(ps, k, v), k2) <==> pair_key_present(ps, k2) || k2 == k,
    decreases ps,
{
    let r = spec_insert(ps, k, v);
    if ps.len() == 0 {
        assert(r[0].0 == k);
        assert forall|k2: Seq<u8>|
            pair_key_present(r, k2) implies pair_key_present(ps, k2) || k2 == k by {
            let j = choose|j: int| 0 <= j < r.len() && r[j].0 == k2;
        }
    } else if bytes_lt(k, ps[0].0) {
        assert(r == seq![(k, v)] + ps);
        assert forall|i: int, j: int| 0 <= i < j < r.len() implies bytes_lt(r[i].0, r[j].0) by {
            if i == 0 {
                if j > 1 {
                    crate::unflatten::lemma_bytes_lt_trans(k, ps[0].0, ps[j - 1].0);
                }
            } else {
                assert(r[i] == ps[i - 1] && r[j] == ps[j - 1]);
            }
        }
        assert(r[0].0 == k);
        assert forall|k2: Seq<u8>|
            pair_key_present(r, k2) implies pair_key_present(ps, k2) || k2 == k by {
            let j = choose|j: int| 0 <= j < r.len() && r[j].0 == k2;
            if j > 0 {
                assert(ps[j - 1].0 == k2);
            }
        }
        assert forall|k2: Seq<u8>|
            pair_key_present(ps, k2) implies pair_key_present(r, k2) by {
            let j = choose|j: int| 0 <= j < ps.len() && ps[j].0 == k2;
            assert(r[j + 1].0 == k2);
        }
    } else if k == ps[0].0 {
        assert(r == seq![(k, v)] + ps.drop_first());
        assert forall|i: int, j: int| 0 <= i < j < r.len() implies bytes_lt(r[i].0, r[j].0) by {
            if i == 0 {
                assert(r[j] == ps.drop_first()[j - 1]);
                assert(ps.drop_first()[j - 1] == ps[j]);
                assert(bytes_lt(ps[0].0, ps[j].0));
            } else {
                assert(r[i] == ps[i] && r[j] == ps[j]);
            }
        }
        assert(r[0].0 == k);
        assert forall|k2: Seq<u8>|
            pair_key_present(r, k2) implies pair_key_present(ps, k2) || k2 == k by {
            let j = choose|j: int| 0 <= j < r.len() && r[j].0 == k2;
            if j > 0 {
                assert(ps[j].0 == k2);
            }
        }
        assert forall|k2: Seq<u8>|
            pair_key_present(ps, k2) implies pair_key_present(r, k2) by {
            let j = choose|j: int| 0 <= j < ps.len() && ps[j].0 == k2;
            if j == 0 {
                assert(r[0].0 == k2);
            } else {
                assert(r[j].0 == k2);
            }
        }
    } else {
        lemma_bytes_lt_trichotomy(k, ps[0].0);
        assert(bytes_lt(ps[0].0, k));
        let rest = ps.drop_first();
        assert forall|i: int, j: int| 0 <= i < j < rest.len() implies bytes_lt(
            rest[i].0,
            rest[j].0,
        ) by {
            assert(rest[i] == ps[i + 1] && rest[j] == ps[j + 1]);
        }
        lemma_insert_keeps_order(rest, k, v);
        let rr = spec_insert(rest, k, v);
        assert(r == seq![ps[0]] + rr);
        assert forall|i: int, j: int| 0 <= i < j < r.len() implies bytes_lt(r[i].0, r[j].0) by {
            if i == 0 {
                assert(pair_key_present(rr, r[j].0)) by {
                    assert(rr[j - 1].0 == r[j].0);
                }
                if r[j].0 == k {
                    assert(bytes_lt(ps[0].0, k));
                } else {
                    assert(pair_key_present(rest, r[j].0));
                    let w = choose|w: int| 0 <= w < rest.len() && rest[w].0 == r[j].0;
                    assert(rest[w] == ps[w + 1]);
                    assert(bytes_lt(ps[0].0, ps[w + 1].0));
                }
            } else {
                assert(r[i] == rr[i - 1] && r[j] == rr[j - 1]);
            }
        }
        assert forall|k2: Seq<u8>|
            pair_key_present(r, k2) implies pair_key_present(ps, k2) || k2 == k by {
            let j = choose|j: int| 0 <= j < r.len() && r[j].0 == k2;
            if j == 0 {
                assert(ps[0].0 == k2);
            } else {
                assert(rr[j - 1].0 == k2);
                assert(pair_key_present(rr, k2));
                if k2 != k {
                    assert(pair_key_present(rest, k2));
                    let w = choose|w: int| 0 <= w < rest.len() && rest[w].0 == k2;
                    assert(rest[w] == ps[w + 1]);
                    assert(ps[w + 1].0 == k2);
                }
            }
        }
        assert forall|k2: Seq<u8>|
            pair_key_present(ps, k2) || k2 == k implies pair_key_present(r, k2) by {
            if k2 != k && pair_key_present(ps, k2) {
                let j = choose|j: int| 0 <= j < ps.len() && ps[j].0 == k2;
                if j == 0 {
                    assert(r[0].0 == k2);
                } else {
                    assert(rest[j - 1].0 == k2);
                    assert(pair_key_present(rest, k2));
                    assert(pair_key_present(rr, k2));
                    let w = choose|w: int| 0 <= w < rr.len() && rr[w].0 == k2;
                    assert(r[w + 1].0 == k2);
                }
            } else {
                assert(k2 == k);
                assert(pair_key_present(spec_insert(rest, k, v), k));
                let w = choose|w: int| 0 <= w < rr.len() && rr[w].0 == k;
                assert(r[w + 1].0 == k);
            }
        }
    }
}

/// Whether a pair list binds a key.
pub open spec fn pair_key_present(ps: Seq<(Seq<u8>, Seq<u8>)>, k: Seq<u8>) -> bool {
    exists|i: int| 0 <= i < ps.len() && ps[i].0 == k
}

/// Folding raw pairs into the ordered map keeps it ordered.
pub proof fn lemma_insert_all_sorted(acc: Seq<(Seq<u8>, Seq<u8>)>, raw: Seq<(Seq<u8>, Seq<u8>)>)
    requires
        sorted_flat_pairs(acc),
    ensures
        sorted_flat_pairs(spec_insert_all(acc, raw)),
    decreases raw,
{
    if raw.len() > 0 {
        lemma_insert_keeps_order(acc, raw[0].0, raw[0].1);
        lemma_insert_all_sorted(spec_insert(acc, raw[0].0, raw[0].1), raw.drop_first());
    }
}

/// The flattening of any tree lists its keys in strictly increasing byte
/// order: the rendered key-value output is deterministic and duplicate
/// free, as the downstream serialization requires.
pub proof fn lemma_flatten_sorted(t: TreeV, sep: u8, esc: Seq<u8>, tr: KeyTransform)
    ensures
        sorted_flat_pairs(spec_flatten(t, sep, esc, tr)),
{
    lemma_insert_all_sorted(Seq::empty(), pairs_of_value(Seq::empty(), t, sep, esc, tr));
}

/// One rendered line of the key-value output.
pub open spec fn spec_pair_line(p: (Seq<u8>, Seq<u8>)) -> Seq<u8> {
    p.0 + seq![61u8] + p.1
}

/// The rendered key-value text: `key=value` lines joined by newlines, with
/// no trailing newline.
pub open spec fn spec_render_pairs(ps: Seq<(Seq<u8>, Seq<u8>)>) -> Seq<u8>
    decreases ps,
{
    if ps.len() == 0 {
        Seq::empty()
    } else if ps.len() == 1 {
        spec_pair_line(ps[0])
    } else {
        spec_pair_line(ps[0]) + seq![10u8] + spec_render_pairs(ps.drop_first())
    }
}

/// One more pair at the end is one more line.
pub proof fn lemma_render_pairs_snoc(ps: Seq<(Seq<u8>, Seq<u8>)>, e: (Seq<u8>, Seq<u8>))
    ensures
        spec_render_pairs(ps.push(e)) == if ps.len() == 0 {
            spec_pair_line(e)
        } else {
            spec_render_pairs(ps) + seq![10u8] + spec_pair_line(e)
        },
    decreases ps,
{
    let pushed = ps.push(e);
    if ps.len() == 0 {
        assert(pushed[0] == e);
    } else {
        assert(pushed[0] == ps[0]);
        assert(pushed.drop_first() =~= ps.drop_first().push(e));
        lemma_render_pairs_snoc(ps.drop_first(), e);
        if ps.len() == 1 {
            assert(ps.drop_first().len() == 0);
            assert(spec_render_pairs(pushed) =~= spec_render_pairs(ps) + seq![10u8]
                + spec_pair_line(e));
        } else {
            assert(spec_render_pairs(pushed) =~= spec_render_pairs(ps) + seq![10u8]
                + spec_pair_line(e));
        }
    }
}

/// The rendered key-value text, executable.
pub fn render_pairs(ps: &Vec<(Vec<u8>, Vec<u8>)>) -> (r: Vec<u8>)
    ensures
        r@ == spec_render_pairs(views_of_pairs(ps@)),
{
    proof {
        lemma_views_of_pairs(ps@);
    }
    let ghost psv = views_of_pairs(ps@);
    let mut out: Vec<u8> = Vec::new();
    let mut i: usize = 0;
    while i < ps.len()
        invariant
            0 <= i <= ps@.len(),
            psv == views_of_pairs(ps@),
            psv.len() == ps@.len(),
            forall|j: int| 0 <= j < ps@.len() ==> #[trigger] psv[j] == (ps@[j].0@, ps@[j].1@),
            out@ == spec_render_pairs(psv.take(i as int)),
        decreases ps@.len() - i,
    {
        if i > 0 {
            out.push(10);
        }
        let mut kk = clone_bytes(&ps[i].0);
        out.append(&mut kk);
        out.push(61);
        let mut vv = clone_bytes(&ps[i].1);
        out.append(&mut vv);
        proof {
            assert(psv.take(i + 1).drop_last() =~= psv.take(i as int));
            assert(psv.take(i + 1) =~= psv.take(i as int).push(psv[i as int]));
            lemma_render_pairs_snoc(psv.take(i as int), psv[i as int]);
            if i == 0 {
                assert(out@ =~= spec_pair_line(psv[0]));
            } else {
                assert(out@ =~= spec_render_pairs(psv.take(i as int)) + seq![10u8]
                    + spec_pair_line(psv[i as int]));
            }
        }
        i += 1;
    }
    proof {
        assert(psv.take(psv.len() as int) =~= psv);
    }
    out
}

/// Views of concatenated pair vectors concatenate.
pub proof fn lemma_views_concat(a: Seq<(Vec<u8>, Vec<u8>)>, b: Seq<(Vec<u8>, Vec<u8>)>)
    ensures
        views_of_pairs(a + b) == views_of_pairs(a) + views_of_pairs(b),
    decreases a,
{
    lemma_views_of_pairs(a);
    lemma_views_of_pairs(b);
    lemma_views_of_pairs(a + b);
    assert(views_of_pairs(a + b) =~= views_of_pairs(a) + views_of_pairs(b));
}

/// Views of a pair vector with one more pair at the end.
pub proof fn lemma_views_snoc(a: Seq<(Vec<u8>, Vec<u8>)>, e: (Vec<u8>, Vec<u8>))
    ensures
        views_of_pairs(a.push(e)) == views_of_pairs(a).push((e.0@, e.1@)),
{
    lemma_views_of_pairs(a);
    lemma_views_of_pairs(a.push(e));
    assert(views_of_pairs(a.push(e)) =~= views_of_pairs(a).push((e.0@, e.1@)));
}

} // verus!
