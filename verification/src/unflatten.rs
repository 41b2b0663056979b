//! Rebuilding a canonical tree from flat key-value pairs: the parse side
//! of the properties and env-file codecs.
//!
//! A key splits into path segments at the separator (an escape character
//! in front of a separator keeps it literal), each segment is
//! case-transformed, and the path is inserted into the tree: an
//! all-digits segment indexes an array, any other segment names an
//! object entry, and the last segment binds the value as a string leaf.

use vstd::assert_sets_equal;
use vstd::prelude::*;

use crate::flatten::{bytes_lt, lemma_bytes_lt_trichotomy, spec_insert};
use crate::tree::{
    clone_bytes, bytes_eq, lemma_views_of_entries, lemma_views_of_trees, views_of_entries,
    views_of_trees, Tree, TreeV,
};

verus! {

/// Pair keys in strictly increasing order.
pub open spec fn sorted_pairs(ps: Seq<(Seq<u8>, Seq<u8>)>) -> bool {
    forall|i: int, j: int| 0 <= i < j < ps.len() ==> bytes_lt(ps[i].0, ps[j].0)
}

/// Whether a pair list binds a key.
pub open spec fn pairs_contain_key(ps: Seq<(Seq<u8>, Seq<u8>)>, k: Seq<u8>) -> bool {
    exists|i: int| 0 <= i < ps.len() && ps[i].0 == k
}

/// The map a pair list denotes; on a duplicate key the earliest pair wins.
pub open spec fn pairs_as_map(ps: Seq<(Seq<u8>, Seq<u8>)>) -> Map<Seq<u8>, Seq<u8>>
    decreases ps,
{
    if ps.len() == 0 {
        Map::empty()
    } else {
        pairs_as_map(ps.drop_first()).insert(ps[0].0, ps[0].1)
    }
}

/// The strict byte order is transitive.
pub proof fn lemma_bytes_lt_trans(a: Seq<u8>, b: Seq<u8>, c: Seq<u8>)
    requires
        bytes_lt(a, b),
        bytes_lt(b, c),
    ensures
        bytes_lt(a, c),
    decreases a,
{
    if a.len() == 0 {
    } else {
        if a[0] < b[0] {
            if b[0] <= c[0] {
            }
        } else {
            if a[0] == b[0] {
                if b[0] < c[0] {
                } else {
                    lemma_bytes_lt_trans(a.drop_first(), b.drop_first(), c.drop_first());
                }
            }
        }
    }
}

/// Ordered insertion of a fresh key keeps the list sorted and acts on the
/// denoted map as one insertion.
pub proof fn lemma_insert_fresh(ps: Seq<(Seq<u8>, Seq<u8>)>, k: Seq<u8>, v: Seq<u8>)
    requires
        sorted_pairs(ps),
        !pairs_contain_key(ps, k),
    ensures
        sorted_pairs(spec_insert(ps, k, v)),
        pairs_as_map(spec_insert(ps, k, v)) == pairs_as_map(ps).insert(k, v),
        forall|k2: Seq<u8>|
            pairs_contain_key(spec_insert(ps, k, v), k2) <==> pairs_contain_key(ps, k2) || k2
                == k,
    decreases ps,
{
    let r = spec_insert(ps, k, v);
    if ps.len() == 0 {
        assert(r[0] == (k, v));
        assert(r.drop_first() =~= Seq::<(Seq<u8>, Seq<u8>)>::empty());
        assert(pairs_as_map(r) == pairs_as_map(r.drop_first()).insert(k, v));
        assert(pairs_as_map(r.drop_first()).len() >= 0);
        assert(pairs_as_map(r) =~= pairs_as_map(ps).insert(k, v));
        assert forall|k2: Seq<u8>|
            pairs_contain_key(r, k2) implies pairs_contain_key(ps, k2) || k2 == k by {
            let j = choose|j: int| 0 <= j < r.len() && r[j].0 == k2;
        }
        assert(r[0].0 == k);
    } else if bytes_lt(k, ps[0].0) {
        assert(r == seq![(k, v)] + ps);
        assert(r.drop_first() =~= ps);
        assert(pairs_as_map(r) == pairs_as_map(ps).insert(k, v));
        assert forall|i: int, j: int| 0 <= i < j < r.len() implies bytes_lt(r[i].0, r[j].0) by {
            if i == 0 {
                if j > 1 {
                    lemma_bytes_lt_trans(k, ps[0].0, ps[j - 1].0);
                }
            }
        }
        assert forall|k2: Seq<u8>|
            pairs_contain_key(r, k2) implies pairs_contain_key(ps, k2) || k2 == k by {
            let j = choose|j: int| 0 <= j < r.len() && r[j].0 == k2;
            if j > 0 {
                assert(ps[j - 1].0 == k2);
            }
        }
        assert(r[0].0 == k);
        assert forall|k2: Seq<u8>|
            pairs_contain_key(ps, k2) implies pairs_contain_key(r, k2) by {
            let j = choose|j: int| 0 <= j < ps.len() && ps[j].0 == k2;
            assert(r[j + 1].0 == k2);
        }
    } else {
        lemma_bytes_lt_trichotomy(k, ps[0].0);
        assert(k != ps[0].0) by {
            if k == ps[0].0 {
                assert(ps[0].0 == k);
            }
        }
        assert(bytes_lt(ps[0].0, k));
        assert(r == seq![ps[0]] + spec_insert(ps.drop_first(), k, v));
        assert forall|i: int, j: int|
            0 <= i < j < ps.drop_first().len() implies bytes_lt(
            ps.drop_first()[i].0,
            ps.drop_first()[j].0,
        ) by {
            assert(ps.drop_first()[i] == ps[i + 1] && ps.drop_first()[j] == ps[j + 1]);
        }
        assert(!pairs_contain_key(ps.drop_first(), k)) by {
            if pairs_contain_key(ps.drop_first(), k) {
                let j = choose|j: int|
                    0 <= j < ps.drop_first().len() && ps.drop_first()[j].0 == k;
                assert(ps[j + 1].0 == k);
            }
        }
        lemma_insert_fresh(ps.drop_first(), k, v);
        let rr = spec_insert(ps.drop_first(), k, v);
        assert(r.drop_first() =~= rr);
        // The denoted map: insertion under the head commutes because the
        // keys differ.
        assert(pairs_as_map(r) == pairs_as_map(rr).insert(ps[0].0, ps[0].1));
        assert(pairs_as_map(rr) == pairs_as_map(ps.drop_first()).insert(k, v));
        assert(pairs_as_map(ps) == pairs_as_map(ps.drop_first()).insert(ps[0].0, ps[0].1));
        assert(pairs_as_map(ps.drop_first()).insert(k, v).insert(ps[0].0, ps[0].1)
            =~= pairs_as_map(ps.drop_first()).insert(ps[0].0, ps[0].1).insert(k, v));
        // Sortedness: the head precedes every key of the inserted rest.
        assert forall|i: int, j: int| 0 <= i < j < r.len() implies bytes_lt(r[i].0, r[j].0) by {
            if i == 0 {
                assert(r[0] == ps[0]);
                assert(pairs_contain_key(rr, r[j].0)) by {
                    assert(rr[j - 1].0 == r[j].0);
                }
                if r[j].0 == k {
                    assert(bytes_lt(ps[0].0, k));
                } else {
                    assert(pairs_contain_key(ps.drop_first(), r[j].0));
                    let w = choose|w: int|
                        0 <= w < ps.drop_first().len() && ps.drop_first()[w].0 == r[j].0;
                    assert(ps.drop_first()[w] == ps[w + 1]);
                    assert(ps[w + 1].0 == r[j].0);
                    assert(bytes_lt(ps[0].0, ps[w + 1].0));
                }
            } else {
                assert(r[i] == rr[i - 1] && r[j] == rr[j - 1]);
            }
        }
        assert forall|k2: Seq<u8>|
            pairs_contain_key(r, k2) implies pairs_contain_key(ps, k2) || k2 == k by {
            let j = choose|j: int| 0 <= j < r.len() && r[j].0 == k2;
            if j == 0 {
                assert(ps[0].0 == k2);
            } else {
                assert(rr[j - 1].0 == k2);
                assert(pairs_contain_key(rr, k2));
                if k2 != k {
                    assert(pairs_contain_key(ps.drop_first(), k2));
                    let w = choose|w: int|
                        0 <= w < ps.drop_first().len() && ps.drop_first()[w].0 == k2;
                    assert(ps.drop_first()[w] == ps[w + 1]);
                    assert(ps[w + 1].0 == k2);
                }
            }
        }
        assert forall|k2: Seq<u8>|
            pairs_contain_key(ps, k2) || k2 == k implies pairs_contain_key(r, k2) by {
            if k2 == k {
                assert(pairs_contain_key(rr, k));
                let w = choose|w: int| 0 <= w < rr.len() && rr[w].0 == k;
                assert(r[w + 1].0 == k);
            } else {
                let j = choose|j: int| 0 <= j < ps.len() && ps[j].0 == k2;
                if j == 0 {
                    assert(r[0].0 == k2);
                } else {
                    assert(ps.drop_first()[j - 1].0 == k2);
                    assert(pairs_contain_key(ps.drop_first(), k2));
                    assert(pairs_contain_key(rr, k2));
                    let w = choose|w: int| 0 <= w < rr.len() && rr[w].0 == k2;
                    assert(r[w + 1].0 == k2);
                }
            }
        }
    }
}

/// The denoted map binds exactly the listed keys.
pub proof fn lemma_pam_dom(ps: Seq<(Seq<u8>, Seq<u8>)>)
    ensures
        forall|k: Seq<u8>| pairs_as_map(ps).dom().contains(k) <==> pairs_contain_key(ps, k),
    decreases ps,
{
    if ps.len() == 0 {
    } else {
        lemma_pam_dom(ps.drop_first());
        assert forall|k: Seq<u8>|
            pairs_as_map(ps).dom().contains(k) implies pairs_contain_key(ps, k) by {
            if k == ps[0].0 {
                assert(ps[0].0 == k);
            } else {
                assert(pairs_contain_key(ps.drop_first(), k));
                let j = choose|j: int|
                    0 <= j < ps.drop_first().len() && ps.drop_first()[j].0 == k;
                assert(ps[j + 1].0 == k);
            }
        }
        assert forall|k: Seq<u8>|
            pairs_contain_key(ps, k) implies pairs_as_map(ps).dom().contains(k) by {
            let j = choose|j: int| 0 <= j < ps.len() && ps[j].0 == k;
            if j > 0 {
                assert(ps.drop_first()[j - 1].0 == k);
                assert(pairs_contain_key(ps.drop_first(), k));
            }
        }
    }
}

/// The least key of a nonempty key set under the strict byte order.
pub open spec fn min_key(keys: Set<Seq<u8>>) -> Seq<u8> {
    choose|k: Seq<u8>|
        keys.contains(k) && forall|k2: Seq<u8>| keys.contains(k2) ==> !bytes_lt(k2, k)
}

/// The canonical key-ordered listing of a finite map.
pub open spec fn sorted_listing(m: Map<Seq<u8>, Seq<u8>>) -> Seq<(Seq<u8>, Seq<u8>)>
    decreases m.dom().len() when m.dom().finite()
{
    if m.dom().len() == 0 {
        Seq::empty()
    } else {
        let k = min_key(m.dom());
        if m.dom().contains(k) {
            seq![(k, m[k])] + sorted_listing(m.remove(k))
        } else {
            Seq::empty()
        }
    }
}

/// A sorted pair list is the canonical listing of the map it denotes.
pub proof fn lemma_sorted_listing_canonical(ps: Seq<(Seq<u8>, Seq<u8>)>)
    requires
        sorted_pairs(ps),
    ensures
        pairs_as_map(ps).dom().finite(),
        pairs_as_map(ps).dom().len() == ps.len(),
        sorted_listing(pairs_as_map(ps)) == ps,
    decreases ps,
{
    lemma_pam_dom(ps);
    let m = pairs_as_map(ps);
    if ps.len() == 0 {
        assert(m.dom() =~= Set::<Seq<u8>>::empty());
        assert(sorted_listing(m) =~= Seq::<(Seq<u8>, Seq<u8>)>::empty());
    } else {
        let rest = ps.drop_first();
        assert forall|i: int, j: int|
            0 <= i < j < rest.len() implies bytes_lt(rest[i].0, rest[j].0) by {
            assert(rest[i] == ps[i + 1] && rest[j] == ps[j + 1]);
        }
        lemma_sorted_listing_canonical(rest);
        lemma_pam_dom(rest);
        // The head key is fresh in the rest: it is strictly below them all.
        assert(!pairs_contain_key(rest, ps[0].0)) by {
            if pairs_contain_key(rest, ps[0].0) {
                let j = choose|j: int| 0 <= j < rest.len() && rest[j].0 == ps[0].0;
                assert(rest[j] == ps[j + 1]);
                assert(bytes_lt(ps[0].0, ps[j + 1].0));
                lemma_bytes_lt_trichotomy(ps[0].0, ps[j + 1].0);
            }
        }
        assert(m == pairs_as_map(rest).insert(ps[0].0, ps[0].1));
        assert(m.dom() =~= pairs_as_map(rest).dom().insert(ps[0].0));
        assert(!pairs_as_map(rest).dom().contains(ps[0].0));
        assert(m.dom().len() == ps.len());
        assert(m.dom().contains(ps[0].0));
        assert(m.dom().len() > 0);
        // The head key is the least key of the whole map.
        assert forall|k2: Seq<u8>| m.dom().contains(k2) implies !bytes_lt(k2, ps[0].0) by {
            assert(pairs_contain_key(ps, k2));
            let j = choose|j: int| 0 <= j < ps.len() && ps[j].0 == k2;
            if j == 0 {
                lemma_bytes_lt_trichotomy(k2, ps[0].0);
            } else {
                assert(bytes_lt(ps[0].0, ps[j].0));
                lemma_bytes_lt_trichotomy(k2, ps[0].0);
                if bytes_lt(k2, ps[0].0) {
                    lemma_bytes_lt_trans(k2, ps[0].0, k2);
                }
            }
        }
        let kmin = min_key(m.dom());
        assert(m.dom().contains(kmin) && forall|k2: Seq<u8>|
            m.dom().contains(k2) ==> !bytes_lt(k2, kmin)) by {
            assert(m.dom().contains(ps[0].0) && forall|k2: Seq<u8>|
                m.dom().contains(k2) ==> !bytes_lt(k2, ps[0].0));
        }
        assert(kmin == ps[0].0) by {
            lemma_bytes_lt_trichotomy(kmin, ps[0].0);
        }
        assert(m[ps[0].0] == ps[0].1);
        assert(m.remove(ps[0].0) =~= pairs_as_map(rest));
        assert(sorted_listing(m) =~= ps) by {
            assert(sorted_listing(m) == seq![(ps[0].0, ps[0].1)] + sorted_listing(
                pairs_as_map(rest),
            ));
        }
    }
}

/// The split state after the first `i` bytes: finished parts, the part
/// being built, and whether the next byte is escaped.
pub open spec fn spec_split_upto(
    s: Seq<u8>,
    sep: u8,
    esc: Option<u8>,
    i: int,
) -> (Seq<Seq<u8>>, Seq<u8>, bool)
    decreases i,
{
    if i <= 0 {
        (Seq::empty(), Seq::empty(), false)
    } else {
        let st = spec_split_upto(s, sep, esc, i - 1);
        let c = s[i - 1];
        let next_is_sep = i < s.len() && s[i] == sep;
        if st.2 {
            (st.0, st.1.push(c), false)
        } else if esc matches Some(e) && c == e && next_is_sep {
            (st.0, st.1, true)
        } else if c == sep {
            (st.0.push(st.1), Seq::empty(), false)
        } else {
            (st.0, st.1.push(c), false)
        }
    }
}

/// The parts a key splits into.
pub open spec fn spec_split(s: Seq<u8>, sep: u8, esc: Option<u8>) -> Seq<Seq<u8>> {
    let st = spec_split_upto(s, sep, esc, s.len() as int);
    st.0.push(st.1)
}

/// The views of a list of byte vectors.
pub open spec fn views_of_list(s: Seq<Vec<u8>>) -> Seq<Seq<u8>>
    decreases s,
{
    if s.len() == 0 {
        Seq::empty()
    } else {
        seq![s[0]@] + views_of_list(s.drop_first())
    }
}

/// `views_of_list` indexes pointwise.
pub proof fn lemma_views_of_list(s: Seq<Vec<u8>>)
    ensures
        views_of_list(s).len() == s.len(),
        forall|i: int| 0 <= i < s.len() ==> #[trigger] views_of_list(s)[i] == s[i]@,
    decreases s,
{
    if s.len() > 0 {
        lemma_views_of_list(s.drop_first());
    }
}

/// Splitting with an optional escape character, executable.
pub fn split_bytes(s: &Vec<u8>, separator: u8, escape: Option<u8>) -> (r: Vec<Vec<u8>>)
    ensures
        views_of_list(r@) == spec_split(s@, separator, escape),
        r@.len() > 0,
{
    let mut parts: Vec<Vec<u8>> = Vec::new();
    let mut current: Vec<u8> = Vec::new();
    let mut escape_next: bool = false;
    let mut i: usize = 0;
    while i < s.len()
        invariant
            0 <= i <= s@.len(),
            (views_of_list(parts@), current@, escape_next) == spec_split_upto(
                s@,
                separator,
                escape,
                i as int,
            ),
        decreases s@.len() - i,
    {
        proof {
            lemma_views_of_list(parts@);
        }
        let c = s[i];
        let next_is_sep = i + 1 < s.len() && s[i + 1] == separator;
        if escape_next {
            current.push(c);
            escape_next = false;
        } else if (match escape {
            Some(e) => c == e && next_is_sep,
            None => false,
        }) {
            escape_next = true;
        } else if c == separator {
            let ghost oldp = parts@;
            let ghost st = spec_split_upto(s@, separator, escape, i as int);
            let done = current;
            parts.push(done);
            current = Vec::new();
            proof {
                lemma_views_of_list(parts@);
                lemma_views_of_list(oldp);
                assert(parts@.len() == oldp.len() + 1);
                assert forall|j: int| 0 <= j < parts@.len() implies #[trigger] views_of_list(
                    parts@,
                )[j] == st.0.push(st.1)[j] by {
                    if j < oldp.len() {
                        assert(parts@[j] == oldp[j]);
                    }
                }
                assert(views_of_list(parts@) =~= st.0.push(st.1));
            }
        } else {
            current.push(c);
        }
        i += 1;
    }
    let ghost oldp = parts@;
    let last = current;
    parts.push(last);
    proof {
        lemma_views_of_list(parts@);
        lemma_views_of_list(oldp);
        assert(parts@.len() == oldp.len() + 1);
        assert forall|j: int| 0 <= j < parts@.len() implies #[trigger] views_of_list(parts@)[j]
            == spec_split(s@, separator, escape)[j] by {
            if j < oldp.len() {
                assert(parts@[j] == oldp[j]);
            }
        }
        assert(views_of_list(parts@) =~= spec_split(s@, separator, escape));
    }
    parts
}

/// Splitting a key on a separator with escape handling: an escape
/// character directly before a separator makes that separator a literal
/// byte of the part instead of a boundary.
pub fn split_with_escape(s: &Vec<u8>, separator: u8, escape_char: u8) -> (r: Vec<Vec<u8>>)
    ensures
        views_of_list(r@) == spec_split(s@, separator, Some(escape_char)),
        r@.len() > 0,
{
    split_bytes(s, separator, Some(escape_char))
}

/// Whether a segment is all digits (and nonempty).
pub open spec fn is_digits(s: Seq<u8>) -> bool {
    s.len() > 0 && forall|i: int| 0 <= i < s.len() ==> 48 <= #[trigger] s[i] <= 57
}

/// The number an all-digits segment denotes.
pub open spec fn num_of(s: Seq<u8>) -> int
    decreases s,
{
    if s.len() == 0 {
        0
    } else {
        num_of(s.drop_last()) * 10 + (s.last() - 48)
    }
}

/// The array-index bound: a digits segment beyond it is treated as an
/// ordinary object key.
pub open spec fn index_bound() -> int {
    1000000000
}

/// Whether a segment indexes an array.
pub open spec fn is_index(s: Seq<u8>) -> bool {
    is_digits(s) && num_of(s) < index_bound()
}

/// Parses an array index, executable: all digits and below the bound.
pub fn parse_index(s: &Vec<u8>) -> (r: Option<usize>)
    ensures
        r is Some <==> is_index(s@),
        r matches Some(n) ==> n as int == num_of(s@),
{
    if s.len() == 0 {
        return None;
    }
    let mut acc: u64 = 0;
    let mut i: usize = 0;
    while i < s.len()
        invariant
            0 <= i <= s@.len(),
            s@.len() > 0,
            forall|j: int| 0 <= j < i ==> 48 <= #[trigger] s@[j] <= 57,
            acc as int == num_of(s@.take(i as int)),
            acc < 1000000000,
        decreases s@.len() - i,
    {
        let b = s[i];
        if b < 48 || b > 57 {
            proof {
                assert(!is_digits(s@));
            }
            return None;
        }
        let next: u64 = acc * 10 + ((b - 48) as u64);
        proof {
            assert(s@.take(i + 1).drop_last() =~= s@.take(i as int));
            assert(s@.take(i + 1).last() == s@[i as int]);
        }
        if next >= 1000000000 {
            proof {
                if is_digits(s@) {
                    lemma_num_of_monotone(s@, i + 1);
                }
            }
            return None;
        }
        acc = next;
        i += 1;
    }
    proof {
        assert(s@.take(s@.len() as int) =~= s@);
    }
    Some(acc as usize)
}

/// In an all-digits segment, a prefix denotes at most the whole.
pub proof fn lemma_num_of_monotone(s: Seq<u8>, i: int)
    requires
        0 <= i <= s.len(),
        forall|j: int| 0 <= j < s.len() ==> 48 <= #[trigger] s[j] <= 57,
    ensures
        num_of(s.take(i)) <= num_of(s),
    decreases s.len() - i,
{
    if i < s.len() {
        assert(s.take(i + 1).drop_last() =~= s.take(i));
        assert(s.take(i + 1).last() == s[i]);
        assert(num_of(s.take(i + 1)) == num_of(s.take(i)) * 10 + (s.take(i + 1).last() - 48));
        assert(num_of(s.take(i)) * 10 >= num_of(s.take(i))) by {
            assert forall|j: int| 0 <= j < s.take(i).len() implies 48 <= #[trigger] s.take(i)[j]
                <= 57 by {
                assert(s.take(i)[j] == s[j]);
            }
            lemma_num_of_nonneg(s.take(i));
        }
        assert(48 <= s[i]);
        assert(num_of(s.take(i + 1)) >= num_of(s.take(i)));
        lemma_num_of_monotone(s, i + 1);
    } else {
        assert(s.take(i) =~= s);
    }
}

/// Rendering a position and reading it back is the identity: the decimal
/// text of a non-negative number is all digits, denotes the number, and
/// so an array element's path segment always finds its position again.
pub proof fn lemma_digits_round_trip(n: int)
    requires
        0 <= n,
    ensures
        is_digits(crate::flatten::digits_of(n)),
        num_of(crate::flatten::digits_of(n)) == n,
    decreases n,
{
    let d = crate::flatten::digits_of(n);
    if n < 10 {
        assert(d == seq![(48 + n) as u8]);
        assert(0 <= 48 + n < 256);
        assert((48 + n) as u8 == 48 + n);
        assert(d.drop_last() =~= Seq::<u8>::empty());
        assert(num_of(d.drop_last()) == 0);
        assert(num_of(d) == n);
    } else {
        lemma_digits_round_trip(n / 10);
        let prev = crate::flatten::digits_of(n / 10);
        assert(d == prev.push((48 + n % 10) as u8));
        assert forall|i: int| 0 <= i < d.len() implies 48 <= #[trigger] d[i] <= 57 by {
            if i < prev.len() {
                assert(d[i] == prev[i]);
            }
        }
        assert(0 <= n % 10 < 10) by {
            vstd::arithmetic::div_mod::lemma_mod_bound(n, 10);
        }
        assert((48 + n % 10) as u8 == 48 + n % 10);
        assert(d.drop_last() =~= prev);
        assert(num_of(d) == num_of(prev) * 10 + (d.last() - 48));
        assert(n / 10 * 10 + n % 10 == n) by {
            vstd::arithmetic::div_mod::lemma_fundamental_div_mod(n, 10);
        }
    }
}

/// The number an all-digits segment denotes is never negative.
pub proof fn lemma_num_of_nonneg(s: Seq<u8>)
    requires
        forall|j: int| 0 <= j < s.len() ==> 48 <= #[trigger] s[j] <= 57,
    ensures
        num_of(s) >= 0,
    decreases s,
{
    if s.len() > 0 {
        assert forall|j: int| 0 <= j < s.drop_last().len() implies 48 <= #[trigger] s.drop_last()[j]
            <= 57 by {
            assert(s.drop_last()[j] == s[j]);
        }
        lemma_num_of_nonneg(s.drop_last());
        assert(num_of(s.drop_last()) * 10 >= 0);
        assert(s.last() >= 48);
    }
}

/// The case transform applied to each split segment before insertion.
pub enum ParseTransform {
    Identity,
    LowerCamel,
}

/// The lower-camel-case rendering of a text.
pub uninterp spec fn lower_camel_of(s: Seq<u8>) -> Seq<u8>;

/// Relies on convert_case: lowercasing and camel-casing a text depends on
/// its characters alone.
#[verifier::external_body]
pub fn lower_camel(s: &Vec<u8>) -> (r: Vec<u8>)
    ensures
        r@ == lower_camel_of(s@),
{
    let lowered = convert_case::Converter::new().to_case(convert_case::Case::Lower).convert(
        String::from_utf8_lossy(s.as_slice()),
    );
    convert_case::Converter::new().to_case(convert_case::Case::Camel).convert(
        lowered,
    ).into_bytes()
}

/// A split segment after the parse-side case transform.
pub open spec fn spec_ptransform(p: Seq<u8>, tr: ParseTransform) -> Seq<u8> {
    match tr {
        ParseTransform::Identity => p,
        ParseTransform::LowerCamel => lower_camel_of(p),
    }
}

/// Case-transform of one split segment, executable.
pub fn ptransform(p: &Vec<u8>, tr: &ParseTransform) -> (r: Vec<u8>)
    ensures
        r@ == spec_ptransform(p@, *tr),
{
    match tr {
        ParseTransform::Identity => clone_bytes(p),
        ParseTransform::LowerCamel => lower_camel(p),
    }
}

/// A sequence extended with a filler value up to a length.
pub open spec fn spec_extend(items: Seq<TreeV>, n: int, filler: TreeV) -> Seq<TreeV> {
    if items.len() >= n {
        items
    } else {
        items + Seq::new((n - items.len()) as nat, |j: int| filler)
    }
}

/// The index of the first entry bound to a key, or -1 when unbound.
pub open spec fn first_key_index(entries: Seq<(Seq<u8>, TreeV)>, key: Seq<u8>) -> int
    decreases entries,
{
    if entries.len() == 0 {
        -1
    } else if entries[0].0 == key {
        0
    } else {
        let r = first_key_index(entries.drop_first(), key);
        if r < 0 {
            -1
        } else {
            1 + r
        }
    }
}

/// `first_key_index` finds exactly the first match.
pub proof fn lemma_first_key_index(entries: Seq<(Seq<u8>, TreeV)>, key: Seq<u8>, i: int)
    requires
        0 <= i <= entries.len(),
        forall|j: int| 0 <= j < i ==> (#[trigger] entries[j].0) != key,
        i < entries.len() ==> entries[i].0 == key,
    ensures
        first_key_index(entries, key) == if i < entries.len() {
            i
        } else {
            -1
        },
    decreases entries,
{
    if entries.len() == 0 {
    } else if entries[0].0 == key {
        assert(i == 0) by {
            if i > 0 {
                assert(entries[0].0 != key);
            }
        }
    } else {
        assert(i >= 1) by {
            if i == 0 {
                assert(entries[0].0 == key);
            }
        }
        assert forall|j: int| 0 <= j < i - 1 implies (#[trigger] entries.drop_first()[j].0)
            != key by {
            assert(entries.drop_first()[j] == entries[j + 1]);
        }
        assert(i - 1 < entries.drop_first().len() ==> entries.drop_first()[i - 1].0 == key);
        lemma_first_key_index(entries.drop_first(), key, i - 1);
    }
}

/// Inserting a path into an object entry sequence. The head segment names
/// an entry (the first with that key); the last segment binds the value as
/// a string leaf, earlier segments descend into a child container whose
/// kind the next segment decides (an existing child of the right kind is
/// kept, anything else is replaced by an empty container).
pub open spec fn spec_insert_obj(
    entries: Seq<(Seq<u8>, TreeV)>,
    parts: Seq<Seq<u8>>,
    value: Seq<u8>,
) -> Seq<(Seq<u8>, TreeV)>
    recommends
        parts.len() > 0,
    decreases parts, 0nat,
{
    let key = parts[0];
    let fi = first_key_index(entries, key);
    let new_child = if parts.len() <= 1 {
        TreeV::Str(value)
    } else {
        spec_insert_child(
            if fi >= 0 {
                entries[fi].1
            } else {
                TreeV::Null
            },
            parts.drop_first(),
            value,
        )
    };
    if fi >= 0 {
        entries.update(fi, (key, new_child))
    } else {
        entries.push((key, new_child))
    }
}

/// Inserting the rest of a path into a child container: the head segment
/// decides whether the child is an array or an object.
pub open spec fn spec_insert_child(old_child: TreeV, parts: Seq<Seq<u8>>, value: Seq<u8>) -> TreeV
    recommends
        parts.len() > 0,
    decreases parts, 1nat,
{
    if is_index(parts[0]) {
        let base = if old_child is Arr {
            old_child->Arr_0
        } else {
            Seq::empty()
        };
        TreeV::Arr(spec_insert_arr(base, parts, value))
    } else {
        let base = if old_child is Obj {
            old_child->Obj_0
        } else {
            Seq::empty()
        };
        TreeV::Obj(spec_insert_obj(base, parts, value))
    }
}

/// Inserting a path into an array: the head segment is the position; the
/// array grows as needed, null-filled for a leaf, object-filled when the
/// path descends.
pub open spec fn spec_insert_arr(items: Seq<TreeV>, parts: Seq<Seq<u8>>, value: Seq<u8>) -> Seq<
    TreeV,
>
    recommends
        parts.len() > 0,
        is_index(parts[0]),
    decreases parts, 0nat,
{
    let idx = num_of(parts[0]);
    if parts.len() <= 1 {
        spec_extend(items, idx + 1, TreeV::Null).update(idx, TreeV::Str(value))
    } else {
        let extended = spec_extend(items, idx + 1, TreeV::Obj(Seq::empty()));
        extended.update(idx, spec_insert_child(extended[idx], parts.drop_first(), value))
    }
}

/// One pair applied to the top-level entries: the key splits and
/// transforms into a path; a path that starts with an array index cannot
/// stand at top level and fails the parse.
pub open spec fn spec_apply_pair(
    entries: Seq<(Seq<u8>, TreeV)>,
    key: Seq<u8>,
    value: Seq<u8>,
    sep: u8,
    esc: Option<u8>,
    tr: ParseTransform,
) -> Option<Seq<(Seq<u8>, TreeV)>> {
    let parts = spec_split(key, sep, esc).map_values(|p: Seq<u8>| spec_ptransform(p, tr));
    if is_index(parts[0]) {
        None
    } else {
        Some(spec_insert_obj(entries, parts, value))
    }
}

/// The first `i` pairs applied in order, if all of them apply.
pub open spec fn spec_unflatten_upto(
    pairs: Seq<(Seq<u8>, Seq<u8>)>,
    sep: u8,
    esc: Option<u8>,
    tr: ParseTransform,
    i: int,
) -> Option<Seq<(Seq<u8>, TreeV)>>
    decreases i,
{
    if i <= 0 {
        Some(Seq::empty())
    } else {
        match spec_unflatten_upto(pairs, sep, esc, tr, i - 1) {
            Some(es) => spec_apply_pair(es, pairs[i - 1].0, pairs[i - 1].1, sep, esc, tr),
            None => None,
        }
    }
}

/// The tree a pair list unflattens to, if every key yields a valid path.
pub open spec fn spec_unflatten(
    pairs: Seq<(Seq<u8>, Seq<u8>)>,
    sep: u8,
    esc: Option<u8>,
    tr: ParseTransform,
) -> Option<TreeV> {
    match spec_unflatten_upto(pairs, sep, esc, tr, pairs.len() as int) {
        Some(es) => Some(TreeV::Obj(es)),
        None => None,
    }
}

/// Inserting a path into an object entry vector, executable. `pidx` points
/// at the current segment of the path.
pub fn insert_obj(
    entries: &Vec<(Vec<u8>, Tree)>,
    parts: &Vec<Vec<u8>>,
    pidx: usize,
    value: &Vec<u8>,
) -> (r: Vec<(Vec<u8>, Tree)>)
    requires
        pidx < parts@.len(),
    ensures
        views_of_entries(r@) == spec_insert_obj(
            views_of_entries(entries@),
            views_of_list(parts@).skip(pidx as int),
            value@,
        ),
    decreases parts@.len() - pidx, 0nat,
{
    proof {
        lemma_views_of_entries(entries@);
        lemma_views_of_list(parts@);
        assert(views_of_list(parts@).skip(pidx as int)[0] == views_of_list(parts@)[pidx as int]);
    }
    let ghost evs = views_of_entries(entries@);
    let ghost pvs = views_of_list(parts@).skip(pidx as int);
    let n = parts.len();
    let key = &parts[pidx];
    // Find the first entry the head segment names, if any.
    let mut i: usize = 0;
    while i < entries.len() && !bytes_eq(entries[i].0.as_slice(), key.as_slice())
        invariant
            0 <= i <= entries@.len(),
            evs == views_of_entries(entries@),
            evs.len() == entries@.len(),
            forall|j: int| 0 <= j < entries@.len() ==> #[trigger] evs[j]
                == (entries@[j].0@, entries@[j].1@),
            key@ == pvs[0],
            forall|j: int| 0 <= j < i ==> (#[trigger] evs[j].0) != key@,
        decreases entries@.len() - i,
    {
        i += 1;
    }
    proof {
        if i < entries@.len() {
            assert(evs[i as int].0 == key@);
        }
        lemma_first_key_index(evs, key@, i as int);
    }
    let ghost fi = first_key_index(evs, key@);
    let last = pidx >= n - 1;
    let new_child = if last {
        proof {
            assert(pvs.len() <= 1);
        }
        Tree::Str(clone_bytes(value))
    } else {
        proof {
            assert(pvs.drop_first() =~= views_of_list(parts@).skip(pidx + 1));
        }
        if i < entries.len() {
            insert_child(&entries[i].1, parts, pidx + 1, value)
        } else {
            let absent = Tree::Null;
            insert_child(&absent, parts, pidx + 1, value)
        }
    };
    let mut r = crate::tree::clone_entries(entries);
    proof {
        lemma_views_of_entries(r@);
    }
    if i < entries.len() {
        let k = clone_bytes(key);
        r[i] = (k, new_child);
        proof {
            lemma_views_of_entries(r@);
            assert(views_of_entries(r@) =~= evs.update(fi, (key@, new_child@)));
        }
        r
    } else {
        let k = clone_bytes(key);
        r.push((k, new_child));
        proof {
            lemma_views_of_entries(r@);
            assert(views_of_entries(r@) =~= evs.push((key@, new_child@)));
        }
        r
    }
}

/// Inserting the rest of a path into a child container, executable.
pub fn insert_child(old_child: &Tree, parts: &Vec<Vec<u8>>, pidx: usize, value: &Vec<u8>) -> (r:
    Tree)
    requires
        pidx < parts@.len(),
    ensures
        r@ == spec_insert_child(old_child@, views_of_list(parts@).skip(pidx as int), value@),
    decreases parts@.len() - pidx, 1nat,
{
    proof {
        lemma_views_of_list(parts@);
        assert(views_of_list(parts@).skip(pidx as int)[0] == views_of_list(parts@)[pidx as int]);
    }
    match parse_index(&parts[pidx]) {
        Some(idx) => {
            let base: Vec<Tree> = match old_child {
                Tree::Arr(xs) => crate::tree::clone_trees(xs),
                _ => Vec::new(),
            };
            proof {
                if !(old_child@ is Arr) {
                    assert(!(old_child matches Tree::Arr(_)));
                    assert(views_of_trees(base@) =~= Seq::<TreeV>::empty());
                }
            }
            Tree::Arr(insert_arr(base, idx, parts, pidx, value))
        },
        None => {
            let base: Vec<(Vec<u8>, Tree)> = match old_child {
                Tree::Obj(es) => crate::tree::clone_entries(es),
                _ => Vec::new(),
            };
            proof {
                if !(old_child@ is Obj) {
                    assert(!(old_child matches Tree::Obj(_)));
                    assert(views_of_entries(base@) =~= Seq::<(Seq<u8>, TreeV)>::empty());
                }
            }
            Tree::Obj(insert_obj(&base, parts, pidx, value))
        },
    }
}

/// Inserting a path into an array, executable. `idx` is the parsed head
/// segment.
pub fn insert_arr(
    items: Vec<Tree>,
    idx: usize,
    parts: &Vec<Vec<u8>>,
    pidx: usize,
    value: &Vec<u8>,
) -> (r: Vec<Tree>)
    requires
        pidx < parts@.len(),
        is_index(views_of_list(parts@).skip(pidx as int)[0]),
        idx as int == num_of(views_of_list(parts@).skip(pidx as int)[0]),
        idx < 1000000000,
    ensures
        views_of_trees(r@) == spec_insert_arr(
            views_of_trees(items@),
            views_of_list(parts@).skip(pidx as int),
            value@,
        ),
    decreases parts@.len() - pidx, 0nat,
{
    proof {
        lemma_views_of_trees(items@);
        lemma_views_of_list(parts@);
    }
    let ghost ivs = views_of_trees(items@);
    let ghost pvs = views_of_list(parts@).skip(pidx as int);
    let n = parts.len();
    let last = pidx >= n - 1;
    let ghost filler = if last {
        TreeV::Null
    } else {
        TreeV::Obj(Seq::empty())
    };
    let mut items = items;
    while items.len() < idx + 1
        invariant
            idx < 1000000000,
            views_of_trees(items@) == spec_extend(ivs, items@.len() as int, filler),
            views_of_trees(items@).len() == items@.len(),
            items@.len() >= ivs.len(),
            items@.len() <= idx + 1 || items@.len() == ivs.len(),
            last ==> filler == TreeV::Null,
            !last ==> filler == TreeV::Obj(Seq::empty()),
        decreases idx + 1 - items@.len(),
    {
        let ghost before = items@;
        if last {
            items.push(Tree::Null);
        } else {
            let empty_obj: Vec<(Vec<u8>, Tree)> = Vec::new();
            items.push(Tree::Obj(empty_obj));
        }
        proof {
            lemma_views_of_trees(before);
            lemma_views_of_trees(items@);
            assert(views_of_trees(items@) =~= views_of_trees(before).push(filler));
            assert(views_of_trees(items@) =~= spec_extend(ivs, items@.len() as int, filler));
        }
    }
    proof {
        lemma_views_of_trees(items@);
        assert(views_of_trees(items@) =~= spec_extend(ivs, idx + 1, filler));
    }
    let ghost extended = views_of_trees(items@);
    if last {
        let leaf = Tree::Str(clone_bytes(value));
        items[idx] = leaf;
        proof {
            lemma_views_of_trees(items@);
            assert(views_of_trees(items@) =~= extended.update(idx as int, TreeV::Str(value@)));
            assert(pvs.len() <= 1);
        }
        items
    } else {
        proof {
            assert(extended[idx as int] == items@[idx as int]@);
            assert(pvs.drop_first() =~= views_of_list(parts@).skip(pidx + 1));
        }
        let child = insert_child(&items[idx], parts, pidx + 1, value);
        items[idx] = child;
        proof {
            lemma_views_of_trees(items@);
            assert(views_of_trees(items@) =~= extended.update(
                idx as int,
                spec_insert_child(extended[idx as int], pvs.drop_first(), value@),
            ));
        }
        items
    }
}

/// The view of an optional tree.
pub open spec fn tree_opt_view(r: Option<Tree>) -> Option<TreeV> {
    match r {
        Some(t) => Some(t@),
        None => None,
    }
}

/// Rebuilds a tree from flat key-value pairs, applied in order: each key
/// splits at the separator, each segment is case-transformed, and the path
/// is inserted. A key whose first segment is an array index fails.
pub fn key_value_pairs_to_json(
    pairs: &Vec<(Vec<u8>, Vec<u8>)>,
    separator: u8,
    escape: Option<u8>,
    transform: &ParseTransform,
) -> (r: Option<Tree>)
    ensures
        tree_opt_view(r) == spec_unflatten(
            crate::flatten::views_of_pairs(pairs@),
            separator,
            escape,
            *transform,
        ),
{
    proof {
        crate::flatten::lemma_views_of_pairs(pairs@);
    }
    let ghost pvs = crate::flatten::views_of_pairs(pairs@);
    let mut entries: Vec<(Vec<u8>, Tree)> = Vec::new();
    let mut i: usize = 0;
    while i < pairs.len()
        invariant
            0 <= i <= pairs@.len(),
            pvs == crate::flatten::views_of_pairs(pairs@),
            pvs.len() == pairs@.len(),
            forall|j: int| 0 <= j < pairs@.len() ==> #[trigger] pvs[j]
                == (pairs@[j].0@, pairs@[j].1@),
            Some(views_of_entries(entries@)) == spec_unflatten_upto(
                pvs,
                separator,
                escape,
                *transform,
                i as int,
            ),
        decreases pairs@.len() - i,
    {
        let parts0 = split_bytes(&pairs[i].0, separator, escape);
        proof {
            lemma_views_of_list(parts0@);
        }
        let ghost target = spec_split(pairs@[i as int].0@, separator, escape).map_values(
            |p: Seq<u8>| spec_ptransform(p, *transform),
        );
        let mut parts: Vec<Vec<u8>> = Vec::new();
        let mut j: usize = 0;
        while j < parts0.len()
            invariant
                0 <= j <= parts0@.len(),
                views_of_list(parts0@) == spec_split(pairs@[i as int].0@, separator, escape),
                parts0@.len() == views_of_list(parts0@).len(),
                forall|w: int| 0 <= w < parts0@.len() ==> #[trigger] views_of_list(parts0@)[w]
                    == parts0@[w]@,
                target.len() == parts0@.len(),
                forall|w: int| 0 <= w < parts0@.len() ==> #[trigger] target[w]
                    == spec_ptransform(parts0@[w]@, *transform),
                parts@.len() == j,
                forall|w: int| 0 <= w < j ==> #[trigger] parts@[w]@ == target[w],
                i < pairs@.len(),
            decreases parts0@.len() - j,
        {
            let t = ptransform(&parts0[j], transform);
            parts.push(t);
            j += 1;
        }
        proof {
            lemma_views_of_list(parts@);
            assert(views_of_list(parts@) =~= target);
            assert(parts@.len() > 0);
            assert(views_of_list(parts@).skip(0) =~= views_of_list(parts@));
        }
        match parse_index(&parts[0]) {
            Some(_) => {
                proof {
                    assert(is_index(target[0]));
                    assert(spec_unflatten_upto(pvs, separator, escape, *transform, i + 1)
                        is None);
                    lemma_unflatten_upto_none(pvs, separator, escape, *transform, i + 1);
                }
                return None;
            },
            None => {
                let new_entries = insert_obj(&entries, &parts, 0, &pairs[i].1);
                entries = new_entries;
                proof {
                    assert(!is_index(target[0]));
                }
            },
        }
        i += 1;
    }
    let r = Tree::Obj(entries);
    proof {
        assert(r@ == TreeV::Obj(views_of_entries(entries@)));
    }
    Some(r)
}

/// Once a pair fails to apply, every longer prefix fails too.
pub proof fn lemma_unflatten_upto_none(
    pairs: Seq<(Seq<u8>, Seq<u8>)>,
    sep: u8,
    esc: Option<u8>,
    tr: ParseTransform,
    i: int,
)
    requires
        0 <= i <= pairs.len(),
        spec_unflatten_upto(pairs, sep, esc, tr, i) is None,
    ensures
        spec_unflatten_upto(pairs, sep, esc, tr, pairs.len() as int) is None,
    decreases pairs.len() - i,
{
    if i < pairs.len() {
        lemma_unflatten_upto_none(pairs, sep, esc, tr, i + 1);
    }
}

/// Pairwise distinct keys in a pair list.
pub open spec fn distinct_pair_keys(ps: Seq<(Seq<u8>, Seq<u8>)>) -> bool {
    forall|i: int, j: int| 0 <= i < j < ps.len() ==> ps[i].0 != ps[j].0
}

/// With distinct keys, the denoted map binds each listed key to its value.
pub proof fn lemma_pam_lookup(ps: Seq<(Seq<u8>, Seq<u8>)>)
    requires
        distinct_pair_keys(ps),
    ensures
        forall|j: int| 0 <= j < ps.len() ==> pairs_as_map(ps)[(#[trigger] ps[j]).0] == ps[j].1,
    decreases ps,
{
    lemma_pam_dom(ps);
    if ps.len() > 0 {
        let rest = ps.drop_first();
        assert forall|i: int, j: int| 0 <= i < j < rest.len() implies rest[i].0 != rest[j].0 by {
            assert(rest[i] == ps[i + 1] && rest[j] == ps[j + 1]);
        }
        lemma_pam_lookup(rest);
        assert forall|j: int|
            0 <= j < ps.len() implies pairs_as_map(ps)[(#[trigger] ps[j]).0] == ps[j].1 by {
            if j == 0 {
            } else {
                assert(rest[j - 1] == ps[j]);
                assert(ps[j].0 != ps[0].0);
                assert(pairs_as_map(rest)[rest[j - 1].0] == rest[j - 1].1);
            }
        }
    }
}

/// The canonical, key-ordered listing of a distinct-keyed pair list,
/// executable: exactly `sorted_listing` of the map the pairs denote.
pub fn canonical_listing(raw: &Vec<(Vec<u8>, Vec<u8>)>) -> (r: Vec<(Vec<u8>, Vec<u8>)>)
    requires
        distinct_pair_keys(crate::flatten::views_of_pairs(raw@)),
    ensures
        crate::flatten::views_of_pairs(r@) == sorted_listing(
            pairs_as_map(crate::flatten::views_of_pairs(raw@)),
        ),
{
    proof {
        crate::flatten::lemma_views_of_pairs(raw@);
    }
    let ghost rvs = crate::flatten::views_of_pairs(raw@);
    let mut out: Vec<(Vec<u8>, Vec<u8>)> = Vec::new();
    let mut i: usize = 0;
    while i < raw.len()
        invariant
            0 <= i <= raw@.len(),
            rvs == crate::flatten::views_of_pairs(raw@),
            rvs.len() == raw@.len(),
            distinct_pair_keys(rvs),
            forall|j: int| 0 <= j < raw@.len() ==> #[trigger] rvs[j]
                == (raw@[j].0@, raw@[j].1@),
            sorted_pairs(crate::flatten::views_of_pairs(out@)),
            forall|k: Seq<u8>|
                pairs_contain_key(crate::flatten::views_of_pairs(out@), k) <==> exists|j: int|
                    0 <= j < i && (#[trigger] rvs[j]).0 == k,
            forall|j: int|
                0 <= j < i ==> pairs_as_map(crate::flatten::views_of_pairs(out@))[(
                #[trigger] rvs[j]).0] == rvs[j].1,
        decreases raw@.len() - i,
    {
        let ghost before = crate::flatten::views_of_pairs(out@);
        proof {
            assert(!pairs_contain_key(before, rvs[i as int].0)) by {
                if pairs_contain_key(before, rvs[i as int].0) {
                    let j = choose|j: int| 0 <= j < i && (#[trigger] rvs[j]).0
                        == rvs[i as int].0;
                    assert(rvs[j].0 == rvs[i as int].0);
                }
            }
            lemma_insert_fresh(before, rvs[i as int].0, rvs[i as int].1);
        }
        let kk = clone_bytes(&raw[i].0);
        let vv = clone_bytes(&raw[i].1);
        crate::flatten::insert_sorted(&mut out, kk, vv);
        proof {
            let after = crate::flatten::views_of_pairs(out@);
            assert(after == spec_insert(before, rvs[i as int].0, rvs[i as int].1));
            assert(pairs_as_map(after) == pairs_as_map(before).insert(
                rvs[i as int].0,
                rvs[i as int].1,
            ));
            assert forall|k: Seq<u8>|
                pairs_contain_key(after, k) implies exists|j: int|
                    0 <= j <= i && (#[trigger] rvs[j]).0 == k by {
                if k != rvs[i as int].0 {
                    assert(pairs_contain_key(before, k));
                    let j = choose|j: int| 0 <= j < i && (#[trigger] rvs[j]).0 == k;
                    assert(0 <= j <= i && rvs[j].0 == k);
                } else {
                    assert(rvs[i as int].0 == k);
                }
            }
            assert forall|j: int|
                0 <= j <= i implies pairs_as_map(after)[(#[trigger] rvs[j]).0]
                == rvs[j].1 by {
                if j < i {
                    assert(rvs[j].0 != rvs[i as int].0);
                    assert(pairs_as_map(before)[rvs[j].0] == rvs[j].1);
                }
            }
            assert forall|k: Seq<u8>|
                (exists|j: int| 0 <= j <= i && (#[trigger] rvs[j]).0 == k) implies
                pairs_contain_key(after, k) by {
                let j = choose|j: int| 0 <= j <= i && (#[trigger] rvs[j]).0 == k;
                if j < i {
                    assert(exists|j2: int| 0 <= j2 < i && (#[trigger] rvs[j2]).0 == k);
                    assert(pairs_contain_key(before, k));
                } else {
                    assert(k == rvs[i as int].0);
                }
            }
        }
        i += 1;
    }
    proof {
        let outv = crate::flatten::views_of_pairs(out@);
        lemma_sorted_listing_canonical(outv);
        lemma_pam_dom(outv);
        lemma_pam_dom(rvs);
        lemma_pam_lookup(rvs);
        let m = pairs_as_map(rvs);
        assert forall|k: Seq<u8>| #![trigger pairs_as_map(outv).dom().contains(k)]
            pairs_as_map(outv).dom().contains(k) implies m.dom().contains(k)
            && pairs_as_map(outv)[k] == m[k] by {
            assert(pairs_contain_key(outv, k));
            let j = choose|j: int| 0 <= j < raw@.len() && (#[trigger] rvs[j]).0 == k;
            assert(pairs_as_map(outv)[rvs[j].0] == rvs[j].1);
            assert(pairs_contain_key(rvs, k)) by {
                assert(rvs[j].0 == k);
            }
            assert(m[rvs[j].0] == rvs[j].1);
        }
        assert forall|k: Seq<u8>| #![trigger m.dom().contains(k)]
            m.dom().contains(k) implies pairs_as_map(outv).dom().contains(k) by {
            assert(pairs_contain_key(rvs, k));
            let j = choose|j: int| 0 <= j < rvs.len() && rvs[j].0 == k;
            assert(exists|j2: int| 0 <= j2 < raw@.len() && (#[trigger] rvs[j2]).0 == k);
            assert(pairs_contain_key(outv, k));
        }
        assert_sets_equal!(pairs_as_map(outv).dom() == m.dom(), k => {
            if pairs_as_map(outv).dom().contains(k) {
                assert(m.dom().contains(k));
            }
            if m.dom().contains(k) {
                assert(pairs_as_map(outv).dom().contains(k));
            }
        });
        assert forall|k: Seq<u8>| m.dom().contains(k) implies pairs_as_map(outv)[k] == m[k] by {
            assert(pairs_as_map(outv).dom().contains(k));
        }
        assert(pairs_as_map(outv) =~~= m);
    }
    out
}

} // verus!
