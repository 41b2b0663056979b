//! The reconcile decision core: what one reconcile pass does to the
//! target object, how errors requeue, and how cleanup strips the
//! finalizer.

use vstd::prelude::*;
use vstd::string::StringSliceAdditionalSpecFns;

use crate::lease::string_eq;
use crate::tree::bytes_eq;

verus! {

/// The finalizer marker a live claim's target carries.
pub const DOCUMENT_FINALIZER: &'static str = "test.io/documents.kube3.rs";

/// Seconds an errored object waits before the next reconcile attempt.
pub const ERROR_REQUEUE_SECONDS: u64 = 60;

/// What one reconcile pass does to the target object.
pub enum ReconcileOp {
    CreateTarget,
    PatchTarget,
    Noop,
}

/// What the control loop does next with the object.
#[derive(Clone, Copy, Debug, PartialEq, Eq, Structural)]
pub enum Action {
    Requeue(u64),
    AwaitChange,
}

/// The operation one pass takes, given the live target's logical data and
/// the desired data: a missing target is created, different data is
/// patched, equal data is left alone.
pub open spec fn spec_reconcile_op(
    existing: Option<Seq<(Seq<u8>, Seq<u8>)>>,
    desired: Seq<(Seq<u8>, Seq<u8>)>,
) -> ReconcileOp {
    match existing {
        None => ReconcileOp::CreateTarget,
        Some(d) => if d == desired {
            ReconcileOp::Noop
        } else {
            ReconcileOp::PatchTarget
        },
    }
}

/// Pairwise equality of two data maps, decided executably.
pub fn data_map_eq(a: &Vec<(Vec<u8>, Vec<u8>)>, b: &Vec<(Vec<u8>, Vec<u8>)>) -> (r: bool)
    ensures
        r <==> crate::flatten::views_of_pairs(a@) == crate::flatten::views_of_pairs(b@),
{
    proof {
        crate::flatten::lemma_views_of_pairs(a@);
        crate::flatten::lemma_views_of_pairs(b@);
    }
    let ghost avs = crate::flatten::views_of_pairs(a@);
    let ghost bvs = crate::flatten::views_of_pairs(b@);
    if a.len() != b.len() {
        proof {
            assert(avs.len() != bvs.len());
        }
        return false;
    }
    let mut i: usize = 0;
    while i < a.len()
        invariant
            0 <= i <= a@.len(),
            a@.len() == b@.len(),
            avs == crate::flatten::views_of_pairs(a@),
            bvs == crate::flatten::views_of_pairs(b@),
            avs.len() == a@.len(),
            bvs.len() == b@.len(),
            forall|j: int| 0 <= j < a@.len() ==> #[trigger] avs[j] == (a@[j].0@, a@[j].1@),
            forall|j: int| 0 <= j < b@.len() ==> #[trigger] bvs[j] == (b@[j].0@, b@[j].1@),
            forall|j: int| 0 <= j < i ==> #[trigger] avs[j] == bvs[j],
        decreases a@.len() - i,
    {
        if !bytes_eq(a[i].0.as_slice(), b[i].0.as_slice()) {
            proof {
                assert(avs[i as int].0 != bvs[i as int].0);
            }
            return false;
        }
        if !bytes_eq(a[i].1.as_slice(), b[i].1.as_slice()) {
            proof {
                assert(avs[i as int].1 != bvs[i as int].1);
            }
            return false;
        }
        i += 1;
    }
    proof {
        assert(avs =~= bvs);
    }
    true
}

/// Decides one reconcile pass: create a missing target, patch a target
/// whose logical data differs from the desired data, and leave an
/// unchanged target alone.
pub fn reconcile_step(
    existing: Option<&Vec<(Vec<u8>, Vec<u8>)>>,
    desired: &Vec<(Vec<u8>, Vec<u8>)>,
) -> (r: ReconcileOp)
    ensures
        r == spec_reconcile_op(
            match existing {
                Some(d) => Some(crate::flatten::views_of_pairs(d@)),
                None => None,
            },
            crate::flatten::views_of_pairs(desired@),
        ),
{
    match existing {
        None => ReconcileOp::CreateTarget,
        Some(d) => {
            if data_map_eq(d, desired) {
                ReconcileOp::Noop
            } else {
                ReconcileOp::PatchTarget
            }
        },
    }
}

/// Reconcile idempotence: a second pass with no upstream change sees the
/// target it just wrote, so it decides to do nothing — zero patch or
/// create calls.
pub proof fn lemma_reconcile_idempotent(desired: Seq<(Seq<u8>, Seq<u8>)>)
    ensures
        spec_reconcile_op(Some(desired), desired) == ReconcileOp::Noop,
{
}

/// A successful pass always concludes by requeueing after the claim's
/// refresh interval.
pub fn requeue_after(refresh_seconds: u64) -> (r: Action)
    ensures
        r == Action::Requeue(refresh_seconds),
{
    Action::Requeue(refresh_seconds)
}

/// The error policy: any reconcile or cleanup error requeues the object
/// after a fixed sixty second backoff, indefinitely.
pub fn error_policy() -> (r: Action)
    ensures
        r == Action::Requeue(ERROR_REQUEUE_SECONDS as u64),
{
    Action::Requeue(ERROR_REQUEUE_SECONDS)
}

/// Cleanup concludes with a terminal wait: the object's own deletion is
/// left to the platform's garbage collection.
pub fn cleanup_action() -> (r: Action)
    ensures
        r == Action::AwaitChange,
{
    Action::AwaitChange
}

/// The finalizer list without this operator's marker, other entries kept
/// in order.
pub open spec fn spec_strip_finalizer(fs: Seq<Seq<char>>, marker: Seq<char>) -> Seq<Seq<char>>
    decreases fs,
{
    if fs.len() == 0 {
        Seq::empty()
    } else {
        (if fs[0] == marker {
            Seq::<Seq<char>>::empty()
        } else {
            seq![fs[0]]
        }) + spec_strip_finalizer(fs.drop_first(), marker)
    }
}

/// One more finalizer at the end survives or falls on its own text.
pub proof fn lemma_strip_snoc(fs: Seq<Seq<char>>, e: Seq<char>, marker: Seq<char>)
    ensures
        spec_strip_finalizer(fs.push(e), marker) == spec_strip_finalizer(fs, marker) + (
        if e == marker {
            Seq::<Seq<char>>::empty()
        } else {
            seq![e]
        }),
    decreases fs,
{
    let pushed = fs.push(e);
    if fs.len() == 0 {
        assert(pushed[0] == e);
        assert(pushed.drop_first() =~= Seq::<Seq<char>>::empty());
        assert(spec_strip_finalizer(pushed.drop_first(), marker) =~= Seq::<Seq<char>>::empty());
        assert(spec_strip_finalizer(fs, marker) =~= Seq::<Seq<char>>::empty());
        assert(spec_strip_finalizer(pushed, marker) =~= spec_strip_finalizer(fs, marker) + (
        if e == marker {
            Seq::<Seq<char>>::empty()
        } else {
            seq![e]
        }));
    } else {
        assert(pushed[0] == fs[0]);
        assert(pushed.drop_first() =~= fs.drop_first().push(e));
        lemma_strip_snoc(fs.drop_first(), e, marker);
        assert(spec_strip_finalizer(pushed, marker) =~= spec_strip_finalizer(fs, marker) + (
        if e == marker {
            Seq::<Seq<char>>::empty()
        } else {
            seq![e]
        }));
    }
}

/// The views of a list of strings.
pub open spec fn views_of_strings(s: Seq<String>) -> Seq<Seq<char>>
    decreases s,
{
    if s.len() == 0 {
        Seq::empty()
    } else {
        seq![s[0]@] + views_of_strings(s.drop_first())
    }
}

/// `views_of_strings` indexes pointwise.
pub proof fn lemma_views_of_strings(s: Seq<String>)
    ensures
        views_of_strings(s).len() == s.len(),
        forall|i: int| 0 <= i < s.len() ==> #[trigger] views_of_strings(s)[i] == s[i]@,
    decreases s,
{
    if s.len() > 0 {
        lemma_views_of_strings(s.drop_first());
    }
}

/// Removes this operator's finalizer marker from a finalizer list,
/// keeping every other entry in order.
pub fn strip_finalizer(finalizers: Vec<String>) -> (r: Vec<String>)
    ensures
        views_of_strings(r@) == spec_strip_finalizer(
            views_of_strings(finalizers@),
            DOCUMENT_FINALIZER@,
        ),
{
    proof {
        lemma_views_of_strings(finalizers@);
    }
    let ghost fvs = views_of_strings(finalizers@);
    let marker: String = DOCUMENT_FINALIZER.to_owned();
    let mut out: Vec<String> = Vec::new();
    let mut i: usize = 0;
    while i < finalizers.len()
        invariant
            0 <= i <= finalizers@.len(),
            fvs == views_of_strings(finalizers@),
            fvs.len() == finalizers@.len(),
            marker@ == DOCUMENT_FINALIZER@,
            forall|j: int| 0 <= j < finalizers@.len() ==> #[trigger] fvs[j] == finalizers@[j]@,
            views_of_strings(out@) == spec_strip_finalizer(
                fvs.take(i as int),
                DOCUMENT_FINALIZER@,
            ),
        decreases finalizers@.len() - i,
    {
        let ghost before = views_of_strings(out@);
        if !string_eq(&finalizers[i], &marker) {
            let f = crate::lease::clone_string(&finalizers[i]);
            let ghost out_before = out@;
            out.push(f);
            proof {
                lemma_views_of_strings(out_before);
                lemma_views_of_strings(out@);
                assert(views_of_strings(out@) =~= before.push(fvs[i as int]));
            }
        }
        proof {
            assert(fvs.take(i + 1) =~= fvs.take(i as int).push(fvs[i as int]));
            lemma_strip_snoc(fvs.take(i as int), fvs[i as int], DOCUMENT_FINALIZER@);
            assert(views_of_strings(out@) =~= spec_strip_finalizer(
                fvs.take(i + 1),
                DOCUMENT_FINALIZER@,
            ));
        }
        i += 1;
    }
    proof {
        assert(fvs.take(fvs.len() as int) =~= fvs);
    }
    out
}

/// The cluster-scoped resource kinds, by name; every other kind is
/// namespaced.
pub open spec fn spec_is_namespaced(kind: Seq<u8>) -> bool {
    !({
    ||| kind == seq![78u8, 111u8, 100u8, 101u8]
    ||| kind == seq![78u8, 97u8, 109u8, 101u8, 115u8, 112u8, 97u8, 99u8, 101u8]
    ||| kind == seq![67u8, 108u8, 117u8, 115u8, 116u8, 101u8, 114u8, 82u8, 111u8, 108u8, 101u8]
    ||| kind == seq![67u8, 108u8, 117u8, 115u8, 116u8, 101u8, 114u8, 82u8, 111u8, 108u8, 101u8, 66u8, 105u8, 110u8, 100u8, 105u8, 110u8, 103u8]
    ||| kind == seq![80u8, 101u8, 114u8, 115u8, 105u8, 115u8, 116u8, 101u8, 110u8, 116u8, 86u8, 111u8, 108u8, 117u8, 109u8, 101u8]
    ||| kind == seq![67u8, 108u8, 117u8, 115u8, 116u8, 101u8, 114u8, 67u8, 111u8, 110u8, 102u8, 105u8, 103u8, 117u8, 114u8, 97u8, 116u8, 105u8, 111u8, 110u8, 83u8, 116u8, 111u8, 114u8, 101u8]
    })
}

/// Whether a resource kind is namespaced, decided on its name's bytes.
pub fn is_namespaced(kind: &str) -> (r: bool)
    ensures
        r == spec_is_namespaced(kind.spec_bytes()),
{
    let k0: [u8; 4] = [78, 111, 100, 101];
    proof {
        assert(k0@ =~= seq![78u8, 111u8, 100u8, 101u8]);
    }
    let k1: [u8; 9] = [78, 97, 109, 101, 115, 112, 97, 99, 101];
    proof {
        assert(k1@ =~= seq![78u8, 97u8, 109u8, 101u8, 115u8, 112u8, 97u8, 99u8, 101u8]);
    }
    let k2: [u8; 11] = [67, 108, 117, 115, 116, 101, 114, 82, 111, 108, 101];
    proof {
        assert(k2@ =~= seq![67u8, 108u8, 117u8, 115u8, 116u8, 101u8, 114u8, 82u8, 111u8, 108u8, 101u8]);
    }
    let k3: [u8; 18] = [67, 108, 117, 115, 116, 101, 114, 82, 111, 108, 101, 66, 105, 110, 100, 105, 110, 103];
    proof {
        assert(k3@ =~= seq![67u8, 108u8, 117u8, 115u8, 116u8, 101u8, 114u8, 82u8, 111u8, 108u8, 101u8, 66u8, 105u8, 110u8, 100u8, 105u8, 110u8, 103u8]);
    }
    let k4: [u8; 16] = [80, 101, 114, 115, 105, 115, 116, 101, 110, 116, 86, 111, 108, 117, 109, 101];
    proof {
        assert(k4@ =~= seq![80u8, 101u8, 114u8, 115u8, 105u8, 115u8, 116u8, 101u8, 110u8, 116u8, 86u8, 111u8, 108u8, 117u8, 109u8, 101u8]);
    }
    let k5: [u8; 25] = [67, 108, 117, 115, 116, 101, 114, 67, 111, 110, 102, 105, 103, 117, 114, 97, 116, 105, 111, 110, 83, 116, 111, 114, 101];
    proof {
        assert(k5@ =~= seq![67u8, 108u8, 117u8, 115u8, 116u8, 101u8, 114u8, 67u8, 111u8, 110u8, 102u8, 105u8, 103u8, 117u8, 114u8, 97u8, 116u8, 105u8, 111u8, 110u8, 83u8, 116u8, 111u8, 114u8, 101u8]);
    }
    let cluster_scoped = bytes_eq(kind.as_bytes(), k0.as_slice())
        || bytes_eq(kind.as_bytes(), k1.as_slice())
        || bytes_eq(kind.as_bytes(), k2.as_slice())
        || bytes_eq(kind.as_bytes(), k3.as_slice())
        || bytes_eq(kind.as_bytes(), k4.as_slice())
        || bytes_eq(kind.as_bytes(), k5.as_slice());
    !cluster_scoped
}

} // verus!
