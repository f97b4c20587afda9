//! Planning of inelastic merges between colliding bodies, and the fixed-point loop that
//! folds overlapping bodies together. Bodies are addressed by their index in a world;
//! the arithmetic of a merge is left to the caller.
use vstd::prelude::*;
use crate::collision::CollisionEvent;

verus! {

/// One merge of a plan: body `absorbed` is folded into body `keep`.
#[derive(Copy, Clone, Debug, PartialEq, Eq, Structural)]
pub struct MergeStep {
    pub keep: usize,
    pub absorbed: usize,
}

/// The outcome of planning one tick's merges.
pub struct MergePlan {
    /// The merges to apply, in order.
    pub steps: Vec<MergeStep>,
    /// For each body, the body it now lives on in (itself when it was not absorbed).
    pub successor: Vec<usize>,
}

/// Each body its own successor.
pub open spec fn identity_roots(n: nat) -> Seq<usize> {
    Seq::new(n, |i: int| i as usize)
}

/// Redirects every body that lives on `b` to `a`.
pub open spec fn redirect(roots: Seq<usize>, a: usize, b: usize) -> Seq<usize> {
    Seq::new(roots.len(), |k: int| if roots[k] == b { a } else { roots[k] })
}

/// The successors and the merges after handling `events` in order, for a world of `n`
/// bodies. An event with an endpoint that does not exist is skipped, and so is one
/// whose endpoints already live on the same body; otherwise the second endpoint's
/// body is folded into the first's.
pub open spec fn plan_state(n: nat, events: Seq<CollisionEvent>) -> (Seq<usize>, Seq<MergeStep>)
    decreases events.len(),
{
    if events.len() == 0 {
        (identity_roots(n), Seq::empty())
    } else {
        let (roots, steps) = plan_state(n, events.drop_last());
        let e = events.last();
        if e.0 >= n || e.1 >= n {
            (roots, steps)
        } else {
            let a = roots[e.0 as int];
            let b = roots[e.1 as int];
            if a == b {
                (roots, steps)
            } else {
                (redirect(roots, a, b), steps.push(MergeStep { keep: a, absorbed: b }))
            }
        }
    }
}

/// Whether body `i` is absorbed by one of `steps`.
pub open spec fn absorbed_in(steps: Seq<MergeStep>, i: usize) -> bool {
    exists|k: int| 0 <= k < steps.len() && (#[trigger] steps[k]).absorbed == i
}

/// The merge systems of a tick: planning over the collision events, then marking the
/// bodies that were folded into another.
pub struct MergeCollidedPlanets;

pub struct DeleteCollidedPlanets;

impl MergeCollidedPlanets {
    /// Resolves each event's endpoints through the redirects made by earlier merges of
    /// the same tick and lists the merges to apply.
    pub fn plan(body_count: usize, events: &Vec<CollisionEvent>) -> (r: MergePlan)
        ensures
            r.steps@ == plan_state(body_count as nat, events@).1,
            r.successor@ == plan_state(body_count as nat, events@).0,
            r.successor@.len() == body_count,
            forall|k: int|
                0 <= k < r.steps@.len() ==> {
                    let s = #[trigger] r.steps@[k];
                    &&& s.keep < body_count
                    &&& s.absorbed < body_count
                    &&& s.keep != s.absorbed
                },
            forall|k: int, l: int|
                0 <= k < l < r.steps@.len() ==> r.steps@[l].keep != #[trigger] r.steps@[k].absorbed
                    && #[trigger] r.steps@[l].absorbed != r.steps@[k].absorbed,
            forall|i: int|
                0 <= i < body_count ==> (#[trigger] r.successor@[i] == i <==> !absorbed_in(
                    r.steps@,
                    i as usize,
                )),
            forall|i: int| 0 <= i < body_count ==> #[trigger] r.successor@[i] < body_count,
            forall|i: int|
                0 <= i < body_count ==> r.successor@[r.successor@[i] as int] == #[trigger] r.successor@[i],
    {
        let n = body_count;
        let mut roots: Vec<usize> = Vec::new();
        let mut i: usize = 0;
        while i < n
            invariant
                i <= n,
                roots@ == identity_roots(i as nat),
            decreases n - i,
        {
            roots.push(i);
            i += 1;
            assert(roots@ =~= identity_roots(i as nat));
        }
        let mut steps: Vec<MergeStep> = Vec::new();
        let mut j: usize = 0;
        while j < events.len()
            invariant
                j <= events@.len(),
                (roots@, steps@) == plan_state(n as nat, events@.subrange(0, j as int)),
                roots@.len() == n,
                forall|x: int| 0 <= x < n ==> #[trigger] roots@[x] < n,
                forall|x: int| 0 <= x < n ==> roots@[roots@[x] as int] == #[trigger] roots@[x],
                forall|x: int|
                    0 <= x < n ==> (#[trigger] roots@[x] == x <==> !absorbed_in(steps@, x as usize)),
                forall|k: int|
                    0 <= k < steps@.len() ==> {
                        let s = #[trigger] steps@[k];
                        &&& s.keep < n
                        &&& s.absorbed < n
                        &&& s.keep != s.absorbed
                    },
                forall|k: int, l: int|
                    0 <= k < l < steps@.len() ==> steps@[l].keep != #[trigger] steps@[k].absorbed
                        && #[trigger] steps@[l].absorbed != steps@[k].absorbed,
            decreases events@.len() - j,
        {
            let e = events[j];
            let ghost prefix = events@.subrange(0, j as int + 1);
            assert(prefix.drop_last() =~= events@.subrange(0, j as int));
            if e.0 < n && e.1 < n {
                let a = roots[e.0];
                let b = roots[e.1];
                if a != b {
                    let ghost old_roots = roots@;
                    let ghost old_steps = steps@;
                    let mut k: usize = 0;
                    while k < n
                        invariant
                            k <= n,
                            n == old_roots.len(),
                            roots@.len() == n,
                            a != b,
                            forall|x: int|
                                0 <= x < k ==> #[trigger] roots@[x] == (if old_roots[x] == b {
                                    a
                                } else {
                                    old_roots[x]
                                }),
                            forall|x: int| k <= x < n ==> #[trigger] roots@[x] == old_roots[x],
                        decreases n - k,
                    {
                        if roots[k] == b {
                            roots.set(k, a);
                        }
                        k += 1;
                    }
                    assert(roots@ =~= redirect(old_roots, a, b));
                    steps.push(MergeStep { keep: a, absorbed: b });
                    assert forall|x: int|
                        0 <= x < n implies (#[trigger] roots@[x] == x <==> !absorbed_in(
                            steps@,
                            x as usize,
                        )) by {
                        if absorbed_in(old_steps, x as usize) {
                            let w = choose|w: int|
                                0 <= w < old_steps.len() && (#[trigger] old_steps[w]).absorbed
                                    == x as usize;
                            assert(steps@[w] == old_steps[w]);
                        }
                        if absorbed_in(steps@, x as usize) && !absorbed_in(old_steps, x as usize) {
                            let w = choose|w: int|
                                0 <= w < steps@.len() && (#[trigger] steps@[w]).absorbed
                                    == x as usize;
                            if w < old_steps.len() {
                                assert(old_steps[w] == steps@[w]);
                            }
                        }
                        if x == b as int {
                            assert(steps@[old_steps.len() as int].absorbed == b);
                        }
                    }
                    assert forall|k1: int, l1: int|
                        0 <= k1 < l1 < steps@.len() implies steps@[l1].keep
                        != #[trigger] steps@[k1].absorbed && #[trigger] steps@[l1].absorbed
                        != steps@[k1].absorbed by {
                        if l1 == old_steps.len() {
                            assert(old_steps[k1] == steps@[k1]);
                            assert(absorbed_in(old_steps, steps@[k1].absorbed));
                            assert(old_roots[a as int] == a);
                        }
                    }
                }
            }
            j += 1;
        }
        assert(events@.subrange(0, events@.len() as int) =~= events@);
        MergePlan { steps, successor: roots }
    }
}

impl DeleteCollidedPlanets {
    /// Marks each body that was folded into another.
    pub fn marks(successor: &Vec<usize>) -> (r: Vec<bool>)
        ensures
            r@.len() == successor@.len(),
            forall|i: int| 0 <= i < r@.len() ==> #[trigger] r@[i] == (successor@[i] != i),
    {
        let mut r: Vec<bool> = Vec::new();
        let mut i: usize = 0;
        while i < successor.len()
            invariant
                i <= successor@.len(),
                r@.len() == i,
                forall|k: int| 0 <= k < i ==> #[trigger] r@[k] == (successor@[k] != k),
            decreases successor@.len() - i,
        {
            r.push(successor[i] != i);
            i += 1;
        }
        r
    }
}

/// The overlap test was seen to answer `false` on `a` and `b`.
pub open spec fn seen_apart<T, F: Fn(&T, &T) -> bool>(overlaps: F, a: T, b: T) -> bool {
    call_ensures(overlaps, (&a, &b), false)
}

/// Every pair of `s`, taken in order, was seen not to overlap.
pub open spec fn overlap_free<T, F: Fn(&T, &T) -> bool>(overlaps: F, s: Seq<T>) -> bool {
    forall|i: int, j: int| 0 <= i < j < s.len() ==> #[trigger] seen_apart(overlaps, s[i], s[j])
}

/// No pair of `s`, taken in order, can be found to overlap.
pub open spec fn never_overlapping<T, F: Fn(&T, &T) -> bool>(overlaps: F, s: Seq<T>) -> bool {
    forall|i: int, j: int, b: bool|
        0 <= i < j < s.len() && #[trigger] call_ensures(overlaps, (&s[i], &s[j]), b) ==> !b
}

/// The overlap test gives one answer for one pair.
pub open spec fn deterministic<T, F: Fn(&T, &T) -> bool>(overlaps: F) -> bool {
    forall|a: &T, b: &T, r1: bool, r2: bool|
        #[trigger] call_ensures(overlaps, (a, b), r1) && #[trigger] call_ensures(
            overlaps,
            (a, b),
            r2,
        ) ==> r1 == r2
}

/// One folding step from `s` to `t`: for a pair `i < j` that the test found
/// overlapping, `s[i]` is replaced by a result of `merge` on the pair and `s[j]` removed.
pub open spec fn fold_step<T, F: Fn(&T, &T) -> bool, M: Fn(&T, &T) -> T>(
    overlaps: F,
    merge: M,
    s: Seq<T>,
    t: Seq<T>,
) -> bool {
    exists|i: int, j: int, m: T|
        0 <= i < j < s.len() && call_ensures(overlaps, (&s[i], &s[j]), true) && #[trigger] call_ensures(
            merge,
            (&s[i], &s[j]),
            m,
        ) && t == s.update(i, m).remove(j)
}

/// Whether each sequence of `trace` follows from the one before by one folding step.
pub open spec fn fold_trace<T, F: Fn(&T, &T) -> bool, M: Fn(&T, &T) -> T>(
    overlaps: F,
    merge: M,
    trace: Seq<Seq<T>>,
) -> bool {
    trace.len() >= 1 && forall|k: int|
        0 <= k < trace.len() - 1 ==> #[trigger] fold_step(overlaps, merge, trace[k], trace[k + 1])
}

/// Whether `t` comes from `s` by folding steps (none, or several).
pub open spec fn folded_from<T, F: Fn(&T, &T) -> bool, M: Fn(&T, &T) -> T>(
    overlaps: F,
    merge: M,
    s: Seq<T>,
    t: Seq<T>,
) -> bool {
    exists|trace: Seq<Seq<T>>|
        #[trigger] fold_trace(overlaps, merge, trace) && trace[0] == s && trace.last() == t
}

/// Folds overlapping items together until no pair overlaps: a pass looks at each pair
/// in order and folds the right item of an overlapping pair into the left one; passes
/// repeat until one folds nothing.
pub fn merge_overlapping<T, F: Fn(&T, &T) -> bool, M: Fn(&T, &T) -> T>(
    items: &mut Vec<T>,
    overlaps: F,
    merge: M,
)
    requires
        forall|a: &T, b: &T| #[trigger] overlaps.requires((a, b)),
        forall|a: &T, b: &T| #[trigger] merge.requires((a, b)),
    ensures
        overlap_free(overlaps, final(items)@),
        final(items)@.len() <= old(items)@.len(),
        old(items)@.len() >= 1 ==> final(items)@.len() >= 1,
        folded_from(overlaps, merge, old(items)@, final(items)@),
        never_overlapping(overlaps, old(items)@) ==> final(items)@ == old(items)@,
{
    let ghost orig = items@;
    let ghost mut trace: Seq<Seq<T>> = seq![items@];
    loop
        invariant
            fold_trace(overlaps, merge, trace) && trace[0] == orig && trace.last() == items@,
            orig.len() >= 1 ==> items@.len() >= 1,
            forall|a: &T, b: &T| #[trigger] overlaps.requires((a, b)),
            forall|a: &T, b: &T| #[trigger] merge.requires((a, b)),
            items@.len() <= orig.len(),
            never_overlapping(overlaps, orig) ==> items@ == orig,
        ensures
            overlap_free(overlaps, items@),
            fold_trace(overlaps, merge, trace) && trace[0] == orig && trace.last() == items@,
            orig.len() >= 1 ==> items@.len() >= 1,
            items@.len() <= orig.len(),
            never_overlapping(overlaps, orig) ==> items@ == orig,
        decreases items@.len(),
    {
        let ghost start = items@;
        let mut clean = true;
        let mut left: usize = 0;
        while items.len() - left > 1
            invariant
                fold_trace(overlaps, merge, trace) && trace[0] == orig && trace.last() == items@,
                orig.len() >= 1 ==> items@.len() >= 1,
                forall|a: &T, b: &T| #[trigger] overlaps.requires((a, b)),
                forall|a: &T, b: &T| #[trigger] merge.requires((a, b)),
                items@.len() <= start.len(),
                start.len() <= orig.len(),
                never_overlapping(overlaps, orig) ==> start == orig,
                never_overlapping(overlaps, orig) ==> clean,
                clean ==> items@ == start,
                !clean ==> items@.len() < start.len(),
                left <= items@.len(),
                clean ==> forall|i: int, j: int|
                    0 <= i < left && i < j < items@.len() ==> #[trigger] seen_apart(
                        overlaps,
                        items@[i],
                        items@[j],
                    ),
            decreases items@.len() - left,
        {
            let ghost len_before = items@.len();
            let mut right: usize = left + 1;
            while right < items.len()
                invariant
                    fold_trace(overlaps, merge, trace) && trace[0] == orig && trace.last() == items@,
                    orig.len() >= 1 ==> items@.len() >= 1,
                    items@.len() <= len_before,
                    forall|a: &T, b: &T| #[trigger] overlaps.requires((a, b)),
                    forall|a: &T, b: &T| #[trigger] merge.requires((a, b)),
                    left < right <= items@.len(),
                    items@.len() <= start.len(),
                    start.len() <= orig.len(),
                    never_overlapping(overlaps, orig) ==> start == orig,
                    never_overlapping(overlaps, orig) ==> clean,
                    clean ==> items@ == start,
                    !clean ==> items@.len() < start.len(),
                    clean ==> forall|i: int, j: int|
                        0 <= i < left && i < j < items@.len() ==> #[trigger] seen_apart(
                            overlaps,
                            items@[i],
                            items@[j],
                        ),
                    clean ==> forall|j: int|
                        left < j < right ==> #[trigger] seen_apart(
                            overlaps,
                            items@[left as int],
                            items@[j],
                        ),
                decreases items@.len() - right,
            {
                let hit = overlaps(&items[left], &items[right]);
                if hit {
                    clean = false;
                    let ghost before = items@;
                    let folded = merge(&items[left], &items[right]);
                    items.set(left, folded);
                    items.remove(right);
                    proof {
                        assert(items@ =~= before.update(left as int, folded).remove(right as int));
                        assert(fold_step(overlaps, merge, before, items@));
                        let old_trace = trace;
                        trace = trace.push(items@);
                        assert forall|k: int| 0 <= k < trace.len() - 1 implies #[trigger] fold_step(
                            overlaps,
                            merge,
                            trace[k],
                            trace[k + 1],
                        ) by {
                            if k < old_trace.len() - 1 {
                                assert(trace[k] == old_trace[k]);
                                assert(trace[k + 1] == old_trace[k + 1]);
                            }
                        }
                    }
                } else {
                    right += 1;
                }
            }
            left += 1;
        }
        if clean {
            break;
        }
    }
    assert(fold_trace(overlaps, merge, trace) && trace[0] == orig && trace.last() == items@);
}

/// Resolving overlaps is a fixed point: for a deterministic overlap test, a sequence on
/// which every pair was seen apart (what `merge_overlapping` leaves) is one in which no
/// pair can be found overlapping, so `merge_overlapping` applied to it again changes
/// nothing.
pub proof fn lemma_overlap_resolution_fixed_point<T, F: Fn(&T, &T) -> bool>(
    overlaps: F,
    s: Seq<T>,
)
    requires
        deterministic(overlaps),
        overlap_free(overlaps, s),
    ensures
        never_overlapping(overlaps, s),
{
    assert forall|i: int, j: int, b: bool|
        0 <= i < j < s.len() && #[trigger] call_ensures(overlaps, (&s[i], &s[j]), b) implies !b by {
        assert(seen_apart(overlaps, s[i], s[j]));
    }
}

} // verus!
