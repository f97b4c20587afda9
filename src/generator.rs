//! The decisions of the world generator: which ancestor to breed from, and the shape of
//! a new or mutated world. Every random draw and the arithmetic on bodies come from the
//! caller; what is done with them is fixed here.
use vstd::prelude::*;
use crate::config::Range;
use crate::merge::{folded_from, merge_overlapping, never_overlapping, overlap_free};
use crate::storage::{MemoryStorage, StoredScenario};

verus! {

/// The generator, holding its source of randomness.
pub struct WorldGenerator<R> {
    pub rng: R,
}

impl<R> WorldGenerator<R> {
    /// A generator that draws from `rng`.
    pub fn new(rng: R) -> (r: WorldGenerator<R>)
        ensures
            r.rng == rng,
    {
        WorldGenerator { rng }
    }
}

/// The rank to breed from, given the number of stored scenarios and an index drawn from
/// the exponential distribution: none when the store is empty or the index is past its
/// end, which means a new world is made.
pub fn pick_parent_rank(num_scenarios: u64, sampled_index: u64) -> (r: Option<u64>)
    ensures
        r == if sampled_index < num_scenarios {
            Some(sampled_index)
        } else {
            None::<u64>
        },
{
    if num_scenarios == 0 || sampled_index >= num_scenarios {
        None
    } else {
        Some(sampled_index)
    }
}

/// The stored scenario to breed from, if any (see `pick_parent_rank`).
pub fn pick_parent<W>(store: &MemoryStorage<W>, sampled_index: u64) -> (r: Option<&StoredScenario<W>>)
    requires
        store.wf(),
    ensures
        r is Some <==> sampled_index < store@.len(),
        r matches Some(s) ==> *s == store@[sampled_index as int],
{
    match pick_parent_rank(store.num_scenarios(), sampled_index) {
        Some(rank) => store.get_nth_scenario_by_score(rank),
        None => None,
    }
}

/// How many bodies a mutation removes: the drawn count, clamped to the configured
/// limits and to the bodies there are.
pub fn planets_to_remove(current: usize, sampled: usize, limits: &Range) -> (r: usize)
    requires
        limits.min <= limits.max,
    ensures
        r == if current < limits.clamp_spec(sampled) { current } else { limits.clamp_spec(sampled) },
{
    let wanted = limits.clamp_inclusive(sampled);
    if current < wanted {
        current
    } else {
        wanted
    }
}

/// Removes `count` items, each at the index that `pick` draws from the items left.
pub fn remove_random<T, P: Fn(usize) -> usize>(items: &mut Vec<T>, count: usize, pick: P)
    requires
        count <= old(items)@.len(),
        forall|n: usize| #[trigger] pick.requires((n,)),
        forall|n: usize, i: usize| #[trigger] pick.ensures((n,), i) ==> n == 0 || i < n,
    ensures
        final(items)@.len() == old(items)@.len() - count,
        forall|i: int| 0 <= i < final(items)@.len() ==> old(items)@.contains(#[trigger] final(items)@[i]),
{
    let ghost orig = items@;
    assert forall|i: int| 0 <= i < items@.len() implies orig.contains(#[trigger] items@[i]) by {
        assert(orig[i] == items@[i]);
    }
    let mut k: usize = 0;
    while k < count
        invariant
            k <= count,
            count <= orig.len(),
            items@.len() == orig.len() - k,
            forall|n: usize| #[trigger] pick.requires((n,)),
            forall|n: usize, i: usize| #[trigger] pick.ensures((n,), i) ==> n == 0 || i < n,
            forall|i: int| 0 <= i < items@.len() ==> orig.contains(#[trigger] items@[i]),
        decreases count - k,
    {
        let ghost before = items@;
        let at = pick(items.len());
        items.remove(at);
        assert forall|i: int| 0 <= i < items@.len() implies orig.contains(#[trigger] items@[i]) by {
            if i < at {
                assert(items@[i] == before[i]);
            } else {
                assert(items@[i] == before[i + 1]);
            }
        }
        k += 1;
    }
}

/// A new world: `count` bodies made by `new_body`, then overlapping ones folded together.
pub fn generate_new_world<T, N: Fn(usize) -> T, F: Fn(&T, &T) -> bool, M: Fn(&T, &T) -> T>(
    count: usize,
    new_body: N,
    overlaps: F,
    merge: M,
) -> (r: Vec<T>)
    requires
        forall|i: usize| #[trigger] new_body.requires((i,)),
        forall|a: &T, b: &T| #[trigger] overlaps.requires((a, b)),
        forall|a: &T, b: &T| #[trigger] merge.requires((a, b)),
    ensures
        r@.len() <= count,
        count >= 1 ==> r@.len() >= 1,
        overlap_free(overlaps, r@),
        exists|before_merge: Seq<T>|
            before_merge.len() == count && (forall|k: int|
                0 <= k < count ==> call_ensures(new_body, (k as usize,), #[trigger] before_merge[k]))
                && folded_from(overlaps, merge, before_merge, r@) && (never_overlapping(
                overlaps,
                before_merge,
            ) ==> r@ == before_merge),
{
    let mut bodies: Vec<T> = Vec::new();
    let mut i: usize = 0;
    while i < count
        invariant
            i <= count,
            bodies@.len() == i,
            forall|x: usize| #[trigger] new_body.requires((x,)),
            forall|k: int| 0 <= k < i ==> call_ensures(new_body, (k as usize,), #[trigger] bodies@[k]),
        decreases count - i,
    {
        bodies.push(new_body(i));
        i += 1;
    }
    let ghost before_merge = bodies@;
    merge_overlapping(&mut bodies, overlaps, merge);
    bodies
}

/// A child world bred from `parent`: first `remove_count` bodies picked by `pick` are
/// removed, then each remaining body is replaced by `perturb` of it (which may leave it
/// as it is), then `add_count` bodies made by `new_body` are appended, and finally
/// overlapping bodies are folded together. Neither removed nor added bodies are
/// perturbed.
pub fn generate_child_world<
    T,
    P: Fn(usize) -> usize,
    U: Fn(&T) -> T,
    N: Fn(usize) -> T,
    F: Fn(&T, &T) -> bool,
    M: Fn(&T, &T) -> T,
>(
    parent: Vec<T>,
    remove_count: usize,
    pick: P,
    perturb: U,
    add_count: usize,
    new_body: N,
    overlaps: F,
    merge: M,
) -> (r: Vec<T>)
    requires
        remove_count <= parent@.len(),
        parent@.len() - remove_count + add_count <= usize::MAX,
        forall|n: usize| #[trigger] pick.requires((n,)),
        forall|n: usize, i: usize| #[trigger] pick.ensures((n,), i) ==> n == 0 || i < n,
        forall|a: &T| #[trigger] perturb.requires((a,)),
        forall|i: usize| #[trigger] new_body.requires((i,)),
        forall|a: &T, b: &T| #[trigger] overlaps.requires((a, b)),
        forall|a: &T, b: &T| #[trigger] merge.requires((a, b)),
    ensures
        r@.len() <= parent@.len() - remove_count + add_count,
        parent@.len() - remove_count + add_count >= 1 ==> r@.len() >= 1,
        overlap_free(overlaps, r@),
        exists|survivors: Seq<T>, before_merge: Seq<T>|
            #[trigger] bred(
                parent@,
                remove_count,
                perturb,
                add_count,
                new_body,
                survivors,
                before_merge,
            ) && folded_from(overlaps, merge, before_merge, r@) && (never_overlapping(
                overlaps,
                before_merge,
            ) ==> r@ == before_merge),
{
    let mut world = parent;
    remove_random(&mut world, remove_count, pick);
    let ghost survivors = world@;
    let kept = world.len();
    let mut i: usize = 0;
    while i < kept
        invariant
            i <= kept,
            world@.len() == kept,
            survivors.len() == kept,
            forall|a: &T| #[trigger] perturb.requires((a,)),
            forall|k: int| 0 <= k < i ==> call_ensures(perturb, (&survivors[k],), #[trigger] world@[k]),
            forall|k: int| i <= k < kept ==> #[trigger] world@[k] == survivors[k],
        decreases kept - i,
    {
        let changed = perturb(&world[i]);
        world.set(i, changed);
        i += 1;
    }
    let mut j: usize = 0;
    while j < add_count
        invariant
            j <= add_count,
            kept + add_count <= usize::MAX,
            world@.len() == kept + j,
            survivors.len() == kept,
            forall|x: usize| #[trigger] new_body.requires((x,)),
            forall|k: int| 0 <= k < kept ==> call_ensures(perturb, (&survivors[k],), #[trigger] world@[k]),
            forall|k: int| 0 <= k < j ==> call_ensures(new_body, (k as usize,), #[trigger] world@[kept + k]),
        decreases add_count - j,
    {
        world.push(new_body(j));
        j += 1;
    }
    let ghost before_merge = world@;
    assert(bred(parent@, remove_count, perturb, add_count, new_body, survivors, before_merge));
    merge_overlapping(&mut world, overlaps, merge);
    world
}

/// Whether `before_merge` is what breeding from `parent` gives before overlaps are
/// folded: `survivors` are what is left after removing `remove_count` bodies, each
/// survivor is replaced by a result of `perturb` on it, and then `add_count` bodies
/// made by `new_body` follow, none of them perturbed.
pub open spec fn bred<T, U: Fn(&T) -> T, N: Fn(usize) -> T>(
    parent: Seq<T>,
    remove_count: usize,
    perturb: U,
    add_count: usize,
    new_body: N,
    survivors: Seq<T>,
    before_merge: Seq<T>,
) -> bool {
    &&& survivors.len() == parent.len() - remove_count
    &&& forall|k: int| 0 <= k < survivors.len() ==> parent.contains(#[trigger] survivors[k])
    &&& before_merge.len() == survivors.len() + add_count
    &&& forall|k: int|
        0 <= k < survivors.len() ==> call_ensures(perturb, (&survivors[k],), #[trigger] before_merge[k])
    &&& forall|k: int|
        0 <= k < add_count ==> call_ensures(
            new_body,
            (k as usize,),
            #[trigger] before_merge[survivors.len() + k],
        )
}

} // verus!
