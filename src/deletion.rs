//! Deferred deletion: bodies are first marked, then removed in one compaction pass
//! once every system of the tick has seen a consistent world.
use vstd::prelude::*;

verus! {

/// The items of `s` whose mark in `marks` is not set, in their order.
pub open spec fn retained<T>(s: Seq<T>, marks: Seq<bool>) -> Seq<T>
    decreases s.len(),
{
    if s.len() == 0 {
        Seq::empty()
    } else {
        let rest = retained(s.drop_first(), marks.drop_first());
        if marks[0] {
            rest
        } else {
            seq![s[0]].add(rest)
        }
    }
}

/// Removes, in place, every item whose mark is set; the others keep their order.
pub fn compact<T>(items: &mut Vec<T>, marks: &Vec<bool>)
    requires
        old(items)@.len() == marks@.len(),
    ensures
        final(items)@ == retained(old(items)@, marks@),
{
    let ghost orig = items@;
    let n = items.len();
    let mut i: usize = n;
    assert(orig.subrange(n as int, n as int) =~= Seq::<T>::empty());
    assert(orig =~= orig.subrange(0, n as int).add(retained(
        orig.subrange(n as int, n as int),
        marks@.subrange(n as int, n as int),
    )));
    while i > 0
        invariant
            i <= n,
            n == orig.len(),
            n == marks@.len(),
            items@ == orig.subrange(0, i as int).add(
                retained(orig.subrange(i as int, n as int), marks@.subrange(i as int, n as int)),
            ),
        decreases i,
    {
        let ghost rest = retained(
            orig.subrange(i as int, n as int),
            marks@.subrange(i as int, n as int),
        );
        i -= 1;
        let ghost s = orig.subrange(i as int, n as int);
        let ghost m = marks@.subrange(i as int, n as int);
        assert(s.drop_first() =~= orig.subrange(i as int + 1, n as int));
        assert(m.drop_first() =~= marks@.subrange(i as int + 1, n as int));
        assert(items@[i as int] == orig[i as int]);
        if marks[i] {
            items.remove(i);
            assert(items@ =~= orig.subrange(0, i as int).add(rest));
        } else {
            assert(items@ =~= orig.subrange(0, i as int).add(seq![orig[i as int]].add(rest)));
        }
    }
    assert(orig.subrange(0, 0) =~= Seq::<T>::empty());
    assert(orig.subrange(0, n as int) =~= orig);
    assert(marks@.subrange(0, n as int) =~= marks@);
    assert(items@ =~= retained(orig, marks@));
}

/// Marks a body as belonging to the current scene.
#[derive(Copy, Clone, Debug, PartialEq, Eq, Structural)]
pub struct InScene;

/// Marks a body to be removed at the end of the tick.
#[derive(Copy, Clone, Debug, PartialEq, Eq, Structural)]
pub struct Deleted;

/// Removes every body marked deleted.
pub struct DeleteSystem;

impl DeleteSystem {
    pub fn run<T>(bodies: &mut Vec<T>, deleted: &Vec<bool>)
        requires
            old(bodies)@.len() == deleted@.len(),
        ensures
            final(bodies)@ == retained(old(bodies)@, deleted@),
    {
        compact(bodies, deleted);
    }
}

/// Removes every body of the current scene, when one scene is torn down for the next.
pub struct ClearCurrentScene;

impl ClearCurrentScene {
    pub fn run<T>(bodies: &mut Vec<T>, in_scene: &Vec<bool>)
        requires
            old(bodies)@.len() == in_scene@.len(),
        ensures
            final(bodies)@ == retained(old(bodies)@, in_scene@),
    {
        compact(bodies, in_scene);
    }
}

} // verus!
