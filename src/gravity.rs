//! Which bodies attract which: every ordered pair of a gravity target and a gravity
//! source that are different bodies. The force itself is the caller's.
use vstd::prelude::*;

verus! {

/// Marks a body whose mass attracts others.
#[derive(Copy, Clone, Debug, PartialEq, Eq, Structural)]
pub struct GravitySource;

/// Marks a body that is attracted by sources.
#[derive(Copy, Clone, Debug, PartialEq, Eq, Structural)]
pub struct GravityTarget;

/// A body's gravitational roles; a body may be both.
#[derive(Copy, Clone, Debug, PartialEq, Eq, Structural)]
pub struct GravityRoles {
    pub source: bool,
    pub target: bool,
}

/// Whether the body at `target` is pulled by the one at `source`.
pub open spec fn attracts(roles: Seq<GravityRoles>, target: int, source: int) -> bool {
    0 <= target < roles.len() && 0 <= source < roles.len() && target != source
        && roles[target].target && roles[source].source
}

/// The gravity system: lists the pairs on which a force is to be applied.
pub struct GravitySystem;

impl GravitySystem {
    /// Every pair `(target, source)` of distinct bodies where the first is a target and
    /// the second a source, ordered by target and then by source.
    pub fn pairs(roles: &Vec<GravityRoles>) -> (r: Vec<(usize, usize)>)
        ensures
            forall|k: int|
                0 <= k < r@.len() ==> attracts(roles@, (#[trigger] r@[k]).0 as int, r@[k].1 as int),
            forall|k: int, l: int|
                0 <= k < l < r@.len() ==> (#[trigger] r@[k]).0 < (#[trigger] r@[l]).0 || (r@[k].0
                    == r@[l].0 && r@[k].1 < r@[l].1),
            forall|t: usize, s: usize|
                #[trigger] attracts(roles@, t as int, s as int) ==> exists|k: int|
                    0 <= k < r@.len() && r@[k] == (t, s),
    {
        let n = roles.len();
        let mut r: Vec<(usize, usize)> = Vec::new();
        let mut t: usize = 0;
        while t < n
            invariant
                n == roles@.len(),
                t <= n,
                forall|k: int|
                    0 <= k < r@.len() ==> attracts(roles@, (#[trigger] r@[k]).0 as int, r@[k].1 as int)
                        && r@[k].0 < t,
                forall|k: int, l: int|
                    0 <= k < l < r@.len() ==> (#[trigger] r@[k]).0 < (#[trigger] r@[l]).0 || (
                    r@[k].0 == r@[l].0 && r@[k].1 < r@[l].1),
                forall|x: usize, y: usize|
                    x < t && #[trigger] attracts(roles@, x as int, y as int) ==> exists|k: int|
                        0 <= k < r@.len() && r@[k] == (x, y),
            decreases n - t,
        {
            let mut s: usize = 0;
            while s < n
                invariant
                    n == roles@.len(),
                    t < n,
                    s <= n,
                    forall|k: int|
                        0 <= k < r@.len() ==> attracts(
                            roles@,
                            (#[trigger] r@[k]).0 as int,
                            r@[k].1 as int,
                        ) && (r@[k].0 < t || (r@[k].0 == t && r@[k].1 < s)),
                    forall|k: int, l: int|
                        0 <= k < l < r@.len() ==> (#[trigger] r@[k]).0 < (#[trigger] r@[l]).0 || (
                        r@[k].0 == r@[l].0 && r@[k].1 < r@[l].1),
                    forall|x: usize, y: usize|
                        (x < t || (x == t && y < s)) && #[trigger] attracts(roles@, x as int, y as int)
                            ==> exists|k: int| 0 <= k < r@.len() && r@[k] == (x, y),
                decreases n - s,
            {
                if s != t && roles[t].target && roles[s].source {
                    let ghost before = r@;
                    r.push((t, s));
                    assert forall|x: usize, y: usize|
                        (x < t || (x == t && y < s + 1)) && #[trigger] attracts(
                            roles@,
                            x as int,
                            y as int,
                        ) implies exists|k: int| 0 <= k < r@.len() && r@[k] == (x, y) by {
                        if x == t && y == s {
                            assert(r@[before.len() as int] == (x, y));
                        } else {
                            let k = choose|k: int| 0 <= k < before.len() && before[k] == (x, y);
                            assert(r@[k] == (x, y));
                        }
                    }
                }
                s += 1;
            }
            t += 1;
        }
        r
    }
}

} // verus!
