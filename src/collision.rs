//! Collision layers, the matrix of which layers may collide, and the bookkeeping of
//! collision events between bodies addressed by their index in a world.
use vstd::prelude::*;
use crate::deletion::{compact, retained};

verus! {

/// Number of collision layers.
pub const NUM_LAYERS: usize = 32;

/// A collision layer, one of `NUM_LAYERS`.
#[derive(Copy, Clone, Debug, PartialEq, Eq, Structural)]
pub struct CollisionLayer {
    layer: usize,
}

impl CollisionLayer {
    pub closed spec fn index(self) -> nat {
        self.layer as nat
    }

    pub open spec fn wf(self) -> bool {
        self.index() < NUM_LAYERS
    }

    /// Creates the layer with the given number, which must be below `NUM_LAYERS`.
    pub fn new(layer: usize) -> (r: CollisionLayer)
        requires
            layer < NUM_LAYERS,
        ensures
            r.index() == layer,
            r.wf(),
    {
        CollisionLayer { layer }
    }

    /// The number of this layer.
    pub fn layer(&self) -> (r: usize)
        ensures
            r == self.index(),
    {
        self.layer
    }
}

/// The layer that planets collide in.
pub fn planet() -> (r: CollisionLayer)
    ensures
        r.index() == 1,
        r.wf(),
{
    CollisionLayer::new(1)
}

/// A collision between the bodies at two indices of a world, the first below the second.
#[derive(Copy, Clone, Debug, PartialEq, Eq, Structural)]
pub struct CollisionEvent(pub usize, pub usize);

/// Which pairs of layers can collide. Row `a` holds bit `b` when layer `a` collides
/// with layer `b`; the relation is kept symmetric.
pub struct CollisionMatrix {
    rows: Vec<u32>,
}

pub open spec fn bit_set(row: u32, b: nat) -> bool {
    row & (1u32 << b) != 0
}

/// Setting bit `b` sets bit `c` exactly when `c` is `b` or was set.
proof fn lemma_or_bit(x: u32, b: u32, c: u32)
    requires
        b < 32,
        c < 32,
    ensures
        (x | (1u32 << b)) & (1u32 << c) != 0 <==> (b == c || x & (1u32 << c) != 0),
{
    assert((x | (1u32 << b)) & (1u32 << c) != 0 <==> (b == c || x & (1u32 << c) != 0))
        by (bit_vector)
        requires
            b < 32,
            c < 32,
    ;
}

/// Clearing bit `b` leaves bit `c` set exactly when `c` is not `b` and was set.
proof fn lemma_clear_bit(x: u32, b: u32, c: u32)
    requires
        b < 32,
        c < 32,
    ensures
        (x & !(1u32 << b)) & (1u32 << c) != 0 <==> (b != c && x & (1u32 << c) != 0),
{
    assert((x & !(1u32 << b)) & (1u32 << c) != 0 <==> (b != c && x & (1u32 << c) != 0))
        by (bit_vector)
        requires
            b < 32,
            c < 32,
    ;
}

/// No bit is set in zero.
proof fn lemma_zero_row(c: u32)
    requires
        c < 32,
    ensures
        0u32 & (1u32 << c) == 0,
{
    assert(0u32 & (1u32 << c) == 0) by (bit_vector);
}

impl CollisionMatrix {
    pub closed spec fn wf(&self) -> bool {
        self.rows@.len() == NUM_LAYERS
    }

    /// Whether layer `a` may collide with layer `b`.
    pub closed spec fn allows(&self, a: nat, b: nat) -> bool {
        a < NUM_LAYERS && b < NUM_LAYERS && bit_set(self.rows@[a as int], b)
    }

    /// A matrix in which no two layers collide.
    pub fn new() -> (r: CollisionMatrix)
        ensures
            r.wf(),
            forall|a: nat, b: nat| !r.allows(a, b),
    {
        let mut rows: Vec<u32> = Vec::new();
        let mut i: usize = 0;
        while i < NUM_LAYERS
            invariant
                i <= NUM_LAYERS,
                rows@.len() == i,
                forall|k: int| 0 <= k < i ==> rows@[k] == 0,
            decreases NUM_LAYERS - i,
        {
            rows.push(0);
            i += 1;
        }
        let r = CollisionMatrix { rows };
        assert forall|a: nat, b: nat| !r.allows(a, b) by {
            if a < NUM_LAYERS && b < NUM_LAYERS {
                lemma_zero_row(b as u32);
            }
        }
        r
    }

    /// Lets `l1` and `l2` collide with one another.
    pub fn enable_collision(&mut self, l1: CollisionLayer, l2: CollisionLayer)
        requires
            old(self).wf(),
            l1.wf(),
            l2.wf(),
        ensures
            final(self).wf(),
            forall|a: nat, b: nat|
                #[trigger] final(self).allows(a, b) == (old(self).allows(a, b) || (a == l1.index()
                    && b == l2.index()) || (a == l2.index() && b == l1.index())),
    {
        let ghost before = *self;
        let r1 = self.rows[l1.layer] | (1u32 << l2.layer as u32);
        self.rows.set(l1.layer, r1);
        let r2 = self.rows[l2.layer] | (1u32 << l1.layer as u32);
        self.rows.set(l2.layer, r2);
        assert forall|a: nat, b: nat|
            #[trigger] self.allows(a, b) == (before.allows(a, b) || (a == l1.index() && b
                == l2.index()) || (a == l2.index() && b == l1.index())) by {
            if a < NUM_LAYERS && b < NUM_LAYERS {
                let x = before.rows@[a as int];
                lemma_or_bit(x, l2.layer as u32, b as u32);
                lemma_or_bit(x, l1.layer as u32, b as u32);
                lemma_or_bit(x | (1u32 << l2.layer as u32), l1.layer as u32, b as u32);
            }
        }
    }

    /// Stops `l1` and `l2` from colliding with one another.
    pub fn disable_collision(&mut self, l1: CollisionLayer, l2: CollisionLayer)
        requires
            old(self).wf(),
            l1.wf(),
            l2.wf(),
        ensures
            final(self).wf(),
            forall|a: nat, b: nat|
                #[trigger] final(self).allows(a, b) == (old(self).allows(a, b) && !((a
                    == l1.index() && b == l2.index()) || (a == l2.index() && b == l1.index()))),
    {
        let ghost before = *self;
        let r1 = self.rows[l1.layer] & !(1u32 << l2.layer as u32);
        self.rows.set(l1.layer, r1);
        let r2 = self.rows[l2.layer] & !(1u32 << l1.layer as u32);
        self.rows.set(l2.layer, r2);
        assert forall|a: nat, b: nat|
            #[trigger] self.allows(a, b) == (before.allows(a, b) && !((a == l1.index() && b
                == l2.index()) || (a == l2.index() && b == l1.index()))) by {
            if a < NUM_LAYERS && b < NUM_LAYERS {
                let x = before.rows@[a as int];
                lemma_clear_bit(x, l2.layer as u32, b as u32);
                lemma_clear_bit(x, l1.layer as u32, b as u32);
                lemma_clear_bit(x & !(1u32 << l2.layer as u32), l1.layer as u32, b as u32);
            }
        }
    }

    /// Whether bodies in layers `l1` and `l2` can collide.
    pub fn can_collide(&self, l1: CollisionLayer, l2: CollisionLayer) -> (r: bool)
        requires
            self.wf(),
            l1.wf(),
            l2.wf(),
        ensures
            r == self.allows(l1.index(), l2.index()),
    {
        self.rows[l1.layer] & (1u32 << l2.layer as u32) != 0
    }
}

/// Whether pair `(a0, a1)` comes before `(b0, b1)` in the order of enumeration.
pub open spec fn pair_before(a0: int, a1: int, b0: int, b1: int) -> bool {
    a0 < b0 || (a0 == b0 && a1 < b1)
}

/// Whether the bodies at `i` and `j`, in layers `layers`, may collide under `matrix`.
pub open spec fn layers_allow(matrix: &CollisionMatrix, layers: Seq<CollisionLayer>, i: int, j: int) -> bool {
    matrix.allows(layers[i].index(), layers[j].index())
}

/// Detects collisions by looking at every pair of bodies once.
pub struct BruteForceCollisionDetector;

impl BruteForceCollisionDetector {
    /// Lists, in order of enumeration, each pair `i < j` of bodies whose layers may
    /// collide and for which `swept_hit(i, j)` reports that their circles meet during
    /// the tick. The geometric test is the caller's; each pair is asked once.
    pub fn run<F: Fn(usize, usize) -> bool>(
        &self,
        layers: &Vec<CollisionLayer>,
        matrix: &CollisionMatrix,
        swept_hit: F,
    ) -> (r: Vec<CollisionEvent>)
        requires
            matrix.wf(),
            forall|i: int| 0 <= i < layers@.len() ==> (#[trigger] layers@[i]).wf(),
            forall|i: usize, j: usize| #[trigger] swept_hit.requires((i, j)),
        ensures
            forall|k: int|
                0 <= k < r@.len() ==> {
                    let e = #[trigger] r@[k];
                    &&& e.0 < e.1 < layers@.len()
                    &&& layers_allow(matrix, layers@, e.0 as int, e.1 as int)
                    &&& call_ensures(swept_hit, (e.0, e.1), true)
                },
            forall|k: int, l: int|
                0 <= k < l < r@.len() ==> pair_before(
                    (#[trigger] r@[k]).0 as int,
                    r@[k].1 as int,
                    (#[trigger] r@[l]).0 as int,
                    r@[l].1 as int,
                ),
            forall|i: usize, j: usize|
                i < j < layers@.len() && #[trigger] layers_allow(matrix, layers@, i as int, j as int) && (
                forall|b: bool| #[trigger] call_ensures(swept_hit, (i, j), b) ==> b) ==> exists|
                    k: int,
                | 0 <= k < r@.len() && #[trigger] r@[k] == CollisionEvent(i, j),
    {
        let n = layers.len();
        let mut r: Vec<CollisionEvent> = Vec::new();
        let mut i: usize = 0;
        while i < n
            invariant
                n == layers@.len(),
                i <= n,
                matrix.wf(),
                forall|x: int| 0 <= x < layers@.len() ==> (#[trigger] layers@[x]).wf(),
                forall|x: usize, y: usize| #[trigger] swept_hit.requires((x, y)),
                forall|k: int|
                    0 <= k < r@.len() ==> {
                        let e = #[trigger] r@[k];
                        &&& e.0 < e.1 < n
                        &&& e.0 < i
                        &&& layers_allow(matrix, layers@, e.0 as int, e.1 as int)
                        &&& call_ensures(swept_hit, (e.0, e.1), true)
                    },
                forall|k: int, l: int|
                    0 <= k < l < r@.len() ==> pair_before(
                        (#[trigger] r@[k]).0 as int,
                        r@[k].1 as int,
                        (#[trigger] r@[l]).0 as int,
                        r@[l].1 as int,
                    ),
                forall|x: usize, y: usize|
                    x < y < n && x < i && #[trigger] layers_allow(matrix, layers@, x as int, y as int) && (
                    forall|b: bool| #[trigger] call_ensures(swept_hit, (x, y), b) ==> b) ==> exists|
                        k: int,
                    | 0 <= k < r@.len() && #[trigger] r@[k] == CollisionEvent(x, y),
            decreases n - i,
        {
            let mut j: usize = i + 1;
            while j < n
                invariant
                    n == layers@.len(),
                    i < n,
                    i < j <= n,
                    matrix.wf(),
                    forall|x: int| 0 <= x < layers@.len() ==> (#[trigger] layers@[x]).wf(),
                    forall|x: usize, y: usize| #[trigger] swept_hit.requires((x, y)),
                    forall|k: int|
                        0 <= k < r@.len() ==> {
                            let e = #[trigger] r@[k];
                            &&& e.0 < e.1 < n
                            &&& pair_before(e.0 as int, e.1 as int, i as int, j as int)
                            &&& layers_allow(matrix, layers@, e.0 as int, e.1 as int)
                            &&& call_ensures(swept_hit, (e.0, e.1), true)
                        },
                    forall|k: int, l: int|
                        0 <= k < l < r@.len() ==> pair_before(
                            (#[trigger] r@[k]).0 as int,
                            r@[k].1 as int,
                            (#[trigger] r@[l]).0 as int,
                            r@[l].1 as int,
                        ),
                    forall|x: usize, y: usize|
                        x < y < n && pair_before(x as int, y as int, i as int, j as int)
                            && #[trigger] layers_allow(matrix, layers@, x as int, y as int) && (forall|b: bool|
                            #[trigger] call_ensures(swept_hit, (x, y), b) ==> b) ==> exists|k: int|
                            0 <= k < r@.len() && #[trigger] r@[k] == CollisionEvent(x, y),
                decreases n - j,
            {
                if matrix.can_collide(layers[i], layers[j]) {
                    let hit = swept_hit(i, j);
                    if hit {
                        let ghost before = r@;
                        r.push(CollisionEvent(i, j));
                        assert forall|x: usize, y: usize|
                            x < y < n && pair_before(x as int, y as int, i as int, j as int + 1)
                                && #[trigger] layers_allow(matrix, layers@, x as int, y as int) && (forall|
                                b: bool,
                            | #[trigger] call_ensures(swept_hit, (x, y), b) ==> b) implies exists|
                            k: int,
                        | 0 <= k < r@.len() && #[trigger] r@[k] == CollisionEvent(x, y) by {
                            if x == i && y == j {
                                assert(r@[before.len() as int] == CollisionEvent(x, y));
                            } else {
                                let k = choose|k: int|
                                    0 <= k < before.len() && #[trigger] before[k] == CollisionEvent(
                                        x,
                                        y,
                                    );
                                assert(r@[k] == CollisionEvent(x, y));
                            }
                        }
                    }
                }
                j += 1;
            }
            i += 1;
        }
        r
    }
}

/// Drops, when a scene is torn down, the collisions that involve a body of that scene.
pub struct ClearCollisionsInvolvingSceneEntities;

impl ClearCollisionsInvolvingSceneEntities {
    /// For each event, whether it is to be dropped: one of its bodies is in the scene.
    pub fn marks(events: &Vec<CollisionEvent>, in_scene: &Vec<bool>) -> (r: Vec<bool>)
        requires
            forall|k: int|
                0 <= k < events@.len() ==> (#[trigger] events@[k]).0 < in_scene@.len()
                    && events@[k].1 < in_scene@.len(),
        ensures
            r@.len() == events@.len(),
            forall|k: int|
                0 <= k < r@.len() ==> #[trigger] r@[k] == (in_scene@[events@[k].0 as int]
                    || in_scene@[events@[k].1 as int]),
    {
        let mut r: Vec<bool> = Vec::new();
        let mut k: usize = 0;
        while k < events.len()
            invariant
                k <= events@.len(),
                r@.len() == k,
                forall|x: int|
                    0 <= x < events@.len() ==> (#[trigger] events@[x]).0 < in_scene@.len()
                        && events@[x].1 < in_scene@.len(),
                forall|x: int|
                    0 <= x < k ==> #[trigger] r@[x] == (in_scene@[events@[x].0 as int]
                        || in_scene@[events@[x].1 as int]),
            decreases events@.len() - k,
        {
            let e = events[k];
            r.push(in_scene[e.0] || in_scene[e.1]);
            k += 1;
        }
        r
    }

    /// Keeps the events that involve no body of the scene, in their order.
    pub fn run(events: &mut Vec<CollisionEvent>, in_scene: &Vec<bool>)
        requires
            forall|k: int|
                0 <= k < old(events)@.len() ==> (#[trigger] old(events)@[k]).0 < in_scene@.len()
                    && old(events)@[k].1 < in_scene@.len(),
        ensures
            exists|m: Seq<bool>|
                m.len() == old(events)@.len() && (forall|k: int|
                    0 <= k < m.len() ==> #[trigger] m[k] == (in_scene@[old(events)@[k].0 as int]
                        || in_scene@[old(events)@[k].1 as int])) && final(events)@ == retained(
                    old(events)@,
                    m,
                ),
    {
        let m = ClearCollisionsInvolvingSceneEntities::marks(events, in_scene);
        compact(events, &m);
    }
}

} // verus!
