//! The scenario archive: lineage of scenarios, and an in-memory store that keeps its
//! rows in ranking order (score descending, then identity ascending).
use vstd::prelude::*;

verus! {

/// Where a scenario stands in its family tree.
#[derive(Copy, Clone, Debug, PartialEq, Eq, Structural)]
pub struct Lineage {
    /// Identity of the scenario.
    pub id: u64,
    /// Identity of the root of its family.
    pub family: u64,
    /// Identity of its parent, kept even after the parent is pruned; `None` for a root.
    pub parent: Option<u64>,
    /// Depth below the root.
    pub generation: u64,
}

impl Lineage {
    /// The lineage of a root scenario with identity `id`.
    pub open spec fn root_spec(id: u64) -> Lineage {
        Lineage { id, family: id, parent: None, generation: 0 }
    }

    /// The lineage of a scenario with identity `id` bred from `parent`.
    pub open spec fn child_spec(parent: Lineage, id: u64) -> Lineage {
        Lineage {
            id,
            family: parent.family,
            parent: Some(parent.id),
            generation: (parent.generation + 1) as u64,
        }
    }

    /// The lineage of a new root scenario with identity `id`.
    pub fn root(id: u64) -> (r: Lineage)
        ensures
            r == Lineage::root_spec(id),
    {
        Lineage { id, family: id, parent: None, generation: 0 }
    }

    /// The lineage of a new scenario with identity `id` bred from `parent`.
    pub fn child(parent: &Lineage, id: u64) -> (r: Lineage)
        requires
            parent.generation < u64::MAX,
        ensures
            r == Lineage::child_spec(*parent, id),
    {
        Lineage {
            id,
            family: parent.family,
            parent: Some(parent.id),
            generation: parent.generation + 1,
        }
    }
}

/// A stored scenario: its lineage, its initial world and its score key.
#[derive(Clone, Debug)]
pub struct StoredScenario<W> {
    pub lineage: Lineage,
    pub world: W,
    /// Ordering key of the score (see `score::score_key`).
    pub score: u64,
}

/// Why a store refused a write.
#[derive(Copy, Clone, Debug, PartialEq, Eq, Structural)]
pub enum StorageError {
    /// Every identity has been handed out.
    IdsExhausted,
    /// The parent's generation is the largest that can be counted.
    GenerationOverflow,
}

/// Whether row `a` ranks before row `b`: a higher score, or an equal score and a
/// smaller identity.
pub open spec fn ranks_before<W>(a: StoredScenario<W>, b: StoredScenario<W>) -> bool {
    a.score > b.score || (a.score == b.score && a.lineage.id < b.lineage.id)
}

/// Whether `rows` is in strict ranking order.
pub open spec fn ranked<W>(rows: Seq<StoredScenario<W>>) -> bool {
    forall|i: int, j: int| 0 <= i < j < rows.len() ==> ranks_before(#[trigger] rows[i], #[trigger] rows[j])
}

/// What is left of `rows` after keeping the top `k`.
pub open spec fn top<W>(rows: Seq<StoredScenario<W>>, k: nat) -> Seq<StoredScenario<W>> {
    if k < rows.len() {
        rows.take(k as int)
    } else {
        rows
    }
}

/// A scenario store held in memory, for when no database can be opened.
pub struct MemoryStorage<W> {
    rows: Vec<StoredScenario<W>>,
    next_id: u64,
}

impl<W> MemoryStorage<W> {
    /// The rows, in ranking order.
    pub closed spec fn view(&self) -> Seq<StoredScenario<W>> {
        self.rows@
    }

    /// The identity that the next insertion gets.
    pub closed spec fn next_id(&self) -> u64 {
        self.next_id
    }

    pub closed spec fn wf(&self) -> bool {
        &&& ranked(self.rows@)
        &&& forall|i: int| 0 <= i < self.rows@.len() ==> (#[trigger] self.rows@[i]).lineage.id < self.next_id
        &&& self.next_id >= 1
    }

    /// An empty store; identities start at 1.
    pub fn new() -> (r: MemoryStorage<W>)
        ensures
            r.wf(),
            r@.len() == 0,
            r.next_id() == 1,
    {
        MemoryStorage { rows: Vec::new(), next_id: 1 }
    }

    /// Number of stored scenarios.
    pub fn num_scenarios(&self) -> (r: u64)
        ensures
            r == self@.len(),
    {
        self.rows.len() as u64
    }

    /// Inserts a row with a fresh identity at its place in the ranking.
    fn insert_ranked(&mut self, lineage: Lineage, world: W, score: u64)
        requires
            old(self).wf(),
            lineage.id == old(self).next_id(),
            old(self).next_id() < u64::MAX,
        ensures
            final(self).wf(),
            final(self).next_id() == old(self).next_id() + 1,
            exists|p: int|
                0 <= p <= old(self)@.len() && final(self)@ == old(self)@.insert(
                    p,
                    StoredScenario { lineage, world, score },
                ),
    {
        let mut p: usize = 0;
        while p < self.rows.len() && self.rows[p].score >= score
            invariant
                p <= self.rows@.len(),
                forall|i: int| 0 <= i < p ==> (#[trigger] self.rows@[i]).score >= score,
            decreases self.rows@.len() - p,
        {
            p += 1;
        }
        let ghost before = self.rows@;
        let row = StoredScenario { lineage, world, score };
        self.rows.insert(p, row);
        self.next_id = self.next_id + 1;
        assert(self.rows@ == before.insert(p as int, row));
        assert forall|i: int, j: int|
            0 <= i < j < self.rows@.len() implies ranks_before(
            #[trigger] self.rows@[i],
            #[trigger] self.rows@[j],
        ) by {
            if j < p {
                assert(ranks_before(before[i], before[j]));
            } else if j == p {
                assert(before[i].lineage.id < lineage.id);
            } else if i < p {
                assert(ranks_before(before[i], before[j - 1]));
            } else if i == p {
                assert(before[p as int].score < score);
                if j - 1 > p {
                    assert(ranks_before(before[p as int], before[j - 1]));
                }
            } else {
                assert(ranks_before(before[i - 1], before[j - 1]));
            }
        }
        assert(0 <= p <= old(self)@.len() && self@ == old(self)@.insert(p as int, row));
    }

    /// Stores a new root scenario; its identity is also its family.
    pub fn add_root_scenario(&mut self, world: W, score: u64) -> (r: Result<Lineage, StorageError>)
        requires
            old(self).wf(),
        ensures
            final(self).wf(),
            old(self).next_id() == u64::MAX <==> r is Err,
            r is Err ==> r == Err::<Lineage, StorageError>(StorageError::IdsExhausted)
                && final(self)@ == old(self)@,
            r matches Ok(l) ==> {
                &&& l == Lineage::root_spec(old(self).next_id())
                &&& final(self).next_id() == old(self).next_id() + 1
                &&& exists|p: int|
                    0 <= p <= old(self)@.len() && final(self)@ == old(self)@.insert(
                        p,
                        StoredScenario { lineage: l, world, score },
                    )
            },
    {
        if self.next_id == u64::MAX {
            return Err(StorageError::IdsExhausted);
        }
        let lineage = Lineage::root(self.next_id);
        self.insert_ranked(lineage, world, score);
        Ok(lineage)
    }

    /// Stores a new scenario bred from `parent`, in `parent`'s family, one generation
    /// below it.
    pub fn add_child_scenario(&mut self, world: W, score: u64, parent: &Lineage) -> (r: Result<
        Lineage,
        StorageError,
    >)
        requires
            old(self).wf(),
        ensures
            final(self).wf(),
            (old(self).next_id() == u64::MAX || parent.generation == u64::MAX) <==> r is Err,
            r matches Err(e) ==> (e == StorageError::IdsExhausted <==> old(self).next_id()
                == u64::MAX) && (e == StorageError::GenerationOverflow <==> old(self).next_id()
                < u64::MAX),
            r is Err ==> final(self)@ == old(self)@,
            r matches Ok(l) ==> {
                &&& l == Lineage::child_spec(*parent, old(self).next_id())
                &&& final(self).next_id() == old(self).next_id() + 1
                &&& exists|p: int|
                    0 <= p <= old(self)@.len() && final(self)@ == old(self)@.insert(
                        p,
                        StoredScenario { lineage: l, world, score },
                    )
            },
    {
        if self.next_id == u64::MAX {
            return Err(StorageError::IdsExhausted);
        }
        if parent.generation == u64::MAX {
            return Err(StorageError::GenerationOverflow);
        }
        let lineage = Lineage::child(parent, self.next_id);
        self.insert_ranked(lineage, world, score);
        Ok(lineage)
    }

    /// The scenario at rank `index` (0 is the best score), if there are that many.
    pub fn get_nth_scenario_by_score(&self, index: u64) -> (r: Option<&StoredScenario<W>>)
        requires
            self.wf(),
        ensures
            index < self@.len() <==> r is Some,
            r matches Some(s) ==> *s == self@[index as int],
    {
        if index < self.rows.len() as u64 {
            Some(&self.rows[index as usize])
        } else {
            None
        }
    }

    /// Deletes every scenario outside the top `number_to_keep`; returns how many went.
    pub fn keep_top_scenarios_by_score(&mut self, number_to_keep: u64) -> (r: u64)
        requires
            old(self).wf(),
        ensures
            final(self).wf(),
            final(self)@ == top(old(self)@, number_to_keep as nat),
            r == (if number_to_keep < old(self)@.len() {
                old(self)@.len() - number_to_keep
            } else {
                0
            }),
            final(self).next_id() == old(self).next_id(),
    {
        let n = self.rows.len() as u64;
        if number_to_keep < n {
            self.rows.truncate(number_to_keep as usize);
            assert(self.rows@ =~= top(old(self)@, number_to_keep as nat));
            n - number_to_keep
        } else {
            0
        }
    }
}

/// The ranking is deterministic and total: in a well-formed store, rank `i` comes
/// before rank `j` whenever `i < j`, by a higher score or by an equal score and a
/// smaller identity.
pub proof fn lemma_ranking_order<W>(store: &MemoryStorage<W>, i: int, j: int)
    requires
        store.wf(),
        0 <= i < j < store@.len(),
    ensures
        store@[i].score > store@[j].score || (store@[i].score == store@[j].score
            && store@[i].lineage.id < store@[j].lineage.id),
{
    reveal(MemoryStorage::wf);
    reveal(MemoryStorage::view);
}

/// Pruning keeps exactly the top `k` rows of the ranking: `max(0, n - k)` rows go, the
/// survivors are the first `min(n, k)` ranks in their order, and no rank `k` is left.
pub proof fn lemma_pruning<W>(rows: Seq<StoredScenario<W>>, k: nat)
    ensures
        top(rows, k).len() == if k < rows.len() { k } else { rows.len() },
        rows.len() - top(rows, k).len() == if k < rows.len() { rows.len() - k } else { 0 },
        forall|i: int| 0 <= i < top(rows, k).len() ==> #[trigger] top(rows, k)[i] == rows[i],
        top(rows, k).len() <= k,
{
}

/// Lineage: a child is in its parent's family, one generation below it, and names it as
/// parent; a root is its own family at generation zero, with no parent.
pub proof fn lemma_lineage(parent: Lineage, id: u64)
    requires
        parent.generation < u64::MAX,
    ensures
        Lineage::child_spec(parent, id).id == id,
        Lineage::child_spec(parent, id).family == parent.family,
        Lineage::child_spec(parent, id).generation == parent.generation + 1,
        Lineage::child_spec(parent, id).parent == Some(parent.id),
        Lineage::root_spec(id).id == id,
        Lineage::root_spec(id).family == id,
        Lineage::root_spec(id).generation == 0,
        Lineage::root_spec(id).parent is None,
{
}

} // verus!
