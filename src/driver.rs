//! The run driver: counts the scored ticks of the running scenario and, when the run is
//! over, stores its result.
use vstd::prelude::*;
use crate::score::{is_nan_bits, persisted_score_bits, score_key, score_key_spec, NEG_INFINITY_BITS};
use crate::storage::{Lineage, MemoryStorage, StorageError, StoredScenario};

verus! {

/// What the driver does on a fixed tick.
#[derive(Copy, Clone, Debug, PartialEq, Eq, Structural)]
pub enum TickAction {
    /// Score this tick and add it to the run's total.
    Score,
    /// The run is over: store it and generate the next scenario.
    Finish,
}

/// Tracks how far the running scenario is.
#[derive(Copy, Clone, Debug, PartialEq, Eq, Structural)]
pub struct ScoreKeeper {
    /// Ticks scored so far in this run.
    pub ticks_completed: u64,
    /// Ticks that a run lasts.
    pub scored_ticks: u64,
}

impl ScoreKeeper {
    /// The count never passes the length of a run.
    pub open spec fn wf(self) -> bool {
        self.ticks_completed <= self.scored_ticks
    }

    /// A keeper at the start of a run that lasts `scored_ticks` ticks.
    pub fn new(scored_ticks: u64) -> (r: ScoreKeeper)
        ensures
            r == (ScoreKeeper { ticks_completed: 0, scored_ticks }),
            r.wf(),
    {
        ScoreKeeper { ticks_completed: 0, scored_ticks }
    }

    /// Advances by one tick: while the run lasts the tick is scored, after its last
    /// tick the run finishes and the count starts over.
    pub fn tick(&mut self) -> (r: TickAction)
        requires
            old(self).wf(),
        ensures
            final(self).wf(),
            final(self).scored_ticks == old(self).scored_ticks,
            old(self).ticks_completed < old(self).scored_ticks ==> r == TickAction::Score
                && final(self).ticks_completed == old(self).ticks_completed + 1,
            old(self).ticks_completed == old(self).scored_ticks ==> r == TickAction::Finish
                && final(self).ticks_completed == 0,
    {
        if self.ticks_completed < self.scored_ticks {
            self.ticks_completed = self.ticks_completed + 1;
            TickAction::Score
        } else {
            self.ticks_completed = 0;
            TickAction::Finish
        }
    }

    /// The fraction of the run that is over, as a numerator and denominator.
    pub fn elapsed_ticks(&self) -> (r: (u64, u64))
        ensures
            r == (self.ticks_completed, self.scored_ticks),
    {
        (self.ticks_completed, self.scored_ticks)
    }
}

/// The key under which a run whose accumulated score has bit pattern `bits` is ranked:
/// a NaN ranks as negative infinity.
pub open spec fn stored_key(bits: u64) -> u64 {
    score_key_spec(if is_nan_bits(bits) { NEG_INFINITY_BITS } else { bits })
}

/// Stores a finished run: as a child of `parent` when it was bred from one, else as a
/// new root. A NaN score is stored as negative infinity.
pub fn record_run<W>(
    store: &mut MemoryStorage<W>,
    world: W,
    score_bits: u64,
    parent: Option<Lineage>,
) -> (r: Result<Lineage, StorageError>)
    requires
        old(store).wf(),
    ensures
        final(store).wf(),
        r is Err ==> final(store)@ == old(store)@,
        r matches Ok(l) ==> {
            &&& l.id == old(store).next_id()
            &&& match parent {
                None => l == Lineage::root_spec(l.id),
                Some(p) => l == Lineage::child_spec(p, l.id),
            }
            &&& exists|i: int|
                0 <= i <= old(store)@.len() && final(store)@ == old(store)@.insert(
                    i,
                    StoredScenario { lineage: l, world, score: stored_key(score_bits) },
                )
        },
        old(store).next_id() < u64::MAX && (parent is None || parent->Some_0.generation
            < u64::MAX) ==> r is Ok,
{
    let key = score_key(persisted_score_bits(score_bits));
    match parent {
        Some(p) => store.add_child_scenario(world, key, &p),
        None => store.add_root_scenario(world, key),
    }
}

} // verus!
