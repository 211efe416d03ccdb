use vstd::prelude::*;

use crate::errors::DlErrors;
use crate::resolver::ResourceId;
use crate::retrieval::RetrievalResult;

verus! {

// ---------------------------------------------------------------------------
// Status reporting
// ---------------------------------------------------------------------------

/// The status transitions an item passes through, reported to the progress
/// observer. Observation only: reporting never changes what the batch does.
pub enum DownloadTrackStatus {
    Searching,
    Downloading(String),
}

// ---------------------------------------------------------------------------
// The batch and its model
// ---------------------------------------------------------------------------

/// What the orchestrator remembers across one batch: how many items it
/// drives, how many are done and how they ended, the failed items with
/// their display names, and the pacing clock.
pub struct BatchState {
    pub total: usize,
    pub processed: usize,
    pub succeeded: usize,
    pub skipped: usize,
    pub failures: Vec<(ResourceId, String)>,
    pub last_start: u64,
    pub delay: u64,
}

/// The batch as the contracts speak of it.
pub ghost struct BatchModel {
    pub total: nat,
    pub processed: nat,
    pub succeeded: nat,
    pub skipped: nat,
    pub failures: Seq<(ResourceId, Seq<char>)>,
    pub last_start: nat,
    pub delay: nat,
}

impl View for BatchState {
    type V = BatchModel;

    open spec fn view(&self) -> BatchModel {
        BatchModel {
            total: self.total as nat,
            processed: self.processed as nat,
            succeeded: self.succeeded as nat,
            skipped: self.skipped as nat,
            failures: self.failures@.map_values(|f: (ResourceId, String)| (f.0, f.1@)),
            last_start: self.last_start as nat,
            delay: self.delay as nat,
        }
    }
}

impl BatchModel {
    /// Every item that is done ended in exactly one of the three ways.
    pub open spec fn wf(self) -> bool {
        &&& self.processed == self.succeeded + self.skipped + self.failures.len()
        &&& self.processed <= self.total
    }
}

/// How one recorded outcome changes the batch: a success and a skip only
/// advance the counts, any other failure is appended to the failure list.
pub open spec fn apply_outcome(
    m: BatchModel,
    id: ResourceId,
    name: Seq<char>,
    outcome: Result<Seq<char>, DlErrors>,
) -> BatchModel {
    match outcome {
        Ok(_) => BatchModel { processed: m.processed + 1, succeeded: m.succeeded + 1, ..m },
        Err(e) => if e == DlErrors::TrackExists {
            BatchModel { processed: m.processed + 1, skipped: m.skipped + 1, ..m }
        } else {
            BatchModel {
                processed: m.processed + 1,
                failures: m.failures.push((id, name)),
                ..m
            }
        },
    }
}

/// The model of an exec outcome.
pub open spec fn outcome_model(r: RetrievalResult) -> Result<Seq<char>, DlErrors> {
    match r {
        RetrievalResult::Success(p) => Ok(p@),
        RetrievalResult::Failure(e) => Err(e),
    }
}

impl BatchState {
    /// Opens a batch of `total` items with the given pacing interval; the
    /// pacing clock starts at `now`.
    pub fn new(total: usize, delay: u64, now: u64) -> (r: BatchState)
        ensures
            r@ == (BatchModel {
                total: total as nat,
                processed: 0,
                succeeded: 0,
                skipped: 0,
                failures: Seq::empty(),
                last_start: now as nat,
                delay: delay as nat,
            }),
            r@.wf(),
    {
        let r = BatchState {
            total,
            processed: 0,
            succeeded: 0,
            skipped: 0,
            failures: Vec::new(),
            last_start: now,
            delay,
        };
        proof {
            assert(r@.failures =~= Seq::<(ResourceId, Seq<char>)>::empty());
        }
        r
    }

    /// Records how one item ended. A pre-existing destination is a skip and
    /// never enters the failure list; every other failure is appended to it
    /// with the item's identifier and display name; the batch always moves
    /// on to the next item.
    pub fn record(&mut self, id: ResourceId, name: String, outcome: RetrievalResult)
        requires
            old(self)@.wf(),
            old(self)@.processed < old(self)@.total,
        ensures
            final(self)@ == apply_outcome(old(self)@, id, name@, outcome_model(outcome)),
            final(self)@.wf(),
            final(self)@.processed == old(self)@.processed + 1,
    {
        self.processed = self.processed + 1;
        match outcome {
            RetrievalResult::Success(_) => {
                self.succeeded = self.succeeded + 1;
            },
            RetrievalResult::Failure(e) => {
                if e == DlErrors::TrackExists {
                    self.skipped = self.skipped + 1;
                } else {
                    self.failures.push((id, name));
                    proof {
                        assert(self.failures@.map_values(|f: (ResourceId, String)| (f.0, f.1@))
                            =~= old(self).failures@.map_values(
                            |f: (ResourceId, String)| (f.0, f.1@),
                        ).push((id, name@)));
                    }
                }
            },
        }
    }

    /// Whether more items follow: only then does the batch pause for pacing
    /// — the final item never pauses afterward.
    pub fn more_to_come(&self) -> (r: bool)
        ensures
            r == (self@.processed < self@.total),
    {
        self.processed < self.total
    }

    /// How long to pause before the next item starts, measured at `now`:
    /// whatever is left of the pacing interval, and nothing when the prior
    /// item's own processing already consumed it.
    pub fn pacing_wait(&self, now: u64) -> (r: u64)
        requires
            now >= self@.last_start,
        ensures
            r as nat == pacing_wait_spec(self@.last_start, self@.delay, now as nat),
    {
        let elapsed = now - self.last_start;
        if elapsed >= self.delay {
            0
        } else {
            self.delay - elapsed
        }
    }

    /// Marks the moment the next item starts, resetting the pacing clock.
    pub fn mark_started(&mut self, now: u64)
        ensures
            final(self)@ == (BatchModel { last_start: now as nat, ..old(self)@ }),
    {
        self.last_start = now;
    }
}

/// What remains of the pacing interval at `now`, the prior item having
/// started at `last_start`.
pub open spec fn pacing_wait_spec(last_start: nat, delay: nat, now: nat) -> nat {
    if now - last_start >= delay {
        0
    } else {
        (delay - (now - last_start)) as nat
    }
}

// ---------------------------------------------------------------------------
// Laws of the batch
// ---------------------------------------------------------------------------

/// Pacing: when the next item starts after the computed pause, the gap
/// between the starts of consecutive items is never below the pacing
/// interval; and the pause is zero exactly when the prior item's own
/// processing already consumed the interval.
pub proof fn lemma_pacing_gap(last_start: nat, delay: nat, now: nat)
    requires
        now >= last_start,
    ensures
        now + pacing_wait_spec(last_start, delay, now) - last_start >= delay,
        pacing_wait_spec(last_start, delay, now) == 0 <==> now - last_start >= delay,
{
}

/// One step of a batch fold: the records of a batch applied in order.
pub open spec fn apply_all(
    m: BatchModel,
    records: Seq<(ResourceId, Seq<char>, Result<Seq<char>, DlErrors>)>,
) -> BatchModel
    decreases records.len(),
{
    if records.len() == 0 {
        m
    } else {
        apply_all(
            apply_outcome(m, records[0].0, records[0].1, records[0].2),
            records.drop_first(),
        )
    }
}

/// An outcome that counts as a failure: neither a success nor a skip.
pub open spec fn is_failure_outcome(r: Result<Seq<char>, DlErrors>) -> bool {
    r matches Err(e) && e != DlErrors::TrackExists
}

/// How many of a batch's outcomes count as failures.
pub open spec fn failure_count(
    records: Seq<(ResourceId, Seq<char>, Result<Seq<char>, DlErrors>)>,
) -> nat
    decreases records.len(),
{
    if records.len() == 0 {
        0
    } else {
        (if is_failure_outcome(records[0].2) {
            1nat
        } else {
            0nat
        }) + failure_count(records.drop_first())
    }
}

/// Batch completion: a batch of N items processes all N, whatever each
/// item's outcome was — no failure aborts it — and the failure list grows
/// by exactly the outcomes that were neither successes nor skips.
pub proof fn lemma_batch_completion(
    m: BatchModel,
    records: Seq<(ResourceId, Seq<char>, Result<Seq<char>, DlErrors>)>,
)
    requires
        m.wf(),
        m.processed + records.len() <= m.total,
    ensures
        apply_all(m, records).wf(),
        apply_all(m, records).processed == m.processed + records.len(),
        apply_all(m, records).failures.len() == m.failures.len() + failure_count(records),
        apply_all(m, records).total == m.total,
    decreases records.len(),
{
    if records.len() > 0 {
        let m1 = apply_outcome(m, records[0].0, records[0].1, records[0].2);
        lemma_batch_completion(m1, records.drop_first());
    }
}

} // verus!
