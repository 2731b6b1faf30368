//! The execution engine's decisions: admission of units under a concurrency
//! bound, classification of each unit's outcome, and the per-run tallies.
//! The driver that performs the network calls feeds events in and carries
//! the decisions out.
use vstd::prelude::*;

use crate::combos::{words_of, Words};
use crate::task::{Stats, TaskStatus, UnitOutcome};
use crate::text::{
    contains_seq, decimal, lowercase_str, lowercased, str_contains, zero_padded, zero_padded_decimal,
};

verus! {

/// The state of one batch, as numbers.
pub struct BatchView {
    pub total: nat,
    pub limit: nat,
    pub next: nat,
    pub in_flight: nat,
    pub finished: nat,
    pub abandoned: nat,
    pub stats: Stats,
}

/// Every dispatched unit is in flight, finished or abandoned; at most
/// `limit` are in flight; the tallies count exactly the finished units.
pub open spec fn batch_wf(v: BatchView) -> bool {
    &&& v.limit > 0
    &&& v.in_flight <= v.limit
    &&& v.next <= v.total
    &&& v.finished + v.abandoned + v.in_flight == v.next
    &&& v.stats.units() == v.finished
}

/// The admission gate and tallies of one batch of units, numbered from 0 in
/// dispatch order.
pub struct Batch {
    total: usize,
    limit: usize,
    next: usize,
    in_flight: usize,
    finished: usize,
    abandoned: usize,
    stats: Stats,
}

impl View for Batch {
    type V = BatchView;

    closed spec fn view(&self) -> BatchView {
        BatchView {
            total: self.total as nat,
            limit: self.limit as nat,
            next: self.next as nat,
            in_flight: self.in_flight as nat,
            finished: self.finished as nat,
            abandoned: self.abandoned as nat,
            stats: self.stats,
        }
    }
}

impl Batch {
    pub open spec fn wf(&self) -> bool {
        batch_wf(self@)
    }

    /// A batch of `total` units with `max_concurrency` permits.
    pub fn new(total: usize, max_concurrency: usize) -> (r: Batch)
        requires
            max_concurrency > 0,
        ensures
            r.wf(),
            r@.total == total,
            r@.limit == max_concurrency,
            r@.next == 0,
            r@.in_flight == 0,
            r@.finished == 0,
            r@.abandoned == 0,
    {
        Batch {
            total,
            limit: max_concurrency,
            next: 0,
            in_flight: 0,
            finished: 0,
            abandoned: 0,
            stats: Stats::new(),
        }
    }

    /// Admits the next unit when a permit is free and a unit is left,
    /// returning its index; otherwise changes nothing.
    pub fn dispatch_next(&mut self) -> (r: Option<usize>)
        requires
            old(self).wf(),
        ensures
            final(self).wf(),
            (old(self)@.in_flight < old(self)@.limit && old(self)@.next < old(self)@.total) ==> (r
                == Some(old(self)@.next as usize) && final(self)@ == BatchView {
                next: old(self)@.next + 1,
                in_flight: old(self)@.in_flight + 1,
                ..old(self)@
            }),
            !(old(self)@.in_flight < old(self)@.limit && old(self)@.next < old(self)@.total) ==> (r
                is None && final(self)@ == old(self)@),
    {
        if self.in_flight < self.limit && self.next < self.total {
            let idx = self.next;
            self.next = self.next + 1;
            self.in_flight = self.in_flight + 1;
            Some(idx)
        } else {
            None
        }
    }

    /// Ends one unit in flight: an outcome is tallied and counts as finished;
    /// `None`, a unit abandoned at its cancellation check, counts nothing.
    pub fn finish(&mut self, outcome: Option<UnitOutcome>)
        requires
            old(self).wf(),
            old(self)@.in_flight > 0,
        ensures
            final(self).wf(),
            final(self)@.in_flight == old(self)@.in_flight - 1,
            final(self)@.next == old(self)@.next,
            final(self)@.total == old(self)@.total,
            final(self)@.limit == old(self)@.limit,
            outcome matches Some(o) ==> final(self)@.finished == old(self)@.finished + 1
                && final(self)@.abandoned == old(self)@.abandoned && final(self)@.stats
                == old(self)@.stats.after(o),
            outcome is None ==> final(self)@.finished == old(self)@.finished
                && final(self)@.abandoned == old(self)@.abandoned + 1 && final(self)@.stats
                == old(self)@.stats,
    {
        self.in_flight = self.in_flight - 1;
        match outcome {
            Some(o) => {
                self.stats.record(o);
                self.finished = self.finished + 1;
            },
            None => {
                self.abandoned = self.abandoned + 1;
            },
        }
    }

    /// Whether every unit has been dispatched and has ended.
    pub fn is_done(&self) -> (r: bool)
        ensures
            r == (self@.next == self@.total && self@.in_flight == 0),
    {
        self.next == self.total && self.in_flight == 0
    }

    /// The number of units in flight.
    pub fn in_flight(&self) -> (r: usize)
        ensures
            r == self@.in_flight,
    {
        self.in_flight
    }

    /// A copy of the tallies.
    pub fn stats(&self) -> (r: Stats)
        ensures
            r == self@.stats,
    {
        Stats {
            downloaded: self.stats.downloaded,
            total_bytes: self.stats.total_bytes,
            ignored: self.stats.ignored,
            errors: self.stats.errors,
            not_found: self.stats.not_found,
        }
    }
}

/// A well-formed batch never has more than `limit` units in flight; once it
/// is done, every unit is finished or abandoned, and the tallies sum to the
/// finished units, so to all of them when none was abandoned.
pub proof fn lemma_batch_accounting(v: BatchView)
    requires
        batch_wf(v),
    ensures
        v.in_flight <= v.limit,
        (v.next == v.total && v.in_flight == 0) ==> v.finished + v.abandoned == v.total
            && v.stats.downloaded + v.stats.ignored + v.stats.errors + v.stats.not_found
            == v.finished,
        (v.next == v.total && v.in_flight == 0 && v.abandoned == 0) ==> v.stats.downloaded
            + v.stats.ignored + v.stats.errors + v.stats.not_found == v.total,
{
}

/// How a fetched response is handled.
#[derive(Debug, Clone, Copy, PartialEq, Eq, Structural)]
pub enum ResponseClass {
    /// The target does not exist.
    NotFound,
    /// A status outside the success range.
    Failed,
    /// Success, but the content type fails the allow-list.
    Ignored,
    /// Success and an acceptable content type: the payload is to be saved.
    Accepted,
}

/// Whether a status code is in the success range 200..=299.
pub open spec fn is_success(status: u16) -> bool {
    200 <= status <= 299
}

/// Whether some filter occurs in the (lowercased) content type.
pub open spec fn type_allowed(content_type: Seq<char>, filters: Words) -> bool {
    exists|i: int| 0 <= i < filters.len() && contains_seq(content_type, #[trigger] filters[i])
}

/// The class of a response, in priority order: not found, failure, filtered
/// out, accepted. An empty filter list lets every type through.
pub open spec fn response_class(status: u16, content_type: Seq<char>, filters: Words) -> ResponseClass {
    if status == 404 {
        ResponseClass::NotFound
    } else if !is_success(status) {
        ResponseClass::Failed
    } else if filters.len() > 0 && !type_allowed(content_type, filters) {
        ResponseClass::Ignored
    } else {
        ResponseClass::Accepted
    }
}

/// Classifies a response whose content type is already lowercased.
pub fn classify_lowered(status: u16, content_type: &str, filters: &Vec<String>) -> (r: ResponseClass)
    ensures
        r == response_class(status, content_type@, words_of(filters@)),
{
    if status == 404 {
        return ResponseClass::NotFound;
    }
    if !(200 <= status && status <= 299) {
        return ResponseClass::Failed;
    }
    if filters.len() == 0 {
        return ResponseClass::Accepted;
    }
    let mut i: usize = 0;
    while i < filters.len()
        invariant
            status != 404,
            200 <= status <= 299,
            filters@.len() > 0,
            i <= filters@.len(),
            forall|k: int| 0 <= k < i ==> !contains_seq(content_type@, #[trigger] words_of(filters@)[k]),
        decreases filters@.len() - i,
    {
        if str_contains(content_type, filters[i].as_str()) {
            assert(contains_seq(content_type@, words_of(filters@)[i as int]));
            assert(type_allowed(content_type@, words_of(filters@)));
            return ResponseClass::Accepted;
        }
        i = i + 1;
    }
    ResponseClass::Ignored
}

/// Classifies a response; the content type is compared in lower case.
pub fn classify_response(status: u16, content_type: &str, filters: &Vec<String>) -> (r: ResponseClass)
    ensures
        r == response_class(status, lowercased(content_type@), words_of(filters@)),
{
    let lowered = lowercase_str(content_type);
    classify_lowered(status, lowered.as_str(), filters)
}

/// The outcome of a unit: `saved` is the payload length when an accepted
/// payload was read and saved, `None` when that failed.
pub open spec fn unit_outcome_of(class: ResponseClass, saved: Option<u64>) -> UnitOutcome {
    match class {
        ResponseClass::NotFound => UnitOutcome::NotFound,
        ResponseClass::Failed => UnitOutcome::Error,
        ResponseClass::Ignored => UnitOutcome::Ignored,
        ResponseClass::Accepted => match saved {
            Some(n) => UnitOutcome::Downloaded(n),
            None => UnitOutcome::Error,
        },
    }
}

pub fn unit_outcome(class: ResponseClass, saved: Option<u64>) -> (r: UnitOutcome)
    ensures
        r == unit_outcome_of(class, saved),
{
    match class {
        ResponseClass::NotFound => UnitOutcome::NotFound,
        ResponseClass::Failed => UnitOutcome::Error,
        ResponseClass::Ignored => UnitOutcome::Ignored,
        ResponseClass::Accepted => match saved {
            Some(n) => UnitOutcome::Downloaded(n),
            None => UnitOutcome::Error,
        },
    }
}

/// The file name of the payload of unit `idx`: `download_` and the index,
/// zero-padded to six digits.
pub open spec fn download_name(idx: nat) -> Seq<char> {
    "download_"@ + zero_padded(decimal(idx), 6)
}

pub fn download_file_name(idx: usize) -> (r: String)
    ensures
        r@ == download_name(idx as nat),
{
    proof {
        reveal_strlit("download_");
    }
    let mut r = String::from_str("download_");
    let digits = zero_padded_decimal(idx as u64, 6);
    r.append(digits.as_str());
    r
}

/// What the polling worker of a task does next.
#[derive(Debug, Clone, Copy, PartialEq, Eq, Structural)]
pub enum WorkerAction {
    /// Sleep, then look again.
    Wait,
    /// Perform one step of work.
    Work,
    /// Leave the loop.
    Exit,
}

pub open spec fn worker_action_of(status: Option<TaskStatus>) -> WorkerAction {
    match status {
        Some(TaskStatus::Paused) => WorkerAction::Wait,
        Some(TaskStatus::Running) => WorkerAction::Work,
        _ => WorkerAction::Exit,
    }
}

/// A paused task waits, a running task works, any other or absent task ends
/// the loop.
pub fn next_worker_action(status: Option<TaskStatus>) -> (r: WorkerAction)
    ensures
        r == worker_action_of(status),
{
    match status {
        Some(TaskStatus::Paused) => WorkerAction::Wait,
        Some(TaskStatus::Running) => WorkerAction::Work,
        _ => WorkerAction::Exit,
    }
}

} // verus!
