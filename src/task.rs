//! Task records, their status machine and per-run statistics.
use vstd::prelude::*;

use crate::text::str_eq;

verus! {

/// Lifecycle state of a task.
#[derive(Debug, Clone, Copy, PartialEq, Eq, Structural)]
pub enum TaskStatus {
    Queued,
    Running,
    Paused,
    Completed,
    Failed,
    Stopped,
}

/// The text form of a status, as shown to operators and stored in records.
pub open spec fn status_text(s: TaskStatus) -> Seq<char> {
    match s {
        TaskStatus::Queued => "Queued"@,
        TaskStatus::Running => "Running"@,
        TaskStatus::Paused => "Paused"@,
        TaskStatus::Completed => "Completed"@,
        TaskStatus::Failed => "Failed"@,
        TaskStatus::Stopped => "Stopped"@,
    }
}

/// The status named by a text; an unknown text reads as `Queued`.
pub open spec fn status_of_text(t: Seq<char>) -> TaskStatus {
    if t == "Running"@ {
        TaskStatus::Running
    } else if t == "Paused"@ {
        TaskStatus::Paused
    } else if t == "Completed"@ {
        TaskStatus::Completed
    } else if t == "Failed"@ {
        TaskStatus::Failed
    } else if t == "Stopped"@ {
        TaskStatus::Stopped
    } else {
        TaskStatus::Queued
    }
}

impl TaskStatus {
    /// A terminal status admits no further work.
    pub open spec fn is_terminal(self) -> bool {
        self is Completed || self is Failed || self is Stopped
    }

    pub fn to_string(&self) -> (r: String)
        ensures
            r@ == status_text(*self),
    {
        match self {
            TaskStatus::Queued => String::from_str("Queued"),
            TaskStatus::Running => String::from_str("Running"),
            TaskStatus::Paused => String::from_str("Paused"),
            TaskStatus::Completed => String::from_str("Completed"),
            TaskStatus::Failed => String::from_str("Failed"),
            TaskStatus::Stopped => String::from_str("Stopped"),
        }
    }

    pub fn from_string(s: &str) -> (r: TaskStatus)
        ensures
            r == status_of_text(s@),
    {
        if str_eq(s, "Running") {
            TaskStatus::Running
        } else if str_eq(s, "Paused") {
            TaskStatus::Paused
        } else if str_eq(s, "Completed") {
            TaskStatus::Completed
        } else if str_eq(s, "Failed") {
            TaskStatus::Failed
        } else if str_eq(s, "Stopped") {
            TaskStatus::Stopped
        } else {
            TaskStatus::Queued
        }
    }
}

/// Reading back the text form of a status gives the same status.
pub proof fn lemma_status_text_round_trip(s: TaskStatus)
    ensures
        status_of_text(status_text(s)) == s,
{
    reveal_strlit("Queued");
    reveal_strlit("Running");
    reveal_strlit("Paused");
    reveal_strlit("Completed");
    reveal_strlit("Failed");
    reveal_strlit("Stopped");
    assert("Queued"@[0] == 'Q');
    assert("Running"@[0] == 'R');
    assert("Paused"@[0] == 'P');
    assert("Completed"@[0] == 'C');
    assert("Failed"@[0] == 'F');
    assert("Stopped"@[0] == 'S');
}

/// The in-memory record of one task.
#[derive(Debug, Clone)]
pub struct TaskInfo {
    pub id: u32,
    pub url_template: String,
    pub total: usize,
    pub completed: usize,
    pub status: TaskStatus,
    /// Start time, in seconds since the Unix epoch.
    pub started_at: u64,
}

impl TaskInfo {
    /// Progress never exceeds the number of units.
    pub open spec fn wf(&self) -> bool {
        self.completed <= self.total
    }

    /// A field-by-field copy.
    pub fn snapshot(&self) -> (r: TaskInfo)
        ensures
            r == *self,
    {
        TaskInfo {
            id: self.id,
            url_template: self.url_template.clone(),
            total: self.total,
            completed: self.completed,
            status: self.status,
            started_at: self.started_at,
        }
    }
}

/// The persisted form of a task.
#[derive(Debug, Clone)]
pub struct TaskRecord {
    pub id: u32,
    pub url_template: String,
    pub total: usize,
    pub completed: usize,
    pub status: TaskStatus,
    pub pid: Option<u32>,
    pub created_at: String,
    pub updated_at: String,
}

/// Counters accumulated over one run.
#[derive(Debug, Clone)]
pub struct Stats {
    pub downloaded: usize,
    pub total_bytes: u64,
    pub ignored: usize,
    pub errors: usize,
    pub not_found: usize,
}

/// The classified result of one unit of work.
#[derive(Debug, Clone, Copy, PartialEq, Eq, Structural)]
pub enum UnitOutcome {
    /// The payload was accepted and saved; the value is its length in bytes.
    Downloaded(u64),
    /// The content type failed the allow-list.
    Ignored,
    /// The target does not exist.
    NotFound,
    /// Any other failure.
    Error,
}

impl Stats {
    /// The number of units counted, over all classes.
    pub open spec fn units(&self) -> int {
        self.downloaded + self.ignored + self.errors + self.not_found
    }

    /// The counters after one more outcome; bytes saturate at `u64::MAX`.
    pub open spec fn after(self, o: UnitOutcome) -> Stats {
        match o {
            UnitOutcome::Downloaded(n) => Stats {
                downloaded: (self.downloaded + 1) as usize,
                total_bytes: if self.total_bytes + n > u64::MAX {
                    u64::MAX
                } else {
                    (self.total_bytes + n) as u64
                },
                ..self
            },
            UnitOutcome::Ignored => Stats { ignored: (self.ignored + 1) as usize, ..self },
            UnitOutcome::NotFound => Stats { not_found: (self.not_found + 1) as usize, ..self },
            UnitOutcome::Error => Stats { errors: (self.errors + 1) as usize, ..self },
        }
    }

    pub fn new() -> (r: Stats)
        ensures
            r.downloaded == 0,
            r.total_bytes == 0,
            r.ignored == 0,
            r.errors == 0,
            r.not_found == 0,
    {
        Stats { downloaded: 0, total_bytes: 0, ignored: 0, errors: 0, not_found: 0 }
    }

    /// Counts one outcome in exactly one class.
    pub fn record(&mut self, o: UnitOutcome)
        requires
            old(self).units() < usize::MAX,
        ensures
            *final(self) == old(self).after(o),
            final(self).units() == old(self).units() + 1,
    {
        match o {
            UnitOutcome::Downloaded(n) => {
                self.downloaded = self.downloaded + 1;
                self.total_bytes = self.total_bytes.saturating_add(n);
            },
            UnitOutcome::Ignored => {
                self.ignored = self.ignored + 1;
            },
            UnitOutcome::NotFound => {
                self.not_found = self.not_found + 1;
            },
            UnitOutcome::Error => {
                self.errors = self.errors + 1;
            },
        }
    }
}

} // verus!
