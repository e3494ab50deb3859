//! The job record, its status and their mathematical views.

use vstd::prelude::*;

verus! {

/// Where a job stands in its life: waiting, being worked on, or finished
/// one way or the other.
#[derive(Clone, Copy, Debug, PartialEq, Eq, Structural)]
pub enum JobStatus {
    Queued,
    Running,
    Completed,
    Failed,
}

impl JobStatus {
    /// A finished job: `Completed` or `Failed`.
    pub open spec fn is_terminal(self) -> bool {
        self == JobStatus::Completed || self == JobStatus::Failed
    }

    /// The word under which the status is stored and shown.
    pub open spec fn text(self) -> Seq<char> {
        match self {
            JobStatus::Queued => "queued"@,
            JobStatus::Running => "running"@,
            JobStatus::Completed => "completed"@,
            JobStatus::Failed => "failed"@,
        }
    }

    /// The status that the word `s` stands for, if it stands for one.
    pub open spec fn reading(s: Seq<char>) -> Option<JobStatus> {
        if s == "queued"@ {
            Some(JobStatus::Queued)
        } else if s == "running"@ {
            Some(JobStatus::Running)
        } else if s == "completed"@ {
            Some(JobStatus::Completed)
        } else if s == "failed"@ {
            Some(JobStatus::Failed)
        } else {
            None
        }
    }

    /// The status that the word `s` stands for, if it stands for one.
    pub fn from_text(s: &str) -> (r: Option<JobStatus>)
        ensures
            r == JobStatus::reading(s@),
    {
        if crate::text::same_text(s, "queued") {
            Some(JobStatus::Queued)
        } else if crate::text::same_text(s, "running") {
            Some(JobStatus::Running)
        } else if crate::text::same_text(s, "completed") {
            Some(JobStatus::Completed)
        } else if crate::text::same_text(s, "failed") {
            Some(JobStatus::Failed)
        } else {
            None
        }
    }

    /// Whether the status is final.
    pub fn terminal(&self) -> (r: bool)
        ensures
            r == self.is_terminal(),
    {
        match self {
            JobStatus::Completed => true,
            JobStatus::Failed => true,
            _ => false,
        }
    }

    /// The word under which the status is stored and shown.
    pub fn as_str(&self) -> (r: &'static str)
        ensures
            r@ == self.text(),
    {
        match self {
            JobStatus::Queued => "queued",
            JobStatus::Running => "running",
            JobStatus::Completed => "completed",
            JobStatus::Failed => "failed",
        }
    }
}

/// One unit of work: an image to pull, and everything the scheduler records
/// about pulling it. Instants are seconds on the store's clock.
#[derive(Clone, Debug, PartialEq, Eq)]
pub struct Job {
    pub id: String,
    pub image: String,
    pub status: JobStatus,
    pub result: Option<String>,
    pub error_detail: Option<String>,
    pub retry_count: u64,
    pub max_attempts: u64,
    pub priority: i64,
    pub created_at: i64,
    pub started_at: Option<i64>,
    pub updated_at: Option<i64>,
    pub finished_at: Option<i64>,
    pub lease_expires_at: Option<i64>,
    pub last_heartbeat: Option<i64>,
}

/// The mathematical content of a [`Job`].
pub struct JobView {
    pub id: Seq<char>,
    pub image: Seq<char>,
    pub status: JobStatus,
    pub result: Option<Seq<char>>,
    pub error_detail: Option<Seq<char>>,
    pub retry_count: nat,
    pub max_attempts: nat,
    pub priority: int,
    pub created_at: int,
    pub started_at: Option<int>,
    pub updated_at: Option<int>,
    pub finished_at: Option<int>,
    pub lease_expires_at: Option<int>,
    pub last_heartbeat: Option<int>,
}

/// The text held by an optional string.
pub open spec fn text_of(o: Option<String>) -> Option<Seq<char>> {
    match o {
        Some(s) => Some(s@),
        None => None,
    }
}

/// The instant held by an optional timestamp.
pub open spec fn instant_of(o: Option<i64>) -> Option<int> {
    match o {
        Some(t) => Some(t as int),
        None => None,
    }
}

impl View for Job {
    type V = JobView;

    open spec fn view(&self) -> JobView {
        JobView {
            id: self.id@,
            image: self.image@,
            status: self.status,
            result: text_of(self.result),
            error_detail: text_of(self.error_detail),
            retry_count: self.retry_count as nat,
            max_attempts: self.max_attempts as nat,
            priority: self.priority as int,
            created_at: self.created_at as int,
            started_at: instant_of(self.started_at),
            updated_at: instant_of(self.updated_at),
            finished_at: instant_of(self.finished_at),
            lease_expires_at: instant_of(self.lease_expires_at),
            last_heartbeat: instant_of(self.last_heartbeat),
        }
    }
}

/// A copy of an optional string.
pub fn copy_text(o: &Option<String>) -> (r: Option<String>)
    ensures
        text_of(r) == text_of(*o),
{
    match o {
        Some(s) => Some(s.clone()),
        None => None,
    }
}

impl Job {
    /// A copy of the record with the same content.
    pub fn duplicate(&self) -> (r: Job)
        ensures
            r@ == self@,
    {
        Job {
            id: self.id.clone(),
            image: self.image.clone(),
            status: self.status,
            result: copy_text(&self.result),
            error_detail: copy_text(&self.error_detail),
            retry_count: self.retry_count,
            max_attempts: self.max_attempts,
            priority: self.priority,
            created_at: self.created_at,
            started_at: self.started_at,
            updated_at: self.updated_at,
            finished_at: self.finished_at,
            lease_expires_at: self.lease_expires_at,
            last_heartbeat: self.last_heartbeat,
        }
    }
}

/// What a listing shows of a job.
#[derive(Clone, Debug, PartialEq, Eq)]
pub struct JobSummary {
    pub id: String,
    pub image: String,
    pub status: JobStatus,
}

/// The mathematical content of a [`JobSummary`].
pub struct JobSummaryView {
    pub id: Seq<char>,
    pub image: Seq<char>,
    pub status: JobStatus,
}

impl View for JobSummary {
    type V = JobSummaryView;

    open spec fn view(&self) -> JobSummaryView {
        JobSummaryView { id: self.id@, image: self.image@, status: self.status }
    }
}

/// What a listing shows of the job `j`.
pub open spec fn summary_of(j: JobView) -> JobSummaryView {
    JobSummaryView { id: j.id, image: j.image, status: j.status }
}

} // verus!
