use vstd::prelude::*;

verus! {

/// The latest known state of a tracked file.
///
/// Timestamps are whatever clock value the caller handed to the store when the
/// record was written.
#[derive(Debug, Clone)]
pub struct File {
    pub id: String,
    pub path: String,
    pub file_type: String,
    pub hash: String,
    pub size: u64,
    pub created_at: u64,
    pub updated_at: u64,
}

impl File {
    /// A field-by-field copy.
    pub fn duplicate(&self) -> (r: File)
        ensures
            r == *self,
    {
        File {
            id: self.id.clone(),
            path: self.path.clone(),
            file_type: self.file_type.clone(),
            hash: self.hash.clone(),
            size: self.size,
            created_at: self.created_at,
            updated_at: self.updated_at,
        }
    }
}

/// Where a job stands in its life.
#[derive(Debug, Clone, Copy, PartialEq, Eq, Structural)]
pub enum JobStatus {
    Pending,
    Running,
    Completed,
    Failed,
}

/// Completed and failed jobs never change again.
pub open spec fn is_terminal(s: JobStatus) -> bool {
    s == JobStatus::Completed || s == JobStatus::Failed
}

/// The position of a status along the job life cycle.
pub open spec fn status_rank(s: JobStatus) -> int {
    match s {
        JobStatus::Pending => 0,
        JobStatus::Running => 1,
        JobStatus::Completed => 2,
        JobStatus::Failed => 2,
    }
}

/// A job may only move forward, and never out of a terminal status.
pub open spec fn can_transition(from: JobStatus, to: JobStatus) -> bool {
    !is_terminal(from) && status_rank(from) < status_rank(to)
}

/// The lowercase name under which each status is stored.
pub open spec fn status_name(s: JobStatus) -> Seq<char> {
    match s {
        JobStatus::Pending => "pending"@,
        JobStatus::Running => "running"@,
        JobStatus::Completed => "completed"@,
        JobStatus::Failed => "failed"@,
    }
}

/// The status whose stored name is `s`, if any.
pub open spec fn parse_status(s: Seq<char>) -> Option<JobStatus> {
    if s == "pending"@ {
        Some(JobStatus::Pending)
    } else if s == "running"@ {
        Some(JobStatus::Running)
    } else if s == "completed"@ {
        Some(JobStatus::Completed)
    } else if s == "failed"@ {
        Some(JobStatus::Failed)
    } else {
        None
    }
}

impl JobStatus {
    /// The stored name of this status.
    pub fn as_str(&self) -> (r: &'static str)
        ensures
            r@ == status_name(*self),
    {
        match self {
            JobStatus::Pending => "pending",
            JobStatus::Running => "running",
            JobStatus::Completed => "completed",
            JobStatus::Failed => "failed",
        }
    }

    /// Parses a stored name back into a status; any other text is `None`.
    pub fn from_string(s: &str) -> (r: Option<JobStatus>)
        ensures
            r == parse_status(s@),
    {
        let owned = s.to_owned();
        if owned == "pending".to_owned() {
            Some(JobStatus::Pending)
        } else if owned == "running".to_owned() {
            Some(JobStatus::Running)
        } else if owned == "completed".to_owned() {
            Some(JobStatus::Completed)
        } else if owned == "failed".to_owned() {
            Some(JobStatus::Failed)
        } else {
            None
        }
    }

    /// Whether a job in this status may be moved to `to`.
    pub fn can_move_to(&self, to: JobStatus) -> (r: bool)
        ensures
            r == can_transition(*self, to),
    {
        match (self, to) {
            (JobStatus::Pending, JobStatus::Running) => true,
            (JobStatus::Pending, JobStatus::Completed) => true,
            (JobStatus::Pending, JobStatus::Failed) => true,
            (JobStatus::Running, JobStatus::Completed) => true,
            (JobStatus::Running, JobStatus::Failed) => true,
            _ => false,
        }
    }
}

/// Which jobs of a file a lookup returns.
#[derive(Debug, Clone, Copy, PartialEq, Eq, Structural)]
pub enum StatusFilter {
    Any,
    Only(JobStatus),
}

pub open spec fn filter_admits(f: StatusFilter, s: JobStatus) -> bool {
    match f {
        StatusFilter::Any => true,
        StatusFilter::Only(t) => s == t,
    }
}

/// One unit of processing work for a file.
#[derive(Debug, Clone)]
pub struct Job {
    pub id: String,
    pub file_id: String,
    pub status: JobStatus,
    pub error_message: Option<String>,
    pub created_at: u64,
}

/// Copies an optional message.
pub fn duplicate_message(m: &Option<String>) -> (r: Option<String>)
    ensures
        r == *m,
{
    match m {
        Some(s) => Some(s.clone()),
        None => None,
    }
}

impl Job {
    /// A field-by-field copy.
    pub fn duplicate(&self) -> (r: Job)
        ensures
            r == *self,
    {
        Job {
            id: self.id.clone(),
            file_id: self.file_id.clone(),
            status: self.status,
            error_message: duplicate_message(&self.error_message),
            created_at: self.created_at,
        }
    }
}

/// A vector computed for a file's content, kept in its serialized form.
#[derive(Debug, Clone)]
pub struct Embedding {
    pub id: String,
    pub file_id: String,
    pub embedding: String,
    pub created_at: u64,
}

impl Embedding {
    /// A field-by-field copy.
    pub fn duplicate(&self) -> (r: Embedding)
        ensures
            r == *self,
    {
        Embedding {
            id: self.id.clone(),
            file_id: self.file_id.clone(),
            embedding: self.embedding.clone(),
            created_at: self.created_at,
        }
    }
}

/// Token accounting reported by the embedding service.
#[derive(Debug, Clone, Copy, PartialEq, Eq, Structural)]
pub struct Usage {
    pub prompt_tokens: usize,
    pub total_tokens: usize,
}

/// Operator settings of the indexer.
#[derive(Debug, Clone)]
pub struct Config {
    pub db_path: String,
    pub watch_directory: String,
    pub watcher_poll_duration_secs: u64,
    pub queue_process_interval_secs: u64,
    pub queue_batch_size: usize,
}

impl Config {
    /// The settings written when no configuration file exists yet.
    pub fn new() -> (r: Config)
        ensures
            r.db_path@ == "bako.db"@,
            r.watch_directory@ == "."@,
            r.watcher_poll_duration_secs == 3,
            r.queue_process_interval_secs == 28,
            r.queue_batch_size == 10,
    {
        Config {
            db_path: "bako.db".to_owned(),
            watch_directory: ".".to_owned(),
            watcher_poll_duration_secs: 3,
            queue_process_interval_secs: 28,
            queue_batch_size: 10,
        }
    }
}

} // verus!
