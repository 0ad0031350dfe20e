//! Work-item types of the indexer: priorities, jobs, and scan progress.

use vstd::prelude::*;

verus! {

/// Priority levels for indexing files; larger means sooner.
#[derive(Debug, Clone, Copy, PartialEq, Eq, PartialOrd, Ord, Structural)]
pub enum IndexPriority {
    /// Large files, 100 MB and beyond: lowest priority.
    Low,
    /// Medium files, 10 MB up to 100 MB.
    Normal,
    /// Small files, 1 MB up to 10 MB.
    High,
    /// Very small files, under 1 MB.
    Immediate,
}

/// The numeric rank of a priority; larger ranks run sooner.
pub open spec fn priority_rank(p: IndexPriority) -> int {
    match p {
        IndexPriority::Low => 0,
        IndexPriority::Normal => 1,
        IndexPriority::High => 2,
        IndexPriority::Immediate => 3,
    }
}

/// The priority a file of `size` bytes is given.
pub open spec fn priority_from_size(size: u64) -> IndexPriority {
    if size < 1000000 {
        IndexPriority::Immediate
    } else if size < 10000000 {
        IndexPriority::High
    } else if size < 100000000 {
        IndexPriority::Normal
    } else {
        IndexPriority::Low
    }
}

impl IndexPriority {
    /// Determines priority from a file size in bytes: Immediate under 1 MB,
    /// High under 10 MB, Normal under 100 MB, Low beyond; each if and only if.
    pub fn from_size(size: u64) -> (p: IndexPriority)
        ensures
            p == priority_from_size(size),
            p == IndexPriority::Immediate <==> size < 1000000,
            p == IndexPriority::High <==> 1000000 <= size < 10000000,
            p == IndexPriority::Normal <==> 10000000 <= size < 100000000,
            p == IndexPriority::Low <==> size >= 100000000,
    {
        if size < 1000000 {
            IndexPriority::Immediate
        } else if size < 10000000 {
            IndexPriority::High
        } else if size < 100000000 {
            IndexPriority::Normal
        } else {
            IndexPriority::Low
        }
    }

    /// The numeric rank; larger ranks run sooner.
    pub fn rank(&self) -> (r: u8)
        ensures
            r == priority_rank(*self),
    {
        match self {
            IndexPriority::Low => 0,
            IndexPriority::Normal => 1,
            IndexPriority::High => 2,
            IndexPriority::Immediate => 3,
        }
    }
}

/// A file awaiting indexing: its path, derived priority, size in bytes, and
/// modification time in milliseconds since the epoch.
#[derive(Debug, Clone)]
pub struct IndexJob {
    pub path: String,
    pub priority: IndexPriority,
    pub size: u64,
    pub modified: i64,
}

impl IndexJob {
    /// Builds a job for a file; the priority is derived from the size.
    pub fn new(path: String, size: u64, modified: i64) -> (j: IndexJob)
        ensures
            j.path == path,
            j.size == size,
            j.modified == modified,
            j.priority == priority_from_size(size),
    {
        let priority = IndexPriority::from_size(size);
        IndexJob { path, priority, size, modified }
    }
}

/// The mathematical shadow of a job.
pub struct IndexJobV {
    pub path: Seq<char>,
    pub priority: IndexPriority,
    pub size: u64,
    pub modified: i64,
}

impl View for IndexJob {
    type V = IndexJobV;

    open spec fn view(&self) -> IndexJobV {
        IndexJobV {
            path: self.path@,
            priority: self.priority,
            size: self.size,
            modified: self.modified,
        }
    }
}

/// Whether job `a` retires no later than job `b`: higher priority first,
/// then newer modification time first.
pub open spec fn job_before(a: IndexJobV, b: IndexJobV) -> bool {
    priority_rank(a.priority) > priority_rank(b.priority) || (priority_rank(a.priority)
        == priority_rank(b.priority) && a.modified >= b.modified)
}

/// Decides the retirement order of two jobs.
pub fn job_before_exec(a: &IndexJob, b: &IndexJob) -> (r: bool)
    ensures
        r == job_before(a@, b@),
{
    let ra = a.priority.rank();
    let rb = b.priority.rank();
    ra > rb || (ra == rb && a.modified >= b.modified)
}

/// Progress counters of a scan or an indexing run.
#[derive(Debug, Clone)]
pub struct ScanProgress {
    pub total_files: usize,
    pub current_file: usize,
}

impl ScanProgress {
    /// Fresh counters: nothing seen yet.
    pub fn new() -> (p: ScanProgress)
        ensures
            p.total_files == 0,
            p.current_file == 0,
    {
        ScanProgress { total_files: 0, current_file: 0 }
    }

    /// Whole percent of files handled: `current / total × 100`, 0 of an
    /// empty total.
    pub fn percentage(&self) -> (r: u64)
        requires
            self.current_file <= self.total_files,
        ensures
            self.total_files == 0 ==> r == 0,
            self.total_files > 0 ==> r == self.current_file as int * 100 / self.total_files as int,
    {
        if self.total_files == 0 {
            0
        } else {
            let c = self.current_file as u128;
            let t = self.total_files as u128;
            proof {
                assert(c as int * 100 <= u64::MAX as int * 100) by (nonlinear_arith)
                    requires
                        c <= u64::MAX as u128,
                ;
                assert(c as int * 100 / t as int <= 100) by (nonlinear_arith)
                    requires
                        c as int <= t as int,
                        t as int > 0,
                ;
            }
            let p = c * 100 / t;
            p as u64
        }
    }

    /// Notes one more file handled.
    pub fn update_current(&mut self)
        requires
            old(self).current_file < usize::MAX,
        ensures
            final(self).current_file == old(self).current_file + 1,
            final(self).total_files == old(self).total_files,
    {
        self.current_file = self.current_file + 1;
    }

    /// Scan errors are collected by the pipeline controller, not here; the
    /// counters are unchanged.
    pub fn add_error(&mut self, _error: String)
        ensures
            *final(self) == *old(self),
    {
    }
}

} // verus!
