//! The indexing pipeline's decisions: one controller owns the run state
//! (active flag, stop flag, progress, errors), refuses overlapping runs,
//! decides when progress events are due, and retires one job at a time
//! against the store. The process shell owns the loop, the clock and the
//! event channel.

use vstd::prelude::*;

use crate::error::CortexError;
use crate::extract::ExtractedContent;
use crate::store::{upsert_model, Database};
use crate::types::{IndexJob, ScanProgress};

verus! {

/// The state a run publishes.
#[derive(Debug, Clone)]
pub struct IndexStatus {
    pub is_active: bool,
    pub total_files: usize,
    pub indexed_files: usize,
    pub current_file: Option<String>,
    pub errors: Vec<String>,
    /// Whole percent of the run that is done.
    pub progress_percentage: u64,
}

/// A progress event, emitted on the first job, the last job, and every
/// tenth in between.
#[derive(Debug, Clone)]
pub struct IndexProgressEvent {
    pub total_files: usize,
    pub indexed_files: usize,
    pub current_file: String,
    pub progress_percentage: u64,
}

/// The completion event every run emits, stopped or not.
#[derive(Debug, Clone)]
pub struct IndexCompleteEvent {
    pub total_files: usize,
    pub indexed_files: usize,
    pub errors: Vec<String>,
    pub duration_ms: u64,
}

/// A per-job failure event; the run continues.
#[derive(Debug, Clone)]
pub struct IndexErrorEvent {
    pub file_path: String,
    pub error: String,
}

/// The controller of indexing runs: all shared run state lives here.
pub struct PipelineController {
    pub active: bool,
    pub stop_requested: bool,
    pub progress: ScanProgress,
    pub indexed: usize,
    pub errors: Vec<String>,
    /// The path of the job in flight, for the published status.
    pub current_path: Option<String>,
}

/// Whether a progress event is due for the job at `idx` of `total`: the
/// first, the last, and every tenth.
pub open spec fn progress_due(idx: int, total: int) -> bool {
    idx == 0 || idx == total - 1 || idx % 10 == 0
}

impl PipelineController {
    /// A controller with no run.
    pub fn new() -> (c: PipelineController)
        ensures
            c.active == false,
            c.stop_requested == false,
            c.progress.total_files == 0,
            c.progress.current_file == 0,
            c.indexed == 0,
            c.errors@ == Seq::<String>::empty(),
            c.current_path is None,
    {
        PipelineController {
            active: false,
            stop_requested: false,
            progress: ScanProgress::new(),
            indexed: 0,
            errors: Vec::new(),
            current_path: None,
        }
    }

    /// Opens a run: refused while one is active, if and only if; an opened
    /// run starts with clear counters, no errors and no stop request.
    pub fn start_run(&mut self) -> (r: Result<(), CortexError>)
        ensures
            r is Err <==> old(self).active,
            r matches Err(e) ==> e matches CortexError::IndexingInProgress && *final(self) == *old(self),
            r is Ok ==> final(self).active && !final(self).stop_requested && final(self).progress.total_files == 0 && final(self).progress.current_file == 0 && final(self).indexed == 0 && final(self).errors@ == Seq::<String>::empty() && final(self).current_path is None,
    {
        if self.active {
            return Err(CortexError::IndexingInProgress);
        }
        self.active = true;
        self.stop_requested = false;
        self.progress = ScanProgress::new();
        self.indexed = 0;
        self.errors = Vec::new();
        self.current_path = None;
        Ok(())
    }

    /// Asks a running run to stop after the job in flight: refused when no
    /// run is active, if and only if.
    pub fn request_stop(&mut self) -> (r: Result<(), CortexError>)
        ensures
            r is Err <==> !old(self).active,
            r is Err ==> *final(self) == *old(self),
            r is Ok ==> final(self).stop_requested && final(self).active == old(self).active
                && final(self).progress == old(self).progress && final(self).indexed == old(self).indexed && final(self).errors@ == old(self).errors@ && final(self).current_path
                == old(self).current_path,
    {
        if !self.active {
            return Err(
                CortexError::Internal {
                    message: String::from_str("No indexing operation in progress"),
                },
            );
        }
        self.stop_requested = true;
        Ok(())
    }

    /// Whether the run goes on: it is active and nobody asked it to stop.
    pub fn should_continue(&self) -> (r: bool)
        ensures
            r == (self.active && !self.stop_requested),
    {
        self.active && !self.stop_requested
    }

    /// Notes how many jobs the scan found.
    pub fn begin_jobs(&mut self, total: usize)
        ensures
            final(self).progress.total_files == total,
            final(self).progress.current_file == 0,
            final(self).active == old(self).active,
            final(self).stop_requested == old(self).stop_requested,
            final(self).indexed == old(self).indexed,
            final(self).errors@ == old(self).errors@,
            final(self).current_path == old(self).current_path,
    {
        self.progress = ScanProgress { total_files: total, current_file: 0 };
    }

    /// Records a scan error; the run continues.
    pub fn record_error(&mut self, message: String)
        ensures
            final(self).errors@ == old(self).errors@.push(message),
            final(self).active == old(self).active,
            final(self).stop_requested == old(self).stop_requested,
            final(self).progress == old(self).progress,
            final(self).indexed == old(self).indexed,
            final(self).current_path == old(self).current_path,
    {
        self.errors.push(message);
    }

    /// Decides whether a progress event is due for the job at `idx`.
    pub fn should_emit_progress(idx: usize, total: usize) -> (r: bool)
        ensures
            r == progress_due(idx as int, total as int),
    {
        idx == 0 || (total > 0 && idx == total - 1) || idx % 10 == 0
    }

    /// Retires one job: the extraction outcome is stored on success (a new
    /// file record and its content), and recorded as an error on failure or
    /// on a duplicate path; the progress counter always advances. Per-job
    /// failures never end the run.
    pub fn process_job(
        &mut self,
        db: &mut Database,
        job: &IndexJob,
        outcome: Result<ExtractedContent, CortexError>,
        now: &str,
    ) -> (stored: bool)
        requires
            old(db).inv(),
            old(self).progress.current_file < usize::MAX,
            old(self).indexed < usize::MAX,
        ensures
            final(db).inv(),
            final(self).active == old(self).active,
            final(self).stop_requested == old(self).stop_requested,
            final(self).progress.total_files == old(self).progress.total_files,
            final(self).progress.current_file == old(self).progress.current_file + 1,
            final(self).current_path matches Some(p) && p@ == job.path@,
            stored <==> (outcome is Ok && (forall|k: int|
                0 <= k < old(db).filesv().len() ==> (#[trigger] old(db).filesv()[k]).path
                    != job.path@) && old(db).next_id != i64::MAX),
            stored ==> final(self).indexed == old(self).indexed + 1 && final(self).errors@ == old(self).errors@,
            !stored ==> final(self).indexed == old(self).indexed && final(self).errors@.len()
                == old(self).errors@.len() + 1 && final(db).filesv() == old(db).filesv() && final(db).contentsv() == old(db).contentsv(),
            outcome is Err ==> !stored,
            stored ==> {
                &&& final(db).filesv().len() == old(db).filesv().len() + 1
                &&& final(db).filesv().last().path == job.path@
                &&& final(db).filesv().last().is_deleted == false
                &&& final(db).contentsv() == upsert_model(
                    old(db).contentsv(),
                    old(db).next_id,
                    Some(outcome.unwrap().text@),
                    match outcome.unwrap().summary {
                        Some(s) => Some(s@),
                        None => None,
                    },
                )
            },
    {
        self.progress.update_current();
        self.current_path = Some(String::from_str(job.path.as_str()));
        match outcome {
            Ok(content) => {
                let filename = crate::path::file_name_str(job.path.as_str());
                let file_type: String = match crate::path::extension_lower(job.path.as_str()) {
                    Some(e) => e,
                    None => String::from_str("unknown"),
                };
                let root_path = crate::path::parent_str(job.path.as_str());
                let size: i64 = if job.size <= (i64::MAX as u64) {
                    job.size as i64
                } else {
                    i64::MAX
                };
                let inserted = db.insert_file(
                    job.path.as_str(),
                    filename.as_str(),
                    file_type.as_str(),
                    size,
                    now,
                    now,
                    None,
                    root_path.as_str(),
                );
                match inserted {
                    Ok(file_id) => {
                        let ghost mid = db.filesv();
                        proof {
                            assert(mid.last().id == file_id);
                        }
                        let summary_ref: Option<&str> = match &content.summary {
                            Some(s) => Some(s.as_str()),
                            None => None,
                        };
                        let up = db.upsert_file_content(
                            file_id,
                            Some(content.text.as_str()),
                            summary_ref,
                        );
                        match up {
                            Ok(()) => {
                                self.indexed = self.indexed + 1;
                                proof {
                                    crate::store::lemma_index_of_filev_range(
                                        old(db).filesv(),
                                        file_id,
                                    );
                                }
                                true
                            },
                            Err(e) => {
                                // The file was just inserted, so the upsert
                                // cannot miss it.
                                proof {
                                    crate::store::lemma_index_of_filev_range(mid, file_id);
                                    assert(mid[mid.len() - 1].id == file_id);
                                    assert(false);
                                }
                                let mut msg = String::from_str("Failed to insert content for ");
                                msg.append(job.path.as_str());
                                msg.append(": ");
                                msg.append(e.message().as_str());
                                self.errors.push(msg);
                                false
                            },
                        }
                    },
                    Err(e) => {
                        let mut msg = String::from_str("Failed to insert file ");
                        msg.append(job.path.as_str());
                        msg.append(": ");
                        msg.append(e.message().as_str());
                        self.errors.push(msg);
                        false
                    },
                }
            },
            Err(e) => {
                let mut msg = String::from_str("Failed to extract ");
                msg.append(job.path.as_str());
                msg.append(": ");
                msg.append(e.message().as_str());
                self.errors.push(msg);
                false
            },
        }
    }

    /// Closes the run: the active flag falls on every exit path.
    pub fn finish_run(&mut self)
        ensures
            final(self).active == false,
            final(self).stop_requested == old(self).stop_requested,
            final(self).progress == old(self).progress,
            final(self).indexed == old(self).indexed,
            final(self).errors@ == old(self).errors@,
            final(self).current_path == old(self).current_path,
    {
        self.active = false;
    }

    /// The progress event for the job in flight.
    pub fn progress_event(&self, current_path: &str) -> (r: IndexProgressEvent)
        requires
            self.progress.current_file <= self.progress.total_files,
        ensures
            r.total_files == self.progress.total_files,
            r.indexed_files == self.indexed,
            r.current_file@ == current_path@,
            self.progress.total_files > 0 ==> r.progress_percentage
                == self.progress.current_file as int * 100 / self.progress.total_files as int,
    {
        IndexProgressEvent {
            total_files: self.progress.total_files,
            indexed_files: self.indexed,
            current_file: String::from_str(current_path),
            progress_percentage: self.progress.percentage(),
        }
    }

    /// The completion event of the run, stopped or finished.
    pub fn complete_event(&self, duration_ms: u64) -> (r: IndexCompleteEvent)
        ensures
            r.total_files == self.progress.total_files,
            r.indexed_files == self.indexed,
            r.errors@.len() == self.errors@.len(),
            forall|k: int| 0 <= k < r.errors@.len() ==> (#[trigger] r.errors@[k])@
                == self.errors@[k]@,
            r.duration_ms == duration_ms,
    {
        let mut errs: Vec<String> = Vec::new();
        let mut i: usize = 0;
        while i < self.errors.len()
            invariant
                i <= self.errors@.len(),
                errs@.len() == i,
                forall|k: int| 0 <= k < i ==> (#[trigger] errs@[k])@ == self.errors@[k]@,
            decreases self.errors@.len() - i,
        {
            errs.push(String::from_str(self.errors[i].as_str()));
            i = i + 1;
        }
        IndexCompleteEvent {
            total_files: self.progress.total_files,
            indexed_files: self.indexed,
            errors: errs,
            duration_ms,
        }
    }

    /// The published status of the controller.
    pub fn get_index_status(&self) -> (r: IndexStatus)
        requires
            self.progress.current_file <= self.progress.total_files,
        ensures
            r.is_active == self.active,
            r.total_files == self.progress.total_files,
            r.indexed_files == self.progress.current_file,
            r.errors@.len() == self.errors@.len(),
            forall|k: int| 0 <= k < r.errors@.len() ==> (#[trigger] r.errors@[k])@
                == self.errors@[k]@,
            (r.current_file is Some <==> self.current_path is Some),
            r.current_file matches Some(p) ==> p@ == self.current_path.unwrap()@,
            self.progress.total_files > 0 ==> r.progress_percentage
                == self.progress.current_file as int * 100 / self.progress.total_files as int,
            self.progress.total_files == 0 ==> r.progress_percentage == 0,
    {
        let mut errs: Vec<String> = Vec::new();
        let mut i: usize = 0;
        while i < self.errors.len()
            invariant
                i <= self.errors@.len(),
                errs@.len() == i,
                forall|k: int| 0 <= k < i ==> (#[trigger] errs@[k])@ == self.errors@[k]@,
            decreases self.errors@.len() - i,
        {
            errs.push(String::from_str(self.errors[i].as_str()));
            i = i + 1;
        }
        let current: Option<String> = match &self.current_path {
            Some(p) => Some(String::from_str(p.as_str())),
            None => None,
        };
        IndexStatus {
            is_active: self.active,
            total_files: self.progress.total_files,
            indexed_files: self.progress.current_file,
            current_file: current,
            errors: errs,
            progress_percentage: self.progress.percentage(),
        }
    }
}

} // verus!
