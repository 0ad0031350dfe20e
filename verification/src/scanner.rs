//! The scanner's decision logic: which entries of a directory walk become
//! indexing jobs, how jobs are prioritized and ordered, and the priority
//! queue that retires small and recent work first. The process shell walks
//! the filesystem and hands plain entry records here.

use vstd::prelude::*;
use vstd::multiset::Multiset;

use crate::path::{components_of, extension_of, lower_seq, split_components};
use crate::text::chars_of;
use crate::types::{job_before, IndexJob, IndexJobV, IndexPriority, ScanProgress};

verus! {

/// The extensions the indexer accepts.
pub open spec fn is_supported_extension(e: Seq<char>) -> bool {
    ||| e == "txt"@
    ||| e == "md"@
    ||| e == "pdf"@
    ||| e == "docx"@
    ||| e == "doc"@
    ||| e == "rtf"@
    ||| e == "rs"@
    ||| e == "js"@
    ||| e == "ts"@
    ||| e == "py"@
    ||| e == "java"@
    ||| e == "c"@
    ||| e == "cpp"@
    ||| e == "h"@
    ||| e == "hpp"@
    ||| e == "json"@
    ||| e == "yaml"@
    ||| e == "yml"@
    ||| e == "toml"@
    ||| e == "xml"@
    ||| e == "html"@
    ||| e == "css"@
}

/// Decides whether an extension is accepted.
pub fn supported_extension(e: &Vec<char>) -> (r: bool)
    ensures
        r == is_supported_extension(e@),
{
    ||| crate::path::chars_eq_str(e, "txt")
    ||| crate::path::chars_eq_str(e, "md")
    ||| crate::path::chars_eq_str(e, "pdf")
    ||| crate::path::chars_eq_str(e, "docx")
    ||| crate::path::chars_eq_str(e, "doc")
    ||| crate::path::chars_eq_str(e, "rtf")
    ||| crate::path::chars_eq_str(e, "rs")
    ||| crate::path::chars_eq_str(e, "js")
    ||| crate::path::chars_eq_str(e, "ts")
    ||| crate::path::chars_eq_str(e, "py")
    ||| crate::path::chars_eq_str(e, "java")
    ||| crate::path::chars_eq_str(e, "c")
    ||| crate::path::chars_eq_str(e, "cpp")
    ||| crate::path::chars_eq_str(e, "h")
    ||| crate::path::chars_eq_str(e, "hpp")
    ||| crate::path::chars_eq_str(e, "json")
    ||| crate::path::chars_eq_str(e, "yaml")
    ||| crate::path::chars_eq_str(e, "yml")
    ||| crate::path::chars_eq_str(e, "toml")
    ||| crate::path::chars_eq_str(e, "xml")
    ||| crate::path::chars_eq_str(e, "html")
    ||| crate::path::chars_eq_str(e, "css")
}

/// The directory names never descended into.
pub open spec fn is_ignored_dir_name(n: Seq<char>) -> bool {
    ||| n == "node_modules"@
    ||| n == "target"@
    ||| n == "dist"@
    ||| n == "build"@
    ||| n == ".git"@
    ||| n == ".svn"@
}

/// Decides whether a directory name is ignored.
pub fn ignored_dir_name(n: &Vec<char>) -> (r: bool)
    ensures
        r == is_ignored_dir_name(n@),
{
    ||| crate::path::chars_eq_str(n, "node_modules")
    ||| crate::path::chars_eq_str(n, "target")
    ||| crate::path::chars_eq_str(n, "dist")
    ||| crate::path::chars_eq_str(n, "build")
    ||| crate::path::chars_eq_str(n, ".git")
    ||| crate::path::chars_eq_str(n, ".svn")
}

/// A hidden name: it starts with a dot and is not the current directory.
pub open spec fn is_hidden_name(n: Seq<char>) -> bool {
    n.len() > 0 && n[0] == '.' && n != "."@
}

/// Decides whether an entry name counts as hidden.
pub fn hidden_name(n: &Vec<char>) -> (r: bool)
    ensures
        r == is_hidden_name(n@),
{
    n.len() > 0 && n[0] == '.' && !crate::path::chars_eq_str(n, ".")
}

/// Whether the walk visits an entry of this name: hidden names are skipped,
/// and ignored directory names prune whole subtrees.
pub open spec fn should_visit_name_spec(n: Seq<char>, is_dir: bool) -> bool {
    !is_hidden_name(n) && !(is_dir && is_ignored_dir_name(n))
}

/// Decides whether the walk visits an entry with this name.
pub fn should_visit_name(n: &str, is_dir: bool) -> (r: bool)
    ensures
        r == should_visit_name_spec(n@, is_dir),
{
    let nv = chars_of(n);
    !hidden_name(&nv) && !(is_dir && ignored_dir_name(&nv))
}

/// Whether every component of a relative path is visible: no component is
/// hidden, and no component but the last names an ignored directory.
pub open spec fn path_visible(rel: Seq<char>) -> bool {
    let cs = components_of(rel);
    &&& (forall|k: int| 0 <= k < cs.len() ==> !is_hidden_name(#[trigger] cs[k]))
    &&& (forall|k: int| 0 <= k < cs.len() - 1 ==> !is_ignored_dir_name(#[trigger] cs[k]))
}

/// Decides whether a relative path is visible to the walk.
pub fn rel_path_visible(rel: &Vec<char>) -> (r: bool)
    ensures
        r == path_visible(rel@),
{
    let cs = split_components(rel);
    let mut i: usize = 0;
    while i < cs.len()
        invariant
            i <= cs@.len(),
            cs.deep_view() == components_of(rel@),
            forall|k: int| 0 <= k < i ==> !is_hidden_name(#[trigger] components_of(rel@)[k]),
            forall|k: int|
                0 <= k < i && k < cs@.len() - 1 ==> !is_ignored_dir_name(
                    #[trigger] components_of(rel@)[k],
                ),
        decreases cs@.len() - i,
    {
        proof {
            assert(cs.deep_view()[i as int] =~= cs@[i as int]@);
        }
        if hidden_name(&cs[i]) {
            return false;
        }
        if i + 1 < cs.len() && ignored_dir_name(&cs[i]) {
            return false;
        }
        i = i + 1;
    }
    true
}

/// One entry of a directory walk, as plain values: its absolute path, its
/// path relative to the walked root, whether it is a regular file, its size
/// in bytes and its modification time in milliseconds since the epoch.
pub struct ScanEntry {
    pub path: String,
    pub rel: String,
    pub is_file: bool,
    pub size: u64,
    pub modified: i64,
}

/// The mathematical shadow of a walk entry.
pub struct ScanEntryV {
    pub path: Seq<char>,
    pub rel: Seq<char>,
    pub is_file: bool,
    pub size: u64,
    pub modified: i64,
}

impl View for ScanEntry {
    type V = ScanEntryV;

    open spec fn view(&self) -> ScanEntryV {
        ScanEntryV {
            path: self.path@,
            rel: self.rel@,
            is_file: self.is_file,
            size: self.size,
            modified: self.modified,
        }
    }
}

/// The shadows of a run of walk entries.
pub open spec fn entries_view(s: Seq<ScanEntry>) -> Seq<ScanEntryV> {
    Seq::new(s.len(), |i: int| s[i]@)
}

/// The shadows of a run of jobs.
pub open spec fn jobs_view(s: Seq<IndexJob>) -> Seq<IndexJobV> {
    Seq::new(s.len(), |i: int| s[i]@)
}

/// Whether a walked entry is visible: a regular file on a visible path.
pub open spec fn entry_visible(e: ScanEntryV) -> bool {
    e.is_file && path_visible(e.rel)
}

/// Whether a walked entry becomes a job: visible, of a supported extension,
/// and no larger than `max_size`.
pub open spec fn entry_eligible(e: ScanEntryV, max_size: u64) -> bool {
    &&& entry_visible(e)
    &&& extension_of(e.path) is Some
    &&& is_supported_extension(lower_seq(extension_of(e.path).unwrap()))
    &&& e.size <= max_size
}

/// The job a walked entry becomes.
pub open spec fn job_of_entry(e: ScanEntryV) -> IndexJobV {
    IndexJobV {
        path: e.path,
        priority: crate::types::priority_from_size(e.size),
        size: e.size,
        modified: e.modified,
    }
}

/// In a run with ordered neighbours, every earlier job retires first.
pub proof fn lemma_job_sorted_pair(s: Seq<IndexJobV>, i: int, j: int)
    requires
        forall|k: int| 0 <= k && k + 1 < s.len() ==> job_before(#[trigger] s[k], s[k + 1]),
        0 <= i <= j < s.len(),
    ensures
        job_before(s[i], s[j]),
    decreases j - i,
{
    if i < j {
        lemma_job_sorted_pair(s, i + 1, j);
        assert(job_before(s[i], s[i + 1]));
    }
}

/// Sorts jobs into retirement order: highest priority first, newer modified
/// first within a priority; the result is a permutation of the input.
pub fn sort_jobs(input: Vec<IndexJob>) -> (out: Vec<IndexJob>)
    ensures
        jobs_view(out@).to_multiset() == jobs_view(input@).to_multiset(),
        forall|k: int|
            0 <= k && k + 1 < out@.len() ==> job_before(
                #[trigger] jobs_view(out@)[k],
                jobs_view(out@)[k + 1],
            ),
{
    let ghost orig = jobs_view(input@);
    let mut work = input;
    let mut out: Vec<IndexJob> = Vec::new();
    proof {
        broadcast use vstd::seq_lib::group_to_multiset_ensures;

        assert(jobs_view(out@) =~= Seq::<IndexJobV>::empty());
        assert(jobs_view(work@) =~= orig);
        assert(jobs_view(out@).to_multiset().add(jobs_view(work@).to_multiset())
            =~= orig.to_multiset());
    }
    while work.len() > 0
        invariant
            jobs_view(out@).to_multiset().add(jobs_view(work@).to_multiset())
                == orig.to_multiset(),
            forall|k: int|
                0 <= k && k + 1 < out@.len() ==> job_before(
                    #[trigger] jobs_view(out@)[k],
                    jobs_view(out@)[k + 1],
                ),
            forall|a: int, b: int|
                0 <= a < out@.len() && 0 <= b < work@.len() ==> job_before(
                    #[trigger] jobs_view(out@)[a],
                    #[trigger] jobs_view(work@)[b],
                ),
        decreases work@.len(),
    {
        let mut best: usize = 0;
        let mut j: usize = 1;
        while j < work.len()
            invariant
                best < work@.len(),
                j <= work@.len(),
                work@.len() > 0,
                forall|k: int|
                    0 <= k < j ==> job_before(
                        jobs_view(work@)[best as int],
                        #[trigger] jobs_view(work@)[k],
                    ),
            decreases work@.len() - j,
        {
            if !crate::types::job_before_exec(&work[best], &work[j]) {
                let ghost prev_best = best as int;
                best = j;
                proof {
                    let wv = jobs_view(work@);
                    assert(job_before(wv[j as int], wv[prev_best]));
                    assert forall|k: int| 0 <= k < j + 1 implies job_before(
                        wv[best as int],
                        #[trigger] wv[k],
                    ) by {
                        if k != j as int {
                            assert(job_before(wv[prev_best], wv[k]));
                        }
                    }
                }
            }
            j = j + 1;
        }
        let ghost old_out = jobs_view(out@);
        let ghost old_work = jobs_view(work@);
        let x = work.remove(best);
        let ghost xv = x@;
        out.push(x);
        proof {
            broadcast use vstd::seq_lib::group_to_multiset_ensures;

            assert(xv == old_work[best as int]);
            assert(jobs_view(out@) =~= old_out.push(xv));
            assert(jobs_view(work@) =~= old_work.remove(best as int));
            assert(jobs_view(out@).to_multiset() =~= old_out.to_multiset().insert(xv));
            assert(jobs_view(work@).to_multiset() =~= old_work.to_multiset().remove(xv));
            assert(old_work.to_multiset().count(xv) > 0);
            assert(jobs_view(out@).to_multiset().add(jobs_view(work@).to_multiset())
                =~= old_out.to_multiset().add(old_work.to_multiset()));
            old_work.remove_ensures(best as int);
            assert forall|a: int, b: int|
                0 <= a < out@.len() && 0 <= b < work@.len() implies job_before(
                #[trigger] jobs_view(out@)[a],
                #[trigger] jobs_view(work@)[b],
            ) by {
                let b0 = if b < best as int {
                    b
                } else {
                    b + 1
                };
                assert(jobs_view(work@)[b] == old_work[b0]);
                if a < out@.len() - 1 {
                    assert(job_before(old_out[a], old_work[b0]));
                } else {
                    assert(job_before(xv, old_work[b0]));
                }
            }
        }
    }
    proof {
        broadcast use vstd::seq_lib::group_to_multiset_ensures;

        assert(jobs_view(work@) =~= Seq::<IndexJobV>::empty());
        assert(jobs_view(work@).to_multiset() =~= Multiset::<IndexJobV>::empty());
        assert(jobs_view(out@).to_multiset().add(Multiset::<IndexJobV>::empty())
            =~= jobs_view(out@).to_multiset());
    }
    out
}

/// The scanner: filters a directory walk into prioritized jobs while
/// tracking progress.
pub struct FileScanner {
    /// Progress counters of the running scan.
    pub progress: ScanProgress,
    /// The largest file taken, in bytes.
    pub max_file_size: u64,
    /// Whether the walk follows symbolic links.
    pub follow_symlinks: bool,
}

impl FileScanner {
    /// A scanner with the defaults: 100 MB size cap, symlinks not followed.
    pub fn new() -> (s: FileScanner)
        ensures
            s.max_file_size == 100000000u64,
            s.follow_symlinks == false,
            s.progress.total_files == 0,
            s.progress.current_file == 0,
    {
        FileScanner {
            progress: ScanProgress::new(),
            max_file_size: 100000000,
            follow_symlinks: false,
        }
    }

    /// The same scanner with another size cap.
    pub fn with_max_file_size(self, size: u64) -> (s: FileScanner)
        ensures
            s.max_file_size == size,
            s.follow_symlinks == self.follow_symlinks,
            s.progress == self.progress,
    {
        FileScanner { max_file_size: size, ..self }
    }

    /// The same scanner, choosing whether to follow symbolic links.
    pub fn with_follow_symlinks(self, follow: bool) -> (s: FileScanner)
        ensures
            s.follow_symlinks == follow,
            s.max_file_size == self.max_file_size,
            s.progress == self.progress,
    {
        FileScanner { follow_symlinks: follow, ..self }
    }

    /// The progress counters so far.
    pub fn get_progress(&self) -> (p: ScanProgress)
        ensures
            p == self.progress,
    {
        ScanProgress {
            total_files: self.progress.total_files,
            current_file: self.progress.current_file,
        }
    }

    /// Turns a directory walk into jobs: visible regular files of supported
    /// extensions, no larger than the cap, each given its size priority, in
    /// retirement order (priority first, newer first). The progress counts
    /// every visible file; the current counter counts the jobs.
    pub fn scan_listing(&mut self, entries: &Vec<ScanEntry>) -> (jobs: Vec<IndexJob>)
        ensures
            jobs_view(jobs@).to_multiset() == entries_view(entries@).filter(
                |e: ScanEntryV| entry_eligible(e, old(self).max_file_size),
            ).map_values(|e: ScanEntryV| job_of_entry(e)).to_multiset(),
            forall|k: int|
                0 <= k && k + 1 < jobs@.len() ==> job_before(
                    #[trigger] jobs_view(jobs@)[k],
                    jobs_view(jobs@)[k + 1],
                ),
            final(self).max_file_size == old(self).max_file_size,
            final(self).follow_symlinks == old(self).follow_symlinks,
            final(self).progress.total_files == entries_view(entries@).filter(
                |e: ScanEntryV| entry_visible(e),
            ).len(),
            final(self).progress.current_file == jobs@.len(),
    {
        let ghost ev = entries_view(entries@);
        let ghost max = self.max_file_size;
        let ghost elig = |e: ScanEntryV| entry_eligible(e, max);
        let ghost vis = |e: ScanEntryV| entry_visible(e);
        let mut picked: Vec<IndexJob> = Vec::new();
        let mut total: usize = 0;
        let mut i: usize = 0;
        proof {
            reveal(Seq::filter);
            assert(ev.take(0) =~= Seq::<ScanEntryV>::empty());
            assert(jobs_view(picked@) =~~= ev.take(0).filter(elig).map_values(
                |e: ScanEntryV| job_of_entry(e),
            ));
        }
        while i < entries.len()
            invariant
                i <= ev.len(),
                ev == entries_view(entries@),
                max == self.max_file_size,
                elig == (|e: ScanEntryV| entry_eligible(e, max)),
                vis == (|e: ScanEntryV| entry_visible(e)),
                self.max_file_size == old(self).max_file_size,
                self.follow_symlinks == old(self).follow_symlinks,
                jobs_view(picked@) == ev.take(i as int).filter(elig).map_values(
                    |e: ScanEntryV| job_of_entry(e),
                ),
                total == ev.take(i as int).filter(vis).len(),
                total <= i,
                picked@.len() <= i,
            decreases ev.len() - i,
        {
            proof {
                reveal(Seq::filter);
                assert(ev.take(i + 1).drop_last() =~= ev.take(i as int));
                assert(ev.take(i + 1).last() == ev[i as int]);
                ev.take(i as int).lemma_filter_len(vis);
                ev.take(i as int).lemma_filter_len(elig);
            }
            let e = &entries[i];
            let visible = if e.is_file {
                let rv = chars_of(e.rel.as_str());
                rel_path_visible(&rv)
            } else {
                false
            };
            if visible {
                total = total + 1;
                proof {
                    reveal(Seq::filter);
                    assert(vis(ev[i as int]));
                    assert(ev.take(i + 1).filter(vis) == ev.take(i as int).filter(vis).push(
                        ev[i as int],
                    ));
                }
                let ok_ext = match crate::path::extension_lower(e.path.as_str()) {
                    Some(ext) => {
                        let extv = chars_of(ext.as_str());
                        supported_extension(&extv)
                    },
                    None => false,
                };
                if ok_ext && e.size <= self.max_file_size {
                    proof {
                        reveal(Seq::filter);
                        assert(elig(ev[i as int]));
                        assert(ev.take(i + 1).filter(elig) == ev.take(i as int).filter(elig).push(
                            ev[i as int],
                        ));
                    }
                    let ghost prev = jobs_view(picked@);
                    let job = IndexJob::new(String::from_str(e.path.as_str()), e.size, e.modified);
                    proof {
                        assert(job@ == job_of_entry(ev[i as int]));
                    }
                    picked.push(job);
                    proof {
                        assert(jobs_view(picked@) =~= prev.push(job_of_entry(ev[i as int])));
                        assert(ev.take(i + 1).filter(elig).map_values(
                            |e2: ScanEntryV| job_of_entry(e2),
                        ) =~= prev.push(job_of_entry(ev[i as int])));
                    }
                } else {
                    proof {
                        reveal(Seq::filter);
                        assert(!elig(ev[i as int]));
                        assert(ev.take(i + 1).filter(elig) == ev.take(i as int).filter(elig));
                    }
                }
            } else {
                proof {
                    reveal(Seq::filter);
                    assert(!vis(ev[i as int]));
                    assert(!elig(ev[i as int]));
                    assert(ev.take(i + 1).filter(vis) == ev.take(i as int).filter(vis));
                    assert(ev.take(i + 1).filter(elig) == ev.take(i as int).filter(elig));
                }
            }
            i = i + 1;
        }
        proof {
            assert(ev.take(ev.len() as int) =~= ev);
        }
        let count = picked.len();
        let ghost pv = jobs_view(picked@);
        let jobs = sort_jobs(picked);
        self.progress = ScanProgress { total_files: total, current_file: count };
        proof {
            broadcast use vstd::seq_lib::group_to_multiset_ensures;

            let mapped = ev.filter(elig).map_values(|e: ScanEntryV| job_of_entry(e));
            assert(jobs_view(jobs@).to_multiset() == mapped.to_multiset());
            assert(jobs_view(jobs@).to_multiset() == pv.to_multiset());
            assert(jobs_view(jobs@).len() == jobs_view(jobs@).to_multiset().len());
            assert(pv.len() == pv.to_multiset().len());
        }
        jobs
    }
}

/// A priority queue of jobs: highest priority first, newer first within a
/// priority, kept as a run in retirement order.
pub struct IndexQueue {
    pub jobs: Vec<IndexJob>,
}

impl IndexQueue {
    /// The queue's order invariant: neighbours in retirement order.
    pub open spec fn wf(self) -> bool {
        forall|k: int|
            0 <= k && k + 1 < self.jobs@.len() ==> job_before(
                #[trigger] jobs_view(self.jobs@)[k],
                jobs_view(self.jobs@)[k + 1],
            )
    }

    /// What the queue holds.
    pub open spec fn contents(self) -> Multiset<IndexJobV> {
        jobs_view(self.jobs@).to_multiset()
    }

    /// An empty queue.
    pub fn new() -> (q: IndexQueue)
        ensures
            q.wf(),
            q.contents() == Multiset::<IndexJobV>::empty(),
    {
        let q = IndexQueue { jobs: Vec::new() };
        proof {
            broadcast use vstd::seq_lib::group_to_multiset_ensures;

            assert(jobs_view(q.jobs@) =~= Seq::<IndexJobV>::empty());
            assert(jobs_view(q.jobs@).to_multiset() =~= Multiset::<IndexJobV>::empty());
        }
        q
    }

    /// Adds one job.
    pub fn push(&mut self, job: IndexJob)
        requires
            old(self).wf(),
        ensures
            final(self).wf(),
            final(self).contents() == old(self).contents().insert(job@),
    {
        let ghost jv = job@;
        let ghost old_view = jobs_view(self.jobs@);
        self.jobs.push(job);
        proof {
            broadcast use vstd::seq_lib::group_to_multiset_ensures;

            assert(jobs_view(self.jobs@) =~= old_view.push(jv));
        }
        let mut held: Vec<IndexJob> = Vec::new();
        core::mem::swap(&mut held, &mut self.jobs);
        let sorted = sort_jobs(held);
        self.jobs = sorted;
        proof {
            broadcast use vstd::seq_lib::group_to_multiset_ensures;

            assert(final(self).contents() =~= old(self).contents().insert(jv));
        }
    }

    /// Removes and returns the next job to retire: one that retires no
    /// later than anything left in the queue. An empty queue yields `None`.
    pub fn pop(&mut self) -> (r: Option<IndexJob>)
        requires
            old(self).wf(),
        ensures
            final(self).wf(),
            r is Some <==> old(self).contents().len() > 0,
            r is None ==> final(self).contents() == old(self).contents(),
            r matches Some(j) ==> {
                &&& old(self).contents() == final(self).contents().insert(j@)
                &&& (forall|x: IndexJobV|
                    final(self).contents().count(x) > 0 ==> job_before(j@, x))
            },
    {
        proof {
            broadcast use vstd::seq_lib::group_to_multiset_ensures;
        }
        if self.jobs.len() == 0 {
            proof {
                assert(jobs_view(self.jobs@) =~= Seq::<IndexJobV>::empty());
            }
            return None;
        }
        let ghost old_view = jobs_view(self.jobs@);
        let x = self.jobs.remove(0);
        proof {
            broadcast use vstd::seq_lib::group_to_multiset_ensures;

            assert(jobs_view(self.jobs@) =~= old_view.remove(0));
            old_view.remove_ensures(0);
            assert(x@ == old_view[0]);
            assert(old_view.to_multiset() =~= old_view.remove(0).to_multiset().insert(x@));
            let nv = jobs_view(self.jobs@);
            assert forall|q: IndexJobV| nv.to_multiset().count(q) > 0 implies job_before(
                x@,
                q,
            ) by {
                assert(nv.contains(q));
                let w = choose|w: int| 0 <= w < nv.len() && nv[w] == q;
                assert(nv[w] == old_view[w + 1]);
                lemma_job_sorted_pair(old_view, 0, w + 1);
            }
        }
        Some(x)
    }

    /// How many jobs wait.
    pub fn len(&self) -> (n: usize)
        ensures
            n == self.contents().len(),
    {
        proof {
            broadcast use vstd::seq_lib::group_to_multiset_ensures;
        }
        self.jobs.len()
    }

    /// Whether nothing waits.
    pub fn is_empty(&self) -> (r: bool)
        ensures
            r == (self.contents().len() == 0),
    {
        proof {
            broadcast use vstd::seq_lib::group_to_multiset_ensures;
        }
        self.jobs.len() == 0
    }

    /// Adds every job of a run.
    pub fn extend(&mut self, jobs: Vec<IndexJob>)
        requires
            old(self).wf(),
        ensures
            final(self).wf(),
            final(self).contents() == old(self).contents().add(
                jobs_view(jobs@).to_multiset(),
            ),
    {
        let ghost jv = jobs_view(jobs@);
        proof {
            broadcast use vstd::seq_lib::group_to_multiset_ensures;

            assert(jv.take(0) =~= Seq::<IndexJobV>::empty());
            assert(jv.take(0).to_multiset() =~= Multiset::<IndexJobV>::empty());
            assert(old(self).contents().add(Multiset::<IndexJobV>::empty()) =~= old(
                self,
            ).contents());
            assert(jv.skip(0) =~= jv);
        }
        let mut rest = jobs;
        let ghost mut gi: int = 0;
        while rest.len() > 0
            invariant
                self.wf(),
                0 <= gi <= jv.len(),
                jobs_view(rest@) == jv.skip(gi),
                gi + jobs_view(rest@).len() == jv.len(),
                self.contents() == old(self).contents().add(jv.take(gi).to_multiset()),
            decreases rest@.len(),
        {
            let ghost old_rest = jobs_view(rest@);
            let x = rest.remove(0);
            let ghost xv = x@;
            proof {
                broadcast use vstd::seq_lib::group_to_multiset_ensures;

                assert(jobs_view(rest@) =~= old_rest.remove(0));
                old_rest.remove_ensures(0);
                assert(xv == old_rest[0]);
                assert(old_rest[0] == jv[gi]);
                assert(jobs_view(rest@) =~= jv.skip(gi + 1));
                assert(jv.take(gi + 1) =~= jv.take(gi).push(xv));
                assert(jv.take(gi + 1).to_multiset() =~= jv.take(gi).to_multiset().insert(xv));
            }
            self.push(x);
            proof {
                assert(self.contents() =~= old(self).contents().add(jv.take(gi + 1).to_multiset()));
                gi = gi + 1;
            }
        }
        proof {
            assert(jv.take(gi) =~= jv);
        }
    }
}

} // verus!
