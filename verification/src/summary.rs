//! The end-of-run summary: counts per outcome, the failures and
//! interruptions in job order, the lines shown to the user and the exit code.
use vstd::prelude::*;
use crate::convert::{ExecutionReport, JobResult, JobResultView, result_views};
use crate::path::{FsPath, PathView};
use crate::text::{append_str, decimal, decimal_string, lossy_utf8, string_of};

verus! {

#[derive(Debug)]
pub struct Summary {
    pub total: usize,
    pub converted: usize,
    pub skipped: usize,
    pub failed: usize,
    pub interrupted: usize,
    pub workers: usize,
    pub failure_details: Vec<(FsPath, String)>,
    pub interrupted_details: Vec<FsPath>,
}

/// How many results satisfy `pred`.
pub open spec fn count_where(rs: Seq<JobResultView>, pred: spec_fn(JobResultView) -> bool) -> nat
    decreases rs.len(),
{
    if rs.len() == 0 {
        0
    } else {
        count_where(rs.drop_last(), pred) + if pred(rs.last()) {
            1nat
        } else {
            0nat
        }
    }
}

pub open spec fn is_converted(r: JobResultView) -> bool {
    r is Converted
}

pub open spec fn is_skipped(r: JobResultView) -> bool {
    r is Skipped
}

pub open spec fn is_failed(r: JobResultView) -> bool {
    r is Failed
}

pub open spec fn is_interrupted(r: JobResultView) -> bool {
    r is Interrupted
}

/// The failed inputs with their messages, in job order.
pub open spec fn failures(rs: Seq<JobResultView>) -> Seq<(PathView, Seq<char>)>
    decreases rs.len(),
{
    if rs.len() == 0 {
        Seq::empty()
    } else {
        let prev = failures(rs.drop_last());
        match rs.last() {
            JobResultView::Failed { input, error } => prev.push((input, error)),
            _ => prev,
        }
    }
}

/// The inputs that were not started because of an interrupt, in job order.
pub open spec fn interruptions(rs: Seq<JobResultView>) -> Seq<PathView>
    decreases rs.len(),
{
    if rs.len() == 0 {
        Seq::empty()
    } else {
        let prev = interruptions(rs.drop_last());
        match rs.last() {
            JobResultView::Interrupted { input } => prev.push(input),
            _ => prev,
        }
    }
}

pub open spec fn detail_views(ds: Seq<(FsPath, String)>) -> Seq<(PathView, Seq<char>)> {
    ds.map_values(|d: (FsPath, String)| (d.0@, d.1@))
}

pub open spec fn path_views(ps: Seq<FsPath>) -> Seq<PathView> {
    ps.map_values(|p: FsPath| p@)
}

proof fn lemma_counts_bounded(rs: Seq<JobResultView>)
    ensures
        count_where(rs, |r: JobResultView| is_converted(r)) + count_where(
            rs,
            |r: JobResultView| is_skipped(r),
        ) + count_where(rs, |r: JobResultView| is_failed(r)) + count_where(
            rs,
            |r: JobResultView| is_interrupted(r),
        ) == rs.len(),
    decreases rs.len(),
{
    if rs.len() > 0 {
        lemma_counts_bounded(rs.drop_last());
    }
}

/// Every job has exactly one outcome: the four counts add up to the total.
pub proof fn law_summary_counts_add_up(rs: Seq<JobResultView>)
    ensures
        count_where(rs, |r: JobResultView| is_converted(r)) + count_where(
            rs,
            |r: JobResultView| is_skipped(r),
        ) + count_where(rs, |r: JobResultView| is_failed(r)) + count_where(
            rs,
            |r: JobResultView| is_interrupted(r),
        ) == rs.len(),
        failures(rs).len() == count_where(rs, |r: JobResultView| is_failed(r)),
        interruptions(rs).len() == count_where(rs, |r: JobResultView| is_interrupted(r)),
    decreases rs.len(),
{
    lemma_counts_bounded(rs);
    if rs.len() > 0 {
        law_summary_counts_add_up(rs.drop_last());
    }
}

impl Summary {
    /// Counts the results of a run and collects its failures and
    /// interruptions.
    pub fn from_report(report: &ExecutionReport) -> (s: Summary)
        ensures
            s.total == report.results@.len(),
            s.converted == count_where(
                result_views(report.results@),
                |r: JobResultView| is_converted(r),
            ),
            s.skipped == count_where(
                result_views(report.results@),
                |r: JobResultView| is_skipped(r),
            ),
            s.failed == count_where(result_views(report.results@), |r: JobResultView| is_failed(r)),
            s.interrupted == count_where(
                result_views(report.results@),
                |r: JobResultView| is_interrupted(r),
            ),
            s.workers == report.workers,
            detail_views(s.failure_details@) == failures(result_views(report.results@)),
            path_views(s.interrupted_details@) == interruptions(result_views(report.results@)),
    {
        let results = &report.results;
        let mut converted: usize = 0;
        let mut skipped: usize = 0;
        let mut failed: usize = 0;
        let mut interrupted: usize = 0;
        let mut failure_details: Vec<(FsPath, String)> = Vec::new();
        let mut interrupted_details: Vec<FsPath> = Vec::new();
        let mut i: usize = 0;
        while i < results.len()
            invariant
                i <= results.len(),
                converted == count_where(
                    result_views(results@.subrange(0, i as int)),
                    |r: JobResultView| is_converted(r),
                ),
                skipped == count_where(
                    result_views(results@.subrange(0, i as int)),
                    |r: JobResultView| is_skipped(r),
                ),
                failed == count_where(
                    result_views(results@.subrange(0, i as int)),
                    |r: JobResultView| is_failed(r),
                ),
                interrupted == count_where(
                    result_views(results@.subrange(0, i as int)),
                    |r: JobResultView| is_interrupted(r),
                ),
                detail_views(failure_details@) == failures(
                    result_views(results@.subrange(0, i as int)),
                ),
                path_views(interrupted_details@) == interruptions(
                    result_views(results@.subrange(0, i as int)),
                ),
            decreases results.len() - i,
        {
            let ghost pre = result_views(results@.subrange(0, i as int));
            let ghost post = result_views(results@.subrange(0, i + 1));
            proof {
                assert(post.drop_last() =~= pre);
                assert(post.last() == results@[i as int]@);
                lemma_counts_bounded(pre);
            }
            match &results[i] {
                JobResult::Converted => {
                    converted = converted + 1;
                },
                JobResult::Skipped => {
                    skipped = skipped + 1;
                },
                JobResult::Interrupted { input } => {
                    interrupted = interrupted + 1;
                    let ghost before = interrupted_details@;
                    interrupted_details.push(input.copy());
                    proof {
                        assert(path_views(interrupted_details@) =~= path_views(before).push(
                            input@,
                        ));
                    }
                },
                JobResult::Failed { input, error } => {
                    failed = failed + 1;
                    let ghost before = failure_details@;
                    failure_details.push((input.copy(), error.clone()));
                    proof {
                        assert(detail_views(failure_details@) =~= detail_views(before).push(
                            (input@, error@),
                        ));
                    }
                },
            }
            i = i + 1;
        }
        proof {
            assert(results@.subrange(0, results.len() as int) =~= results@);
        }
        Summary {
            total: results.len(),
            converted,
            skipped,
            failed,
            interrupted,
            workers: report.workers,
            failure_details,
            interrupted_details,
        }
    }

    /// The summary line printed at the end of a run; the interrupted count
    /// appears only when some job was interrupted.
    pub fn summary_line(&self) -> (line: String)
        ensures
            line@ == spec_summary_line(
                self.total as nat,
                self.converted as nat,
                self.skipped as nat,
                self.failed as nat,
                self.interrupted as nat,
                self.workers as nat,
            ),
    {
        proof {
            reveal_strlit("Summary: total=");
            reveal_strlit(", converted=");
            reveal_strlit(", skipped=");
            reveal_strlit(", failed=");
            reveal_strlit(", interrupted=");
            reveal_strlit(", workers=");
        }
        let mut line = string_of("Summary: total=");
        append_str(&mut line, decimal_string(self.total).as_str());
        append_str(&mut line, ", converted=");
        append_str(&mut line, decimal_string(self.converted).as_str());
        append_str(&mut line, ", skipped=");
        append_str(&mut line, decimal_string(self.skipped).as_str());
        append_str(&mut line, ", failed=");
        append_str(&mut line, decimal_string(self.failed).as_str());
        if self.interrupted > 0 {
            append_str(&mut line, ", interrupted=");
            append_str(&mut line, decimal_string(self.interrupted).as_str());
        }
        append_str(&mut line, ", workers=");
        append_str(&mut line, decimal_string(self.workers).as_str());
        line
    }

    /// One line per failure, `FAILED <input>: <message>`.
    pub fn failure_lines(&self) -> (lines: Vec<String>)
        ensures
            lines@.len() == self.failure_details@.len(),
            forall|i: int|
                0 <= i < lines@.len() ==> (#[trigger] lines@[i])@ == "FAILED "@ + crate::path::shown(self.failure_details@[i].0@) + ": "@ + self.failure_details@[i].1@,
    {
        let mut lines: Vec<String> = Vec::new();
        let mut i: usize = 0;
        while i < self.failure_details.len()
            invariant
                i <= self.failure_details.len(),
                lines@.len() == i,
                forall|k: int|
                    0 <= k < i ==> (#[trigger] lines@[k])@ == "FAILED "@ + crate::path::shown(self.failure_details@[k].0@) + ": "@ + self.failure_details@[k].1@,
            decreases self.failure_details.len() - i,
        {
            let mut line = string_of("FAILED ");
            append_str(&mut line, self.failure_details[i].0.display().as_str());
            append_str(&mut line, ": ");
            append_str(&mut line, self.failure_details[i].1.as_str());
            lines.push(line);
            i = i + 1;
        }
        lines
    }

    /// One line per interrupted job, `INTERRUPTED <input>`.
    pub fn interrupted_lines(&self) -> (lines: Vec<String>)
        ensures
            lines@.len() == self.interrupted_details@.len(),
            forall|i: int|
                0 <= i < lines@.len() ==> (#[trigger] lines@[i])@ == "INTERRUPTED "@ + crate::path::shown(self.interrupted_details@[i]@),
    {
        let mut lines: Vec<String> = Vec::new();
        let mut i: usize = 0;
        while i < self.interrupted_details.len()
            invariant
                i <= self.interrupted_details.len(),
                lines@.len() == i,
                forall|k: int|
                    0 <= k < i ==> (#[trigger] lines@[k])@ == "INTERRUPTED "@ + crate::path::shown(self.interrupted_details@[k]@),
            decreases self.interrupted_details.len() - i,
        {
            let mut line = string_of("INTERRUPTED ");
            append_str(&mut line, self.interrupted_details[i].display().as_str());
            lines.push(line);
            i = i + 1;
        }
        lines
    }
}

pub open spec fn spec_summary_line(
    total: nat,
    converted: nat,
    skipped: nat,
    failed: nat,
    interrupted: nat,
    workers: nat,
) -> Seq<char> {
    "Summary: total="@ + decimal(total) + ", converted="@ + decimal(converted) + ", skipped="@
        + decimal(skipped) + ", failed="@ + decimal(failed) + (if interrupted > 0 {
        ", interrupted="@ + decimal(interrupted)
    } else {
        Seq::empty()
    }) + ", workers="@ + decimal(workers)
}

/// The process exit status after a run: 130 when interrupted, 1 when some
/// job failed, else 0.
pub open spec fn spec_exit_status(interrupted_jobs: nat, run_interrupted: bool, failed: nat) -> u8 {
    if interrupted_jobs > 0 || run_interrupted {
        130
    } else if failed > 0 {
        1
    } else {
        0
    }
}

/// A run exits successfully exactly when nothing failed and nothing was
/// interrupted; an interruption takes precedence over failures.
pub proof fn law_exit_status_reflects_failures(interrupted_jobs: nat, run_interrupted: bool, failed: nat)
    ensures
        (spec_exit_status(interrupted_jobs, run_interrupted, failed) == 0) == (interrupted_jobs
            == 0 && !run_interrupted && failed == 0),
        (interrupted_jobs > 0 || run_interrupted) ==> spec_exit_status(
            interrupted_jobs,
            run_interrupted,
            failed,
        ) == 130,
{
}

pub fn exit_status(summary: &Summary, report: &ExecutionReport) -> (code: u8)
    ensures
        code == spec_exit_status(
            summary.interrupted as nat,
            report.interrupted,
            summary.failed as nat,
        ),
{
    if summary.interrupted > 0 || report.interrupted {
        130
    } else if summary.failed > 0 {
        1
    } else {
        0
    }
}

} // verus!
