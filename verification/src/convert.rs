//! The decisions of a conversion run. The application runs the jobs on a
//! thread pool and performs each step; these functions say what each job
//! does next, what its outcome is, and what the run reports.
use vstd::prelude::*;
use crate::path::shown;
use crate::path::{ComponentView, FsPath, PathView, file_name, join, parent, parse_path, slash};
use crate::plan::{ConversionJob, JobView};
use crate::audio_format::AudioFormat;
use crate::ffmpeg::{
    ToolRun, ToolRunView, converter_result, job_codec, probe_result, spec_converter_result,
    spec_job_codec, spec_probe_result,
};
use crate::text::{append_str, decimal, decimal_string, lossy_text, lossy_utf8, string_of};

verus! {

/// The outcome of one job.
#[derive(Debug)]
pub enum JobResult {
    Converted,
    Skipped,
    Interrupted { input: FsPath },
    Failed { input: FsPath, error: String },
}

pub enum JobResultView {
    Converted,
    Skipped,
    Interrupted { input: PathView },
    Failed { input: PathView, error: Seq<char> },
}

impl View for JobResult {
    type V = JobResultView;

    open spec fn view(&self) -> JobResultView {
        match self {
            JobResult::Converted => JobResultView::Converted,
            JobResult::Skipped => JobResultView::Skipped,
            JobResult::Interrupted { input } => JobResultView::Interrupted { input: input@ },
            JobResult::Failed { input, error } => JobResultView::Failed {
                input: input@,
                error: error@,
            },
        }
    }
}

pub open spec fn result_views(rs: Seq<JobResult>) -> Seq<JobResultView> {
    rs.map_values(|r: JobResult| r@)
}

/// What a run reports.
#[derive(Debug)]
pub struct ExecutionReport {
    pub results: Vec<JobResult>,
    pub workers: usize,
    pub interrupted: bool,
}

/// Workers used for `job_count` jobs with `configured` allowed: none for no
/// jobs, else `min(configured, job_count)` but at least one.
pub open spec fn spec_worker_count(configured: nat, job_count: nat) -> nat {
    if job_count == 0 {
        0
    } else if configured == 0 {
        1
    } else if configured < job_count {
        configured
    } else {
        job_count
    }
}

pub fn worker_count(configured: usize, job_count: usize) -> (workers: usize)
    ensures
        workers == spec_worker_count(configured as nat, job_count as nat),
{
    if job_count == 0 {
        return 0;
    }
    let m = if configured < job_count {
        configured
    } else {
        job_count
    };
    if m >= 1 {
        m
    } else {
        1
    }
}

/// A run uses no more workers than jobs or than allowed (when at least one
/// is allowed), and at least one worker whenever there is a job.
pub proof fn law_worker_count_bounds(configured: nat, job_count: nat)
    ensures
        spec_worker_count(configured, job_count) <= job_count,
        configured >= 1 ==> spec_worker_count(configured, job_count) <= configured,
        job_count >= 1 ==> spec_worker_count(configured, job_count) >= 1,
        (spec_worker_count(configured, job_count) == 0) == (job_count == 0),
{
}

/// What a job does when its turn comes.
#[derive(Debug, Clone, Copy, PartialEq, Eq, Structural)]
pub enum JobDecision {
    /// The run was interrupted: the job is not started.
    Interrupt,
    /// The output exists already: nothing to do.
    Skip,
    /// Dry run: count the job as converted without running anything.
    MarkConverted,
    /// Create the output's directory, convert into a temporary file, and
    /// move it into place.
    Run,
}

pub open spec fn spec_decide(interrupted: bool, output_exists: bool, dry_run: bool) -> JobDecision {
    if interrupted {
        JobDecision::Interrupt
    } else if output_exists {
        JobDecision::Skip
    } else if dry_run {
        JobDecision::MarkConverted
    } else {
        JobDecision::Run
    }
}

/// The converter runs only for a job that was not interrupted, whose output
/// does not exist yet, in a run that is not a dry run: a dry run never runs
/// it, and an existing output is never overwritten.
pub proof fn law_converter_runs_only_when_needed(interrupted: bool, output_exists: bool, dry_run: bool)
    ensures
        (spec_decide(interrupted, output_exists, dry_run) == JobDecision::Run) == (!interrupted
            && !output_exists && !dry_run),
        dry_run ==> spec_decide(interrupted, output_exists, dry_run) != JobDecision::Run,
        output_exists && !interrupted ==> spec_decide(interrupted, output_exists, dry_run)
            == JobDecision::Skip,
{
}

/// Decides a job from what the run knows when the job starts.
pub fn decide_job(interrupted: bool, output_exists: bool, dry_run: bool) -> (d: JobDecision)
    ensures
        d == spec_decide(interrupted, output_exists, dry_run),
{
    if interrupted {
        JobDecision::Interrupt
    } else if output_exists {
        JobDecision::Skip
    } else if dry_run {
        JobDecision::MarkConverted
    } else {
        JobDecision::Run
    }
}

/// How the steps of a job that ran went.
pub enum RunOutcome {
    /// The output was converted and moved into place.
    Done,
    /// The output's directory could not be created.
    CreateDirFailed { dir: FsPath, error: String },
    /// The converter failed.
    ConvertFailed { error: String },
    /// The converted temporary file could not be moved into place.
    MoveFailed { temp: FsPath, error: String },
}

pub enum RunOutcomeView {
    Done,
    CreateDirFailed { dir: PathView, error: Seq<char> },
    ConvertFailed { error: Seq<char> },
    MoveFailed { temp: PathView, error: Seq<char> },
}

impl View for RunOutcome {
    type V = RunOutcomeView;

    open spec fn view(&self) -> RunOutcomeView {
        match self {
            RunOutcome::Done => RunOutcomeView::Done,
            RunOutcome::CreateDirFailed { dir, error } => RunOutcomeView::CreateDirFailed {
                dir: dir@,
                error: error@,
            },
            RunOutcome::ConvertFailed { error } => RunOutcomeView::ConvertFailed { error: error@ },
            RunOutcome::MoveFailed { temp, error } => RunOutcomeView::MoveFailed {
                temp: temp@,
                error: error@,
            },
        }
    }
}


/// The result of a job that was decided `decision` and, if it ran, went as
/// `outcome`; failures carry the input and a message naming what failed.
pub open spec fn spec_job_result(
    input: PathView,
    output: PathView,
    decision: JobDecision,
    outcome: RunOutcomeView,
) -> JobResultView {
    match decision {
        JobDecision::Interrupt => JobResultView::Interrupted { input },
        JobDecision::Skip => JobResultView::Skipped,
        JobDecision::MarkConverted => JobResultView::Converted,
        JobDecision::Run => match outcome {
            RunOutcomeView::Done => JobResultView::Converted,
            RunOutcomeView::CreateDirFailed { dir, error } => JobResultView::Failed {
                input,
                error: "failed to create output directory "@ + shown(dir) + ": "@ + error,
            },
            RunOutcomeView::ConvertFailed { error } => JobResultView::Failed {
                input,
                error: shown(input) + " -> "@ + shown(output) + ": "@ + error,
            },
            RunOutcomeView::MoveFailed { temp, error } => JobResultView::Failed {
                input,
                error: "failed to move temporary output "@ + shown(temp) + " to "@ + shown(output)
                    + ": "@ + error,
            },
        },
    }
}

/// The result of a job (`outcome` matters only for a job that ran).
pub fn job_result(job: &ConversionJob, decision: JobDecision, outcome: &RunOutcome) -> (r: JobResult)
    ensures
        r@ == spec_job_result(job.input@, job.output@, decision, outcome@),
{
    match decision {
        JobDecision::Interrupt => JobResult::Interrupted { input: job.input.copy() },
        JobDecision::Skip => JobResult::Skipped,
        JobDecision::MarkConverted => JobResult::Converted,
        JobDecision::Run => match outcome {
            RunOutcome::Done => JobResult::Converted,
            RunOutcome::CreateDirFailed { dir, error } => {
                let mut m = string_of("failed to create output directory ");
                append_str(&mut m, dir.display().as_str());
                append_str(&mut m, ": ");
                append_str(&mut m, error.as_str());
                JobResult::Failed { input: job.input.copy(), error: m }
            },
            RunOutcome::ConvertFailed { error } => {
                let mut m = job.input.display();
                append_str(&mut m, " -> ");
                append_str(&mut m, job.output.display().as_str());
                append_str(&mut m, ": ");
                append_str(&mut m, error.as_str());
                JobResult::Failed { input: job.input.copy(), error: m }
            },
            RunOutcome::MoveFailed { temp, error } => {
                let mut m = string_of("failed to move temporary output ");
                append_str(&mut m, temp.display().as_str());
                append_str(&mut m, " to ");
                append_str(&mut m, job.output.display().as_str());
                append_str(&mut m, ": ");
                append_str(&mut m, error.as_str());
                JobResult::Failed { input: job.input.copy(), error: m }
            },
        },
    }
}

// ---------------------------------------------------------------------------
// The steps of a job that runs
// ---------------------------------------------------------------------------
/// What the application reports back to a running job.
pub enum JobEvent {
    /// The job starts.
    Started,
    /// The output's directory was created, or could not be (with the error).
    DirCreated(Result<(), String>),
    /// The prober ran on the input.
    Probed(ToolRun),
    /// The converter ran into the temporary file.
    Converted(ToolRun),
    /// The temporary file was moved onto the output, or could not be.
    Renamed { temp: FsPath, result: Result<(), String> },
}

pub enum JobEventView {
    Started,
    DirCreated(Result<(), Seq<char>>),
    Probed(ToolRunView),
    Converted(ToolRunView),
    Renamed { temp: PathView, result: Result<(), Seq<char>> },
}

pub open spec fn unit_result_view(r: Result<(), String>) -> Result<(), Seq<char>> {
    match r {
        Ok(_) => Ok(()),
        Err(e) => Err(e@),
    }
}

impl View for JobEvent {
    type V = JobEventView;

    open spec fn view(&self) -> JobEventView {
        match self {
            JobEvent::Started => JobEventView::Started,
            JobEvent::DirCreated(r) => JobEventView::DirCreated(unit_result_view(*r)),
            JobEvent::Probed(run) => JobEventView::Probed(run@),
            JobEvent::Converted(run) => JobEventView::Converted(run@),
            JobEvent::Renamed { temp, result } => JobEventView::Renamed {
                temp: temp@,
                result: unit_result_view(*result),
            },
        }
    }
}

/// What a running job does next.
pub enum JobStep {
    /// Create this directory (the output's parent).
    CreateDir(FsPath),
    /// Probe the input for its sample format and bit depth.
    Probe,
    /// Run the converter into a temporary file beside the output, with the
    /// PCM codec when the target needs one.
    Convert(Option<String>),
    /// Move the temporary file onto the output.
    Rename,
    /// Remove the temporary file, then end with this outcome.
    RemoveTempThenFinish(RunOutcome),
    /// End with this outcome.
    Finish(RunOutcome),
}

pub enum JobStepView {
    CreateDir(PathView),
    Probe,
    Convert(Option<Seq<char>>),
    Rename,
    RemoveTempThenFinish(RunOutcomeView),
    Finish(RunOutcomeView),
}

impl View for JobStep {
    type V = JobStepView;

    open spec fn view(&self) -> JobStepView {
        match self {
            JobStep::CreateDir(d) => JobStepView::CreateDir(d@),
            JobStep::Probe => JobStepView::Probe,
            JobStep::Convert(c) => JobStepView::Convert(
                match c {
                    Some(c) => Some(c@),
                    None => None,
                },
            ),
            JobStep::Rename => JobStepView::Rename,
            JobStep::RemoveTempThenFinish(o) => JobStepView::RemoveTempThenFinish(o@),
            JobStep::Finish(o) => JobStepView::Finish(o@),
        }
    }
}

/// After the directory exists: PCM targets are probed first, FLAC is
/// converted directly.
pub open spec fn step_after_dir(job: JobView) -> JobStepView {
    match job.target_format {
        AudioFormat::Flac => JobStepView::Convert(None),
        _ => JobStepView::Probe,
    }
}

/// The next step of a running job after `event`. A job creates the output's
/// directory (when the output has a parent), probes a PCM target's input and
/// picks its codec, converts into the temporary file and moves it onto the
/// output; on a failure after the directory step it removes the temporary
/// file, and ends with the failure.
pub open spec fn spec_next_step(job: JobView, event: JobEventView) -> JobStepView {
    match event {
        JobEventView::Started => match parent(job.output) {
            Some(dir) => JobStepView::CreateDir(dir),
            None => step_after_dir(job),
        },
        JobEventView::DirCreated(r) => match r {
            Ok(_) => step_after_dir(job),
            Err(error) => JobStepView::Finish(
                RunOutcomeView::CreateDirFailed {
                    dir: match parent(job.output) {
                        Some(d) => d,
                        None => job.output,
                    },
                    error,
                },
            ),
        },
        JobEventView::Probed(run) => match spec_probe_result(job.input, run) {
            Ok((fmt, bits)) => match spec_job_codec(job, fmt, bits) {
                Ok(codec) => JobStepView::Convert(Some(codec)),
                Err(error) => JobStepView::RemoveTempThenFinish(
                    RunOutcomeView::ConvertFailed { error },
                ),
            },
            Err(error) => JobStepView::RemoveTempThenFinish(RunOutcomeView::ConvertFailed { error }),
        },
        JobEventView::Converted(run) => match spec_converter_result(job.input, run) {
            Ok(_) => JobStepView::Rename,
            Err(error) => JobStepView::RemoveTempThenFinish(RunOutcomeView::ConvertFailed { error }),
        },
        JobEventView::Renamed { temp, result } => match result {
            Ok(_) => JobStepView::Finish(RunOutcomeView::Done),
            Err(error) => JobStepView::RemoveTempThenFinish(
                RunOutcomeView::MoveFailed { temp, error },
            ),
        },
    }
}

/// A running job leaves no temporary file behind: once the converter may
/// have written one, every failure removes it before the job ends, and a
/// job ends without removing it only when it succeeded or its directory
/// could not be created.
pub proof fn law_failed_jobs_remove_the_temporary_file(job: JobView, event: JobEventView)
    ensures
        spec_next_step(job, event) matches JobStepView::Finish(o) ==> (o is Done
            || o is CreateDirFailed),
        spec_next_step(job, event) matches JobStepView::Finish(o) && o is Done ==> event is Renamed,
{
}

/// AIFF and WAV targets are probed before they are converted, and converted
/// with the PCM codec chosen from the probed sample; only FLAC targets are
/// converted without a codec.
pub proof fn law_pcm_targets_are_probed(job: JobView, event: JobEventView)
    ensures
        (job.target_format == AudioFormat::Aiff || job.target_format == AudioFormat::Wav)
            ==> spec_next_step(job, JobEventView::DirCreated(Ok(()))) == JobStepView::Probe,
        (job.target_format == AudioFormat::Aiff || job.target_format == AudioFormat::Wav)
            && parent(job.output) is None ==> spec_next_step(job, JobEventView::Started)
            == JobStepView::Probe,
        job.target_format == AudioFormat::Flac ==> spec_next_step(
            job,
            JobEventView::DirCreated(Ok(())),
        ) == JobStepView::Convert(None),
        spec_next_step(job, event) matches JobStepView::Convert(c) ==> (c is None <==> job.target_format
            == AudioFormat::Flac),
        spec_next_step(job, event) matches JobStepView::Convert(Some(c)) ==> (event matches JobEventView::Probed(run)
            && spec_probe_result(job.input, run) matches Ok((f, b)) && crate::ffmpeg::spec_pcm_codec(
            job.target_format,
            f,
            b,
        ) == Ok::<Seq<char>, crate::ffmpeg::CodecError>(c)),
{
}

fn step_after_dir_exec(job: &ConversionJob) -> (s: JobStep)
    ensures
        s@ == step_after_dir(job@),
{
    match job.target_format {
        AudioFormat::Flac => JobStep::Convert(None),
        _ => JobStep::Probe,
    }
}

/// Decides the next step of a running job from what just happened.
pub fn next_step(job: &ConversionJob, event: JobEvent) -> (s: JobStep)
    ensures
        s@ == spec_next_step(job@, event@),
{
    match event {
        JobEvent::Started => match job.output.parent() {
            Some(dir) => JobStep::CreateDir(dir),
            None => step_after_dir_exec(job),
        },
        JobEvent::DirCreated(r) => match r {
            Ok(_) => step_after_dir_exec(job),
            Err(error) => {
                let dir = match job.output.parent() {
                    Some(d) => d,
                    None => job.output.copy(),
                };
                JobStep::Finish(RunOutcome::CreateDirFailed { dir, error })
            },
        },
        JobEvent::Probed(run) => match probe_result(&job.input, run) {
            Ok(sample) => match job_codec(job, &sample) {
                Ok(codec) => JobStep::Convert(Some(string_of(codec))),
                Err(error) => JobStep::RemoveTempThenFinish(RunOutcome::ConvertFailed { error }),
            },
            Err(error) => JobStep::RemoveTempThenFinish(RunOutcome::ConvertFailed { error }),
        },
        JobEvent::Converted(run) => match converter_result(&job.input, run) {
            Ok(_) => JobStep::Rename,
            Err(error) => JobStep::RemoveTempThenFinish(RunOutcome::ConvertFailed { error }),
        },
        JobEvent::Renamed { temp, result } => match result {
            Ok(_) => JobStep::Finish(RunOutcome::Done),
            Err(error) => JobStep::RemoveTempThenFinish(RunOutcome::MoveFailed { temp, error }),
        },
    }
}

/// Whether a result is an interruption.
pub open spec fn is_interrupted_result(r: JobResultView) -> bool {
    r is Interrupted
}

/// Assembles the report of a run: it is interrupted when the flag was
/// raised by the end, or when some job was not started because of it.
pub fn execution_report(results: Vec<JobResult>, workers: usize, flag_raised: bool) -> (r:
    ExecutionReport)
    ensures
        result_views(r.results@) == result_views(results@),
        r.workers == workers,
        r.interrupted == (flag_raised || exists|i: int|
            0 <= i < results@.len() && is_interrupted_result(#[trigger] results@[i]@)),
{
    let mut any = false;
    let mut i: usize = 0;
    while i < results.len()
        invariant
            i <= results.len(),
            any == exists|k: int| 0 <= k < i && is_interrupted_result(#[trigger] results@[k]@),
        decreases results.len() - i,
    {
        let hit = match &results[i] {
            JobResult::Interrupted { .. } => true,
            _ => false,
        };
        proof {
            if hit {
                assert(is_interrupted_result(results@[i as int]@));
            }
            if !any && !hit {
                assert forall|k: int| 0 <= k < i + 1 implies !is_interrupted_result(
                    #[trigger] results@[k]@,
                ) by {
                    if k < i {
                        assert(!is_interrupted_result(results@[k]@));
                    }
                }
            }
        }
        any = any || hit;
        i = i + 1;
    }
    ExecutionReport { results, workers, interrupted: flag_raised || any }
}

/// The text of the temporary file name: `.<name>.flacser-<pid>-<id>` and,
/// when the output has an extension, `.<extension>`.
pub open spec fn temp_name_text(name: Seq<u8>, pid: nat, id: nat, ext: Option<Seq<u8>>) -> Seq<
    char,
> {
    "."@ + lossy_utf8(name) + ".flacser-"@ + decimal(pid) + "-"@ + decimal(id) + match ext {
        Some(e) => "."@ + lossy_utf8(e),
        None => Seq::empty(),
    }
}

/// The temporary path a job converts into: a hidden file beside the output
/// (`output.with_file_name(..)` of the UTF-8 bytes of `temp_name_text`).
pub open spec fn spec_temp_output_path(output: PathView, pid: nat, id: nat) -> PathView {
    let name = file_name(output)->0;
    let ext = crate::path::path_extension(output);
    let dir = parent(output)->0;
    join(dir, parse_path(vstd::utf8::encode_utf8(temp_name_text(name, pid, id, ext))))
}

/// The temporary file of a job lies in the output's directory, is a
/// different path from the output, and (for an output name that is valid
/// UTF-8) is named `.<name>.flacser-<pid>-<id>` followed by `.<extension>`
/// when the output has one.
pub proof fn law_temp_output_beside_output(output: PathView, pid: nat, id: nat)
    requires
        crate::path::wf(output),
        file_name(output) matches Some(n) && vstd::utf8::valid_utf8(n),
    ensures
        ({
            let r = spec_temp_output_path(output, pid, id);
            let n = file_name(output)->0;
            &&& parent(r) matches Some(q) && q.absolute == output.absolute && q.components
                == output.components.drop_last()
            &&& r.components != output.components
            &&& file_name(r) matches Some(m) && vstd::utf8::valid_utf8(m)
                && vstd::utf8::decode_utf8(m) == "."@ + vstd::utf8::decode_utf8(n) + ".flacser-"@
                + decimal(pid) + "-"@ + decimal(id) + match crate::path::path_extension(output) {
                Some(e) => "."@ + vstd::utf8::decode_utf8(e),
                None => Seq::empty(),
            }
        }),
{
    let n = file_name(output)->0;
    let last = output.components.len() - 1;
    assert(output.components[last] == output.components.last());
    assert(crate::path::valid_name(n));
    let ext = crate::path::path_extension(output);
    crate::path::lemma_extension_valid_utf8(n);
    let text = temp_name_text(n, pid, id, ext);
    let digits = ".flacser-"@ + decimal(pid) + "-"@ + decimal(id);
    let tail = match ext {
        Some(e) => "."@ + lossy_utf8(e),
        None => Seq::<char>::empty(),
    };
    assert(text == "."@ + lossy_utf8(n) + digits + tail);
    assert(lossy_utf8(n) == vstd::utf8::decode_utf8(n));
    vstd::utf8::decode_utf8_encode_utf8(n);
    // the bytes of the name: `.`, the old name, the counters, the extension
    reveal_strlit(".");
    reveal_strlit(".flacser-");
    reveal_strlit("-");
    crate::text::lemma_decimal_digits(pid);
    crate::text::lemma_decimal_digits(id);
    assert(!digits.contains('/')) by {
        if digits.contains('/') {
            let k = choose|k: int| 0 <= k < digits.len() && digits[k] == '/';
            let a = ".flacser-"@ + decimal(pid);
            let b = a + "-"@;
            if k < 9 {
                assert(digits[k] == ".flacser-"@[k]);
            } else if k < a.len() {
                assert(digits[k] == decimal(pid)[k - 9]);
            } else if k < b.len() {
                assert(digits[k] == '-');
            } else {
                assert(digits[k] == decimal(id)[k - b.len()]);
            }
        }
    }
    crate::text::lemma_encode_utf8_no_slash(digits);
    crate::text::lemma_encode_utf8_no_slash("."@);
    crate::text::lemma_encode_utf8_concat("."@, lossy_utf8(n));
    crate::text::lemma_encode_utf8_concat("."@ + lossy_utf8(n), digits);
    crate::text::lemma_encode_utf8_concat("."@ + lossy_utf8(n) + digits, tail);
    let head = vstd::utf8::encode_utf8("."@);
    let mid = vstd::utf8::encode_utf8(digits);
    let tb = vstd::utf8::encode_utf8(tail);
    assert(!tb.contains(slash())) by {
        if let Some(e) = ext {
            crate::path::lemma_last_dot_bounds_pub(n);
            assert(lossy_utf8(e) == vstd::utf8::decode_utf8(e));
            vstd::utf8::decode_utf8_encode_utf8(e);
            crate::text::lemma_encode_utf8_concat("."@, lossy_utf8(e));
            if e.contains(slash()) {
                let k = choose|k: int| 0 <= k < e.len() && e[k] == slash();
                let d = crate::path::last_dot(n);
                assert(n[d + 1 + k] == slash());
                assert(n.contains(slash()));
            }
            if tb.contains(slash()) {
                let k = choose|k: int| 0 <= k < tb.len() && tb[k] == slash();
                if k < head.len() {
                    assert(head[k] == slash());
                    assert(head.contains(slash()));
                } else {
                    assert(e[k - head.len()] == slash());
                }
            }
        } else {
            assert(tb =~= Seq::<u8>::empty());
        }
    }
    let bytes = vstd::utf8::encode_utf8(text);
    assert(bytes == head + n + mid + tb);
    assert(!bytes.contains(slash())) by {
        if bytes.contains(slash()) {
            let k = choose|k: int| 0 <= k < bytes.len() && bytes[k] == slash();
            if k < head.len() {
                assert(head[k] == slash());
                assert(head.contains(slash()));
            } else if k < head.len() + n.len() {
                assert(n[k - head.len()] == slash());
                assert(n.contains(slash()));
            } else if k < head.len() + n.len() + mid.len() {
                assert(mid[k - head.len() - n.len()] == slash());
                assert(mid.contains(slash()));
            } else {
                assert(tb[k - head.len() - n.len() - mid.len()] == slash());
                assert(tb.contains(slash()));
            }
        }
    }
    assert(head.len() >= 1 && mid.len() >= 1) by {
        assert("."@.len() == 1);
        assert(digits.len() >= 1);
    }
    assert(bytes.len() >= 3);
    assert(crate::path::valid_name(bytes));
    crate::path::lemma_parse_name(bytes);
    vstd::utf8::encode_utf8_decode_utf8(text);
    vstd::utf8::encode_utf8_valid_utf8(text);
    let dir = parent(output)->0;
    let rel = parse_path(bytes);
    let r = join(dir, rel);
    assert(rel.components[0] == ComponentView::Normal(bytes));
    assert(r.components == dir.components + seq![ComponentView::Normal(bytes)]);
    assert(r.components.last() == ComponentView::Normal(bytes));
    assert(r.components.drop_last() =~= dir.components);
    assert(bytes.len() > n.len());
    assert(r.components.len() == output.components.len());
    assert(r.components[last] != output.components[last]);
}

/// Where a job writes before moving the result into place. `pid` and `id`
/// keep the names of concurrent runs and jobs apart.
pub fn temp_output_path(output: &FsPath, pid: u32, id: usize) -> (r: FsPath)
    requires
        file_name(output@) is Some,
    ensures
        r@ == spec_temp_output_path(output@, pid as nat, id as nat),
{
    proof {
        reveal_strlit(".");
        reveal_strlit(".flacser-");
        reveal_strlit("-");
    }
    let name = match output.file_name() {
        Some(n) => n,
        None => Vec::new(),
    };
    let ext = output.extension();
    let mut text = string_of(".");
    append_str(&mut text, lossy_text(&name).as_str());
    append_str(&mut text, ".flacser-");
    append_str(&mut text, decimal_string(pid as usize).as_str());
    append_str(&mut text, "-");
    append_str(&mut text, decimal_string(id).as_str());
    let ghost stem_text = text@;
    match &ext {
        Some(e) => {
            append_str(&mut text, ".");
            append_str(&mut text, lossy_text(e).as_str());
        },
        None => {},
    }
    proof {
        let ev = match ext {
            Some(e) => Some(e@),
            None => None::<Seq<u8>>,
        };
        assert(stem_text =~= "."@ + lossy_utf8(name@) + ".flacser-"@ + decimal(pid as nat) + "-"@
            + decimal(id as nat));
        assert(text@ =~= temp_name_text(name@, pid as nat, id as nat, ev));
    }
    let bytes = crate::text::utf8_bytes(&text);
    let dir = match output.parent() {
        Some(p) => p,
        None => FsPath::current_dir(),
    };
    dir.join(&FsPath::parse(&bytes))
}

} // verus!
