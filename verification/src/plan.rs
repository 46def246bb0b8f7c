//! Mapping inputs to output paths, and refusing plans in which two jobs
//! would write the same output.
use vstd::prelude::*;
use crate::path::shown;
use crate::audio_format::{AudioFormat, format_extension_bytes, format_of_path};
use crate::config::Config;
use crate::path::{
    ComponentView, FsPath, PathView, current_dir_path, dot, file_name, join, lemma_renamed_extension,
    name_path, parent, path_extension, slash, strip_prefix, with_extension, wf,
};
use crate::text::{append_str, bytes_equal_ignore_case, lower_bytes, lossy_utf8, string_of};

verus! {

/// One conversion: read `input`, write `output`.
#[derive(Debug)]
pub struct ConversionJob {
    pub input: FsPath,
    pub output: FsPath,
    pub source_format: AudioFormat,
    pub target_format: AudioFormat,
}

pub struct JobView {
    pub input: PathView,
    pub output: PathView,
    pub source_format: AudioFormat,
    pub target_format: AudioFormat,
}

impl View for ConversionJob {
    type V = JobView;

    open spec fn view(&self) -> JobView {
        JobView {
            input: self.input@,
            output: self.output@,
            source_format: self.source_format,
            target_format: self.target_format,
        }
    }
}

/// What the application observed on disk before planning.
pub struct PlanFacts {
    /// The configured input path is a directory.
    pub input_is_directory: bool,
    /// The configured output directory exists but is not a directory.
    pub output_dir_is_not_directory: bool,
}

#[derive(Debug)]
pub enum PlanError {
    OutputNotDirectory(FsPath),
    UnsupportedInput(FsPath),
    SameFormat(FsPath),
    NoFileName(FsPath),
    NotUnderInput { input: FsPath, root: FsPath },
    OutputNoFileName(FsPath),
    Collision { existing: FsPath, input: FsPath, output: FsPath },
}

pub enum PlanErrorView {
    OutputNotDirectory(PathView),
    UnsupportedInput(PathView),
    SameFormat(PathView),
    NoFileName(PathView),
    NotUnderInput { input: PathView, root: PathView },
    OutputNoFileName(PathView),
    Collision { existing: PathView, input: PathView, output: PathView },
}

impl View for PlanError {
    type V = PlanErrorView;

    open spec fn view(&self) -> PlanErrorView {
        match self {
            PlanError::OutputNotDirectory(p) => PlanErrorView::OutputNotDirectory(p@),
            PlanError::UnsupportedInput(p) => PlanErrorView::UnsupportedInput(p@),
            PlanError::SameFormat(p) => PlanErrorView::SameFormat(p@),
            PlanError::NoFileName(p) => PlanErrorView::NoFileName(p@),
            PlanError::NotUnderInput { input, root } => PlanErrorView::NotUnderInput {
                input: input@,
                root: root@,
            },
            PlanError::OutputNoFileName(p) => PlanErrorView::OutputNoFileName(p@),
            PlanError::Collision { existing, input, output } => PlanErrorView::Collision {
                existing: existing@,
                input: input@,
                output: output@,
            },
        }
    }
}

/// The settings that planning reads.
pub struct PlanSettings {
    pub input_root: PathView,
    pub output_dir: Option<PathView>,
    pub flatten: bool,
    pub target: AudioFormat,
}

pub open spec fn plan_settings(config: &Config) -> PlanSettings {
    PlanSettings {
        input_root: config.input_path@,
        output_dir: match config.output_dir {
            Some(d) => Some(d@),
            None => None,
        },
        flatten: config.flatten,
        target: config.target_format,
    }
}

/// Where one input is written.
/// In directory mode the output keeps the input's place below the input root
/// (or only its file name, when flattening), under the output directory if
/// one is given, else under the input root. For a single file the output
/// sits beside the input, or in the output directory. The extension becomes
/// the target format's.
pub open spec fn planned_output(s: PlanSettings, input_is_directory: bool, input: PathView) -> Result<
    PathView,
    PlanErrorView,
> {
    let ext = format_extension_bytes(s.target);
    if input_is_directory {
        let root = match s.output_dir {
            Some(d) => d,
            None => s.input_root,
        };
        if s.flatten {
            match file_name(input) {
                Some(n) => Ok(with_extension(join(root, name_path(n)), ext)),
                None => Err(PlanErrorView::NoFileName(input)),
            }
        } else {
            match strip_prefix(input, s.input_root) {
                Some(rel) => Ok(with_extension(join(root, rel), ext)),
                None => Err(PlanErrorView::NotUnderInput { input, root: s.input_root }),
            }
        }
    } else {
        match file_name(input) {
            Some(n) => {
                let root = match s.output_dir {
                    Some(d) => d,
                    None => match parent(input) {
                        Some(p) => p,
                        None => current_dir_path(),
                    },
                };
                Ok(join(root, with_extension(name_path(n), ext)))
            },
            None => Err(PlanErrorView::NoFileName(input)),
        }
    }
}

/// The job for one input: its format must be supported and differ from
/// the target.
pub open spec fn planned_job(s: PlanSettings, input_is_directory: bool, input: PathView) -> Result<
    JobView,
    PlanErrorView,
> {
    match format_of_path(input) {
        None => Err(PlanErrorView::UnsupportedInput(input)),
        Some(source) => if source == s.target {
            Err(PlanErrorView::SameFormat(input))
        } else {
            match planned_output(s, input_is_directory, input) {
                Ok(output) => Ok(
                    JobView { input, output, source_format: source, target_format: s.target },
                ),
                Err(e) => Err(e),
            }
        },
    }
}

/// The jobs for the inputs in order, or the error of the first input that
/// has none.
pub open spec fn planned_jobs(s: PlanSettings, input_is_directory: bool, inputs: Seq<PathView>) -> Result<
    Seq<JobView>,
    PlanErrorView,
>
    decreases inputs.len(),
{
    if inputs.len() == 0 {
        Ok(Seq::empty())
    } else {
        match planned_jobs(s, input_is_directory, inputs.drop_last()) {
            Err(e) => Err(e),
            Ok(js) => match planned_job(s, input_is_directory, inputs.last()) {
                Err(e) => Err(e),
                Ok(j) => Ok(js.push(j)),
            },
        }
    }
}

/// Two jobs collide: the same output path, or (when flattening) output file
/// names that are equal up to ASCII case.
pub open spec fn same_target(a: JobView, b: JobView, flatten: bool) -> bool {
    if flatten {
        match (file_name(a.output), file_name(b.output)) {
            (Some(x), Some(y)) => lower_bytes(x) == lower_bytes(y),
            _ => false,
        }
    } else {
        crate::path::same_path(a.output, b.output)
    }
}

/// The first job of `earlier` that collides with `j`.
pub open spec fn first_match(earlier: Seq<JobView>, j: JobView, flatten: bool) -> Option<int>
    decreases earlier.len(),
{
    if earlier.len() == 0 {
        None
    } else {
        match first_match(earlier.drop_last(), j, flatten) {
            Some(i) => Some(i),
            None => if same_target(earlier.last(), j, flatten) {
                Some(earlier.len() - 1)
            } else {
                None
            },
        }
    }
}

/// The error for the first job that collides with an earlier one (or, when
/// flattening, has no output file name).
pub open spec fn first_collision(jobs: Seq<JobView>, flatten: bool) -> Option<PlanErrorView>
    decreases jobs.len(),
{
    if jobs.len() == 0 {
        None
    } else {
        match first_collision(jobs.drop_last(), flatten) {
            Some(e) => Some(e),
            None => {
                let j = jobs.last();
                if flatten && file_name(j.output) is None {
                    Some(PlanErrorView::OutputNoFileName(j.output))
                } else {
                    match first_match(jobs.drop_last(), j, flatten) {
                        Some(i) => Some(
                            PlanErrorView::Collision {
                                existing: jobs[i].input,
                                input: j.input,
                                output: j.output,
                            },
                        ),
                        None => None,
                    }
                }
            },
        }
    }
}

/// The outcome of planning.
pub open spec fn spec_plan(s: PlanSettings, facts: PlanFacts, inputs: Seq<PathView>) -> Result<
    Seq<JobView>,
    PlanErrorView,
> {
    match s.output_dir {
        Some(d) if facts.output_dir_is_not_directory => Err(PlanErrorView::OutputNotDirectory(d)),
        _ => match planned_jobs(s, facts.input_is_directory, inputs) {
            Err(e) => Err(e),
            Ok(js) => match first_collision(js, s.flatten) {
                Some(e) => Err(e),
                None => Ok(js),
            },
        },
    }
}

pub open spec fn job_views(jobs: Seq<ConversionJob>) -> Seq<JobView> {
    jobs.map_values(|j: ConversionJob| j@)
}

pub open spec fn input_views(ps: Seq<FsPath>) -> Seq<PathView> {
    ps.map_values(|p: FsPath| p@)
}

proof fn lemma_extension_ok(f: AudioFormat)
    ensures
        format_extension_bytes(f).len() > 0,
        !format_extension_bytes(f).contains(slash()),
{
    let e = format_extension_bytes(f);
    if e.contains(slash()) {
        let k = choose|k: int| 0 <= k < e.len() && e[k] == slash();
        assert(e[k] != 47u8);
    }
}

/// Plans the conversion of `inputs`: one job per input, in order. Fails on
/// an output directory that is not a directory, on an input that cannot be
/// mapped, and on colliding outputs.
pub fn plan(config: &Config, inputs: Vec<FsPath>, facts: &PlanFacts) -> (r: Result<
    Vec<ConversionJob>,
    PlanError,
>)
    ensures
        match r {
            Ok(jobs) => spec_plan(plan_settings(config), *facts, input_views(inputs@)) == Ok::<
                Seq<JobView>,
                PlanErrorView,
            >(job_views(jobs@)),
            Err(e) => spec_plan(plan_settings(config), *facts, input_views(inputs@)) == Err::<
                Seq<JobView>,
                PlanErrorView,
            >(e@),
        },
{
    match validate_output_dir(config, facts) {
        Ok(_) => {},
        Err(e) => {
            return Err(e);
        },
    }
    let ghost s = plan_settings(config);
    let mut jobs: Vec<ConversionJob> = Vec::new();
    let mut i: usize = 0;
    proof {
        assert(input_views(inputs@.subrange(0, 0)) =~= Seq::<PathView>::empty());
        assert(job_views(jobs@) =~= Seq::<JobView>::empty());
    }
    while i < inputs.len()
        invariant
            i <= inputs.len(),
            s == plan_settings(config),
            !(config.output_dir is Some && facts.output_dir_is_not_directory),
            planned_jobs(s, facts.input_is_directory, input_views(inputs@.subrange(0, i as int)))
                == Ok::<Seq<JobView>, PlanErrorView>(job_views(jobs@)),
        decreases inputs.len() - i,
    {
        let ghost pre = input_views(inputs@.subrange(0, i + 1));
        proof {
            assert(pre.drop_last() =~= input_views(inputs@.subrange(0, i as int)));
            assert(pre.last() == inputs@[i as int]@);
        }
        let job = match planned_job_exec(config, &inputs[i], facts.input_is_directory) {
            Ok(job) => job,
            Err(e) => {
                proof {
                    lemma_planned_jobs_err_prefix(
                        s,
                        facts.input_is_directory,
                        input_views(inputs@),
                        i + 1,
                    );
                    assert(input_views(inputs@).subrange(0, i + 1) =~= pre);
                }
                return Err(e);
            },
        };
        let ghost before = jobs@;
        jobs.push(job);
        proof {
            assert(job_views(jobs@) =~= job_views(before).push(job@));
        }
        i = i + 1;
    }
    proof {
        assert(inputs@.subrange(0, inputs.len() as int) =~= inputs@);
    }
    match detect_output_collisions(&jobs, config.flatten) {
        Ok(_) => Ok(jobs),
        Err(e) => Err(e),
    }
}

fn validate_output_dir(config: &Config, facts: &PlanFacts) -> (r: Result<(), PlanError>)
    ensures
        match r {
            Ok(_) => !(config.output_dir is Some && facts.output_dir_is_not_directory),
            Err(e) => config.output_dir is Some && facts.output_dir_is_not_directory && e@
                == PlanErrorView::OutputNotDirectory(config.output_dir->0@),
        },
{
    match &config.output_dir {
        None => Ok(()),
        Some(dir) => {
            if facts.output_dir_is_not_directory {
                return Err(PlanError::OutputNotDirectory(dir.copy()));
            }
            Ok(())
        },
    }
}

fn planned_job_exec(config: &Config, input: &FsPath, input_is_directory: bool) -> (r: Result<
    ConversionJob,
    PlanError,
>)
    ensures
        match r {
            Ok(j) => planned_job(plan_settings(config), input_is_directory, input@) == Ok::<
                JobView,
                PlanErrorView,
            >(j@),
            Err(e) => planned_job(plan_settings(config), input_is_directory, input@) == Err::<
                JobView,
                PlanErrorView,
            >(e@),
        },
{
    let source = match AudioFormat::from_path(input) {
        Some(f) => f,
        None => {
            return Err(PlanError::UnsupportedInput(input.copy()));
        },
    };
    if source == config.target_format {
        return Err(PlanError::SameFormat(input.copy()));
    }
    let output = planned_output_exec(config, input, input_is_directory)?;
    Ok(
        ConversionJob {
            input: input.copy(),
            output,
            source_format: source,
            target_format: config.target_format,
        },
    )
}

fn planned_output_exec(config: &Config, input: &FsPath, input_is_directory: bool) -> (r: Result<
    FsPath,
    PlanError,
>)
    ensures
        match r {
            Ok(o) => planned_output(plan_settings(config), input_is_directory, input@) == Ok::<
                PathView,
                PlanErrorView,
            >(o@),
            Err(e) => planned_output(plan_settings(config), input_is_directory, input@) == Err::<
                PathView,
                PlanErrorView,
            >(e@),
        },
{
    let ext = config.target_format.extension_bytes();
    proof {
        lemma_extension_ok(config.target_format);
    }
    if input_is_directory {
        let root = match &config.output_dir {
            Some(d) => d,
            None => &config.input_path,
        };
        if config.flatten {
            match input.file_name_path() {
                Some(name) => Ok(root.join(&name).with_extension(&ext)),
                None => Err(PlanError::NoFileName(input.copy())),
            }
        } else {
            match input.strip_prefix(&config.input_path) {
                Some(rel) => Ok(root.join(&rel).with_extension(&ext)),
                None => Err(
                    PlanError::NotUnderInput { input: input.copy(), root: config.input_path.copy() },
                ),
            }
        }
    } else {
        match input.file_name_path() {
            Some(name) => {
                let renamed = name.with_extension(&ext);
                let root = match &config.output_dir {
                    Some(d) => d.copy(),
                    None => match input.parent() {
                        Some(p) => p,
                        None => FsPath::current_dir(),
                    },
                };
                Ok(root.join(&renamed))
            },
            None => Err(PlanError::NoFileName(input.copy())),
        }
    }
}

/// The output file name of a job, ASCII lower-cased.
fn lowered_output_name(job: &ConversionJob) -> (r: Option<Vec<u8>>)
    ensures
        match r {
            Some(k) => file_name(job.output@) matches Some(n) && k@ == lower_bytes(n),
            None => file_name(job.output@) is None,
        },
{
    match job.output.file_name() {
        Some(n) => Some(crate::text::lowercase_bytes(&n)),
        None => None,
    }
}

fn same_target_exec(a: &ConversionJob, b: &ConversionJob, flatten: bool) -> (r: bool)
    ensures
        r == same_target(a@, b@, flatten),
{
    if flatten {
        match (lowered_output_name(a), lowered_output_name(b)) {
            (Some(x), Some(y)) => crate::path::bytes_equal(&x, &y),
            _ => false,
        }
    } else {
        a.output.same_as(&b.output)
    }
}

/// Refuses the plan at the first job whose output collides with an earlier
/// job's (exact paths; or, when flattening, file names up to ASCII case).
fn detect_output_collisions(jobs: &Vec<ConversionJob>, flatten: bool) -> (r: Result<(), PlanError>)
    ensures
        match r {
            Ok(_) => first_collision(job_views(jobs@), flatten) is None,
            Err(e) => first_collision(job_views(jobs@), flatten) == Some(e@),
        },
{
    let mut j: usize = 0;
    while j < jobs.len()
        invariant
            j <= jobs.len(),
            first_collision(job_views(jobs@.subrange(0, j as int)), flatten) is None,
        decreases jobs.len() - j,
    {
        let ghost pre = job_views(jobs@.subrange(0, j + 1));
        let ghost earlier = job_views(jobs@.subrange(0, j as int));
        proof {
            assert(pre.drop_last() =~= earlier);
            assert(pre.last() == jobs@[j as int]@);
        }
        if flatten {
            match jobs[j].output.file_name() {
                Some(_) => {},
                None => {
                    proof {
                        assert(job_views(jobs@).subrange(0, j + 1) =~= pre);
                        lemma_first_collision_prefix(job_views(jobs@), j + 1, flatten);
                    }
                    return Err(PlanError::OutputNoFileName(jobs[j].output.copy()));
                },
            }
        }
        let mut i: usize = 0;
        while i < j
            invariant
                j < jobs.len(),
                i <= j,
                earlier == job_views(jobs@.subrange(0, j as int)),
                pre == job_views(jobs@.subrange(0, j + 1)),
                first_collision(earlier, flatten) is None,
                flatten ==> file_name(jobs@[j as int].output@) is Some,
                first_match(earlier.subrange(0, i as int), jobs@[j as int]@, flatten) is None,
            decreases j - i,
        {
            proof {
                assert(earlier.subrange(0, i + 1).drop_last() =~= earlier.subrange(0, i as int));
                assert(earlier.subrange(0, i + 1).last() == jobs@[i as int]@);
            }
            if same_target_exec(&jobs[i], &jobs[j], flatten) {
                proof {
                    lemma_first_match_prefix(earlier, i as int + 1, jobs@[j as int]@, flatten);
                    assert(earlier[i as int] == jobs@[i as int]@);
                    assert(pre[i as int] == jobs@[i as int]@);
                    assert(first_match(earlier.subrange(0, i + 1), jobs@[j as int]@, flatten)
                        == Some(i as int));
                    assert(earlier.subrange(0, j as int) =~= earlier);
                    assert(first_match(earlier, jobs@[j as int]@, flatten) == Some(i as int));
                    assert(pre.drop_last() =~= earlier);
                    assert(pre.last() == jobs@[j as int]@);
                    assert(first_collision(pre, flatten) is Some);
                    assert(job_views(jobs@).subrange(0, j + 1) =~= pre);
                    lemma_first_collision_prefix(job_views(jobs@), j + 1, flatten);
                }
                return Err(
                    PlanError::Collision {
                        existing: jobs[i].input.copy(),
                        input: jobs[j].input.copy(),
                        output: jobs[j].output.copy(),
                    },
                );
            }
            i = i + 1;
        }
        proof {
            assert(earlier.subrange(0, j as int) =~= earlier);
        }
        j = j + 1;
    }
    proof {
        assert(jobs@.subrange(0, jobs.len() as int) =~= jobs@);
    }
    Ok(())
}

/// A match found in a prefix of `earlier` is the first match in `earlier`.
proof fn lemma_first_match_prefix(earlier: Seq<JobView>, k: int, j: JobView, flatten: bool)
    requires
        0 <= k <= earlier.len(),
        first_match(earlier.subrange(0, k), j, flatten) is Some,
    ensures
        first_match(earlier, j, flatten) == first_match(earlier.subrange(0, k), j, flatten),
    decreases earlier.len() - k,
{
    if k < earlier.len() {
        lemma_first_match_prefix_step(earlier, k, j, flatten);
        lemma_first_match_prefix(earlier, k + 1, j, flatten);
    } else {
        assert(earlier.subrange(0, k) =~= earlier);
    }
}

proof fn lemma_first_match_prefix_step(earlier: Seq<JobView>, k: int, j: JobView, flatten: bool)
    requires
        0 <= k < earlier.len(),
        first_match(earlier.subrange(0, k), j, flatten) is Some,
    ensures
        first_match(earlier.subrange(0, k + 1), j, flatten) == first_match(
            earlier.subrange(0, k),
            j,
            flatten,
        ),
{
    assert(earlier.subrange(0, k + 1).drop_last() =~= earlier.subrange(0, k));
}

proof fn lemma_planned_jobs_err_prefix(
    s: PlanSettings,
    d: bool,
    inputs: Seq<PathView>,
    k: int,
)
    requires
        0 <= k <= inputs.len(),
        planned_jobs(s, d, inputs.subrange(0, k)) is Err,
    ensures
        planned_jobs(s, d, inputs) == planned_jobs(s, d, inputs.subrange(0, k)),
    decreases inputs.len() - k,
{
    if k < inputs.len() {
        assert(inputs.subrange(0, k + 1).drop_last() =~= inputs.subrange(0, k));
        lemma_planned_jobs_err_prefix(s, d, inputs, k + 1);
    } else {
        assert(inputs.subrange(0, k) =~= inputs);
    }
}

proof fn lemma_first_collision_prefix(jobs: Seq<JobView>, k: int, flatten: bool)
    requires
        0 <= k <= jobs.len(),
        first_collision(jobs.subrange(0, k), flatten) is Some,
    ensures
        first_collision(jobs, flatten) == first_collision(jobs.subrange(0, k), flatten),
    decreases jobs.len() - k,
{
    if k < jobs.len() {
        assert(jobs.subrange(0, k + 1).drop_last() =~= jobs.subrange(0, k));
        lemma_first_collision_prefix(jobs, k + 1, flatten);
    } else {
        assert(jobs.subrange(0, k) =~= jobs);
    }
}

proof fn lemma_first_match_none(earlier: Seq<JobView>, j: JobView, flatten: bool)
    ensures
        first_match(earlier, j, flatten) is None <==> forall|i: int|
            0 <= i < earlier.len() ==> !same_target(#[trigger] earlier[i], j, flatten),
    decreases earlier.len(),
{
    if earlier.len() > 0 {
        lemma_first_match_none(earlier.drop_last(), j, flatten);
        let prev = earlier.drop_last();
        if first_match(earlier, j, flatten) is None {
            assert forall|i: int| 0 <= i < earlier.len() implies !same_target(
                #[trigger] earlier[i],
                j,
                flatten,
            ) by {
                if i < earlier.len() - 1 {
                    assert(earlier[i] == prev[i]);
                }
            }
        } else {
            if first_match(prev, j, flatten) is None {
                assert(same_target(earlier[earlier.len() - 1], j, flatten));
            } else {
                let i = choose|i: int| 0 <= i < prev.len() && same_target(prev[i], j, flatten);
                assert(earlier[i] == prev[i]);
            }
        }
    }
}

/// No collision is reported exactly when no two jobs share a target and,
/// when flattening, every output has a file name.
proof fn lemma_first_collision_none(jobs: Seq<JobView>, flatten: bool)
    ensures
        first_collision(jobs, flatten) is None <==> (forall|i: int, j: int|
            0 <= i < j < jobs.len() ==> !same_target(#[trigger] jobs[i], #[trigger] jobs[j], flatten))
            && (flatten ==> forall|k: int|
            0 <= k < jobs.len() ==> (#[trigger] file_name(jobs[k].output)) is Some),
    decreases jobs.len(),
{
    if jobs.len() > 0 {
        let prev = jobs.drop_last();
        let last = jobs.last();
        lemma_first_collision_none(prev, flatten);
        lemma_first_match_none(prev, last, flatten);
        if first_collision(jobs, flatten) is None {
            assert forall|i: int, j: int| 0 <= i < j < jobs.len() implies !same_target(
                #[trigger] jobs[i],
                #[trigger] jobs[j],
                flatten,
            ) by {
                assert(jobs[i] == prev[i]);
                if j < jobs.len() - 1 {
                    assert(jobs[j] == prev[j]);
                }
            }
            if flatten {
                assert forall|k: int| 0 <= k < jobs.len() implies (#[trigger] file_name(
                    jobs[k].output,
                )) is Some by {
                    if k < jobs.len() - 1 {
                        assert(jobs[k] == prev[k]);
                    }
                }
            }
        } else {
            if first_collision(prev, flatten) is Some {
                if flatten && exists|k: int|
                    0 <= k < prev.len() && (#[trigger] file_name(prev[k].output)) is None {
                    let k = choose|k: int|
                        0 <= k < prev.len() && (#[trigger] file_name(prev[k].output)) is None;
                    assert(jobs[k] == prev[k]);
                } else {
                    let (i, j) = choose|i: int, j: int|
                        0 <= i < j < prev.len() && same_target(prev[i], prev[j], flatten);
                    assert(jobs[i] == prev[i] && jobs[j] == prev[j]);
                }
            } else if flatten && file_name(last.output) is None {
                assert(jobs[jobs.len() - 1] == last);
            } else {
                let i = choose|i: int| 0 <= i < prev.len() && same_target(prev[i], last, flatten);
                assert(jobs[i] == prev[i]);
                assert(jobs[jobs.len() - 1] == last);
            }
        }
    }
}

/// What every planned job is: a conversion of the input's own format into
/// the target format (never the same format), whose output name, where the
/// output has one, carries the target's canonical extension.
pub open spec fn converts_to_target(target: AudioFormat, j: JobView) -> bool {
    &&& j.target_format == target
    &&& j.source_format != target
    &&& format_of_path(j.input) == Some(j.source_format)
    &&& file_name(j.output) is Some ==> path_extension(j.output) == Some(
        format_extension_bytes(target),
    )
}

/// Every normal component has a nonempty name.
spec fn names_nonempty(cs: Seq<ComponentView>) -> bool {
    forall|i: int|
        0 <= i < cs.len() ==> (#[trigger] cs[i] matches ComponentView::Normal(n) ==> n.len() > 0)
}

proof fn lemma_wf_names_nonempty(p: PathView)
    requires
        wf(p),
    ensures
        names_nonempty(p.components),
{
    assert forall|i: int| 0 <= i < p.components.len() implies (#[trigger] p.components[i] matches ComponentView::Normal(n) ==> n.len() > 0) by {
        if let ComponentView::Normal(n) = p.components[i] {
            assert(crate::path::valid_name(n));
        }
    }
}

proof fn lemma_join_names_nonempty(base: PathView, rel: PathView)
    requires
        names_nonempty(base.components),
        names_nonempty(rel.components),
    ensures
        names_nonempty(join(base, rel).components),
{
    let cs = join(base, rel).components;
    if !rel.absolute {
        let tail = if (base.absolute || base.components.len() > 0) && rel.components.len() > 0
            && rel.components[0] == ComponentView::CurDir {
            rel.components.drop_first()
        } else {
            rel.components
        };
        assert(cs == base.components + tail);
        assert forall|i: int| 0 <= i < cs.len() implies (#[trigger] cs[i] matches ComponentView::Normal(n) ==> n.len() > 0) by {
            if i < base.components.len() {
                assert(cs[i] == base.components[i]);
            } else if tail == rel.components {
                assert(cs[i] == rel.components[i - base.components.len()]);
            } else {
                assert(cs[i] == rel.components[i - base.components.len() + 1]);
            }
        }
    }
}

proof fn lemma_renamed_path(p: PathView, ext: Seq<u8>)
    requires
        names_nonempty(p.components),
        ext.len() > 0,
        !ext.contains(dot()),
    ensures
        (file_name(with_extension(p, ext)) is Some) == (file_name(p) is Some),
        file_name(p) is Some ==> path_extension(with_extension(p, ext)) == Some(ext),
{
    if let Some(n) = file_name(p) {
        assert(p.components[p.components.len() - 1] == p.components.last());
        lemma_renamed_extension(n, ext);
        let q = with_extension(p, ext);
        assert(q.components.last() == ComponentView::Normal(
            crate::path::stem_of(n) + seq![dot()] + ext,
        ));
    }
}

proof fn lemma_extension_has_no_dot(f: AudioFormat)
    ensures
        !format_extension_bytes(f).contains(dot()),
{
    let e = format_extension_bytes(f);
    if e.contains(dot()) {
        let k = choose|k: int| 0 <= k < e.len() && e[k] == dot();
        assert(e[k] != 46u8);
    }
}

/// The job planned for one input converts to the target format.
proof fn lemma_planned_job_converts(s: PlanSettings, input_is_directory: bool, input: PathView)
    requires
        wf(s.input_root),
        s.output_dir matches Some(d) ==> wf(d),
        wf(input),
    ensures
        planned_job(s, input_is_directory, input) matches Ok(j) ==> j.input == input
            && converts_to_target(s.target, j),
{
    let ext = format_extension_bytes(s.target);
    lemma_extension_ok(s.target);
    lemma_extension_has_no_dot(s.target);
    lemma_wf_names_nonempty(s.input_root);
    lemma_wf_names_nonempty(input);
    if let Some(d) = s.output_dir {
        lemma_wf_names_nonempty(d);
    }
    let root = match s.output_dir {
        Some(d) => d,
        None => s.input_root,
    };
    assert(names_nonempty(root.components));
    if let Ok(j) = planned_job(s, input_is_directory, input) {
        if input_is_directory {
            if s.flatten {
                let n = file_name(input)->0;
                assert(input.components[input.components.len() - 1] == input.components.last());
                assert(names_nonempty(name_path(n).components));
                lemma_join_names_nonempty(root, name_path(n));
                assert(join(root, name_path(n)).components.last() == ComponentView::Normal(n));
                lemma_renamed_path(join(root, name_path(n)), ext);
            } else {
                let rel = strip_prefix(input, s.input_root)->0;
                assert(names_nonempty(rel.components)) by {
                    if !(!s.input_root.absolute && s.input_root.components.len() == 0) {
                        let k = s.input_root.components.len() as int;
                        assert forall|i: int| 0 <= i < rel.components.len() implies (#[trigger] rel.components[i] matches ComponentView::Normal(n) ==> n.len() > 0) by {
                            assert(rel.components[i] == input.components[i + k]);
                        }
                    }
                }
                lemma_join_names_nonempty(root, rel);
                lemma_renamed_path(join(root, rel), ext);
            }
        } else {
            let n = file_name(input)->0;
            assert(input.components[input.components.len() - 1] == input.components.last());
            let m = crate::path::stem_of(n) + seq![dot()] + ext;
            lemma_renamed_extension(n, ext);
            let dir = match s.output_dir {
                Some(d) => d,
                None => match parent(input) {
                    Some(p) => p,
                    None => current_dir_path(),
                },
            };
            assert(with_extension(name_path(n), ext).components =~= seq![ComponentView::Normal(m)]);
            assert(join(dir, with_extension(name_path(n), ext)).components.last()
                == ComponentView::Normal(m));
        }
    }
}

/// Every job of a successful plan converts its input's own format into the
/// target format, never into the same format, and the output's file name,
/// where the output has one, carries the target's canonical extension.
pub proof fn law_jobs_convert_to_target(s: PlanSettings, facts: PlanFacts, inputs: Seq<PathView>)
    requires
        wf(s.input_root),
        s.output_dir matches Some(d) ==> wf(d),
        forall|k: int| 0 <= k < inputs.len() ==> wf(#[trigger] inputs[k]),
    ensures
        spec_plan(s, facts, inputs) matches Ok(js) ==> forall|k: int|
            0 <= k < js.len() ==> (#[trigger] js[k]).input == inputs[k] && converts_to_target(
                s.target,
                js[k],
            ),
{
    law_one_job_per_input_in_order(s, facts.input_is_directory, inputs);
    if let Ok(js) = spec_plan(s, facts, inputs) {
        assert(planned_jobs(s, facts.input_is_directory, inputs) == Ok::<Seq<JobView>, PlanErrorView>(js));
        assert forall|k: int| 0 <= k < js.len() implies (#[trigger] js[k]).input == inputs[k]
            && converts_to_target(s.target, js[k]) by {
            assert(planned_job(s, facts.input_is_directory, inputs[k]) == Ok::<JobView, PlanErrorView>(js[k]));
            lemma_planned_job_converts(s, facts.input_is_directory, inputs[k]);
        }
    }
}

/// A plan that succeeds never lets two jobs write the same output: without
/// flattening all output paths differ, and with flattening all output file
/// names differ even up to ASCII case.
pub proof fn law_planned_outputs_never_collide(
    s: PlanSettings,
    facts: PlanFacts,
    inputs: Seq<PathView>,
)
    ensures
        spec_plan(s, facts, inputs) matches Ok(js) ==> forall|i: int, j: int|
            0 <= i < j < js.len() ==> !same_target(#[trigger] js[i], #[trigger] js[j], s.flatten),
{
    if let Ok(js) = planned_jobs(s, facts.input_is_directory, inputs) {
        lemma_first_collision_none(js, s.flatten);
    }
}

/// Without flattening, two jobs collide only by writing the same output
/// path: a plan whose outputs are pairwise different paths (by components,
/// as `Path` compares them) succeeds with exactly those jobs, and a plan in
/// which two outputs are the same path fails. With flattening, outputs
/// collide by file names equal up to ASCII case.
pub proof fn law_collisions_are_equal_output_paths(
    s: PlanSettings,
    facts: PlanFacts,
    inputs: Seq<PathView>,
)
    ensures
        ({
            let planned = planned_jobs(s, facts.input_is_directory, inputs);
            let output_ok = !(s.output_dir is Some && facts.output_dir_is_not_directory);
            planned matches Ok(js) ==> {
                &&& (!s.flatten && output_ok && (forall|i: int, j: int|
                    0 <= i < j < js.len() ==> !((#[trigger] js[i]).output.absolute
                        == (#[trigger] js[j]).output.absolute && js[i].output.components
                        == js[j].output.components))) ==> spec_plan(s, facts, inputs) == planned
                &&& (!s.flatten && (exists|i: int, j: int|
                    0 <= i < j < js.len() && (#[trigger] js[i]).output.absolute
                        == (#[trigger] js[j]).output.absolute && js[i].output.components
                        == js[j].output.components)) ==> spec_plan(s, facts, inputs) is Err
                &&& (s.flatten && output_ok && (forall|k: int|
                    0 <= k < js.len() ==> (#[trigger] file_name(js[k].output)) is Some) && (forall|
                    i: int,
                    j: int,
                |
                    0 <= i < j < js.len() ==> lower_bytes(file_name((#[trigger] js[i]).output)->0)
                        != lower_bytes(file_name((#[trigger] js[j]).output)->0))) ==> spec_plan(
                    s,
                    facts,
                    inputs,
                ) == planned
            }
        }),
{
    if let Ok(js) = planned_jobs(s, facts.input_is_directory, inputs) {
        lemma_first_collision_none(js, s.flatten);
        if !s.flatten {
            assert forall|i: int, j: int| 0 <= i < j < js.len() implies same_target(
                #[trigger] js[i],
                #[trigger] js[j],
                false,
            ) == (js[i].output.absolute == js[j].output.absolute && js[i].output.components
                == js[j].output.components) by {}
            if exists|i: int, j: int|
                0 <= i < j < js.len() && (#[trigger] js[i]).output.absolute
                    == (#[trigger] js[j]).output.absolute && js[i].output.components
                    == js[j].output.components {
                let (i, j) = choose|i: int, j: int|
                    0 <= i < j < js.len() && (#[trigger] js[i]).output.absolute
                        == (#[trigger] js[j]).output.absolute && js[i].output.components
                        == js[j].output.components;
                assert(same_target(js[i], js[j], false));
            }
        } else {
            assert forall|i: int, j: int|
                0 <= i < j < js.len() && file_name(js[i].output) is Some && file_name(js[j].output) is Some
                implies same_target(#[trigger] js[i], #[trigger] js[j], true) == (lower_bytes(
                file_name(js[i].output)->0,
            ) == lower_bytes(file_name(js[j].output)->0)) by {}
        }
    }
}

/// Inputs that would write the same output (or, when flattening, the same
/// file name up to ASCII case) make planning fail.
pub proof fn law_colliding_inputs_are_refused(
    s: PlanSettings,
    facts: PlanFacts,
    inputs: Seq<PathView>,
    i: int,
    j: int,
)
    requires
        planned_jobs(s, facts.input_is_directory, inputs) is Ok,
        0 <= i < j < planned_jobs(s, facts.input_is_directory, inputs)->Ok_0.len(),
        same_target(
            planned_jobs(s, facts.input_is_directory, inputs)->Ok_0[i],
            planned_jobs(s, facts.input_is_directory, inputs)->Ok_0[j],
            s.flatten,
        ),
    ensures
        spec_plan(s, facts, inputs) is Err,
{
    let js = planned_jobs(s, facts.input_is_directory, inputs)->Ok_0;
    lemma_first_collision_none(js, s.flatten);
}

/// Planning maps the inputs one to one and in order: the k-th job is the job
/// of the k-th input.
pub proof fn law_one_job_per_input_in_order(
    s: PlanSettings,
    input_is_directory: bool,
    inputs: Seq<PathView>,
)
    ensures
        planned_jobs(s, input_is_directory, inputs) matches Ok(js) ==> {
            &&& js.len() == inputs.len()
            &&& forall|k: int|
                0 <= k < inputs.len() ==> planned_job(s, input_is_directory, #[trigger] inputs[k])
                    == Ok::<JobView, PlanErrorView>(js[k])
        },
    decreases inputs.len(),
{
    if inputs.len() > 0 {
        let prev = inputs.drop_last();
        law_one_job_per_input_in_order(s, input_is_directory, prev);
        if let Ok(js) = planned_jobs(s, input_is_directory, inputs) {
            let pjs = planned_jobs(s, input_is_directory, prev)->Ok_0;
            assert forall|k: int| 0 <= k < inputs.len() implies planned_job(
                s,
                input_is_directory,
                #[trigger] inputs[k],
            ) == Ok::<JobView, PlanErrorView>(js[k]) by {
                if k < inputs.len() - 1 {
                    assert(inputs[k] == prev[k]);
                    assert(js[k] == pjs[k]);
                }
            }
        }
    }
}


/// The message of each planning error.
pub open spec fn plan_message(e: PlanErrorView) -> Seq<char> {
    match e {
        PlanErrorView::OutputNotDirectory(p) => "output path exists but is not a directory: "@
            + shown(p),
        PlanErrorView::UnsupportedInput(p) => "input file is not a supported audio file (.flac, .aiff, .aif, .wav): "@
            + shown(p),
        PlanErrorView::SameFormat(p) => "same-format conversion is not supported: "@ + shown(p),
        PlanErrorView::NoFileName(p) => "input file has no file name: "@ + shown(p),
        PlanErrorView::NotUnderInput { input, root } => "could not derive relative path from "@
            + shown(input) + " against "@ + shown(root),
        PlanErrorView::OutputNoFileName(p) => "output path has no file name: "@ + shown(p),
        PlanErrorView::Collision { existing, input, output } => "output collision detected: "@
            + shown(existing) + " and "@ + shown(input) + " both map to "@ + shown(output),
    }
}

impl PlanError {
    /// The message shown to the user.
    pub fn message(&self) -> (r: String)
        ensures
            r@ == plan_message(self@),
    {
        match self {
            PlanError::OutputNotDirectory(p) => {
                let mut m = string_of("output path exists but is not a directory: ");
                append_str(&mut m, p.display().as_str());
                m
            },
            PlanError::UnsupportedInput(p) => {
                let mut m = string_of(
                    "input file is not a supported audio file (.flac, .aiff, .aif, .wav): ",
                );
                append_str(&mut m, p.display().as_str());
                m
            },
            PlanError::SameFormat(p) => {
                let mut m = string_of("same-format conversion is not supported: ");
                append_str(&mut m, p.display().as_str());
                m
            },
            PlanError::NoFileName(p) => {
                let mut m = string_of("input file has no file name: ");
                append_str(&mut m, p.display().as_str());
                m
            },
            PlanError::NotUnderInput { input, root } => {
                let mut m = string_of("could not derive relative path from ");
                append_str(&mut m, input.display().as_str());
                append_str(&mut m, " against ");
                append_str(&mut m, root.display().as_str());
                m
            },
            PlanError::OutputNoFileName(p) => {
                let mut m = string_of("output path has no file name: ");
                append_str(&mut m, p.display().as_str());
                m
            },
            PlanError::Collision { existing, input, output } => {
                let mut m = string_of("output collision detected: ");
                append_str(&mut m, existing.display().as_str());
                append_str(&mut m, " and ");
                append_str(&mut m, input.display().as_str());
                append_str(&mut m, " both map to ");
                append_str(&mut m, output.display().as_str());
                m
            },
        }
    }
}

} // verus!
