//! The read-only readiness report: which checks pass, warn or fail, from
//! what the application observed about the system and the given paths.
use vstd::prelude::*;
use crate::path::shown;
use crate::audio_format::AudioFormat;
use crate::cli::DoctorArgs;
use crate::config::{Config, default_jobs_for_cpu_count, spec_default_jobs};
use crate::discover::{
    DiscoverErrorView, InputKind, InputListing, discover, discover_message, discovery_error,
    discovery_ok, opt_string_view, path_views,
};
use crate::ffmpeg::VersionProbe;
use crate::path::{FsPath, PathView};
use crate::plan::{PlanErrorView, PlanFacts, input_views, job_views, plan, plan_settings, spec_plan};
use crate::text::{append_str, decimal, decimal_string, lossy_utf8, string_of};

verus! {

#[derive(Debug, Clone, Copy, PartialEq, Eq, Structural)]
pub enum CheckStatus {
    Passed,
    Warning,
    Failed,
}

#[derive(Debug)]
pub struct DoctorCheck {
    pub name: &'static str,
    pub status: CheckStatus,
    pub detail: String,
}

pub struct CheckView {
    pub name: Seq<char>,
    pub status: CheckStatus,
    pub detail: Seq<char>,
}

impl View for DoctorCheck {
    type V = CheckView;

    open spec fn view(&self) -> CheckView {
        CheckView { name: self.name@, status: self.status, detail: self.detail@ }
    }
}

#[derive(Debug)]
pub struct DoctorReport {
    pub checks: Vec<DoctorCheck>,
}

pub open spec fn check_views(cs: Seq<DoctorCheck>) -> Seq<CheckView> {
    cs.map_values(|c: DoctorCheck| c@)
}

pub open spec fn chk(name: Seq<char>, status: CheckStatus, detail: Seq<char>) -> CheckView {
    CheckView { name, status, detail }
}

/// The report is ready when no check failed.
pub open spec fn spec_is_ready(cs: Seq<CheckView>) -> bool {
    forall|i: int| 0 <= i < cs.len() ==> (#[trigger] cs[i]).status != CheckStatus::Failed
}

/// The report has warnings when some check warns.
pub open spec fn spec_has_warnings(cs: Seq<CheckView>) -> bool {
    exists|i: int| 0 <= i < cs.len() && (#[trigger] cs[i]).status == CheckStatus::Warning
}

impl DoctorReport {
    /// Whether no check failed.
    pub fn is_ready(&self) -> (r: bool)
        ensures
            r == spec_is_ready(check_views(self.checks@)),
    {
        let mut i: usize = 0;
        while i < self.checks.len()
            invariant
                i <= self.checks.len(),
                forall|k: int| 0 <= k < i ==> self.checks@[k].status != CheckStatus::Failed,
            decreases self.checks.len() - i,
        {
            if self.checks[i].status == CheckStatus::Failed {
                assert(check_views(self.checks@)[i as int].status == CheckStatus::Failed);
                return false;
            }
            i = i + 1;
        }
        assert forall|k: int| 0 <= k < self.checks@.len() implies (#[trigger] check_views(
            self.checks@,
        )[k]).status != CheckStatus::Failed by {
            assert(check_views(self.checks@)[k] == self.checks@[k]@);
        }
        true
    }

    /// Whether some check warns.
    pub fn has_warnings(&self) -> (r: bool)
        ensures
            r == spec_has_warnings(check_views(self.checks@)),
    {
        let mut i: usize = 0;
        while i < self.checks.len()
            invariant
                i <= self.checks.len(),
                forall|k: int| 0 <= k < i ==> self.checks@[k].status != CheckStatus::Warning,
            decreases self.checks.len() - i,
        {
            if self.checks[i].status == CheckStatus::Warning {
                assert(check_views(self.checks@)[i as int].status == CheckStatus::Warning);
                return true;
            }
            i = i + 1;
        }
        assert forall|k: int| 0 <= k < self.checks@.len() implies (#[trigger] check_views(
            self.checks@,
        )[k]).status != CheckStatus::Warning by {
            assert(check_views(self.checks@)[k] == self.checks@[k]@);
        }
        false
    }

    fn push(&mut self, check: DoctorCheck)
        ensures
            check_views(final(self).checks@) == check_views(old(self).checks@).push(check@),
    {
        self.checks.push(check);
        proof {
            assert(check_views(final(self).checks@) =~= check_views(old(self).checks@).push(
                check@,
            ));
        }
    }
}

/// Warnings never make a report unready: readiness depends on failures only.
pub proof fn law_warnings_do_not_block_readiness(cs: Seq<CheckView>, i: int)
    requires
        0 <= i < cs.len(),
        cs[i].status == CheckStatus::Warning,
        forall|k: int| 0 <= k < cs.len() && k != i ==> (#[trigger] cs[k]).status
            != CheckStatus::Failed,
    ensures
        spec_is_ready(cs),
        spec_has_warnings(cs),
{
}

impl DoctorCheck {
    pub fn ok(name: &'static str, detail: &str) -> (c: DoctorCheck)
        ensures
            c@ == chk(name@, CheckStatus::Passed, detail@),
    {
        DoctorCheck { name, status: CheckStatus::Passed, detail: string_of(detail) }
    }

    pub fn warning(name: &'static str, detail: &str) -> (c: DoctorCheck)
        ensures
            c@ == chk(name@, CheckStatus::Warning, detail@),
    {
        DoctorCheck { name, status: CheckStatus::Warning, detail: string_of(detail) }
    }

    pub fn failed(name: &'static str, detail: &str) -> (c: DoctorCheck)
        ensures
            c@ == chk(name@, CheckStatus::Failed, detail@),
    {
        DoctorCheck { name, status: CheckStatus::Failed, detail: string_of(detail) }
    }
}

/// What `doctor` was asked to diagnose.
pub struct DoctorInput {
    pub input_path: Option<FsPath>,
    pub output_dir: Option<FsPath>,
    pub jobs: Option<usize>,
    /// The format a conversion would write; discovery and planning use it.
    pub target: AudioFormat,
}

impl DoctorInput {
    pub fn from_args(args: DoctorArgs) -> (input: DoctorInput)
        ensures
            opt_path_view(input.input_path) == opt_path_view(args.input_path),
            opt_path_view(input.output_dir) == opt_path_view(args.output_dir),
            input.jobs == args.jobs,
            input.target == AudioFormat::Aiff,
    {
        DoctorInput {
            input_path: args.input_path,
            output_dir: args.output_dir,
            jobs: args.jobs,
            target: AudioFormat::Aiff,
        }
    }

    /// The same diagnosis for conversions to `target`.
    pub fn with_target(self, target: AudioFormat) -> (input: DoctorInput)
        ensures
            opt_path_view(input.input_path) == opt_path_view(self.input_path),
            opt_path_view(input.output_dir) == opt_path_view(self.output_dir),
            input.jobs == self.jobs,
            input.target == target,
    {
        DoctorInput { target, ..self }
    }

    /// The settings a conversion of `input_path` would use: a recursive dry
    /// run to the target format with the given (or default) worker limit.
    pub fn config(&self, input_path: &FsPath, cpu_cores: usize) -> (config: Config)
        ensures
            config.input_path@ == input_path@,
            opt_path_view(config.output_dir) == opt_path_view(self.output_dir),
            config.dry_run,
            config.recursive,
            !config.flatten,
            config.jobs == doctor_jobs(self.jobs, cpu_cores as nat),
            config.target_format == self.target,
    {
        let output_dir = match &self.output_dir {
            Some(d) => Some(d.copy()),
            None => None,
        };
        let jobs = match self.jobs {
            Some(j) => j,
            None => default_jobs_for_cpu_count(cpu_cores),
        };
        Config {
            input_path: input_path.copy(),
            output_dir,
            dry_run: true,
            recursive: true,
            flatten: false,
            jobs,
            target_format: self.target,
        }
    }
}

pub open spec fn opt_path_view(o: Option<FsPath>) -> Option<PathView> {
    match o {
        Some(p) => Some(p@),
        None => None,
    }
}

/// The worker limit a diagnosed conversion would use.
pub open spec fn doctor_jobs(jobs: Option<usize>, cores: nat) -> nat {
    match jobs {
        Some(j) => j as nat,
        None => spec_default_jobs(cores),
    }
}

/// What the application found at the output directory path.
pub enum OutputDirState {
    Directory { writable: bool },
    /// Something that is not a directory.
    NotDirectory,
    /// Nothing; `parent` is the nearest existing ancestor, if any, and
    /// whether it is writable.
    Missing { parent: Option<FsPath>, parent_writable: bool },
}

pub enum OutputDirStateView {
    Directory { writable: bool },
    NotDirectory,
    Missing { parent: Option<PathView>, parent_writable: bool },
}

impl View for OutputDirState {
    type V = OutputDirStateView;

    open spec fn view(&self) -> OutputDirStateView {
        match self {
            OutputDirState::Directory { writable } => OutputDirStateView::Directory {
                writable: *writable,
            },
            OutputDirState::NotDirectory => OutputDirStateView::NotDirectory,
            OutputDirState::Missing { parent, parent_writable } => OutputDirStateView::Missing {
                parent: opt_path_view(*parent),
                parent_writable: *parent_writable,
            },
        }
    }
}

/// What the application observed for the paths under diagnosis (each part
/// matters only when the corresponding path was given).
pub struct DoctorObservations {
    pub output_dir: OutputDirState,
    pub input: InputListing,
}


/// The checks that need no path: the converter, its version, the cores and
/// the default worker count.
pub open spec fn global_checks(found: bool, version: Result<Seq<char>, Seq<char>>, cores: nat) -> Seq<
    CheckView,
> {
    seq![
        if found {
            chk("ffmpeg"@, CheckStatus::Passed, "found"@)
        } else {
            chk("ffmpeg"@, CheckStatus::Failed, "not found"@)
        },
        match version {
            Ok(v) => chk("ffmpeg version"@, CheckStatus::Passed, v),
            Err(e) => chk("ffmpeg version"@, CheckStatus::Failed, "unreadable ("@ + e + ")"@),
        },
        chk("cpu cores"@, CheckStatus::Passed, decimal(cores)),
        chk("default workers"@, CheckStatus::Passed, decimal(spec_default_jobs(cores))),
        if cores >= 1 && spec_default_jobs(cores) >= 1 {
            chk("config sanity"@, CheckStatus::Passed, "global defaults are sane"@)
        } else {
            chk("config sanity"@, CheckStatus::Failed, "global defaults are not sane"@)
        },
    ]
}

/// The checks of a configured worker limit: reported, with a warning when it
/// exceeds the cores.
pub open spec fn jobs_checks(jobs: Option<usize>, cores: nat) -> Seq<CheckView> {
    match jobs {
        None => Seq::empty(),
        Some(j) => seq![chk("configured workers"@, CheckStatus::Passed, decimal(j as nat))] + if j
            > cores {
            seq![
                chk(
                    "worker oversubscription"@,
                    CheckStatus::Warning,
                    decimal(j as nat) + " configured workers exceeds "@ + decimal(cores)
                        + " detected CPU cores; each job runs its own ffmpeg process"@,
                ),
            ]
        } else {
            Seq::empty()
        },
    }
}

/// The check of an output directory.
pub open spec fn output_dir_check(dir: PathView, state: OutputDirStateView) -> CheckView {
    match state {
        OutputDirStateView::Directory { writable } => if writable {
            chk("output directory"@, CheckStatus::Passed, "writable: "@ + shown(dir))
        } else {
            chk("output directory"@, CheckStatus::Failed, "not writable: "@ + shown(dir))
        },
        OutputDirStateView::NotDirectory => chk(
            "output directory"@,
            CheckStatus::Failed,
            "exists but is not a directory: "@ + shown(dir),
        ),
        OutputDirStateView::Missing { parent, parent_writable } => match parent {
            Some(q) => if parent_writable {
                chk(
                    "output directory"@,
                    CheckStatus::Passed,
                    "createable under existing parent: "@ + shown(q),
                )
            } else {
                chk("output directory"@, CheckStatus::Failed, "parent is not writable: "@ + shown(q))
            },
            None => chk(
                "output directory"@,
                CheckStatus::Failed,
                "no existing parent found for "@ + shown(dir),
            ),
        },
    }
}

pub open spec fn min_nat(a: nat, b: nat) -> nat {
    if a < b {
        a
    } else {
        b
    }
}

/// The checks of an input path, given what discovery and planning gave.
pub open spec fn input_checks(
    input: PathView,
    kind: InputKind,
    discovered: Result<Seq<PathView>, DiscoverErrorView>,
    planned: Result<Seq<crate::plan::JobView>, PlanErrorView>,
    jobs: nat,
) -> Seq<CheckView> {
    match kind {
        InputKind::Missing => seq![
            chk("input exists"@, CheckStatus::Failed, "not found or not accessible: "@ + shown(input)),
        ],
        _ => seq![
            chk("input exists"@, CheckStatus::Passed, shown(input)),
            chk(
                "input type"@,
                CheckStatus::Passed,
                if kind == InputKind::File {
                    "file"@
                } else {
                    "directory"@
                },
            ),
        ] + match discovered {
            Err(e) => seq![chk("discoverable files"@, CheckStatus::Failed, discover_message(e))],
            Ok(found) => if found.len() == 0 {
                seq![
                    chk(
                        "discoverable files"@,
                        CheckStatus::Failed,
                        "0 .flac files found with recursive discovery"@,
                    ),
                    chk("effective workers"@, CheckStatus::Passed, "0"@),
                ]
            } else {
                seq![
                    chk(
                        "discoverable files"@,
                        CheckStatus::Passed,
                        decimal(found.len()) + " .flac file(s) found with recursive discovery"@,
                    ),
                ] + match planned {
                    Ok(js) => seq![
                        chk(
                            "output planning"@,
                            CheckStatus::Passed,
                            decimal(js.len()) + " output path(s) validated"@,
                        ),
                        chk(
                            "effective workers"@,
                            CheckStatus::Passed,
                            decimal(min_nat(found.len(), jobs)),
                        ),
                    ],
                    Err(e) => seq![
                        chk("output planning"@, CheckStatus::Failed, crate::plan::plan_message(e)),
                    ],
                }
            },
        },
    }
}

/// The effective workers that the report gives for an input whose
/// discovery found `found` are the workers a run would use: the smaller of
/// the number of files and the worker limit, so never more than the limit.
/// When the plan succeeds for a non-empty discovery, the report ends with
/// that check.
pub proof fn law_effective_workers_are_the_run_workers(
    input: PathView,
    kind: InputKind,
    found: Seq<PathView>,
    planned: Result<Seq<crate::plan::JobView>, PlanErrorView>,
    jobs: nat,
)
    ensures
        ({
            let cs = input_checks(input, kind, Ok(found), planned, jobs);
            let workers: nat = if found.len() < jobs {
                found.len()
            } else {
                jobs
            };
            &&& forall|i: int|
                0 <= i < cs.len() && (#[trigger] cs[i]).name == "effective workers"@ ==> cs[i].detail
                    == decimal(workers) && workers <= jobs
            &&& (kind != InputKind::Missing && found.len() > 0 && planned is Ok) ==> cs.last()
                == chk("effective workers"@, CheckStatus::Passed, decimal(workers))
        }),
{
    reveal_strlit("effective workers");
    reveal_strlit("input exists");
    reveal_strlit("input type");
    reveal_strlit("discoverable files");
    reveal_strlit("output planning");
    reveal_strlit("0");
    let ew = "effective workers"@;
    assert(ew.len() == 17);
    assert("input exists"@ != ew) by {
        assert("input exists"@.len() != ew.len());
    }
    assert("input type"@ != ew) by {
        assert("input type"@.len() != ew.len());
    }
    assert("discoverable files"@ != ew) by {
        assert("discoverable files"@.len() != ew.len());
    }
    assert("output planning"@ != ew) by {
        assert("output planning"@.len() != ew.len());
    }
    if found.len() == 0 {
        let z = crate::text::digit_char(0);
        assert((z as u32) == 48);
        vstd::utf8::char_u32_cast('0', 48);
        vstd::utf8::char_u32_cast(z, 48);
        assert(decimal(0) == seq![z]);
        assert("0"@ =~= decimal(0));
    }
}

/// How a diagnosed conversion would plan `found`.
pub open spec fn doctor_plan(
    input: PathView,
    output_dir: Option<PathView>,
    state: OutputDirStateView,
    kind: InputKind,
    found: Seq<PathView>,
    target: AudioFormat,
) -> Result<Seq<crate::plan::JobView>, PlanErrorView> {
    spec_plan(
        crate::plan::PlanSettings {
            input_root: input,
            output_dir,
            flatten: false,
            target,
        },
        PlanFacts {
            input_is_directory: kind == InputKind::Directory,
            output_dir_is_not_directory: state is NotDirectory,
        },
        found,
    )
}

/// Discovery's outcome for `found`: the error it reports, if any, else `found`.
pub open spec fn doctor_discovery(
    input: PathView,
    listing_kind: InputKind,
    scan_error: Option<Seq<char>>,
    found: Seq<PathView>,
) -> Result<Seq<PathView>, DiscoverErrorView> {
    match discovery_error(input, listing_kind, scan_error) {
        Some(e) => Err(e),
        None => Ok(found),
    }
}

fn push_number_check(report: &mut DoctorReport, name: &'static str, n: usize)
    ensures
        check_views(final(report).checks@) == check_views(old(report).checks@).push(
            chk(name@, CheckStatus::Passed, decimal(n as nat)),
        ),
{
    let text = decimal_string(n);
    report.push(DoctorCheck::ok(name, text.as_str()));
}

/// `found` is what discovery gives for the input path, when it succeeds.
pub open spec fn discovery_fits(
    input: &DoctorInput,
    observed: &DoctorObservations,
    found: Seq<PathView>,
) -> bool {
    (input.input_path matches Some(p) && observed.input.kind != InputKind::Missing
        && discovery_error(p@, observed.input.kind, opt_string_view(observed.input.scan_error))
        is None) ==> discovery_ok(
        input.input_path->0@,
        observed.input.kind,
        path_views(observed.input.files@),
        Some(input.target),
        found,
    )
}

/// The checks of a diagnosis, in order: the converter and the system, the
/// configured worker limit, the output directory, then the input path (with
/// `found` as its discovered files).
pub open spec fn expected_checks(
    input: &DoctorInput,
    version_probe: &VersionProbe,
    cores: nat,
    observed: &DoctorObservations,
    found: Seq<PathView>,
) -> Seq<CheckView> {
    global_checks(
        version_probe.executable_found,
        match version_probe.version {
            Ok(v) => Ok(v@),
            Err(e) => Err(e@),
        },
        cores,
    ) + jobs_checks(input.jobs, cores) + match input.output_dir {
        Some(d) => seq![output_dir_check(d@, observed.output_dir@)],
        None => Seq::empty(),
    } + match input.input_path {
        Some(p) => input_checks(
            p@,
            observed.input.kind,
            doctor_discovery(p@, observed.input.kind, opt_string_view(observed.input.scan_error), found),
            doctor_plan(
                p@,
                opt_path_view(input.output_dir),
                observed.output_dir@,
                observed.input.kind,
                found,
                input.target,
            ),
            doctor_jobs(input.jobs, cores),
        ),
        None => Seq::empty(),
    }
}

/// The readiness report, from the probe of the converter, the detected
/// cores and what the application observed about the given paths.
pub fn diagnose(
    input: DoctorInput,
    version_probe: VersionProbe,
    cpu_cores: usize,
    observed: &DoctorObservations,
) -> (report: DoctorReport)
    ensures
        exists|found: Seq<PathView>|
            #[trigger] discovery_fits(&input, observed, found) && check_views(report.checks@)
                == expected_checks(&input, &version_probe, cpu_cores as nat, observed, found),
{
    let mut report = DoctorReport { checks: Vec::new() };
    proof {
        reveal_strlit("found");
        reveal_strlit("not found");
    }
    if version_probe.executable_found {
        report.push(DoctorCheck::ok("ffmpeg", "found"));
    } else {
        report.push(DoctorCheck::failed("ffmpeg", "not found"));
    }
    match &version_probe.version {
        Ok(version) => report.push(DoctorCheck::ok("ffmpeg version", version.as_str())),
        Err(error) => {
            let mut detail = string_of("unreadable (");
            append_str(&mut detail, error.as_str());
            append_str(&mut detail, ")");
            report.push(DoctorCheck::failed("ffmpeg version", detail.as_str()));
        },
    }
    push_number_check(&mut report, "cpu cores", cpu_cores);
    let default_workers = default_jobs_for_cpu_count(cpu_cores);
    push_number_check(&mut report, "default workers", default_workers);
    if cpu_cores >= 1 && default_workers >= 1 {
        report.push(DoctorCheck::ok("config sanity", "global defaults are sane"));
    } else {
        report.push(DoctorCheck::failed("config sanity", "global defaults are not sane"));
    }
    let ghost global = check_views(report.checks@);
    proof {
        assert(global =~= global_checks(
            version_probe.executable_found,
            match version_probe.version {
                Ok(v) => Ok(v@),
                Err(e) => Err(e@),
            },
            cpu_cores as nat,
        ));
    }
    match input.jobs {
        Some(jobs) => {
            push_number_check(&mut report, "configured workers", jobs);
            if jobs > cpu_cores {
                let mut detail = decimal_string(jobs);
                append_str(&mut detail, " configured workers exceeds ");
                append_str(&mut detail, decimal_string(cpu_cores).as_str());
                append_str(
                    &mut detail,
                    " detected CPU cores; each job runs its own ffmpeg process",
                );
                report.push(DoctorCheck::warning("worker oversubscription", detail.as_str()));
            }
        },
        None => {},
    }
    let ghost with_jobs = check_views(report.checks@);
    proof {
        assert(with_jobs =~= global + jobs_checks(input.jobs, cpu_cores as nat));
    }
    match &input.output_dir {
        Some(dir) => {
            let check = check_output_dir(dir, &observed.output_dir);
            report.push(check);
        },
        None => {},
    }
    let ghost with_output = check_views(report.checks@);
    proof {
        assert(with_output =~= with_jobs + match input.output_dir {
            Some(d) => seq![output_dir_check(d@, observed.output_dir@)],
            None => Seq::empty(),
        });
    }
    let found: Ghost<Seq<PathView>> = match &input.input_path {
        Some(path) => add_input_checks(&mut report, &input, path, cpu_cores, observed),
        None => {
            proof {
                assert(check_views(report.checks@) =~= with_output + Seq::<CheckView>::empty());
            }
            Ghost(Seq::empty())
        },
    };
    proof {
        let f = found@;
        assert(check_views(report.checks@) == with_output + match input.input_path {
            Some(p) => input_checks(
                p@,
                observed.input.kind,
                doctor_discovery(
                    p@,
                    observed.input.kind,
                    opt_string_view(observed.input.scan_error),
                    f,
                ),
                doctor_plan(
                    p@,
                    opt_path_view(input.output_dir),
                    observed.output_dir@,
                    observed.input.kind,
                    f,
                    input.target,
                ),
                doctor_jobs(input.jobs, cpu_cores as nat),
            ),
            None => Seq::empty(),
        });
        assert(discovery_fits(&input, observed, f));
        assert(check_views(report.checks@) == expected_checks(
            &input,
            &version_probe,
            cpu_cores as nat,
            observed,
            f,
        ));
    }
    report
}

/// Adds the checks of an input path; gives back what discovery found.
fn add_input_checks(
    report: &mut DoctorReport,
    input: &DoctorInput,
    input_path: &FsPath,
    cpu_cores: usize,
    observed: &DoctorObservations,
) -> (found: Ghost<Seq<PathView>>)
    ensures
        (observed.input.kind != InputKind::Missing && discovery_error(
            input_path@,
            observed.input.kind,
            opt_string_view(observed.input.scan_error),
        ) is None) ==> discovery_ok(
            input_path@,
            observed.input.kind,
            path_views(observed.input.files@),
            Some(input.target),
            found@,
        ),
        check_views(final(report).checks@) == check_views(old(report).checks@) + input_checks(
            input_path@,
            observed.input.kind,
            doctor_discovery(
                input_path@,
                observed.input.kind,
                opt_string_view(observed.input.scan_error),
                found@,
            ),
            doctor_plan(
                input_path@,
                opt_path_view(input.output_dir),
                observed.output_dir@,
                observed.input.kind,
                found@,
                input.target,
            ),
            doctor_jobs(input.jobs, cpu_cores as nat),
        ),
{
    let ghost start = check_views(report.checks@);
    proof {
        reveal_strlit("file");
        reveal_strlit("directory");
        reveal_strlit("0");
    }
    match observed.input.kind {
        InputKind::File => {
            report.push(DoctorCheck::ok("input exists", input_path.display().as_str()));
            report.push(DoctorCheck::ok("input type", "file"));
        },
        InputKind::Directory => {
            report.push(DoctorCheck::ok("input exists", input_path.display().as_str()));
            report.push(DoctorCheck::ok("input type", "directory"));
        },
        InputKind::Missing => {
            let mut d = string_of("not found or not accessible: ");
            append_str(&mut d, input_path.display().as_str());
            report.push(DoctorCheck::failed("input exists", d.as_str()));
            proof {
                assert(check_views(report.checks@) =~= start + input_checks(
                    input_path@,
                    observed.input.kind,
                    doctor_discovery(
                        input_path@,
                        observed.input.kind,
                        opt_string_view(observed.input.scan_error),
                        Seq::empty(),
                    ),
                    doctor_plan(
                        input_path@,
                        opt_path_view(input.output_dir),
                        observed.output_dir@,
                        observed.input.kind,
                        Seq::empty(),
                        input.target,
                    ),
                    doctor_jobs(input.jobs, cpu_cores as nat),
                ));
            }
            return Ghost(Seq::empty());
        },
    }
    let ghost present = check_views(report.checks@);
    let config = input.config(input_path, cpu_cores);
    let inputs = match discover(&config, &observed.input) {
        Ok(inputs) => inputs,
        Err(error) => {
            report.push(DoctorCheck::failed("discoverable files", error.message().as_str()));
            proof {
                assert(check_views(report.checks@) =~= start + input_checks(
                    input_path@,
                    observed.input.kind,
                    doctor_discovery(
                        input_path@,
                        observed.input.kind,
                        opt_string_view(observed.input.scan_error),
                        Seq::empty(),
                    ),
                    doctor_plan(
                        input_path@,
                        opt_path_view(input.output_dir),
                        observed.output_dir@,
                        observed.input.kind,
                        Seq::empty(),
                        input.target,
                    ),
                    doctor_jobs(input.jobs, cpu_cores as nat),
                ));
            }
            return Ghost(Seq::empty());
        },
    };
    let ghost found = path_views(inputs@);
    let count = inputs.len();
    if count == 0 {
        report.push(
            DoctorCheck::failed(
                "discoverable files",
                "0 .flac files found with recursive discovery",
            ),
        );
        report.push(DoctorCheck::ok("effective workers", "0"));
        proof {
            assert(found.len() == 0);
            assert(check_views(report.checks@) =~= start + input_checks(
                input_path@,
                observed.input.kind,
                doctor_discovery(
                    input_path@,
                    observed.input.kind,
                    opt_string_view(observed.input.scan_error),
                    found,
                ),
                doctor_plan(
                    input_path@,
                    opt_path_view(input.output_dir),
                    observed.output_dir@,
                    observed.input.kind,
                    found,
                    input.target,
                ),
                doctor_jobs(input.jobs, cpu_cores as nat),
            ));
        }
        return Ghost(found);
    }
    let mut detail = decimal_string(count);
    append_str(&mut detail, " .flac file(s) found with recursive discovery");
    report.push(DoctorCheck::ok("discoverable files", detail.as_str()));
    let facts = PlanFacts {
        input_is_directory: match observed.input.kind {
            InputKind::Directory => true,
            _ => false,
        },
        output_dir_is_not_directory: match observed.output_dir {
            OutputDirState::NotDirectory => true,
            _ => false,
        },
    };
    let workers = if count < config.jobs {
        count
    } else {
        config.jobs
    };
    match plan(&config, inputs, &facts) {
        Ok(jobs) => {
            let mut d = decimal_string(jobs.len());
            append_str(&mut d, " output path(s) validated");
            report.push(DoctorCheck::ok("output planning", d.as_str()));
            push_number_check(report, "effective workers", workers);
        },
        Err(error) => {
            report.push(DoctorCheck::failed("output planning", error.message().as_str()));
        },
    }
    proof {
        assert(plan_settings(&config) == crate::plan::PlanSettings {
            input_root: input_path@,
            output_dir: opt_path_view(input.output_dir),
            flatten: false,
            target: input.target,
        });
        assert(check_views(report.checks@) =~= start + input_checks(
            input_path@,
            observed.input.kind,
            doctor_discovery(
                input_path@,
                observed.input.kind,
                opt_string_view(observed.input.scan_error),
                found,
            ),
            doctor_plan(
                input_path@,
                opt_path_view(input.output_dir),
                observed.output_dir@,
                observed.input.kind,
                found,
                input.target,
            ),
            doctor_jobs(input.jobs, cpu_cores as nat),
        ));
    }
    Ghost(found)
}

/// The check of an output directory from what was found there.
fn check_output_dir(dir: &FsPath, state: &OutputDirState) -> (c: DoctorCheck)
    ensures
        c@ == output_dir_check(dir@, state@),
{
    match state {
        OutputDirState::Directory { writable } => {
            if *writable {
                let mut d = string_of("writable: ");
                append_str(&mut d, dir.display().as_str());
                DoctorCheck::ok("output directory", d.as_str())
            } else {
                let mut d = string_of("not writable: ");
                append_str(&mut d, dir.display().as_str());
                DoctorCheck::failed("output directory", d.as_str())
            }
        },
        OutputDirState::NotDirectory => {
            let mut d = string_of("exists but is not a directory: ");
            append_str(&mut d, dir.display().as_str());
            DoctorCheck::failed("output directory", d.as_str())
        },
        OutputDirState::Missing { parent, parent_writable } => match parent {
            Some(q) => {
                if *parent_writable {
                    let mut d = string_of("createable under existing parent: ");
                    append_str(&mut d, q.display().as_str());
                    DoctorCheck::ok("output directory", d.as_str())
                } else {
                    let mut d = string_of("parent is not writable: ");
                    append_str(&mut d, q.display().as_str());
                    DoctorCheck::failed("output directory", d.as_str())
                }
            },
            None => {
                let mut d = string_of("no existing parent found for ");
                append_str(&mut d, dir.display().as_str());
                DoctorCheck::failed("output directory", d.as_str())
            },
        },
    }
}

/// The first of `ancestors` that exists, by the flags observed for them.
pub open spec fn first_existing(ancestors: Seq<PathView>, exists: Seq<bool>) -> Option<PathView>
    decreases ancestors.len(),
{
    if ancestors.len() == 0 || exists.len() == 0 {
        None
    } else if exists[0] {
        Some(ancestors[0])
    } else {
        first_existing(ancestors.drop_first(), exists.drop_first())
    }
}

/// The nearest proper ancestor of `path` that exists; `exists[k]` tells
/// whether the k-th proper ancestor (nearest first) exists.
pub fn nearest_existing_parent(path: &FsPath, exists: &Vec<bool>) -> (r: Option<FsPath>)
    ensures
        opt_path_view(r) == first_existing(crate::path::proper_ancestors(path@), exists@),
{
    let ancestors = path.proper_ancestors();
    let ghost av = ancestors@.map_values(|q: FsPath| q@);
    let mut k: usize = 0;
    proof {
        assert(av.skip(0) =~= av);
        assert(exists@.skip(0) =~= exists@);
    }
    while k < ancestors.len() && k < exists.len()
        invariant
            k <= ancestors.len(),
            k <= exists.len(),
            av.len() == ancestors@.len(),
            av == ancestors@.map_values(|q: FsPath| q@),
            av == crate::path::proper_ancestors(path@),
            first_existing(av, exists@) == first_existing(av.skip(k as int), exists@.skip(k as int)),
        decreases ancestors.len() - k,
    {
        if exists[k] {
            proof {
                assert(av.skip(k as int)[0] == ancestors@[k as int]@);
                assert(exists@.skip(k as int)[0] == exists@[k as int]);
            }
            return Some(ancestors[k].copy());
        }
        proof {
            assert(av.skip(k as int).drop_first() =~= av.skip(k + 1));
            assert(exists@.skip(k as int).drop_first() =~= exists@.skip(k + 1));
            assert(exists@.skip(k as int)[0] == exists@[k as int]);
        }
        k = k + 1;
    }
    proof {
        assert(av.skip(k as int).len() == 0 || exists@.skip(k as int).len() == 0);
    }
    None
}

pub open spec fn status_marker(s: CheckStatus) -> Seq<char> {
    match s {
        CheckStatus::Passed => "ok"@,
        CheckStatus::Warning => "warn"@,
        CheckStatus::Failed => "fail"@,
    }
}

pub open spec fn yes_no(b: bool) -> Seq<char> {
    if b {
        "yes"@
    } else {
        "no"@
    }
}

/// The printed report: a heading, one `[marker] name: detail` line per
/// check, the read-only note, and whether there are warnings and whether
/// the system is ready.
pub open spec fn report_lines(cs: Seq<CheckView>) -> Seq<Seq<char>> {
    seq!["Doctor report:"@] + cs.map_values(
        |c: CheckView| "["@ + status_marker(c.status) + "] "@ + c.name + ": "@ + c.detail,
    ) + seq![
        "Read-only: no files were created, modified, or converted."@,
        "Warnings: "@ + yes_no(spec_has_warnings(cs)),
        "Ready: "@ + yes_no(spec_is_ready(cs)),
    ]
}

impl DoctorReport {
    /// The lines to print.
    pub fn lines(&self) -> (lines: Vec<String>)
        ensures
            lines@.map_values(|l: String| l@) == report_lines(check_views(self.checks@)),
    {
        let ghost cs = check_views(self.checks@);
        let mut lines: Vec<String> = Vec::new();
        lines.push(string_of("Doctor report:"));
        let mut i: usize = 0;
        while i < self.checks.len()
            invariant
                i <= self.checks.len(),
                cs == check_views(self.checks@),
                lines@.map_values(|l: String| l@) == seq!["Doctor report:"@] + cs.subrange(
                    0,
                    i as int,
                ).map_values(
                    |c: CheckView| "["@ + status_marker(c.status) + "] "@ + c.name + ": "@ + c.detail,
                ),
            decreases self.checks.len() - i,
        {
            let check = &self.checks[i];
            let marker = match check.status {
                CheckStatus::Passed => "ok",
                CheckStatus::Warning => "warn",
                CheckStatus::Failed => "fail",
            };
            let mut line = string_of("[");
            append_str(&mut line, marker);
            append_str(&mut line, "] ");
            append_str(&mut line, check.name);
            append_str(&mut line, ": ");
            append_str(&mut line, check.detail.as_str());
            let ghost before = lines@;
            lines.push(line);
            proof {
                assert(cs[i as int] == check@);
                assert(cs.subrange(0, i + 1) =~= cs.subrange(0, i as int).push(cs[i as int]));
                assert(lines@.map_values(|l: String| l@) =~= before.map_values(|l: String| l@).push(
                    line@,
                ));
                assert(lines@.map_values(|l: String| l@) =~= seq!["Doctor report:"@]
                    + cs.subrange(0, i + 1).map_values(
                    |c: CheckView| "["@ + status_marker(c.status) + "] "@ + c.name + ": "@
                        + c.detail,
                ));
            }
            i = i + 1;
        }
        proof {
            assert(cs.subrange(0, self.checks.len() as int) =~= cs);
        }
        lines.push(string_of("Read-only: no files were created, modified, or converted."));
        let mut warn = string_of("Warnings: ");
        append_str(
            &mut warn,
            if self.has_warnings() {
                "yes"
            } else {
                "no"
            },
        );
        lines.push(warn);
        let mut ready = string_of("Ready: ");
        append_str(
            &mut ready,
            if self.is_ready() {
                "yes"
            } else {
                "no"
            },
        );
        lines.push(ready);
        proof {
            assert(lines@.map_values(|l: String| l@) =~= report_lines(cs));
        }
        lines
    }
}

} // verus!
