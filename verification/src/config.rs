//! The settings of one conversion run, resolved from the arguments.
use vstd::prelude::*;
use crate::audio_format::AudioFormat;
use crate::cli::ConvertArgs;
use crate::path::FsPath;

verus! {

#[derive(Debug)]
pub struct Config {
    pub input_path: FsPath,
    pub output_dir: Option<FsPath>,
    pub dry_run: bool,
    pub recursive: bool,
    pub flatten: bool,
    pub jobs: usize,
    pub target_format: AudioFormat,
}

/// `max(1, cpus - 1)`, with the subtraction saturating at zero.
pub open spec fn spec_default_jobs(cpus: nat) -> nat {
    if cpus >= 2 {
        (cpus - 1) as nat
    } else {
        1
    }
}

/// Number of parallel conversion jobs used by default for `cpus` detected
/// cores: one core is left free whenever there is more than one.
pub fn default_jobs_for_cpu_count(cpus: usize) -> (jobs: usize)
    ensures
        jobs == spec_default_jobs(cpus as nat),
{
    let free = if cpus >= 1 {
        cpus - 1
    } else {
        0
    };
    if free >= 1 {
        free
    } else {
        1
    }
}

/// The default is never zero, never more than the cores (when there is at
/// least one), and leaves exactly one core free when there are several.
pub proof fn law_default_jobs_bounds(cpus: nat)
    ensures
        spec_default_jobs(cpus) >= 1,
        cpus >= 1 ==> spec_default_jobs(cpus) <= cpus,
        cpus >= 2 ==> spec_default_jobs(cpus) + 1 == cpus,
{
}

impl Config {
    /// Resolves the settings of a run; without `--jobs`, the default for
    /// `cpu_cores` detected cores applies. The target format starts as AIFF.
    pub fn from_convert_args(convert: ConvertArgs, cpu_cores: usize) -> (config: Config)
        requires
            convert.jobs matches Some(j) ==> j >= 1,
        ensures
            config.jobs >= 1,
            config.input_path@ == convert.input_path@,
            config.output_dir matches Some(d) <==> convert.output_dir is Some,
            config.output_dir matches Some(d) ==> convert.output_dir->0@ == d@,
            config.dry_run == convert.dry_run,
            config.recursive == convert.recursive,
            config.flatten == convert.flatten,
            config.jobs == match convert.jobs {
                Some(j) => j as nat,
                None => spec_default_jobs(cpu_cores as nat),
            },
            config.target_format == AudioFormat::Aiff,
    {
        let jobs = match convert.jobs {
            Some(j) => j,
            None => default_jobs_for_cpu_count(cpu_cores),
        };
        Config {
            input_path: convert.input_path,
            output_dir: convert.output_dir,
            dry_run: convert.dry_run,
            recursive: convert.recursive,
            flatten: convert.flatten,
            jobs,
            target_format: AudioFormat::Aiff,
        }
    }

    /// The same settings converting to `target`.
    pub fn with_target_format(self, target: AudioFormat) -> (config: Config)
        ensures
            config.input_path@ == self.input_path@,
            config.output_dir matches Some(d) <==> self.output_dir is Some,
            config.output_dir matches Some(d) ==> self.output_dir->0@ == d@,
            config.dry_run == self.dry_run,
            config.recursive == self.recursive,
            config.flatten == self.flatten,
            config.jobs == self.jobs,
            config.target_format == target,
    {
        Config { target_format: target, ..self }
    }
}

} // verus!
