//! One job's stage machine: fetch, discover, compile, merge, strictly
//! in that order, the first failing stage deciding the outcome. The
//! runner performs the external work a state calls for (run the fetch
//! tool, search the tree, run the compiler, merge the registry) and
//! reports what happened; `job_step` decides everything.

use vstd::prelude::*;
use vstd::string::StringExecFns;
use crate::catalog::{CatalogEntry, RunConfiguration};

verus! {

/// The stage at which a job failed.
#[derive(PartialEq, Eq, Structural, Clone, Copy, Debug)]
pub enum Stage {
    Fetch,
    Discover,
    Compile,
    MergeConfig,
}

/// The outcome of one job: the artifact it produced, or the first
/// failure.
pub enum JobOutcome {
    Success { artifact_path: String },
    Failure { stage: Stage, message: String },
}

impl JobOutcome {
    /// Whether this outcome counts as a failed job.
    pub fn is_failure(&self) -> (b: bool)
        ensures
            b == (self matches JobOutcome::Failure { .. }),
    {
        match self {
            JobOutcome::Failure { .. } => true,
            JobOutcome::Success { .. } => false,
        }
    }
}

/// Where a job stands. Each non-final state names the one piece of
/// external work the runner owes: fetch the tree, search it, compile
/// the named inputs, or merge the registry for the finished artifact.
pub enum JobState {
    Fetching,
    Discovering,
    Compiling { primary: String, secondary: Option<String> },
    Merging { artifact_path: String },
    Done { outcome: JobOutcome },
}

/// What the runner reports back for the work a state called for.
pub enum JobEvent {
    FetchFinished { success: bool, diagnostics: String },
    DiscoverFinished { primary: Option<String>, secondary: Option<String> },
    CompileFinished { success: bool, diagnostics: String },
    MergeFinished,
}

/// The event kind each state awaits.
pub open spec fn event_fits(state: JobState, event: JobEvent) -> bool {
    match (state, event) {
        (JobState::Fetching, JobEvent::FetchFinished { .. }) => true,
        (JobState::Discovering, JobEvent::DiscoverFinished { .. }) => true,
        (JobState::Compiling { .. }, JobEvent::CompileFinished { .. }) => true,
        (JobState::Merging { .. }, JobEvent::MergeFinished) => true,
        _ => false,
    }
}

/// The directory one job's tree is fetched into.
pub open spec fn spec_fetch_destination(source_dir: Seq<char>, name: Seq<char>) -> Seq<char> {
    source_dir + name
}

/// The artifact path one job compiles to.
pub open spec fn spec_artifact_path(output_dir: Seq<char>, name: Seq<char>) -> Seq<char> {
    output_dir + "lib"@ + name + ".so"@
}

/// The message of a fetch failure, carrying the tool's diagnostics.
pub open spec fn fetch_failure_message(locator: Seq<char>, diagnostics: Seq<char>) -> Seq<char> {
    "failed to fetch "@ + locator + ": "@ + diagnostics
}

/// The message of a discover failure: the required file is absent.
pub open spec fn discover_failure_message(name: Seq<char>) -> Seq<char> {
    "required file "@ + "parser.c"@ + " not found in the tree fetched for "@ + name
}

/// The message of a compile failure, carrying the compiler's
/// diagnostics.
pub open spec fn compile_failure_message(name: Seq<char>, diagnostics: Seq<char>) -> Seq<char> {
    "failed to compile grammar "@ + name + ": "@ + diagnostics
}

/// The file a job must find in a fetched tree.
pub fn primary_source_name() -> (r: &'static str)
    ensures
        r@ == "parser.c"@,
{
    "parser.c"
}

/// The file a job may also use when the tree has one.
pub fn secondary_source_name() -> (r: &'static str)
    ensures
        r@ == "scanner.c"@,
{
    "scanner.c"
}

/// The metadata descriptor a job looks for before merging.
pub fn metadata_file_name() -> (r: &'static str)
    ensures
        r@ == "tree-sitter.json"@,
{
    "tree-sitter.json"
}

/// The directory to fetch `entry`'s tree into.
pub fn fetch_destination(config: &RunConfiguration, entry: &CatalogEntry) -> (r: String)
    ensures
        r@ == spec_fetch_destination(config.source_dir@, entry.name@),
{
    let mut s = config.source_dir.clone();
    s.append(entry.name.as_str());
    s
}

/// The artifact path `entry` compiles to.
pub fn artifact_path(config: &RunConfiguration, entry: &CatalogEntry) -> (r: String)
    ensures
        r@ == spec_artifact_path(config.output_dir@, entry.name@),
{
    let mut s = config.output_dir.clone();
    s.append("lib");
    s.append(entry.name.as_str());
    s.append(".so");
    s
}

/// How one step moves the machine: each state and the event it awaits
/// decide the next state exactly.
pub open spec fn step_rel(
    entry: CatalogEntry,
    config: RunConfiguration,
    state: JobState,
    event: JobEvent,
    next: JobState,
) -> bool {
    match (state, event) {
        (JobState::Fetching, JobEvent::FetchFinished { success, diagnostics }) => if success {
            next == JobState::Discovering
        } else {
            next matches JobState::Done {
                outcome: JobOutcome::Failure { stage: Stage::Fetch, message },
            } && message@ == fetch_failure_message(entry.source_locator@, diagnostics@)
        },
        (JobState::Discovering, JobEvent::DiscoverFinished { primary, secondary }) => match primary {
            Some(p) => next matches JobState::Compiling { primary: p2, secondary: s2 } && p2@ == p@
                && (match (secondary, s2) {
                (Some(a), Some(b)) => a@ == b@,
                (None, None) => true,
                _ => false,
            }),
            None => next matches JobState::Done {
                outcome: JobOutcome::Failure { stage: Stage::Discover, message },
            } && message@ == discover_failure_message(entry.name@),
        },
        (JobState::Compiling { .. }, JobEvent::CompileFinished { success, diagnostics }) => if success {
            next matches JobState::Merging { artifact_path: a } && a@ == spec_artifact_path(
                config.output_dir@,
                entry.name@,
            )
        } else {
            next matches JobState::Done {
                outcome: JobOutcome::Failure { stage: Stage::Compile, message },
            } && message@ == compile_failure_message(entry.name@, diagnostics@)
        },
        (JobState::Merging { artifact_path: a }, JobEvent::MergeFinished) => next matches
            JobState::Done { outcome: JobOutcome::Success { artifact_path: a2 } } && a2@ == a@,
        _ => false,
    }
}

/// A fetched tree without the required source file ends its job at the
/// discover stage, and a finished job awaits no further event — in
/// particular, such a job never reaches the merge, so the registry is
/// left as it was.
pub proof fn lemma_missing_primary_fails(
    entry: CatalogEntry,
    config: RunConfiguration,
    secondary: Option<String>,
    next: JobState,
)
    requires
        step_rel(
            entry,
            config,
            JobState::Discovering,
            JobEvent::DiscoverFinished { primary: None, secondary },
            next,
        ),
    ensures
        next matches JobState::Done {
            outcome: JobOutcome::Failure { stage: Stage::Discover, message },
        } && message@ == discover_failure_message(entry.name@),
        forall|e: JobEvent| !event_fits(next, e),
{
}

/// A tree without the optional source file still compiles: the job
/// moves to the compile stage with the required file alone.
pub proof fn lemma_missing_secondary_still_compiles(
    entry: CatalogEntry,
    config: RunConfiguration,
    p: String,
    next: JobState,
)
    requires
        step_rel(
            entry,
            config,
            JobState::Discovering,
            JobEvent::DiscoverFinished { primary: Some(p), secondary: None },
            next,
        ),
    ensures
        next matches JobState::Compiling { primary, secondary: None } && primary@ == p@,
{
}

/// Move one job one step: consume the runner's report for the current
/// state and decide the next state. A failed fetch, a tree without the
/// required file, and a failed compile end the job with that stage's
/// failure; a finished merge ends it successfully whatever the merge
/// itself did, the artifact already standing.
pub fn job_step(
    entry: &CatalogEntry,
    config: &RunConfiguration,
    state: JobState,
    event: JobEvent,
) -> (next: JobState)
    requires
        event_fits(state, event),
    ensures
        step_rel(*entry, *config, state, event, next),
{
    match (state, event) {
        (JobState::Fetching, JobEvent::FetchFinished { success, diagnostics }) => {
            if success {
                JobState::Discovering
            } else {
                let mut m = String::from_str("failed to fetch ");
                m.append(entry.source_locator.as_str());
                m.append(": ");
                m.append(diagnostics.as_str());
                JobState::Done {
                    outcome: JobOutcome::Failure { stage: Stage::Fetch, message: m },
                }
            }
        },
        (JobState::Discovering, JobEvent::DiscoverFinished { primary, secondary }) => {
            match primary {
                Some(p) => JobState::Compiling { primary: p, secondary },
                None => {
                    let mut m = String::from_str("required file ");
                    m.append("parser.c");
                    m.append(" not found in the tree fetched for ");
                    m.append(entry.name.as_str());
                    JobState::Done {
                        outcome: JobOutcome::Failure { stage: Stage::Discover, message: m },
                    }
                },
            }
        },
        (JobState::Compiling { .. }, JobEvent::CompileFinished { success, diagnostics }) => {
            if success {
                JobState::Merging { artifact_path: artifact_path(config, entry) }
            } else {
                let mut m = String::from_str("failed to compile grammar ");
                m.append(entry.name.as_str());
                m.append(": ");
                m.append(diagnostics.as_str());
                JobState::Done {
                    outcome: JobOutcome::Failure { stage: Stage::Compile, message: m },
                }
            }
        },
        (JobState::Merging { artifact_path: a }, JobEvent::MergeFinished) => {
            JobState::Done { outcome: JobOutcome::Success { artifact_path: a } }
        },
        _ => {
            proof {
                assert(false);
            }
            JobState::Fetching
        },
    }
}

} // verus!
