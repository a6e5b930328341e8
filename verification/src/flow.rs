//! The run's driver logic: which step follows which, which failures halt the
//! run, and the message each outcome earns. The steps themselves — cloning,
//! deleting, rewriting, building — are carried out by the caller; only the
//! decisions stand here.

use vstd::prelude::*;

use crate::name::NameError;

verus! {

/// The steps that follow a validated name, in the order the tool runs them.
#[derive(Clone, Copy, Debug, PartialEq, Eq, Structural)]
pub enum Step {
    CloneTemplate,
    StripHistory,
    PatchManifest,
    RunBuild,
}

/// How a step's failure is treated: a hard failure halts the run, a soft one is
/// reported and the run goes on, and a terminal step is the last either way.
#[derive(Clone, Copy, Debug, PartialEq, Eq, Structural)]
pub enum Severity {
    Hard,
    Soft,
    Terminal,
}

/// The severity of each step: a failed clone halts the run; a failed history
/// strip or manifest patch is only reported; the build is the last step.
pub open spec fn spec_severity(step: Step) -> Severity {
    match step {
        Step::CloneTemplate => Severity::Hard,
        Step::StripHistory => Severity::Soft,
        Step::PatchManifest => Severity::Soft,
        Step::RunBuild => Severity::Terminal,
    }
}

/// The step after `step` when the run goes on.
pub open spec fn spec_next(step: Step) -> Option<Step> {
    match step {
        Step::CloneTemplate => Some(Step::StripHistory),
        Step::StripHistory => Some(Step::PatchManifest),
        Step::PatchManifest => Some(Step::RunBuild),
        Step::RunBuild => None,
    }
}

/// The severity of `step`.
pub fn severity_of(step: &Step) -> (s: Severity)
    ensures
        s == spec_severity(*step),
{
    match step {
        Step::CloneTemplate => Severity::Hard,
        Step::StripHistory => Severity::Soft,
        Step::PatchManifest => Severity::Soft,
        Step::RunBuild => Severity::Terminal,
    }
}

/// What the driver decides once a step has run, as a spec-level function of
/// step and outcome: halt after a failed hard step, otherwise the next step in
/// order.
pub open spec fn next_after(step: Step, succeeded: bool) -> Option<Step> {
    if !succeeded && spec_severity(step) == Severity::Hard {
        None
    } else {
        spec_next(step)
    }
}

/// The driver's decision once `step` has run: halt after a failed hard step,
/// otherwise take the next step in order, with nothing after the build.
pub fn next_action(step: &Step, succeeded: bool) -> (r: Option<Step>)
    ensures
        r == next_after(*step, succeeded),
{
    if !succeeded && matches!(severity_of(step), Severity::Hard) {
        None
    } else {
        match step {
            Step::CloneTemplate => Some(Step::StripHistory),
            Step::StripHistory => Some(Step::PatchManifest),
            Step::PatchManifest => Some(Step::RunBuild),
            Step::RunBuild => None,
        }
    }
}

/// A failed hard step halts the run: no step at all follows it.
pub proof fn lemma_hard_failure_halts(step: Step)
    requires
        spec_severity(step) == Severity::Hard,
    ensures
        next_after(step, false) is None,
{
}

/// Every fixed message the tool prints, one variant per outcome.
#[derive(Clone, Copy, Debug, PartialEq, Eq, Structural)]
pub enum Notice {
    EmptyName,
    InvalidName,
    CloneOk,
    CloneFailed,
    StripFailed,
    ManifestUpdated,
    ManifestUnreadable,
    ManifestWriteFailed,
    BuildStarted,
    BuildOk,
    BuildFailed,
    BuildToolMissing,
}

/// The text of each notice.
pub open spec fn spec_notice_text(n: Notice) -> Seq<char> {
    match n {
        Notice::EmptyName => "Project name cannot be empty!"@,
        Notice::InvalidName => "Invalid project name! Use only lowercase letters, numbers, hyphens, and underscores."@,
        Notice::CloneOk => "Template cloned successfully!"@,
        Notice::CloneFailed => "Failed to clone repository:"@,
        Notice::StripFailed => "Failed to remove .git directory:"@,
        Notice::ManifestUpdated => "Updated Cargo.toml with project name"@,
        Notice::ManifestUnreadable => "Could not read Cargo.toml from template"@,
        Notice::ManifestWriteFailed => "Failed to update Cargo.toml:"@,
        Notice::BuildStarted => "Running initial `cargo build`..."@,
        Notice::BuildOk => "Project created successfully!"@,
        Notice::BuildFailed => "`cargo build` failed. Check your template's dependencies."@,
        Notice::BuildToolMissing => "Failed to run `cargo build`. Is Cargo installed?"@,
    }
}

/// The text to print for `n`.
pub fn notice_text(n: &Notice) -> (s: String)
    ensures
        s@ == spec_notice_text(*n),
{
    match n {
        Notice::EmptyName => "Project name cannot be empty!".to_owned(),
        Notice::InvalidName => "Invalid project name! Use only lowercase letters, numbers, hyphens, and underscores.".to_owned(),
        Notice::CloneOk => "Template cloned successfully!".to_owned(),
        Notice::CloneFailed => "Failed to clone repository:".to_owned(),
        Notice::StripFailed => "Failed to remove .git directory:".to_owned(),
        Notice::ManifestUpdated => "Updated Cargo.toml with project name".to_owned(),
        Notice::ManifestUnreadable => "Could not read Cargo.toml from template".to_owned(),
        Notice::ManifestWriteFailed => "Failed to update Cargo.toml:".to_owned(),
        Notice::BuildStarted => "Running initial `cargo build`...".to_owned(),
        Notice::BuildOk => "Project created successfully!".to_owned(),
        Notice::BuildFailed => "`cargo build` failed. Check your template's dependencies.".to_owned(),
        Notice::BuildToolMissing => "Failed to run `cargo build`. Is Cargo installed?".to_owned(),
    }
}

/// The notice for a turned-down name: one text for an empty name, another for
/// an ill-formed one.
pub fn name_error_notice(e: &NameError) -> (n: Notice)
    ensures
        n == if *e == NameError::Empty {
            Notice::EmptyName
        } else {
            Notice::InvalidName
        },
{
    match e {
        NameError::Empty => Notice::EmptyName,
        NameError::Invalid => Notice::InvalidName,
    }
}

/// What the build subprocess did, as the driver sees it: it ran and succeeded,
/// it ran and failed, or it could not be started at all.
#[derive(Clone, Copy, Debug, PartialEq, Eq, Structural)]
pub enum BuildOutcome {
    Succeeded,
    Failed,
    NotLaunched,
}

/// The notice for each build outcome: a distinct one per case, so a missing
/// build tool reads differently from a failed build.
pub fn build_notice(outcome: &BuildOutcome) -> (n: Notice)
    ensures
        n == match *outcome {
            BuildOutcome::Succeeded => Notice::BuildOk,
            BuildOutcome::Failed => Notice::BuildFailed,
            BuildOutcome::NotLaunched => Notice::BuildToolMissing,
        },
{
    match outcome {
        BuildOutcome::Succeeded => Notice::BuildOk,
        BuildOutcome::Failed => Notice::BuildFailed,
        BuildOutcome::NotLaunched => Notice::BuildToolMissing,
    }
}

/// The complaint about an empty name differs from the one about an ill-formed
/// name, and the complaint about a failed build differs from the one about a
/// missing build tool.
pub proof fn lemma_notices_distinct()
    ensures
        spec_notice_text(Notice::EmptyName) != spec_notice_text(Notice::InvalidName),
        spec_notice_text(Notice::BuildFailed) != spec_notice_text(Notice::BuildToolMissing),
{
    reveal_strlit("Project name cannot be empty!");
    reveal_strlit("Invalid project name! Use only lowercase letters, numbers, hyphens, and underscores.");
    reveal_strlit("`cargo build` failed. Check your template's dependencies.");
    reveal_strlit("Failed to run `cargo build`. Is Cargo installed?");
    assert(spec_notice_text(Notice::EmptyName).len() != spec_notice_text(
        Notice::InvalidName,
    ).len());
    assert(spec_notice_text(Notice::BuildFailed).len() != spec_notice_text(
        Notice::BuildToolMissing,
    ).len());
}

} // verus!
