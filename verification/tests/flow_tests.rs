use scaffold::flow::{build_notice, name_error_notice, next_action, notice_text, severity_of};
use scaffold::flow::{BuildOutcome, Notice, Severity, Step};
use scaffold::name::NameError;

#[test]
fn a_failed_clone_halts_the_run() {
    assert_eq!(next_action(&Step::CloneTemplate, false), None);
}

#[test]
fn a_successful_clone_leads_to_history_stripping() {
    assert_eq!(
        next_action(&Step::CloneTemplate, true),
        Some(Step::StripHistory)
    );
}

#[test]
fn soft_failures_do_not_halt_the_run() {
    assert_eq!(
        next_action(&Step::StripHistory, false),
        Some(Step::PatchManifest)
    );
    assert_eq!(
        next_action(&Step::PatchManifest, false),
        Some(Step::RunBuild)
    );
}

#[test]
fn the_build_is_the_last_step() {
    assert_eq!(next_action(&Step::RunBuild, true), None);
    assert_eq!(next_action(&Step::RunBuild, false), None);
}

#[test]
fn step_severities() {
    assert_eq!(severity_of(&Step::CloneTemplate), Severity::Hard);
    assert_eq!(severity_of(&Step::StripHistory), Severity::Soft);
    assert_eq!(severity_of(&Step::PatchManifest), Severity::Soft);
    assert_eq!(severity_of(&Step::RunBuild), Severity::Terminal);
}

#[test]
fn name_errors_get_their_own_notices() {
    assert_eq!(name_error_notice(&NameError::Empty), Notice::EmptyName);
    assert_eq!(name_error_notice(&NameError::Invalid), Notice::InvalidName);
    assert_ne!(
        notice_text(&Notice::EmptyName),
        notice_text(&Notice::InvalidName)
    );
}

#[test]
fn empty_name_notice_text() {
    assert_eq!(
        notice_text(&Notice::EmptyName),
        "Project name cannot be empty!"
    );
}

#[test]
fn a_missing_build_tool_reads_differently_from_a_failed_build() {
    assert_eq!(
        build_notice(&BuildOutcome::NotLaunched),
        Notice::BuildToolMissing
    );
    assert_eq!(build_notice(&BuildOutcome::Failed), Notice::BuildFailed);
    assert_eq!(build_notice(&BuildOutcome::Succeeded), Notice::BuildOk);
    assert_eq!(
        notice_text(&Notice::BuildToolMissing),
        "Failed to run `cargo build`. Is Cargo installed?"
    );
    assert_ne!(
        notice_text(&Notice::BuildToolMissing),
        notice_text(&Notice::BuildFailed)
    );
}
