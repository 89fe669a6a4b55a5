//! The order of the steps that check a fix once its target pod exists: wait for the
//! target, upload the artifact, fetch and upload the fix script, run it, start the
//! tester, wait for it, read its logs, delete it, judge, and clean the target up.
//! The caller performs each action and hands back what came of it.
use vstd::prelude::*;
use crate::fix::{fix_script_failed, fix_upload_failed, fix_verdict, fix_verdict_spec};

verus! {

/// What a fix check came to: a verdict with its message, or an error that stopped it.
#[derive(Debug, PartialEq, Eq)]
pub enum FixOutcome {
    Verdict(bool, String),
    Error(String),
}

/// How the tester pod ended: finished in a phase (if it reported one), or the wait failed.
#[derive(Debug, PartialEq, Eq)]
pub enum TesterEnd {
    Finished(Option<String>),
    Failed(String),
}

/// Where a fix check stands: the step whose result is awaited next.
#[derive(Debug, PartialEq, Eq)]
pub enum FixStage {
    WaitTarget,
    UploadArtifact,
    FetchScript,
    UploadScript,
    RunScript,
    CreateTester,
    AwaitTester,
    ReadLogs(TesterEnd),
    DeleteTester(TesterEnd, String),
    Cleanup(FixOutcome),
    Done(FixOutcome),
}

/// What the caller does next.
#[derive(Debug, PartialEq, Eq, Clone, Copy)]
pub enum FixAction {
    WaitTarget,
    UploadArtifact,
    FetchScript,
    UploadScript,
    RunScript,
    CreateTester,
    AwaitTester,
    ReadLogs,
    DeleteTester,
    /// Delete the target's service and pod and the uploaded files.
    Cleanup,
    /// Report the outcome held by the `Done` stage.
    Finish,
}

/// What came of the last action.
#[derive(Debug, PartialEq, Eq)]
pub enum FixEvent {
    /// The step finished.
    Completed,
    /// An upload or the fix script ran on the target and reported failure.
    Refused { stderr: String, reason: Option<String> },
    /// The tester finished in this phase.
    Phase(Option<String>),
    /// The tester's logs.
    Logs(String),
    /// The step raised this error.
    Failed(String),
}

pub open spec fn opt_view(o: Option<String>) -> Option<Seq<char>> {
    match o {
        Some(s) => Some(s@),
        None => None,
    }
}

/// A step that either finishes or fails: a failure goes to cleanup with its error.
pub open spec fn plain_step(
    event: FixEvent,
    ok_stage: FixStage,
    ok_action: FixAction,
    next: FixStage,
    action: FixAction,
) -> bool {
    match event {
        FixEvent::Failed(e) => next == FixStage::Cleanup(FixOutcome::Error(e)) && action
            == FixAction::Cleanup,
        _ => next == ok_stage && action == ok_action,
    }
}

/// An upload: a refusal ends the check with a rejection naming the file and the error
/// output.
pub open spec fn upload_step(
    event: FixEvent,
    what: Seq<char>,
    ok_stage: FixStage,
    ok_action: FixAction,
    next: FixStage,
    action: FixAction,
) -> bool {
    match event {
        FixEvent::Refused { stderr, reason } => {
            &&& next matches FixStage::Cleanup(FixOutcome::Verdict(ok, m)) && !ok && m@
                == "failed to upload fix "@ + what + ": "@ + stderr@
            &&& action == FixAction::Cleanup
        },
        _ => plain_step(event, ok_stage, ok_action, next, action),
    }
}

/// One step of a fix check: the stage and action that follow `stage` once `event` came
/// back.
pub open spec fn fix_step_spec(
    stage: FixStage,
    event: FixEvent,
    result_env: Seq<char>,
    success_value: Seq<char>,
    next: FixStage,
    action: FixAction,
) -> bool {
    match stage {
        FixStage::WaitTarget => plain_step(
            event,
            FixStage::UploadArtifact,
            FixAction::UploadArtifact,
            next,
            action,
        ),
        FixStage::UploadArtifact => upload_step(
            event,
            "artifact"@,
            FixStage::FetchScript,
            FixAction::FetchScript,
            next,
            action,
        ),
        FixStage::FetchScript => plain_step(
            event,
            FixStage::UploadScript,
            FixAction::UploadScript,
            next,
            action,
        ),
        FixStage::UploadScript => upload_step(
            event,
            "script"@,
            FixStage::RunScript,
            FixAction::RunScript,
            next,
            action,
        ),
        FixStage::RunScript => match event {
            FixEvent::Refused { stderr, reason } => {
                &&& next matches FixStage::Cleanup(FixOutcome::Verdict(ok, m)) && !ok && m@
                    == "fix script failed: "@ + stderr@ + match reason {
                    Some(x) => " ("@ + x@ + ")"@,
                    None => Seq::<char>::empty(),
                }
                &&& action == FixAction::Cleanup
            },
            _ => plain_step(event, FixStage::CreateTester, FixAction::CreateTester, next, action),
        },
        FixStage::CreateTester => plain_step(
            event,
            FixStage::AwaitTester,
            FixAction::AwaitTester,
            next,
            action,
        ),
        FixStage::AwaitTester => action == FixAction::ReadLogs && match event {
            FixEvent::Failed(e) => next == FixStage::ReadLogs(TesterEnd::Failed(e)),
            FixEvent::Phase(p) => next == FixStage::ReadLogs(TesterEnd::Finished(p)),
            _ => next == FixStage::ReadLogs(TesterEnd::Finished(None)),
        },
        FixStage::ReadLogs(t) => action == FixAction::DeleteTester && match event {
            FixEvent::Logs(l) => next == FixStage::DeleteTester(t, l),
            _ => next matches FixStage::DeleteTester(t2, l) && t2 == t && l@.len() == 0,
        },
        FixStage::DeleteTester(t, logs) => action == FixAction::Cleanup && match t {
            TesterEnd::Failed(e) => next == FixStage::Cleanup(FixOutcome::Error(e)),
            TesterEnd::Finished(p) => next matches FixStage::Cleanup(FixOutcome::Verdict(ok, m))
                && (ok, m@) == fix_verdict_spec(opt_view(p), logs@, result_env, success_value),
        },
        FixStage::Cleanup(o) => next == FixStage::Done(o) && action == FixAction::Finish,
        FixStage::Done(o) => next == FixStage::Done(o) && action == FixAction::Finish,
    }
}

fn plain_step_exec(event: FixEvent, ok_stage: FixStage, ok_action: FixAction) -> (r: (
    FixStage,
    FixAction,
))
    ensures
        plain_step(event, ok_stage, ok_action, r.0, r.1),
{
    match event {
        FixEvent::Failed(e) => (FixStage::Cleanup(FixOutcome::Error(e)), FixAction::Cleanup),
        _ => (ok_stage, ok_action),
    }
}

fn upload_step_exec(event: FixEvent, what: &str, ok_stage: FixStage, ok_action: FixAction) -> (r: (
    FixStage,
    FixAction,
))
    ensures
        upload_step(event, what@, ok_stage, ok_action, r.0, r.1),
{
    match event {
        FixEvent::Refused { stderr, reason } => {
            let (ok, m) = fix_upload_failed(what, stderr.as_str());
            (FixStage::Cleanup(FixOutcome::Verdict(ok, m)), FixAction::Cleanup)
        },
        _ => plain_step_exec(event, ok_stage, ok_action),
    }
}

/// Where a fix check begins, once its target pod exists: wait for the target to run.
pub fn fix_check_start() -> (r: (FixStage, FixAction))
    ensures
        r.0 == FixStage::WaitTarget,
        r.1 == FixAction::WaitTarget,
{
    (FixStage::WaitTarget, FixAction::WaitTarget)
}

/// Advances a fix check by one step.
pub fn fix_check_step(stage: FixStage, event: FixEvent, result_env: &str, success_value: &str) -> (r: (
    FixStage,
    FixAction,
))
    ensures
        fix_step_spec(stage, event, result_env@, success_value@, r.0, r.1),
{
    match stage {
        FixStage::WaitTarget => plain_step_exec(
            event,
            FixStage::UploadArtifact,
            FixAction::UploadArtifact,
        ),
        FixStage::UploadArtifact => {
            proof {
                reveal_strlit("artifact");
            }
            upload_step_exec(event, "artifact", FixStage::FetchScript, FixAction::FetchScript)
        },
        FixStage::FetchScript => plain_step_exec(event, FixStage::UploadScript, FixAction::UploadScript),
        FixStage::UploadScript => {
            proof {
                reveal_strlit("script");
            }
            upload_step_exec(event, "script", FixStage::RunScript, FixAction::RunScript)
        },
        FixStage::RunScript => match event {
            FixEvent::Refused { stderr, reason } => {
                let (ok, m) = match &reason {
                    Some(x) => fix_script_failed(stderr.as_str(), Some(x.as_str())),
                    None => fix_script_failed(stderr.as_str(), None),
                };
                (FixStage::Cleanup(FixOutcome::Verdict(ok, m)), FixAction::Cleanup)
            },
            _ => plain_step_exec(event, FixStage::CreateTester, FixAction::CreateTester),
        },
        FixStage::CreateTester => plain_step_exec(event, FixStage::AwaitTester, FixAction::AwaitTester),
        FixStage::AwaitTester => match event {
            FixEvent::Failed(e) => (FixStage::ReadLogs(TesterEnd::Failed(e)), FixAction::ReadLogs),
            FixEvent::Phase(p) => (FixStage::ReadLogs(TesterEnd::Finished(p)), FixAction::ReadLogs),
            _ => (FixStage::ReadLogs(TesterEnd::Finished(None)), FixAction::ReadLogs),
        },
        FixStage::ReadLogs(t) => match event {
            FixEvent::Logs(l) => (FixStage::DeleteTester(t, l), FixAction::DeleteTester),
            _ => (FixStage::DeleteTester(t, String::new()), FixAction::DeleteTester),
        },
        FixStage::DeleteTester(t, logs) => match t {
            TesterEnd::Failed(e) => (FixStage::Cleanup(FixOutcome::Error(e)), FixAction::Cleanup),
            TesterEnd::Finished(p) => {
                let (ok, m) = match &p {
                    Some(x) => fix_verdict(Some(x.as_str()), logs.as_str(), result_env, success_value),
                    None => fix_verdict(None, logs.as_str(), result_env, success_value),
                };
                (FixStage::Cleanup(FixOutcome::Verdict(ok, m)), FixAction::Cleanup)
            },
        },
        FixStage::Cleanup(o) => (FixStage::Done(o), FixAction::Finish),
        FixStage::Done(o) => (FixStage::Done(o), FixAction::Finish),
    }
}

/// How many steps a check at `stage` has left at most before it is done.
pub open spec fn steps_left(stage: FixStage) -> nat {
    match stage {
        FixStage::WaitTarget => 10,
        FixStage::UploadArtifact => 9,
        FixStage::FetchScript => 8,
        FixStage::UploadScript => 7,
        FixStage::RunScript => 6,
        FixStage::CreateTester => 5,
        FixStage::AwaitTester => 4,
        FixStage::ReadLogs(_) => 3,
        FixStage::DeleteTester(_, _) => 2,
        FixStage::Cleanup(_) => 1,
        FixStage::Done(_) => 0,
    }
}

/// Every fix check ends, and ends through cleanup: each step before the end brings the
/// check closer to it whatever came back; the check is done only right after cleanup,
/// which keeps the outcome that was decided; and nothing but reporting follows cleanup.
pub proof fn lemma_fix_check_ends_through_cleanup(
    stage: FixStage,
    event: FixEvent,
    result_env: Seq<char>,
    success_value: Seq<char>,
    next: FixStage,
    action: FixAction,
)
    requires
        fix_step_spec(stage, event, result_env, success_value, next, action),
        !(stage is Done),
    ensures
        steps_left(next) < steps_left(stage),
        next is Done ==> stage is Cleanup,
        next is Cleanup ==> action == FixAction::Cleanup,
        stage matches FixStage::Cleanup(o) ==> next == FixStage::Done(o),
        stage is Cleanup ==> action == FixAction::Finish,
{
}

/// Once the tester pod has been created, it is deleted on every path: whatever the wait,
/// the logs and the deletion bring, the next actions are wait, read logs, delete the
/// tester, and only then clean up the target.
pub proof fn lemma_tester_always_deleted(
    e0: FixEvent,
    e1: FixEvent,
    e2: FixEvent,
    e3: FixEvent,
    result_env: Seq<char>,
    success_value: Seq<char>,
    s0: FixStage,
    a0: FixAction,
    s1: FixStage,
    a1: FixAction,
    s2: FixStage,
    a2: FixAction,
    s3: FixStage,
    a3: FixAction,
)
    requires
        !(e0 is Failed),
        fix_step_spec(FixStage::CreateTester, e0, result_env, success_value, s0, a0),
        fix_step_spec(s0, e1, result_env, success_value, s1, a1),
        fix_step_spec(s1, e2, result_env, success_value, s2, a2),
        fix_step_spec(s2, e3, result_env, success_value, s3, a3),
    ensures
        a0 == FixAction::AwaitTester,
        a1 == FixAction::ReadLogs,
        a2 == FixAction::DeleteTester,
        a3 == FixAction::Cleanup,
        s3 is Cleanup,
{
}

/// A step that fails before the tester exists ends the check with that very error, and
/// the target is cleaned up next.
pub proof fn lemma_early_failure_cleans_up(
    stage: FixStage,
    e: String,
    result_env: Seq<char>,
    success_value: Seq<char>,
    next: FixStage,
    action: FixAction,
)
    requires
        steps_left(stage) >= 5,
        fix_step_spec(stage, FixEvent::Failed(e), result_env, success_value, next, action),
    ensures
        next == FixStage::Cleanup(FixOutcome::Error(e)),
        action == FixAction::Cleanup,
{
}

} // verus!
