use r2s_server::fix_check::{fix_check_start, fix_check_step, FixAction, FixEvent, FixOutcome, FixStage, TesterEnd};

fn step(stage: FixStage, event: FixEvent) -> (FixStage, FixAction) {
    fix_check_step(stage, event, "FIX_RESULT", "ok")
}

#[test]
fn accepted_fix_walks_every_step() {
    let (mut stage, first) = fix_check_start();
    assert_eq!(stage, FixStage::WaitTarget);
    assert_eq!(first, FixAction::WaitTarget);
    let mut actions = Vec::new();
    let events = vec![
        FixEvent::Completed,
        FixEvent::Completed,
        FixEvent::Completed,
        FixEvent::Completed,
        FixEvent::Completed,
        FixEvent::Completed,
        FixEvent::Phase(Some("Succeeded".to_owned())),
        FixEvent::Logs("starting\nFIX_RESULT=ok\n".to_owned()),
        FixEvent::Completed,
        FixEvent::Completed,
    ];
    for e in events {
        let (s, a) = step(stage, e);
        stage = s;
        actions.push(a);
    }
    assert_eq!(
        actions,
        vec![
            FixAction::UploadArtifact,
            FixAction::FetchScript,
            FixAction::UploadScript,
            FixAction::RunScript,
            FixAction::CreateTester,
            FixAction::AwaitTester,
            FixAction::ReadLogs,
            FixAction::DeleteTester,
            FixAction::Cleanup,
            FixAction::Finish,
        ]
    );
    assert_eq!(stage, FixStage::Done(FixOutcome::Verdict(true, "fix accepted".to_owned())));
}

#[test]
fn refused_artifact_upload_goes_to_cleanup() {
    let (s, a) = step(
        FixStage::UploadArtifact,
        FixEvent::Refused { stderr: "no space".to_owned(), reason: None },
    );
    assert_eq!(a, FixAction::Cleanup);
    assert_eq!(
        s,
        FixStage::Cleanup(FixOutcome::Verdict(
            false,
            "failed to upload fix artifact: no space".to_owned()
        ))
    );
    let (s, a) = step(s, FixEvent::Completed);
    assert_eq!(a, FixAction::Finish);
    assert_eq!(
        s,
        FixStage::Done(FixOutcome::Verdict(
            false,
            "failed to upload fix artifact: no space".to_owned()
        ))
    );
}

#[test]
fn refused_script_reports_reason() {
    let (s, _) = step(
        FixStage::UploadScript,
        FixEvent::Refused { stderr: "denied".to_owned(), reason: Some("x".to_owned()) },
    );
    assert_eq!(
        s,
        FixStage::Cleanup(FixOutcome::Verdict(false, "failed to upload fix script: denied".to_owned()))
    );
    let (s, a) = step(
        FixStage::RunScript,
        FixEvent::Refused { stderr: "boom".to_owned(), reason: Some("exit 2".to_owned()) },
    );
    assert_eq!(a, FixAction::Cleanup);
    assert_eq!(
        s,
        FixStage::Cleanup(FixOutcome::Verdict(false, "fix script failed: boom (exit 2)".to_owned()))
    );
}

#[test]
fn early_error_skips_the_tester() {
    let (s, a) = step(FixStage::WaitTarget, FixEvent::Failed("pod never ran".to_owned()));
    assert_eq!(a, FixAction::Cleanup);
    assert_eq!(s, FixStage::Cleanup(FixOutcome::Error("pod never ran".to_owned())));
    let (s, a) = step(FixStage::CreateTester, FixEvent::Failed("quota".to_owned()));
    assert_eq!(a, FixAction::Cleanup);
    assert_eq!(s, FixStage::Cleanup(FixOutcome::Error("quota".to_owned())));
}

#[test]
fn failed_tester_wait_still_deletes_tester() {
    let (s, a) = step(FixStage::AwaitTester, FixEvent::Failed("timeout".to_owned()));
    assert_eq!(a, FixAction::ReadLogs);
    assert_eq!(s, FixStage::ReadLogs(TesterEnd::Failed("timeout".to_owned())));
    let (s, a) = step(s, FixEvent::Failed("no logs".to_owned()));
    assert_eq!(a, FixAction::DeleteTester);
    assert_eq!(s, FixStage::DeleteTester(TesterEnd::Failed("timeout".to_owned()), String::new()));
    let (s, a) = step(s, FixEvent::Failed("already gone".to_owned()));
    assert_eq!(a, FixAction::Cleanup);
    assert_eq!(s, FixStage::Cleanup(FixOutcome::Error("timeout".to_owned())));
}

#[test]
fn rejected_fix_names_phase_and_value() {
    let s = FixStage::DeleteTester(
        TesterEnd::Finished(Some("Failed".to_owned())),
        "FIX_RESULT=bad".to_owned(),
    );
    let (s, a) = step(s, FixEvent::Completed);
    assert_eq!(a, FixAction::Cleanup);
    assert_eq!(
        s,
        FixStage::Cleanup(FixOutcome::Verdict(
            false,
            "fix rejected: tester status=Failed, FIX_RESULT=bad".to_owned()
        ))
    );
    let s = FixStage::DeleteTester(TesterEnd::Finished(None), String::new());
    let (s, _) = step(s, FixEvent::Completed);
    assert_eq!(
        s,
        FixStage::Cleanup(FixOutcome::Verdict(
            false,
            "fix rejected: tester status=Unknown, FIX_RESULT=<missing>".to_owned()
        ))
    );
}
