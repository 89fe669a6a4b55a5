use r2s_server::cluster::{ChallengeEnv, ImageSpec};
use r2s_server::fix::{
    attempts_remaining, check_fix_submit, count_fix_attempts, fix_blood_reason, fix_blood_state,
    fix_check_failed, fix_command, fix_scores, fix_script_failed, fix_submission_payload,
    fix_target_url, fix_tester_name, fix_upload_failed, fix_verdict, frame_fix_submission,
    is_fix_submission, parse_fix_result, plan_fix_target, shell_quote, validate_fix_config,
    fix_already_processed, row_is_charged, FixConfig, SubmissionRow, FIX_CHECKER_INTERNAL_ERROR, FIX_SUBMISSION_PREFIX,
};
use r2s_server::paths::{fix_upload_dir, fix_upload_path};

fn config() -> FixConfig {
    FixConfig {
        enabled: true,
        max_attempts: 3,
        fix_script: "fix.sh".to_owned(),
        upload_path: "/app/bin".to_owned(),
        timeout_secs: 60,
        result_env: "RESULT".to_owned(),
        success_value: "ok".to_owned(),
        tester: Some(ImageSpec { name: "tester".to_owned(), port: None }),
        target_port: None,
        target_container: None,
    }
}

#[test]
fn framing_round_trips() {
    let content = frame_fix_submission("{\"token\":\"t\"}");
    assert_eq!(content, format!("{}{}", FIX_SUBMISSION_PREFIX, "{\"token\":\"t\"}"));
    assert!(is_fix_submission(Some(&content)));
    assert_eq!(fix_submission_payload(Some(&content)), Some("{\"token\":\"t\"}".to_owned()));
    assert!(!is_fix_submission(Some("flag{x}")));
    assert!(!is_fix_submission(None));
    assert_eq!(fix_submission_payload(Some("flag{x}")), None);
}

#[test]
fn shell_quote_escapes_single_quotes() {
    assert_eq!(shell_quote("abc"), "'abc'");
    assert_eq!(shell_quote("it's"), "'it'\"'\"'s'");
    assert_eq!(shell_quote(""), "''");
}

#[test]
fn parse_fix_result_takes_last_report() {
    let logs = "start\nRESULT=failed\n  RESULT = x\nRESULT=  ok  \r\nbye\n";
    assert_eq!(parse_fix_result(logs, "RESULT"), Some("ok".to_owned()));
    assert_eq!(parse_fix_result("nothing here", "RESULT"), None);
    assert_eq!(parse_fix_result("", "RESULT"), None);
    assert_eq!(parse_fix_result("RESULT=", "RESULT"), Some(String::new()));
}

#[test]
fn fix_command_quotes_everything() {
    assert_eq!(
        fix_command("/app/bin", "a b"),
        "chmod +x '/tmp/ret2shell-fix/fix.sh' && R2S_FIX_UPLOAD='/app/bin' R2S_FIX_ORIGINAL_NAME='a b' R2S_FIX_WORKDIR=/tmp/ret2shell-fix '/tmp/ret2shell-fix/fix.sh'"
    );
}

#[test]
fn fix_verdict_accepts_only_success() {
    let (ok, msg) = fix_verdict(Some("Succeeded"), "RESULT=ok\n", "RESULT", "ok");
    assert!(ok);
    assert_eq!(msg, "fix accepted");
    let (ok, msg) = fix_verdict(Some("Failed"), "RESULT=ok\n", "RESULT", "ok");
    assert!(!ok);
    assert_eq!(msg, "fix rejected: tester status=Failed, RESULT=ok");
    let (ok, msg) = fix_verdict(None, "", "RESULT", "ok");
    assert!(!ok);
    assert_eq!(msg, "fix rejected: tester status=Unknown, RESULT=<missing>");
}

#[test]
fn validate_fix_config_rules() {
    assert!(validate_fix_config(&config()).is_ok());
    let mut c = config();
    c.max_attempts = 0;
    assert_eq!(validate_fix_config(&c).unwrap_err().message(), "max attempts must be greater than zero");
    let mut c = config();
    c.fix_script = "  ".to_owned();
    assert_eq!(validate_fix_config(&c).unwrap_err().message(), "fix script cannot be empty");
    let mut c = config();
    c.upload_path = "relative".to_owned();
    assert_eq!(validate_fix_config(&c).unwrap_err().message(), "upload path must be an absolute path");
    let mut c = config();
    c.timeout_secs = 9;
    assert_eq!(validate_fix_config(&c).unwrap_err().message(), "timeout must be at least 10 seconds");
    let mut c = config();
    c.result_env = String::new();
    assert_eq!(validate_fix_config(&c).unwrap_err().message(), "result env cannot be empty");
    let mut c = config();
    c.success_value = " ".to_owned();
    assert_eq!(validate_fix_config(&c).unwrap_err().message(), "success value cannot be empty");
    let mut c = config();
    c.tester = None;
    assert_eq!(
        validate_fix_config(&c).unwrap_err().message(),
        "tester image is required when fix is enabled"
    );
    let mut c = config();
    c.enabled = false;
    c.max_attempts = 0;
    assert!(validate_fix_config(&c).is_ok());
}

#[test]
fn attempts_remaining_saturates() {
    assert_eq!(attempts_remaining(&Some(config()), 1), Some(2));
    assert_eq!(attempts_remaining(&Some(config()), 5), Some(0));
    let mut c = config();
    c.enabled = false;
    assert_eq!(attempts_remaining(&Some(c), 1), None);
    assert_eq!(attempts_remaining(&None, 1), None);
}

fn row(id: i64, content: Option<&str>) -> SubmissionRow {
    SubmissionRow { id, content: content.map(str::to_owned), result: None }
}

fn judged(id: i64, content: &str, result: &str) -> SubmissionRow {
    SubmissionRow { id, content: Some(content.to_owned()), result: Some(result.to_owned()) }
}

#[test]
fn attempts_count_the_union() {
    let fix = frame_fix_submission("{}");
    let user = vec![row(1, Some(&fix)), row(2, Some("flag{x}")), row(3, Some(&fix))];
    let team = vec![row(3, Some(&fix)), row(4, Some(&fix)), row(5, None)];
    assert_eq!(count_fix_attempts(&user, Some(&team)), 3);
    assert_eq!(count_fix_attempts(&user, None), 2);
    assert_eq!(count_fix_attempts(&vec![], None), 0);
}

#[test]
fn checker_failures_use_no_attempt() {
    let fix = frame_fix_submission("{}");
    let failed = judged(7, &fix, FIX_CHECKER_INTERNAL_ERROR);
    assert!(!row_is_charged(&failed));
    assert!(row_is_charged(&judged(8, &fix, "fix accepted")));
    assert!(row_is_charged(&judged(9, &fix, "fix checker internal error")));
    let user = vec![row(1, Some(&fix)), failed];
    let team = vec![judged(7, &fix, FIX_CHECKER_INTERNAL_ERROR), judged(8, &fix, "incorrect")];
    assert_eq!(count_fix_attempts(&user, Some(&team)), 2);
    assert_eq!(count_fix_attempts(&vec![judged(7, &fix, FIX_CHECKER_INTERNAL_ERROR)], None), 0);
}

#[test]
fn submit_gate_order() {
    assert_eq!(
        check_fix_submit(&None, false, 0).unwrap_err().message(),
        "this challenge is not a fix challenge"
    );
    assert_eq!(check_fix_submit(&Some(config()), true, 0).unwrap_err().message(), "challenge already solved");
    assert_eq!(check_fix_submit(&Some(config()), false, 3).unwrap_err().message(), "fix attempts exhausted");
    assert!(check_fix_submit(&Some(config()), false, 2).is_ok());
}

fn env(ports: &[Option<u16>]) -> ChallengeEnv {
    ChallengeEnv {
        internet: false,
        restricted: false,
        privileged: false,
        images: ports.iter().map(|p| ImageSpec { name: "img".to_owned(), port: *p }).collect(),
        pull_secret: None,
    }
}

#[test]
fn target_port_planning() {
    let c = config();
    assert_eq!(plan_fix_target(&c, Some(&env(&[None, Some(8080)]))).unwrap(), 8080);
    let mut c2 = config();
    c2.target_port = Some(9000);
    assert_eq!(plan_fix_target(&c2, Some(&env(&[Some(80)]))).unwrap(), 9000);
    assert_eq!(
        plan_fix_target(&c, None).unwrap_err().message(),
        "fix challenge requires an online environment"
    );
    assert_eq!(
        plan_fix_target(&c, Some(&env(&[None]))).unwrap_err().message(),
        "fix challenge target requires at least one service port"
    );
    let mut c3 = config();
    c3.tester = None;
    assert_eq!(plan_fix_target(&c3, Some(&env(&[Some(1)]))).unwrap_err().message(), "fix tester image is required");
}

#[test]
fn fix_messages() {
    assert_eq!(fix_blood_state(1), Some(1));
    assert_eq!(fix_blood_state(4), None);
    assert!(fix_scores(true, true, false));
    assert!(!fix_scores(true, true, true));
    assert_eq!(fix_blood_reason(2, 7, "web"), "No.2 fix for challenge 7:web");
    assert_eq!(fix_check_failed("boom"), (false, "fix check failed: boom".to_owned()));
    assert_eq!(fix_script_failed("err", Some("OOM")), (false, "fix script failed: err (OOM)".to_owned()));
    assert_eq!(fix_script_failed("err", None), (false, "fix script failed: err".to_owned()));
    assert_eq!(fix_upload_failed("artifact", "x"), (false, "failed to upload fix artifact: x".to_owned()));
    assert_eq!(fix_tester_name(42), "ret2shell-fix-test-42");
    assert_eq!(fix_target_url("pod", 8080), "http://pod:8080");
}

#[test]
fn fix_upload_paths() {
    assert_eq!(fix_upload_dir("/tmp", "tok"), "/tmp/ret2shell/fix/tok");
    assert_eq!(fix_upload_path("/tmp/", "tok"), "/tmp/ret2shell/fix/tok/upload");
}

#[test]
fn internal_failures_are_marked() {
    assert_eq!(
        r2s_server::fix::fix_internal_failure(),
        (false, "fix checker internal error, incorrect.".to_owned())
    );
}

#[test]
fn processed_submissions_are_skipped() {
    assert!(!fix_already_processed(None, None));
    assert!(fix_already_processed(Some("fix accepted"), None));
    assert!(fix_already_processed(None, Some(false)));
    assert!(fix_already_processed(Some(""), Some(true)));
}
