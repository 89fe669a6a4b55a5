use r2s_server::cluster::{ChallengeEnv, ImageSpec};
use r2s_server::koh::{
    agent_api_key, agent_identifier, check_due, check_hill_start, check_interval,
    check_koh_reconfig, event_limit, identifier_applies, identifier_exhausted, infer_agent_port,
    internal_status_url, is_active, koh_mode_name, koh_tick, mint_identifier, parse_ports,
    resolve_status_url, validate_koh_config, AgentData, AgentResponse, KohConfig, KohMode,
};
use r2s_server::koh_round::{
    decide_hold, gate_message, hold_notes, hold_status_name, new_holder, plan_round, round_gate,
    round_summary, HoldStatus, RoundGate,
};
use r2s_server::ranking::{normalize_round_rank, sort_entries, RankEntry, RankReport, RoundRankResponse};
use r2s_server::scoreboard::{koh_scoreboard, KohAwardRow};
use r2s_server::labels::{
    awd_labels, fix_target_annotations, fix_target_labels, fix_tester_env, fix_tester_labels,
    hill_annotations, hill_env, hill_labels, instance_annotations, instance_labels, percentages_text,
};

fn config(mode: KohMode) -> KohConfig {
    KohConfig {
        enabled: true,
        mode,
        interval_secs: 30,
        round_secs: 300,
        reward: 100,
        rank_count: 3,
        rank_percentages: vec![100, 50, 25],
        timeout_secs: 5,
        total_rounds: 0,
        status_path: "/status".to_owned(),
        status_url: None,
        agent_port: None,
        target_port: None,
        api_key: None,
        auto_start: false,
    }
}

fn env(ports: &[Option<u16>]) -> ChallengeEnv {
    ChallengeEnv {
        internet: false,
        restricted: false,
        privileged: false,
        images: ports.iter().map(|p| ImageSpec { name: "hill".to_owned(), port: *p }).collect(),
        pull_secret: None,
    }
}

#[test]
fn koh_config_rules() {
    assert!(validate_koh_config(&config(KohMode::AgentHttp)).is_ok());
    assert_eq!(
        validate_koh_config(&config(KohMode::GameElo)).unwrap_err().message(),
        "KoH game_elo mode is not implemented yet"
    );
    let mut c = config(KohMode::RoundRankHttp);
    c.rank_percentages = vec![100, 50];
    assert_eq!(
        validate_koh_config(&c).unwrap_err().message(),
        "KoH rank percentages must cover every scored team"
    );
    let mut c = config(KohMode::RoundRankHttp);
    c.rank_percentages = vec![100, 150, 25];
    assert_eq!(
        validate_koh_config(&c).unwrap_err().message(),
        "KoH rank percentages must be between 0 and 100"
    );
    let mut c = config(KohMode::AgentHttp);
    c.status_path = " ".to_owned();
    assert_eq!(validate_koh_config(&c).unwrap_err().message(), "KoH status path cannot be empty");
}

#[test]
fn status_url_and_ports() {
    assert_eq!(
        internal_status_url("hill-1", 8080, "status"),
        "http://hill-1.ret2shell-challenge.svc:8080/status"
    );
    let c = config(KohMode::AgentHttp);
    assert_eq!(infer_agent_port(&c, &env(&[None, Some(9000)])), Some(9000));
    assert_eq!(
        resolve_status_url(&c, Some(&env(&[Some(9000)])), Some(Some("hill"))).unwrap(),
        "http://hill.ret2shell-challenge.svc:9000/status"
    );
    assert_eq!(
        resolve_status_url(&c, None, None).unwrap_err().message(),
        "KoH requires status_url or an online environment"
    );
    assert_eq!(
        resolve_status_url(&c, Some(&env(&[Some(1)])), None).unwrap_err().message(),
        "KoH hill is not running yet"
    );
    let mut c2 = config(KohMode::AgentHttp);
    c2.status_url = Some("http://agent/".to_owned());
    assert_eq!(resolve_status_url(&c2, None, None).unwrap(), "http://agent/");
    assert_eq!(parse_ports("80,x,443,,70000,22"), vec![80, 443, 22]);
    assert_eq!(parse_ports(""), Vec::<u16>::new());
}

#[test]
fn check_timing() {
    assert_eq!(check_interval(&config(KohMode::RoundRankHttp)), 300);
    assert_eq!(check_interval(&config(KohMode::AgentHttp)), 30);
    assert!(check_due(false, None, 30));
    assert!(!check_due(false, Some(10), 30));
    assert!(check_due(false, Some(30), 30));
    assert!(check_due(true, Some(1), 30));
    assert_eq!(koh_tick(100, 30), 3);
    assert!(is_active(true, false, false, false, Some(5), Some(20), 10));
    assert!(!is_active(true, false, false, false, Some(15), None, 10));
    assert!(!is_active(true, false, false, false, None, Some(10), 10));
    assert!(!is_active(true, true, false, false, None, None, 10));
}

#[test]
fn hill_rules() {
    assert_eq!(check_hill_start(None, None).unwrap_err().message(), "KoH config is not set");
    let mut off = config(KohMode::AgentHttp);
    off.enabled = false;
    assert_eq!(check_hill_start(Some(&off), None).unwrap_err().message(), "KoH is disabled");
    let c = config(KohMode::AgentHttp);
    assert_eq!(
        check_hill_start(Some(&c), None).unwrap_err().message(),
        "KoH shared hill requires an online environment"
    );
    assert_eq!(
        check_hill_start(Some(&c), Some(&env(&[None]))).unwrap_err().message(),
        "KoH shared hill requires at least one service port"
    );
    assert!(check_hill_start(Some(&c), Some(&env(&[Some(1)]))).is_ok());
    let mut changed = config(KohMode::AgentHttp);
    changed.interval_secs = 60;
    assert_eq!(
        check_koh_reconfig(Some(&c), &changed, true).unwrap_err().message(),
        "cannot change KoH interval/round length after scoring has started"
    );
    assert!(check_koh_reconfig(Some(&c), &changed, false).is_ok());
    assert_eq!(koh_mode_name(KohMode::RoundRankHttp), "round_rank_http");
    assert!(identifier_applies(Some(1), 1));
    assert!(!identifier_applies(Some(2), 1));
    let id = mint_identifier();
    assert_eq!(id.len(), 20);
    assert!(id.starts_with("koh_"));
    assert_ne!(mint_identifier(), id);
    assert_eq!(identifier_exhausted().message(), "failed to allocate a unique KoH identifier");
    assert_eq!(event_limit(None), 50);
    assert_eq!(event_limit(Some(0)), 1);
    assert_eq!(event_limit(Some(500)), 200);
}

#[test]
fn agent_answers() {
    let r = AgentResponse {
        success: Some(false),
        message: None,
        identifier: None,
        data: None,
    };
    assert_eq!(agent_identifier(&r).unwrap_err(), "KoH agent returned success=false");
    let r = AgentResponse {
        success: None,
        message: None,
        identifier: Some("top".to_owned()),
        data: Some(AgentData { identifier: Some("  inner ".to_owned()) }),
    };
    assert_eq!(agent_identifier(&r).unwrap(), Some("inner".to_owned()));
    let r = AgentResponse { success: Some(true), message: None, identifier: Some("   ".to_owned()), data: None };
    assert_eq!(agent_identifier(&r).unwrap(), None);
    let mut c = config(KohMode::AgentHttp);
    assert_eq!(agent_api_key(&c), None);
    c.api_key = Some(String::new());
    assert_eq!(agent_api_key(&c), None);
    c.api_key = Some("k".to_owned());
    assert_eq!(agent_api_key(&c), Some("k".to_owned()));
}

#[test]
fn rounds_and_holds() {
    assert_eq!(round_gate(None, 0, 0), (0, RoundGate::Pending));
    assert_eq!(round_gate(Some(5), 9, 3), (5, RoundGate::Completed));
    assert_eq!(round_gate(Some(2), 9, 3), (2, RoundGate::Open));
    assert_eq!(gate_message(0, RoundGate::Pending), Some("no completed KoH round is available yet".to_owned()));
    assert_eq!(gate_message(5, RoundGate::Completed), Some("round 5 is beyond configured total rounds".to_owned()));
    let d = decide_hold(true, Some(7), None, 10, Some(7));
    assert_eq!(d.status, HoldStatus::Awarded);
    assert_eq!(d.award_to, Some(7));
    let d = decide_hold(true, Some(7), Some(3), 10, Some(3));
    assert_eq!(d.status, HoldStatus::Captured);
    assert!(d.revoke_existing);
    let d = decide_hold(true, Some(7), Some(7), 10, Some(7));
    assert_eq!(d.status, HoldStatus::Held);
    assert_eq!(d.award_to, None);
    let d = decide_hold(true, None, None, 10, None);
    assert_eq!(hold_notes(d.status).0, Some("unknown identifier".to_owned()));
    assert_eq!(decide_hold(false, None, None, 10, None).status, HoldStatus::Empty);
    assert_eq!(hold_status_name(HoldStatus::Held), "held");
}

fn report(id: &str, rank: Option<i32>) -> RankReport {
    RankReport { identifier: id.to_owned(), rank, score: None, metric: None, message: None }
}

#[test]
fn ranking_plan_credits_each_team_once() {
    let resp = RoundRankResponse {
        success: Some(true),
        data: None,
        round: Some(4),
        tick: None,
        rankings: Some(vec![report("b", Some(2)), report("a", Some(1)), report(" ", None), report("c", Some(3))]),
        identifiers: None,
        message: None,
    };
    let check = normalize_round_rank(&resp).unwrap();
    assert_eq!(check.round, Some(4));
    let ids: Vec<String> = check.rankings.iter().map(|e| e.identifier.clone()).collect();
    assert_eq!(ids, vec!["b", "a", "c"]);
    let entries: Vec<RankEntry> = sort_entries(check.rankings);
    let ids: Vec<String> = entries.iter().map(|e| e.identifier.clone()).collect();
    assert_eq!(ids, vec!["a", "b", "c"]);
    let owners = vec![Some(1), Some(1), None];
    let already = vec![false, false, false];
    let plan = plan_round(&entries, &owners, &already, 100, 3, &vec![100, 50, 25], 4);
    assert_eq!(plan.awards.len(), 1);
    assert_eq!(plan.awards[0].team_id, 1);
    assert_eq!(plan.awards[0].score, 100);
    assert_eq!(plan.skipped, vec!["duplicate team 1".to_owned(), "unknown identifier c".to_owned()]);
    let summary = round_summary(&plan, 4);
    assert_eq!(summary.status, "round_awarded");
    assert_eq!(summary.message, "round 4: awarded 1 team(s)");
    assert_eq!(summary.score_delta, 100);
}

#[test]
fn hill_goes_to_the_best_ranked_identifier() {
    let resp = RoundRankResponse {
        success: Some(true),
        data: None,
        round: Some(4),
        tick: None,
        rankings: Some(vec![report("b", Some(2)), report("a", Some(1)), report("c", Some(3))]),
        identifiers: None,
        message: None,
    };
    let entries = sort_entries(normalize_round_rank(&resp).unwrap().rankings);
    assert_eq!(new_holder(&entries, Some(7)), (Some("a".to_owned()), Some(7)));
    assert_eq!(new_holder(&entries, None), (Some("a".to_owned()), None));
    assert_eq!(new_holder(&vec![], Some(7)), (None, None));
}

#[test]
fn scoreboard_orders_and_sums() {
    let row = |team_id: i64, score: i32, at: i64| KohAwardRow {
        team_id,
        team_name: Some(format!("t{team_id}")),
        score,
        created_at: at,
    };
    let rows = vec![row(1, 10, 5), row(2, 30, 1), row(1, 20, 9), row(3, 30, 0)];
    let board = koh_scoreboard(&rows);
    let got: Vec<(i64, i32, Option<i64>)> = board.iter().map(|l| (l.team_id, l.score, l.last_awarded_at)).collect();
    assert_eq!(got, vec![(3, 30, Some(0)), (2, 30, Some(1)), (1, 30, Some(9))]);
    let total: i32 = board.iter().map(|l| l.score).sum();
    assert_eq!(total, rows.iter().map(|r| r.score).sum::<i32>());
}

#[test]
fn environment_labels() {
    let pair = |k: &str, v: &str| (k.to_owned(), v.to_owned());
    assert_eq!(fix_target_labels(9, 2, None, 5, true)[4], pair("ret.sh.cn/fix-team", "0"));
    assert_eq!(fix_target_labels(9, 2, Some(3), 5, true)[6], pair("ret.sh.cn/fix-traffic", "fix-9"));
    assert_eq!(fix_target_annotations("c", "g", "a", "n", 8080)[4], pair("ret.sh.cn/ports", "8080"));
    assert_eq!(fix_tester_labels(9, 2, 5)[5], pair("ret.sh.cn/internet", "false"));
    assert_eq!(fix_tester_env("pod", 80, "RESULT")[2], pair("R2S_FIX_TARGET_URL", "http://pod:80"));
    assert_eq!(instance_labels(1, "0", 2, 3, "t", false)[5], pair("ret.sh.cn/internet", "false"));
    assert_eq!(instance_annotations("c", "wheel", "g", "a", "80,443")[5], pair("ret.sh.cn/ports", "80,443"));
    assert_eq!(awd_labels(1, 2, "t", true)[0], pair("ret.sh.cn/awd", "true"));
    assert_eq!(hill_labels(1, 2, "t", true)[1], pair("ret.sh.cn/koh-role", "hill"));
    assert_eq!(hill_annotations("c", "g", "80")[3], pair("ret.sh.cn/user", "ret2shell"));
    assert_eq!(percentages_text(&vec![100, 50, -5]), "100,50,-5");
    assert_eq!(percentages_text(&vec![]), "");
    let env = hill_env(1, 2, &config(KohMode::RoundRankHttp));
    assert_eq!(env[3], pair("R2S_KOH_MODE", "round_rank_http"));
    assert_eq!(env[9], pair("KOH_RANK_PERCENTAGES", "100,50,25"));
}

#[test]
fn koh_award_reasons() {
    assert_eq!(
        r2s_server::koh_round::hold_reason(3, "hill", 42),
        "KoH hold reward for challenge 3:hill at tick 42"
    );
    assert_eq!(
        r2s_server::koh_round::rank_reason(3, "hill", 5, 2, 50),
        "KoH rank reward for challenge 3:hill round 5 rank 2 (50%)"
    );
}

fn ranked(id: &str, rank: i32, position: usize) -> RankEntry {
    RankEntry { identifier: id.to_owned(), rank, metric: None, message: None, position }
}

#[test]
fn sort_keeps_input_order_among_equal_ranks() {
    let input = vec![ranked("x", 2, 0), ranked("y", 1, 5), ranked("z", 2, 0), ranked("w", 1, 1)];
    let ids: Vec<String> = sort_entries(input).iter().map(|e| e.identifier.clone()).collect();
    assert_eq!(ids, vec!["y", "w", "x", "z"]);
    assert!(sort_entries(vec![]).is_empty());
}

#[test]
fn already_credited_team_is_not_credited_again() {
    let entries = vec![ranked("a", 1, 0), ranked("b", 2, 1), ranked("c", 3, 2)];
    let owners = vec![Some(1), Some(2), Some(1)];
    let already = vec![true, false, true];
    let plan = plan_round(&entries, &owners, &already, 100, 3, &vec![100, 50, 25], 9);
    assert_eq!(plan.awards.len(), 1);
    assert_eq!(plan.awards[0].team_id, 2);
    assert_eq!(plan.awards[0].score, 50);
    assert_eq!(
        plan.skipped,
        vec!["team 1 already awarded for round 9".to_owned(), "duplicate team 1".to_owned()]
    );
}
