use r2s_server::awd::{
    already_stolen_answer, attack_accepted, attack_flag_hash, attack_precheck, attack_reason,
    attack_round, attack_value_plan, awd_pod_name, env_from, exploited_after, injection_command,
    injection_error, machine_address, round_awards, round_due, round_error_summary, round_of,
    sh_squote, sla_ok, validate_awd_config, AttackValue, AwdConfig, RoundRow, VictimRound,
};
use r2s_server::awdp::{
    award_cap_round, award_window_open, bonus_reason, check_awdp_fix_mode, first_solves,
    owed_rounds, status_round, validate_awdp_config, AwdpConfig, AwdpMode,
};
use r2s_server::cluster::ImageSpec;
use r2s_server::digest::sha256_hex;

fn config() -> AwdConfig {
    AwdConfig {
        enabled: true,
        image: ImageSpec { name: "img".to_owned(), port: Some(80) },
        internet: true,
        restricted: false,
        privileged: false,
        pull_secret: None,
        round_secs: 300,
        timeout_secs: 10,
        flag_path: "/flag".to_owned(),
        check_command: None,
        attack_reward: 100,
        sla_reward: 10,
        defense_reward: 5,
    }
}

#[test]
fn awd_config_rules() {
    assert!(validate_awd_config(&config()).is_ok());
    let mut c = config();
    c.round_secs = 0;
    assert_eq!(validate_awd_config(&c).unwrap_err().message(), "AWD round length must be greater than zero");
    let mut c = config();
    c.image.name = " ".to_owned();
    assert_eq!(validate_awd_config(&c).unwrap_err().message(), "AWD machine image is required");
    let mut c = config();
    c.flag_path = "flag".to_owned();
    assert_eq!(
        validate_awd_config(&c).unwrap_err().message(),
        "AWD flag path must be an absolute path (e.g. /flag)"
    );
    let mut c = config();
    c.flag_path = "/fl\nag".to_owned();
    assert_eq!(
        validate_awd_config(&c).unwrap_err().message(),
        "AWD flag path must not contain newlines or null bytes"
    );
    let mut c = config();
    c.flag_path = "  /flag  ".to_owned();
    assert!(validate_awd_config(&c).is_ok());
}

#[test]
fn squote_and_injection() {
    assert_eq!(sh_squote("a'b"), "'a'\\''b'");
    assert_eq!(injection_command("flag{x}", "/flag"), "printf '%s' 'flag{x}' > '/flag'");
}

#[test]
fn env_from_uses_the_image() {
    let e = env_from(&config());
    assert_eq!(e.images.len(), 1);
    assert_eq!(e.images[0].port, Some(80));
    assert!(e.internet);
}

#[test]
fn rounds_open_once() {
    assert_eq!(round_of(1000, 300), 3);
    assert_eq!(round_of(-1, 300), 0);
    assert_eq!(round_of(1000, 0), 1000);
    assert_eq!(round_due(1000, 300, 0), Some(3));
    assert_eq!(round_due(1000, 300, 3), None);
    assert_eq!(round_due(1200, 300, 3), Some(4));
    assert_eq!(attack_round(Some(5), 1000, 300), 5);
    assert_eq!(attack_round(Some(0), 1000, 300), 3);
    assert_eq!(attack_round(None, 1000, 300), 3);
}

#[test]
fn sla_and_awards() {
    assert!(sla_ok(true, None));
    assert!(!sla_ok(true, Some(false)));
    assert!(!sla_ok(false, Some(true)));
    let rows = vec![
        RoundRow { team_id: 1, sla_ok: true },
        RoundRow { team_id: 2, sla_ok: true },
        RoundRow { team_id: 3, sla_ok: false },
    ];
    let awards = round_awards(&rows, &vec![false, true, false], 10, 5, 7);
    let got: Vec<(i64, i32, String)> = awards.into_iter().map(|a| (a.team_id, a.score, a.reason)).collect();
    assert_eq!(
        got,
        vec![
            (1, 10, "AWD SLA up round 7".to_owned()),
            (1, 5, "AWD defense round 7".to_owned()),
            (2, 10, "AWD SLA up round 7".to_owned()),
        ]
    );
    assert!(round_awards(&rows, &vec![false, false, false], 0, 0, 7).is_empty());
}

#[test]
fn attack_judgement() {
    assert_eq!(attack_precheck(None, 1), Some((false, "not a current-round flag".to_owned())));
    let v = VictimRound { team_id: 2, round: 4, finalized: true };
    assert_eq!(attack_precheck(Some(&v), 1), Some((false, "this round has already been scored".to_owned())));
    let v = VictimRound { team_id: 1, round: 4, finalized: false };
    assert_eq!(attack_precheck(Some(&v), 1), Some((false, "cannot submit your own flag".to_owned())));
    let v = VictimRound { team_id: 2, round: 4, finalized: false };
    assert_eq!(attack_precheck(Some(&v), 1), None);
    assert_eq!(already_stolen_answer(), (true, "already stolen this round".to_owned()));
    assert_eq!(exploited_after(3, true), 3);
    assert_eq!(exploited_after(3, false), 4);
    assert_eq!(attack_reason(2, 4), "AWD attack: stole team 2's flag (round 4)");
    assert_eq!(attack_accepted(87), (true, "attack accepted (+87)".to_owned()));
}

#[test]
fn attack_value_bounds() {
    assert_eq!(attack_value_plan(100, 10, 1), AttackValue::Fixed(100));
    assert_eq!(attack_value_plan(100, 10, 10), AttackValue::Fixed(33));
    assert_eq!(attack_value_plan(-5, 10, 20), AttackValue::Fixed(1));
    assert_eq!(
        attack_value_plan(100, 10, 4),
        AttackValue::Curve { initial: 100, minimum: 33, exploited: 4, decay: 10 }
    );
}

#[test]
fn awd_hash_and_names() {
    assert_eq!(attack_flag_hash("  abc \n"), sha256_hex(b"abc"));
    assert_eq!(
        sha256_hex(b"abc"),
        "ba7816bf8f01cfea414140de5dae2223b00361a396177a9cb410ff61f20015ad"
    );
    assert_eq!(injection_error(3), "team 3: flag injection failed");
    assert_eq!(round_error_summary(&vec![]), None);
    assert_eq!(
        round_error_summary(&vec!["a".to_owned(), "b".to_owned()]),
        Some("a; b".to_owned())
    );
    assert_eq!(awd_pod_name(5, 9), "ret2shell-awd-5-9");
    assert_eq!(machine_address(Some(80), Some("ctf.example"), Some(30080)), Some("ctf.example:30080".to_owned()));
    assert_eq!(machine_address(Some(80), Some(""), Some(30080)), None);
    assert_eq!(machine_address(None, Some("h"), Some(1)), None);
}

#[test]
fn awdp_rules() {
    let c = AwdpConfig { enabled: true, mode: AwdpMode::Fix, round_secs: 0, total_rounds: 0 };
    assert_eq!(
        validate_awdp_config(&c).unwrap_err().message(),
        "AWDP round length must be greater than zero"
    );
    let c = AwdpConfig { enabled: true, mode: AwdpMode::Fix, round_secs: 60, total_rounds: 0 };
    assert!(validate_awdp_config(&c).is_ok());
    assert_eq!(
        check_awdp_fix_mode(&c, false).unwrap_err().message(),
        "AWDP fix mode requires an enabled fix.toml"
    );
    assert!(check_awdp_fix_mode(&c, true).is_ok());
    assert!(award_window_open(true, 0, 100, 3700));
    assert!(!award_window_open(true, 0, 100, 3701));
    assert!(!award_window_open(false, 0, 100, 50));
    assert_eq!(award_cap_round(1000, 0, 2000, 100, 0), 10);
    assert_eq!(award_cap_round(3000, 0, 2000, 100, 0), 20);
    assert_eq!(award_cap_round(3000, 0, 2000, 100, 5), 4);
    assert_eq!(status_round(None, 42), 42);
    assert_eq!(status_round(Some(10), 42), 4);
}

#[test]
fn awdp_first_solves_and_owed_rounds() {
    let solves = vec![(1, 500), (2, 300), (1, 200), (2, 400)];
    let mut firsts = first_solves(&solves);
    firsts.sort();
    assert_eq!(firsts, vec![(1, 200), (2, 300)]);
    assert_eq!(owed_rounds(250, 100, 5, None), Some((2, 5)));
    assert_eq!(owed_rounds(250, 100, 5, Some(3)), Some((4, 5)));
    assert_eq!(owed_rounds(250, 100, 5, Some(5)), None);
    assert_eq!(owed_rounds(950, 100, 5, None), None);
    assert_eq!(bonus_reason(3, 7, "pwn"), "AWDP round 3 bonus for challenge 7:pwn");
}
