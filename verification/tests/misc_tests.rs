use r2s_server::bucket::{
    attachment_meta, attachment_meta_file, bucket_name_candidate, challenge_bucket_keys,
    bucket_name_fallback, finish_bucket_seed, generate_bucket_name_for_challenge, pick_bucket_name,
    worker_bucket_keys, AttachmentMeta, MAX_BUCKET_CANDIDATES,
};
use r2s_server::captcha::{check_no_captcha, no_captcha, CaptchaError, ReCaptchaV3Validator, Validator};
use r2s_server::cluster::{ChallengeEnv, ClusterSettings, GameSettings, ImageSpec};
use r2s_server::game::{check_game_delete, commit_email, freeze_change};
use r2s_server::git::{
    advertisement_content_type, advertisement_prefix, check_git_protocol_safe,
    check_rpc_content_type, get_protocol, parse_service, receive_pack_refusal,
    result_content_type, GitService,
};
use r2s_server::instance::{
    check_instance_env, check_instance_start, instance_team, list_envs, shown_instances,
    team_label_values, traffic_script_active, RunningEnvs,
};
use r2s_server::isw::{
    arm_state, build_wg_config, downloadable_config, inject_outcome, peers_to_revoke,
    prepare_flag_injection, snapshot_name, targets_template, validate_isw_config, ArmReport,
    FlagArmResult, InjectReply, IswConfig, PeerRow, VpnPeerResponse,
};
use r2s_server::lifecycle::{
    fallback_challenge_info, fallback_team_info, fallback_user_info, resolve_lifecycle_script,
    script_is_empty, ScriptScope,
};
use r2s_server::manifest::{check_challenge_dirs, check_import_env, check_manifest_hash, discover_path};
use r2s_server::registry::{
    check_publish_enabled, has_changes, publish_commit_args, publish_push_args,
    registry_clone_args, registry_refresh_commands, release_file_name, release_write_needed,
    upstream_file_name,
};
use r2s_server::digest::sha256_hex;
use r2s_server::game::{event_expired, pusher_restarts};
use r2s_server::lint::{diagnostic_error_count, has_diagnostic_error, DiagnosticKind};
use r2s_server::registry::source_location_changed;

#[test]
fn git_protocol_is_checked_by_pattern() {
    assert!(check_git_protocol_safe("version=2"));
    assert!(check_git_protocol_safe("version=2:object=sha1"));
    assert!(!check_git_protocol_safe("version=2:"));
    assert!(!check_git_protocol_safe("version"));
    assert!(!check_git_protocol_safe("v=2;rm -rf"));
    assert!(!check_git_protocol_safe(""));
    assert_eq!(get_protocol(None).unwrap(), "");
    assert_eq!(get_protocol(Some(Some("version=2"))).unwrap(), "version=2");
    assert_eq!(get_protocol(Some(Some("x"))).unwrap_err().message(), "invalid git protocol");
    assert_eq!(get_protocol(Some(None)).unwrap_err().message(), "invalid git protocol");
}

#[test]
fn git_services_and_headers() {
    assert_eq!(parse_service("upload-pack").unwrap(), GitService::UploadPack);
    assert_eq!(parse_service("receive-pack").unwrap(), GitService::ReceivePack);
    assert_eq!(parse_service("other").unwrap_err().message(), "Invalid git service");
    assert_eq!(
        advertisement_content_type(GitService::UploadPack),
        "application/x-git-upload-pack-advertisement"
    );
    assert_eq!(result_content_type(GitService::ReceivePack), "application/x-git-receive-pack-result");
    assert_eq!(advertisement_prefix(GitService::UploadPack), "001e# service=git-upload-pack\n0000");
    assert_eq!(advertisement_prefix(GitService::ReceivePack), "001f# service=git-receive-pack\n0000");
    assert!(check_rpc_content_type(GitService::UploadPack, Some(Some("application/x-git-upload-pack-request"))).is_ok());
    assert_eq!(
        check_rpc_content_type(GitService::UploadPack, None).unwrap_err().message(),
        "missing content type for git rpc"
    );
    assert_eq!(
        check_rpc_content_type(GitService::UploadPack, Some(Some("text/plain"))).unwrap_err().message(),
        "invalid content type for git rpc"
    );
    assert_eq!(receive_pack_refusal().message(), "this feature is not implemented");
}

#[test]
fn bucket_names() {
    assert_eq!(finish_bucket_seed("__a-b__"), "a_b");
    assert_eq!(bucket_name_candidate("base", 0), "base");
    assert_eq!(bucket_name_candidate("base", 12), "base_12");
    assert_eq!(generate_bucket_name_for_challenge(1, 2, "Crème brûlée"), "1_2_Creme brulee");
    assert_eq!(generate_bucket_name_for_challenge(1, 2, "plain"), "1_2_plain");
    let m: AttachmentMeta = attachment_meta(None, "stored", "h");
    assert_eq!((m.name.as_str(), m.hash.as_str()), ("stored", "h"));
    assert_eq!(attachment_meta(Some("a.txt"), "stored", "h").name, "a.txt");
    assert_eq!(attachment_meta_file("x"), "x.meta");
    assert_eq!(
        challenge_bucket_keys(1, "g", None, 2, "c", Some("cb")).unwrap_err().message(),
        "game 1:g does not have a valid bucket"
    );
    assert_eq!(
        challenge_bucket_keys(1, "g", Some("gb"), 2, "c", None).unwrap_err().message(),
        "challenge 2:c in game 1:g does not have a valid bucket"
    );
    assert_eq!(challenge_bucket_keys(1, "g", Some("gb"), 2, "c", Some("cb")).unwrap(), ("gb".to_owned(), "cb".to_owned()));
    assert_eq!(worker_bucket_keys(1, None, 2, None).unwrap_err().message(), "game 1 has no bucket");
    assert_eq!(worker_bucket_keys(1, Some("g"), 2, None).unwrap_err().message(), "challenge 2 has no bucket");
}

fn game(lifecycle: Option<&str>, bucket: Option<&str>) -> GameSettings {
    GameSettings {
        id: 3,
        name: "g".to_owned(),
        bucket: bucket.map(str::to_owned),
        node_selector: None,
        traffic: None,
        lifecycle: lifecycle.map(str::to_owned),
    }
}

#[test]
fn lifecycle_scripts() {
    assert_eq!(ScriptScope::Global.as_str(), "global");
    assert_eq!(ScriptScope::Game.as_str(), "game");
    let cluster = ClusterSettings { node_selector: None, traffic: None, lifecycle: Some("global script".to_owned()) };
    assert!(resolve_lifecycle_script(None, &game(Some("s"), Some("b")), true).unwrap().is_none());
    let r = resolve_lifecycle_script(Some(&cluster), &game(Some("s"), Some("b")), true).unwrap().unwrap();
    assert_eq!((r.key.as_str(), r.script.as_str(), r.scope), ("b", "s", ScriptScope::Game));
    let r = resolve_lifecycle_script(Some(&cluster), &game(Some("s"), Some("b")), false).unwrap().unwrap();
    assert_eq!((r.key.as_str(), r.script.as_str(), r.scope), ("default", "global script", ScriptScope::Global));
    assert_eq!(
        resolve_lifecycle_script(Some(&cluster), &game(Some("s"), None), true).err(),
        Some("game 3:g missing bucket for lifecycle".to_owned())
    );
    assert!(script_is_empty("  \n"));
    assert!(!script_is_empty(" x "));
    let u = fallback_user_info(Some("12"), Some("acc"), None);
    assert_eq!((u.id, u.account.as_str(), u.nickname.as_str()), (12, "acc", ""));
    assert_eq!(fallback_user_info(Some("x"), None, None).id, 0);
    assert!(fallback_team_info(Some("0"), Some("t")).is_none());
    assert!(fallback_team_info(None, Some("t")).is_none());
    let t = fallback_team_info(Some("+5"), Some("t")).unwrap();
    assert_eq!((t.id, t.name), (Some(5), Some("t".to_owned())));
    let c = fallback_challenge_info(Some("-7"), Some("c"), 3);
    assert_eq!((c.id, c.name.as_str(), c.game_id), (-7, "c", 3));
}

fn env(ports: &[Option<u16>]) -> ChallengeEnv {
    ChallengeEnv {
        internet: false,
        restricted: false,
        privileged: false,
        images: ports.iter().map(|p| ImageSpec { name: "i".to_owned(), port: *p }).collect(),
        pull_secret: None,
    }
}

#[test]
fn instance_starts() {
    assert_eq!(instance_team(Some(1), true, true), Some(1));
    assert_eq!(instance_team(Some(1), false, true), None);
    assert_eq!(check_instance_start(false, false, &RunningEnvs::User { count: 0 }, 1).unwrap_err().message(), "cluster is disabled");
    assert_eq!(
        check_instance_start(true, true, &RunningEnvs::User { count: 0 }, 1).unwrap_err().message(),
        "please wait for rebuilding cargo crates"
    );
    let full = RunningEnvs::Team { team_size: 2, challenges: vec!["4".to_owned(), "5".to_owned()] };
    assert_eq!(
        check_instance_start(true, false, &full, 1).unwrap_err().message(),
        "your team can only start 2 instance(s) at the same time"
    );
    let running = RunningEnvs::Team { team_size: 3, challenges: vec!["4".to_owned(), "15".to_owned()] };
    assert_eq!(
        check_instance_start(true, false, &running, 15).unwrap_err().message(),
        "this challenge instance is already launched"
    );
    assert!(check_instance_start(true, false, &running, 1).is_ok());
    assert_eq!(
        check_instance_start(true, false, &RunningEnvs::User { count: 1 }, 1).unwrap_err().message(),
        "you can only start one instance at the same time"
    );
    assert_eq!(check_instance_env(None).unwrap_err().message(), "challenge does not have online environment");
    assert_eq!(
        check_instance_env(Some(&env(&[None]))).unwrap_err().message(),
        "at least one service with its exposed port is required"
    );
    assert!(check_instance_env(Some(&env(&[None, Some(1)]))).is_ok());
    assert_eq!(team_label_values(None), ("0".to_owned(), "wheel".to_owned()));
    assert_eq!(team_label_values(Some((9, "t"))), ("9".to_owned(), "t".to_owned()));
}

#[test]
fn listed_envs_are_unique_and_ordered() {
    let names = vec![
        Some("b".to_owned()),
        Some("a".to_owned()),
        None,
        Some("b".to_owned()),
        Some("ab".to_owned()),
        None,
    ];
    assert_eq!(list_envs(&names), vec![2, 1, 4, 0]);
    assert!(list_envs(&vec![]).is_empty());
}

fn isw_config() -> IswConfig {
    IswConfig {
        enabled: true,
        range_template: "corp".to_owned(),
        vm: "dc01".to_owned(),
        guest_path: "C:/flag.txt".to_owned(),
        owner: None,
        mode: "0644".to_owned(),
    }
}

#[test]
fn isw_rules() {
    assert!(validate_isw_config(&isw_config()).is_ok());
    let mut c = isw_config();
    c.mode = "0999".to_owned();
    assert_eq!(
        validate_isw_config(&c).unwrap_err().message(),
        "ISW file mode must be a 3-4 digit octal string (e.g. 0644)"
    );
    let mut c = isw_config();
    c.mode = "  ".to_owned();
    assert!(validate_isw_config(&c).is_ok());
    let mut c = isw_config();
    c.vm = String::new();
    assert_eq!(validate_isw_config(&c).unwrap_err().message(), "ISW target VM is required");
    assert!(targets_template(&isw_config(), "corp"));
    assert!(!targets_template(&isw_config(), "other"));
}

#[test]
fn isw_flags_and_reports() {
    let inj = prepare_flag_injection();
    assert_eq!(inj.flag.len(), 38);
    assert_eq!(inj.value_hash, sha256_hex(inj.flag.as_bytes()));
    assert_ne!(inj.content_b64, inj.flag);
    assert_eq!(inj.content_b64.len(), 52);
    let ok = InjectReply::Answered { ok: true, sha256: Some(inj.value_hash.clone()), message: None };
    assert_eq!(inject_outcome(&ok, &inj.value_hash), (true, None));
    let bad = InjectReply::Answered { ok: true, sha256: Some("x".to_owned()), message: None };
    assert_eq!(inject_outcome(&bad, &inj.value_hash), (false, Some("inject/verify mismatch".to_owned())));
    assert_eq!(inject_outcome(&InjectReply::Failed("down".to_owned()), "h"), (false, Some("down".to_owned())));
    let result = |ok: bool, message: Option<&str>| FlagArmResult {
        challenge_id: 1,
        vm: "dc01".to_owned(),
        guest_path: "p".to_owned(),
        ok,
        message: message.map(str::to_owned),
    };
    assert_eq!(arm_state(&vec![], "corp"), ("error".to_owned(), Some("no enabled isw.toml challenge targets range template `corp`".to_owned())));
    assert_eq!(arm_state(&vec![result(true, None)], "corp"), ("armed".to_owned(), None));
    assert_eq!(
        arm_state(&vec![result(true, None), result(false, Some("m1")), result(false, Some("m2"))], "corp"),
        ("error".to_owned(), Some("m1".to_owned()))
    );
    let report = ArmReport { range_id: 1, flags: vec![result(true, None)] };
    assert_eq!(report.flags.len(), 1);
    assert_eq!(snapshot_name(None), "clean-armed");
    assert_eq!(snapshot_name(Some("s")), "s");
}

#[test]
fn isw_vpn() {
    let resp = VpnPeerResponse {
        client_private_key: "priv".to_owned(),
        client_public_key: "pub".to_owned(),
        server_public_key: "spub".to_owned(),
        endpoint: "1.2.3.4:51820".to_owned(),
        dns: Some("10.0.0.1".to_owned()),
    };
    assert_eq!(
        build_wg_config(&resp, "10.8.0.2", "10.8.0.0/24"),
        "[Interface]\nPrivateKey = priv\nAddress = 10.8.0.2/32\nDNS = 10.0.0.1\n\n[Peer]\nPublicKey = spub\nEndpoint = 1.2.3.4:51820\nAllowedIPs = 10.8.0.0/24\nPersistentKeepalive = 25\n"
    );
    let peers = vec![
        PeerRow { id: 1, team_id: 5, revoked: false },
        PeerRow { id: 2, team_id: 6, revoked: false },
        PeerRow { id: 3, team_id: 5, revoked: true },
        PeerRow { id: 4, team_id: 5, revoked: false },
    ];
    assert_eq!(peers_to_revoke(&peers, 5), vec![1, 4]);
    assert_eq!(downloadable_config(true, Some("c")), None);
    assert_eq!(downloadable_config(false, Some("c")), Some("c".to_owned()));
}

#[test]
fn registry_commands() {
    assert_eq!(check_publish_enabled(false, "main").unwrap_err(), "registry source main is not publish-enabled");
    assert_eq!(
        registry_clone_args("main", "https://git/x", "/cache/1"),
        vec!["clone", "--branch", "main", "--single-branch", "https://git/x", "/cache/1"]
    );
    let cmds = registry_refresh_commands("main", "u");
    assert_eq!(cmds[2], vec!["checkout", "-B", "main", "origin/main"]);
    assert_eq!(release_file_name("r1"), "r1.toml");
    assert_eq!(upstream_file_name(1700000000000), "1700000000000.toml");
    assert_eq!(release_write_needed(None, "b", "p"), Ok(true));
    assert_eq!(release_write_needed(Some("b"), "b", "p"), Ok(false));
    assert_eq!(
        release_write_needed(Some("a"), "b", "p"),
        Err("release file p already exists with different content".to_owned())
    );
    assert!(!has_changes(" \n"));
    assert!(has_changes(" M x\n"));
    assert_eq!(publish_commit_args("game", "1234567890abcdef")[4], ":sparkles: publish release game@1234567890ab");
    assert_eq!(publish_push_args("main"), vec!["push", "origin", "HEAD:main"]);
}

#[test]
fn import_checks() {
    assert_eq!(discover_path(None, Some("r")), "/games");
    assert_eq!(discover_path(Some(" k "), None), "/games/k");
    assert_eq!(discover_path(Some("k"), Some(" r ")), "/games/k/releases/r");
    assert_eq!(discover_path(Some("k"), Some("  ")), "/games/k");
    assert!(check_manifest_hash("body", &sha256_hex(b"body")).is_ok());
    assert_eq!(
        check_manifest_hash("body", "00").unwrap_err().message(),
        "remote release manifest hash does not match the manifest body"
    );
    let dup = ChallengeEnv {
        internet: false,
        restricted: false,
        privileged: false,
        images: vec![ImageSpec { name: "a".to_owned(), port: Some(80) }, ImageSpec { name: "b".to_owned(), port: Some(80) }],
        pull_secret: None,
    };
    assert_eq!(
        check_import_env(Some(&dup), "web").unwrap_err().message(),
        "challenge `web` has conflicting ports in env.toml"
    );
    assert!(check_import_env(None, "web").is_ok());
    let keys = vec!["a".to_owned(), "b".to_owned(), "a".to_owned()];
    assert!(check_challenge_dirs(&vec!["a".to_owned(), "b".to_owned()], &keys).is_ok());
    assert_eq!(
        check_challenge_dirs(&vec!["a".to_owned()], &keys).unwrap_err().message(),
        "challenge directories do not match the release manifest"
    );
    assert_eq!(
        check_challenge_dirs(&vec!["a".to_owned(), "c".to_owned()], &keys).unwrap_err().message(),
        "challenge `c` is missing from the release manifest"
    );
}

#[test]
fn game_admin_rules() {
    assert_eq!(freeze_change(false, false), None);
    assert_eq!(freeze_change(false, true), Some((true, "Freeze the game".to_owned())));
    assert_eq!(freeze_change(true, false), Some((false, "Unfreeze the game".to_owned())));
    assert_eq!(
        check_game_delete(2, None).unwrap_err().message(),
        "game has existing challenges, can not be deleted safely"
    );
    assert!(check_game_delete(2, Some(true)).is_ok());
    assert!(check_game_delete(0, None).is_ok());
    assert_eq!(commit_email("alice"), "alice@private.ret.sh.cn");
}

#[test]
fn captchas() {
    let c = no_captcha();
    assert_eq!(c.validator, Validator::Disabled);
    assert!(c.id.is_empty() && c.answer.is_empty());
    assert_eq!(check_no_captcha(), Ok(true));
    assert!(matches!(ReCaptchaV3Validator::generate_captcha(1), Err(CaptchaError::Unknown)));
    assert_eq!(ReCaptchaV3Validator::check_captcha(1, "id", "answer"), Err(CaptchaError::Unknown));
}

#[test]
fn lint_and_events() {
    let kinds = vec![DiagnosticKind::Warning, DiagnosticKind::Error, DiagnosticKind::Hint, DiagnosticKind::Error];
    assert_eq!(diagnostic_error_count(&kinds), 2);
    assert!(has_diagnostic_error(&kinds));
    assert!(!has_diagnostic_error(&vec![DiagnosticKind::Warning]));
    assert!(event_expired(601));
    assert!(!event_expired(600));
    assert!(pusher_restarts(4));
    assert!(!pusher_restarts(5));
    assert!(source_location_changed("a", "main", "b", "main"));
    assert!(source_location_changed("a", "main", "a", "dev"));
    assert!(!source_location_changed("a", "main", "a", "main"));
}

#[test]
fn identifiers_and_flags() {
    let a = r2s_server::ident::random_alnum(21);
    assert_eq!(a.len(), 21);
    assert!(a.chars().all(|c| c.is_ascii_alphanumeric()));
    let s = r2s_server::ident::random_safe(21);
    assert!(s.chars().all(|c| c.is_ascii_alphanumeric() || c == '_' || c == '-'));
    let f = r2s_server::ident::mint_flag();
    assert!(f.starts_with("flag{") && f.ends_with('}') && f.len() == 38);
    let h = sha256_hex(b"flag{abc}");
    assert!(r2s_server::digest::flag_hash_matches("  flag{abc}\n", &h, true));
    assert!(!r2s_server::digest::flag_hash_matches("flag{abc}", &h, false));
    assert!(!r2s_server::digest::flag_hash_matches("flag{abd}", &h, true));
    assert_eq!(r2s_server::digest::hex_string(&[0, 15, 255]), "000fff");
}

#[test]
fn cluster_placement() {
    let e = env(&[Some(80), None, Some(443)]);
    assert_eq!(r2s_server::cluster::env_ports_label(&e), "80,443");
    assert!(!r2s_server::cluster::port_conflict(&e));
    let g = GameSettings {
        id: 1,
        name: "g".to_owned(),
        bucket: Some("gb".to_owned()),
        node_selector: Some("gpu".to_owned()),
        traffic: Some("game traffic".to_owned()),
        lifecycle: None,
    };
    let c = ClusterSettings { node_selector: Some(String::new()), traffic: None, lifecycle: None };
    assert!(r2s_server::cluster::need_expose(&g, Some(&c), true));
    assert!(!r2s_server::cluster::need_expose(&g, Some(&c), false));
    assert!(!r2s_server::cluster::need_expose(&g, None, true));
    assert_eq!(r2s_server::cluster::node_selector(&g, Some(&c), true), Some("gpu".to_owned()));
    assert_eq!(r2s_server::cluster::node_selector(&g, Some(&c), false), None);
    assert_eq!(
        r2s_server::cluster::traffic_script(&g, Some(&c), true).unwrap(),
        ("gb".to_owned(), Some("game traffic".to_owned()))
    );
    assert_eq!(r2s_server::cluster::traffic_script(&g, Some(&c), false).unwrap(), ("default".to_owned(), None));
    assert_eq!(r2s_server::cluster::traffic_script(&g, None, true).unwrap_err().message(), "cluster is disabled");
}

#[test]
fn sync_workspace_paths() {
    assert_eq!(r2s_server::paths::sync_root(Some("/data/bucket")), Ok("/data/bucket/.sync".to_owned()));
    assert_eq!(r2s_server::paths::sync_root(None), Err("bucket configuration not found".to_owned()));
    assert_eq!(
        r2s_server::paths::source_cache_dir(Some("/b/"), 7),
        Ok("/b/.sync/sources/7".to_owned())
    );
    assert_eq!(r2s_server::paths::job_workspace_dir(Some("/b"), "job1"), Ok("/b/.sync/jobs/job1".to_owned()));
    assert_eq!(r2s_server::paths::path_join("/a", "/abs"), "/abs");
}

#[test]
fn import_requests() {
    assert_eq!(
        r2s_server::manifest::import_target(" key ", " rel ").unwrap(),
        ("key".to_owned(), "rel".to_owned())
    );
    assert_eq!(
        r2s_server::manifest::import_target("", "rel").unwrap_err().message(),
        "game key and release id are required"
    );
    assert!(r2s_server::manifest::check_protocol_version(1).is_ok());
    assert_eq!(
        r2s_server::manifest::check_protocol_version(2).unwrap_err().message(),
        "unsupported remote sync protocol version 2"
    );
    assert_eq!(r2s_server::manifest::imported_host_type("training"), r2s_server::manifest::HostType::Training);
    assert_eq!(r2s_server::manifest::imported_host_type("other"), r2s_server::manifest::HostType::Game);
}

#[test]
fn shared_traffic_is_listed_once_while_exposed() {
    let t: Vec<String> = ["a", "b", "a", "c", "b"].iter().map(|s| s.to_string()).collect();
    assert_eq!(shown_instances(&t, true), vec![0, 1, 3]);
    assert_eq!(shown_instances(&t, false), vec![0, 1, 2, 3, 4]);
    assert!(shown_instances(&vec![], true).is_empty());
    assert!(traffic_script_active(Some("expose()")));
    assert!(!traffic_script_active(Some("")));
    assert!(!traffic_script_active(None));
}

#[test]
fn bucket_name_takes_first_free_candidate() {
    assert_eq!(pick_bucket_name("game", &vec![false]), "game");
    assert_eq!(pick_bucket_name("game", &vec![true, true, false]), "game_2");
    assert_eq!(pick_bucket_name("game", &vec![true, false, false]), "game_1");
}

#[test]
fn bucket_name_falls_back_to_random_suffix() {
    const SAFE_CHARS: &str = "_-0123456789abcdefghijklmnopqrstuvwxyzABCDEFGHIJKLMNOPQRSTUVWXYZ";
    let all_taken = vec![true; MAX_BUCKET_CANDIDATES as usize + 1];
    let name = pick_bucket_name("game", &all_taken);
    assert_eq!(name.len(), "game".len() + 9);
    assert!(name.starts_with("game_"));
    assert!(name["game_".len()..].chars().all(|c| SAFE_CHARS.contains(c)));
    let other = bucket_name_fallback("x");
    assert_eq!(other.len(), 10);
    assert!(other.starts_with("x_"));
    assert!(other[2..].chars().all(|c| SAFE_CHARS.contains(c)));
}
