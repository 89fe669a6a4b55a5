use r2s_server::bucket::sanitize_bucket_seed;
use r2s_server::ident::generate_instance_id;
use r2s_server::manifest::{
    check_registry_metadata, validate_release_detail, ChallengeManifest, GameManifest,
    ManifestAssets, ReleaseManifest, RemoteSyncReleaseDetail,
};
use r2s_server::sync::{
    bearer_token, check_release_access, check_release_ref, normalize_base_url,
    normalized_sync_token, parse_sync_registry_path, registry_basic_auth, relay_uri,
    release_visible, short_release_id, InfoRefsQuery,
};
use r2s_server::sync::display_orders;
use r2s_server::sync::{has_default_source, stored_instance_id, sync_fields_backfill, SourceRow};
use r2s_server::sync::summarize_sync_games;

#[test]
fn normalize_base_url_trims_trailing_slashes() {
    assert_eq!(
        normalize_base_url(" https://example.com/ ").expect("normalize base url"),
        "https://example.com"
    );
}

#[test]
fn normalize_base_url_rejects_invalid_scheme() {
    let err = normalize_base_url("example.com").expect_err("invalid base url should fail");
    assert!(err.message().contains("http:// or https://"));
}

#[test]
fn normalize_base_url_rejects_blank() {
    let err = normalize_base_url("  ///  ").expect_err("blank base url should fail");
    assert_eq!(err.message(), "remote base url can not be empty");
}

#[test]
fn sanitize_bucket_seed_produces_stable_ascii_bucket_name() {
    assert_eq!(sanitize_bucket_seed("Example Game 2024"), "example_game_2024");
}

#[test]
fn sanitize_bucket_seed_falls_back_and_truncates() {
    assert_eq!(sanitize_bucket_seed("!!!"), "synced_game");
    let long = "a".repeat(100);
    assert_eq!(sanitize_bucket_seed(&long), "a".repeat(72));
}

#[test]
fn sanitize_bucket_seed_blank_and_capitals() {
    assert_eq!(sanitize_bucket_seed(""), "synced_game");
    assert_eq!(sanitize_bucket_seed("   "), "synced_game");
    assert_eq!(sanitize_bucket_seed("MyCTF Finals"), "my_ctf_finals");
}

fn release(snapshot: &str) -> RemoteSyncReleaseDetail {
    RemoteSyncReleaseDetail {
        game_key: "game_key".to_owned(),
        release_id: "release_id".to_owned(),
        snapshot_commit: snapshot.to_owned(),
        manifest_sha256: "hash".to_owned(),
        manifest_body: String::new(),
        first_party_instance_id: "instance".to_owned(),
        first_party_base_url: "https://example.com".to_owned(),
        published_at: 0,
    }
}

fn manifest(game_key: &str, snapshot: &str) -> ReleaseManifest {
    ReleaseManifest {
        spec_version: 1,
        kind: "release".to_owned(),
        game_key: game_key.to_owned(),
        release_id: "release_id".to_owned(),
        snapshot_commit: snapshot.to_owned(),
        published_at: 0,
        first_party_instance_id: "instance".to_owned(),
        game: GameManifest {
            name: "name".to_owned(),
            brief: "brief".to_owned(),
            host_type: "game".to_owned(),
            start_at: 0,
            end_at: 0,
            register_at: 0,
            archive_at: 0,
            team_size: 1,
            weight: 1,
            sync_policy: 0,
            can_register_after_started: true,
            cover_kind: None,
            cover_value: None,
            logo_kind: None,
            logo_value: None,
            show_answer_after_archive: false,
            show_hints_after_archive: false,
        },
        challenges: vec![ChallengeManifest {
            key: "challenge".to_owned(),
            order: 1,
            hidden: false,
            score: 100,
            release_at: None,
            archive_at: None,
        }],
        assets: ManifestAssets::default(),
    }
}

#[test]
fn validate_release_detail_rejects_mismatched_snapshot() {
    let err = validate_release_detail("game_key", "release_id", &release("deadbeef"), &manifest("game_key", "another"))
        .expect_err("snapshot mismatch should fail");
    assert!(err.message().contains("manifest snapshot"));
}

#[test]
fn validate_release_detail_checks_keys_then_accepts() {
    let err = validate_release_detail("game_key", "release_id", &release("same"), &manifest("other", "same"))
        .expect_err("key mismatch should fail");
    assert_eq!(
        err.message(),
        "remote release metadata does not match the requested game key or release id"
    );
    assert!(validate_release_detail("game_key", "release_id", &release("same"), &manifest("game_key", "same")).is_ok());
}

#[test]
fn parse_sync_registry_path_supports_manifests_and_blobs() {
    assert_eq!(
        parse_sync_registry_path("game_bucket/web/manifests/sha256:abc").expect("manifest path"),
        ("game_bucket/web".to_owned(), "manifests", "sha256:abc".to_owned())
    );
    assert_eq!(
        parse_sync_registry_path("game_bucket/web/blobs/sha256:def").expect("blob path"),
        ("game_bucket/web".to_owned(), "blobs", "sha256:def".to_owned())
    );
}

#[test]
fn parse_sync_registry_path_rejects_unknown_shapes() {
    assert!(parse_sync_registry_path("game_bucket/web/tags/list").is_err());
}

#[test]
fn short_release_id_keeps_short_values() {
    assert_eq!(short_release_id("abc"), "abc");
    assert_eq!(short_release_id("1234567890abcdef"), "1234567890ab");
}

#[test]
fn generated_instance_id_looks_like_uuid_v4() {
    let id = generate_instance_id();
    assert_eq!(id.len(), 36);
    assert_eq!(&id[8..9], "-");
    assert_eq!(&id[13..14], "-");
    assert_eq!(&id[18..19], "-");
    assert_eq!(&id[23..24], "-");
    assert_eq!(&id[14..15], "4");
    assert!(matches!(&id[19..20], "8" | "9" | "a" | "b"));
}

#[test]
fn generated_instance_ids_are_lowercase_hex() {
    let id = generate_instance_id();
    assert!(id.chars().all(|c| c == '-' || c.is_ascii_digit() || ('a'..='f').contains(&c)));
    assert_eq!(id.chars().filter(|c| *c == '-').count(), 4);
}

fn registry_fields(body: &str) -> (i32, String) {
    let value: toml::Value = body.parse().expect("registry metadata is toml");
    let version = value.get("spec_version").and_then(|v| v.as_integer()).expect("version") as i32;
    let kind = value.get("kind").and_then(|v| v.as_str()).expect("kind").to_owned();
    (version, kind)
}

#[test]
fn validate_registry_metadata_body_accepts_v1_registry() {
    let (version, kind) = registry_fields("\nspec_version = 1\nkind = \"ret2shell-game-registry\"\n");
    check_registry_metadata(version, &kind).expect("valid registry metadata should pass");
}

#[test]
fn validate_registry_metadata_body_rejects_invalid_kind() {
    let (version, kind) = registry_fields("\nspec_version = 1\nkind = \"something-else\"\n");
    let err = check_registry_metadata(version, &kind).expect_err("invalid registry kind should fail");
    assert!(err.contains("invalid registry kind"));
}

#[test]
fn validate_registry_metadata_body_rejects_unsupported_version() {
    let (version, kind) = registry_fields("\nspec_version = 2\nkind = \"ret2shell-game-registry\"\n");
    let err = check_registry_metadata(version, &kind)
        .expect_err("unsupported registry spec version should fail");
    assert!(err.contains("unsupported registry spec version"));
    assert_eq!(err, "unsupported registry spec version 2");
}

#[test]
fn sync_token_is_trimmed_and_blank_is_none() {
    assert_eq!(normalized_sync_token(Some("  tok ")), Some("tok"));
    assert_eq!(normalized_sync_token(Some("   ")), None);
    assert_eq!(normalized_sync_token(None), None);
}

#[test]
fn info_refs_service_loses_git_prefix() {
    let q = InfoRefsQuery { service: "git-upload-pack".to_owned() };
    assert_eq!(q.service_trimmed(), "upload-pack");
    let q = InfoRefsQuery { service: "git-git-receive-pack".to_owned() };
    assert_eq!(q.service_trimmed(), "receive-pack");
}

#[test]
fn bearer_token_reads_authorization() {
    assert_eq!(bearer_token(Some("Bearer abc")), Some("abc".to_owned()));
    assert_eq!(bearer_token(Some("Basic abc")), None);
    assert_eq!(bearer_token(None), None);
}

#[test]
fn release_visibility_follows_policy() {
    assert!(release_visible(0, false, None, None));
    assert!(!release_visible(0, true, None, None));
    assert!(!release_visible(2, false, Some("t"), Some("t")));
    assert!(release_visible(1, false, Some("t"), Some("t")));
    assert!(!release_visible(1, false, Some("t"), Some("u")));
    assert!(!release_visible(1, false, None, Some("t")));
    assert!(!release_visible(7, false, Some("t"), Some("t")));
}

#[test]
fn relay_uri_strips_slashes() {
    assert_eq!(
        relay_uri(false, "/registry.local/", "/game/web/", "manifests", "sha256:abc"),
        "https://registry.local/v2/game/web/manifests/sha256:abc"
    );
    assert_eq!(relay_uri(true, "r", "x", "blobs", "d"), "http://r/v2/x/blobs/d");
}

#[test]
fn registry_basic_auth_encodes_credentials() {
    assert_eq!(registry_basic_auth(Some("user"), Some("pass")), Some("Basic dXNlcjpwYXNz".to_owned()));
    assert_eq!(registry_basic_auth(Some("user"), None), None);
}

#[test]
fn release_ref_and_access_checks() {
    assert!(check_release_ref(Some("abc"), "abc").is_ok());
    assert_eq!(
        check_release_ref(None, "abc").unwrap_err().message(),
        "requested release ref is missing or no longer matches the recorded snapshot"
    );
    assert_eq!(check_release_access(false, false, true).unwrap_err().message(), "game release not found");
    assert_eq!(
        check_release_access(true, true, true).unwrap_err().message(),
        "detached mirrors can no longer serve sync traffic"
    );
    assert_eq!(
        check_release_access(true, false, false).unwrap_err().message(),
        "game release is not accessible through sync"
    );
    assert!(check_release_access(true, false, true).is_ok());
}

#[test]
fn display_orders_restart_per_game() {
    assert_eq!(display_orders(&vec![1, 1, 1, 2, 2, 5]), vec![1, 2, 3, 1, 2, 1]);
    assert!(display_orders(&vec![]).is_empty());
}

#[test]
fn default_source_and_instance_id() {
    let row = |name: &str, url: &str, branch: &str| SourceRow {
        name: name.to_owned(),
        git_url: url.to_owned(),
        branch: branch.to_owned(),
    };
    assert!(has_default_source(&vec![row("x", "https://github.com/ret2shell/game-registry", "main")]));
    assert!(has_default_source(&vec![row("ret2shell-official", "u", "b")]));
    assert!(!has_default_source(&vec![row("x", "https://github.com/ret2shell/game-registry", "dev")]));
    assert_eq!(stored_instance_id(Some(" abc \n")), Some("abc".to_owned()));
    assert_eq!(stored_instance_id(Some("\n")), None);
    assert_eq!(stored_instance_id(None), None);
    assert_eq!(sync_fields_backfill(Some("k"), Some("b"), true), (Some("k".to_owned()), false, false));
    assert_eq!(sync_fields_backfill(None, Some("b"), true), (Some("b".to_owned()), false, true));
    assert_eq!(sync_fields_backfill(None, None, false), (None, true, true));
}

#[test]
fn sync_games_are_counted_by_key() {
    let keys: Vec<String> = ["web", "pwn", "web", "crypto", "pwn", "web"].iter().map(|s| s.to_string()).collect();
    let got: Vec<(String, usize)> = summarize_sync_games(&keys)
        .into_iter()
        .map(|s| (s.game_key, s.release_count))
        .collect();
    assert_eq!(
        got,
        vec![("crypto".to_owned(), 1), ("pwn".to_owned(), 2), ("web".to_owned(), 3)]
    );
}

#[test]
fn only_games_are_importable() {
    assert!(r2s_server::manifest::check_importable(&manifest("game_key", "x")).is_ok());
    let mut m = manifest("game_key", "x");
    m.game.host_type = "training".to_owned();
    assert_eq!(
        r2s_server::manifest::check_importable(&m).unwrap_err().message(),
        "only archived games are supported by direct sync import in this phase"
    );
}
