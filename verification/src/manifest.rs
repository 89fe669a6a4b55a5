//! The manifest of a published game release and the checks an import makes on it.
use vstd::prelude::*;
use crate::cluster::{has_port_conflict, port_conflict, ChallengeEnv};
use crate::digest::{hex, lemma_encode_len, sha256, sha256_hex};
use crate::error::{bad_request, conflict, precondition_failed, ResponseError};
use crate::text::{dec_int, i64_to_string, push_str, str_eq, trim_ws, trimmed};

verus! {

/// The game described by a release.
pub struct GameManifest {
    pub name: String,
    pub brief: String,
    pub host_type: String,
    /// Times are seconds since the epoch.
    pub start_at: i64,
    pub end_at: i64,
    pub register_at: i64,
    pub archive_at: i64,
    pub team_size: i32,
    pub weight: i32,
    pub sync_policy: i32,
    pub can_register_after_started: bool,
    pub cover_kind: Option<String>,
    pub cover_value: Option<String>,
    pub logo_kind: Option<String>,
    pub logo_value: Option<String>,
    pub show_answer_after_archive: bool,
    pub show_hints_after_archive: bool,
}

/// One challenge of a release.
pub struct ChallengeManifest {
    pub key: String,
    pub order: i32,
    pub hidden: bool,
    pub score: i32,
    pub release_at: Option<i64>,
    pub archive_at: Option<i64>,
}

/// A container image shipped with a release.
pub struct OciImageAsset {
    pub source_repository: String,
    pub internal_tag: String,
}

/// The assets a release refers to.
pub struct ManifestAssets {
    pub media_hashes: Vec<String>,
    pub oci_images: Vec<OciImageAsset>,
}

impl Default for ManifestAssets {
    fn default() -> (a: Self)
        ensures
            a.media_hashes@.len() == 0,
            a.oci_images@.len() == 0,
    {
        ManifestAssets { media_hashes: Vec::new(), oci_images: Vec::new() }
    }
}

/// The manifest of a published release.
pub struct ReleaseManifest {
    pub spec_version: i32,
    pub kind: String,
    pub game_key: String,
    pub release_id: String,
    pub snapshot_commit: String,
    pub published_at: i64,
    pub first_party_instance_id: String,
    pub game: GameManifest,
    pub challenges: Vec<ChallengeManifest>,
    pub assets: ManifestAssets,
}

/// A release as a remote instance describes it.
pub struct RemoteSyncReleaseDetail {
    pub game_key: String,
    pub release_id: String,
    pub snapshot_commit: String,
    pub manifest_sha256: String,
    pub manifest_body: String,
    pub first_party_instance_id: String,
    pub first_party_base_url: String,
    pub published_at: i64,
}

/// Checks that a remote release is the one requested and agrees with its manifest.
pub fn validate_release_detail(
    game_key: &str,
    release_id: &str,
    release: &RemoteSyncReleaseDetail,
    manifest: &ReleaseManifest,
) -> (r: Result<(), ResponseError>)
    ensures
        if release.game_key@ != game_key@ || release.release_id@ != release_id@
            || manifest.game_key@ != game_key@ || manifest.release_id@ != release_id@ {
            r matches Err(ResponseError::Conflict(m)) && m@
                == "remote release metadata does not match the requested game key or release id"@
        } else if release.snapshot_commit@ != manifest.snapshot_commit@ {
            r matches Err(ResponseError::Conflict(m)) && m@
                == "remote release metadata does not match the manifest snapshot"@
        } else {
            r is Ok
        },
{
    if !str_eq(release.game_key.as_str(), game_key) || !str_eq(release.release_id.as_str(), release_id)
        || !str_eq(manifest.game_key.as_str(), game_key) || !str_eq(
        manifest.release_id.as_str(),
        release_id,
    ) {
        return Err(
            conflict("remote release metadata does not match the requested game key or release id"),
        );
    }
    if !str_eq(release.snapshot_commit.as_str(), manifest.snapshot_commit.as_str()) {
        return Err(conflict("remote release metadata does not match the manifest snapshot"));
    }
    Ok(())
}

/// The game key and release id an import names, trimmed; both are required.
pub fn import_target(game_key: &str, release_id: &str) -> (r: Result<(String, String), ResponseError>)
    ensures
        if trim_ws(game_key@).len() == 0 || trim_ws(release_id@).len() == 0 {
            r matches Err(ResponseError::BadRequest(m)) && m@ == "game key and release id are required"@
        } else {
            r matches Ok((k, id)) && k@ == trim_ws(game_key@) && id@ == trim_ws(release_id@)
        },
{
    let k = trimmed(game_key);
    let id = trimmed(release_id);
    if k.as_str().is_empty() || id.as_str().is_empty() {
        return Err(bad_request("game key and release id are required"));
    }
    Ok((k, id))
}

/// An import needs a remote instance that speaks version 1 of the sync protocol.
pub fn check_protocol_version(version: i32) -> (r: Result<(), ResponseError>)
    ensures
        version == 1 ==> r is Ok,
        version != 1 ==> (r matches Err(ResponseError::PreconditionFailed(m)) && m@
            == "unsupported remote sync protocol version "@ + dec_int(version as int)),
{
    if version != 1 {
        let mut m = "unsupported remote sync protocol version ".to_owned();
        push_str(&mut m, i64_to_string(version as i64).as_str());
        return Err(ResponseError::PreconditionFailed(m));
    }
    Ok(())
}

/// Direct import takes competition games only.
pub fn check_importable(manifest: &ReleaseManifest) -> (r: Result<(), ResponseError>)
    ensures
        manifest.game.host_type@ == "game"@ ==> r is Ok,
        manifest.game.host_type@ != "game"@ ==> (r matches Err(ResponseError::PreconditionFailed(m))
            && m@ == "only archived games are supported by direct sync import in this phase"@),
{
    if !str_eq(manifest.game.host_type.as_str(), "game") {
        return Err(
            precondition_failed("only archived games are supported by direct sync import in this phase"),
        );
    }
    Ok(())
}

/// Whether a game is hosted as a competition or as training.
#[derive(Clone, Copy, Debug, PartialEq, Eq, Structural)]
pub enum HostType {
    Game,
    Training,
}

/// The host type a manifest names; anything but `training` is a competition.
pub fn imported_host_type(host_type: &str) -> (h: HostType)
    ensures
        h == (if host_type@ == "training"@ {
            HostType::Training
        } else {
            HostType::Game
        }),
{
    if str_eq(host_type, "training") {
        HostType::Training
    } else {
        HostType::Game
    }
}

/// The kind a game registry declares in its `registry.toml`.
pub const REGISTRY_KIND: &'static str = "ret2shell-game-registry";

/// Checks the fields of a game registry's metadata: version 1 of the registry format,
/// of the expected kind.
pub fn check_registry_metadata(spec_version: i32, kind: &str) -> (r: Result<(), String>)
    ensures
        spec_version != 1 ==> (r matches Err(m) && m@ == "unsupported registry spec version "@
            + dec_int(spec_version as int)),
        spec_version == 1 && kind@ != REGISTRY_KIND@ ==> (r matches Err(m) && m@
            == "invalid registry kind "@ + kind@),
        spec_version == 1 && kind@ == REGISTRY_KIND@ ==> r is Ok,
{
    if spec_version != 1 {
        let mut m = "unsupported registry spec version ".to_owned();
        push_str(&mut m, i64_to_string(spec_version as i64).as_str());
        return Err(m);
    }
    if !str_eq(kind, REGISTRY_KIND) {
        let mut m = "invalid registry kind ".to_owned();
        push_str(&mut m, kind);
        return Err(m);
    }
    Ok(())
}


/// Refuses a release whose manifest body does not hash to the hash it was published with.
pub fn check_manifest_hash(body: &str, manifest_sha256: &str) -> (r: Result<(), ResponseError>)
    requires
        body@.len() < 0x0400_0000_0000_0000,
    ensures
        hex(sha256(vstd::utf8::encode_utf8(body@))) == manifest_sha256@ ==> r is Ok,
        hex(sha256(vstd::utf8::encode_utf8(body@))) != manifest_sha256@ ==> (r matches Err(
            ResponseError::Conflict(m),
        ) && m@ == "remote release manifest hash does not match the manifest body"@),
{
    proof {
        lemma_encode_len(body@);
    }
    let h = sha256_hex(body.as_bytes());
    if str_eq(h.as_str(), manifest_sha256) {
        Ok(())
    } else {
        Err(conflict("remote release manifest hash does not match the manifest body"))
    }
}

pub open spec fn nonblank(o: Option<Seq<char>>) -> Option<Seq<char>> {
    match o {
        Some(v) => if trim_ws(v).len() == 0 {
            None
        } else {
            Some(trim_ws(v))
        },
        None => None,
    }
}

/// What discovering a remote source asks it for: one release when a game key and a
/// release id are given, a game's releases when only a game key is, else its games.
/// Blank values count as absent.
pub open spec fn discover_path_spec(game_key: Option<Seq<char>>, release_id: Option<Seq<char>>) -> Seq<
    char,
> {
    match nonblank(game_key) {
        Some(k) => match nonblank(release_id) {
            Some(r) => "/games/"@ + k + "/releases/"@ + r,
            None => "/games/"@ + k,
        },
        None => "/games"@,
    }
}

fn nonblank_exec(o: Option<&str>) -> (r: Option<String>)
    ensures
        match nonblank(str_opt(o)) {
            Some(v) => r matches Some(x) && x@ == v,
            None => r is None,
        },
{
    match o {
        Some(v) => {
            let t = trimmed(v);
            if t.as_str().is_empty() {
                None
            } else {
                Some(t)
            }
        },
        None => None,
    }
}

pub open spec fn str_opt(o: Option<&str>) -> Option<Seq<char>> {
    match o {
        Some(s) => Some(s@),
        None => None,
    }
}

pub fn discover_path(game_key: Option<&str>, release_id: Option<&str>) -> (p: String)
    ensures
        p@ == discover_path_spec(str_opt(game_key), str_opt(release_id)),
{
    match nonblank_exec(game_key) {
        Some(k) => {
            let mut p = "/games/".to_owned();
            push_str(&mut p, k.as_str());
            match nonblank_exec(release_id) {
                Some(r) => {
                    push_str(&mut p, "/releases/");
                    push_str(&mut p, r.as_str());
                },
                None => {},
            }
            p
        },
        None => "/games".to_owned(),
    }
}

/// Refuses to import a challenge whose environment exposes one port twice.
pub fn check_import_env(env: Option<&ChallengeEnv>, name: &str) -> (r: Result<(), ResponseError>)
    ensures
        match env {
            Some(e) => if has_port_conflict(e.images@) {
                r matches Err(ResponseError::PreconditionFailed(m)) && m@ == "challenge `"@ + name@
                    + "` has conflicting ports in env.toml"@
            } else {
                r is Ok
            },
            None => r is Ok,
        },
{
    match env {
        Some(e) => {
            if port_conflict(e) {
                let mut m = "challenge `".to_owned();
                push_str(&mut m, name);
                push_str(&mut m, "` has conflicting ports in env.toml");
                Err(ResponseError::PreconditionFailed(m))
            } else {
                Ok(())
            }
        },
        None => Ok(()),
    }
}

/// The keys a manifest lists its challenges under, as a set.
pub open spec fn key_set(keys: Seq<String>) -> Set<Seq<char>> {
    keys.map_values(|k: String| k@).to_set()
}

fn contains_key(keys: &Vec<String>, k: &str) -> (b: bool)
    ensures
        b == key_set(keys@).contains(k@),
{
    let mut i: usize = 0;
    while i < keys.len()
        invariant
            i <= keys@.len(),
            forall|j: int| 0 <= j < i ==> keys@[j]@ != k@,
        decreases keys.len() - i,
    {
        if str_eq(keys[i].as_str(), k) {
            proof {
                assert(keys@.map_values(|x: String| x@)[i as int] == k@);
            }
            return true;
        }
        i = i + 1;
    }
    proof {
        let kv = keys@.map_values(|x: String| x@);
        if key_set(keys@).contains(k@) {
            let j = choose|j: int| 0 <= j < kv.len() && kv[j] == k@;
            assert(keys@[j]@ == k@);
        }
    }
    false
}

/// The number of distinct keys in `keys`.
fn distinct_count(keys: &Vec<String>) -> (n: usize)
    ensures
        n == key_set(keys@).len(),
{
    let mut seen: Vec<String> = Vec::new();
    let mut i: usize = 0;
    while i < keys.len()
        invariant
            i <= keys@.len(),
            seen@.map_values(|x: String| x@).no_duplicates(),
            key_set(seen@) == key_set(keys@.take(i as int)),
            seen@.len() <= i,
        decreases keys.len() - i,
    {
        let k = keys[i].as_str();
        let ghost before = seen@;
        let present = contains_key(&seen, k);
        if !present {
            seen.push(keys[i].clone());
            proof {
                let bv = before.map_values(|x: String| x@);
                let sv = seen@.map_values(|x: String| x@);
                assert(sv =~= bv.push(k@));
                assert forall|a: int, b: int| 0 <= a < sv.len() && 0 <= b < sv.len() && a != b implies sv[a] != sv[b] by {
                    if a == bv.len() as int {
                        assert(sv[b] == bv[b]);
                        assert(bv.to_set().contains(bv[b]));
                    } else if b == bv.len() as int {
                        assert(sv[a] == bv[a]);
                        assert(bv.to_set().contains(bv[a]));
                    }
                }
            }
        }
        proof {
            let t = keys@.take(i + 1);
            let tv = t.map_values(|x: String| x@);
            let pv = keys@.take(i as int).map_values(|x: String| x@);
            assert(tv =~= pv.push(k@));
            let sv = seen@.map_values(|x: String| x@);
            let bv = before.map_values(|x: String| x@);
            if present {
                assert(sv =~= bv);
                assert(key_set(seen@) =~= key_set(t)) by {
                    assert forall|x: Seq<char>| key_set(t).contains(x) implies key_set(seen@).contains(x) by {
                        let j = choose|j: int| 0 <= j < tv.len() && tv[j] == x;
                        if j < pv.len() {
                            assert(pv[j] == x);
                            assert(pv.to_set().contains(x));
                        }
                    }
                    assert forall|x: Seq<char>| key_set(seen@).contains(x) implies key_set(t).contains(x) by {
                        assert(pv.to_set().contains(x));
                        let j = choose|j: int| 0 <= j < pv.len() && pv[j] == x;
                        assert(tv[j] == x);
                    }
                }
            } else {
                assert(sv =~= bv.push(k@));
                assert(key_set(seen@) =~= key_set(t)) by {
                    assert forall|x: Seq<char>| key_set(t).contains(x) implies key_set(seen@).contains(x) by {
                        let j = choose|j: int| 0 <= j < tv.len() && tv[j] == x;
                        if j < pv.len() {
                            assert(pv[j] == x);
                            assert(pv.to_set().contains(x));
                            let q = choose|q: int| 0 <= q < bv.len() && bv[q] == x;
                            assert(sv[q] == x);
                        } else {
                            assert(sv[bv.len() as int] == x);
                        }
                    }
                    assert forall|x: Seq<char>| key_set(seen@).contains(x) implies key_set(t).contains(x) by {
                        let q = choose|q: int| 0 <= q < sv.len() && sv[q] == x;
                        if q < bv.len() {
                            assert(bv[q] == x);
                            assert(bv.to_set().contains(x));
                            assert(pv.to_set().contains(x));
                            let j = choose|j: int| 0 <= j < pv.len() && pv[j] == x;
                            assert(tv[j] == x);
                        } else {
                            assert(tv[i as int] == x);
                        }
                    }
                }
            }
        }
        i = i + 1;
    }
    proof {
        assert(keys@.take(keys@.len() as int) =~= keys@);
        let sv = seen@.map_values(|x: String| x@);
        sv.unique_seq_to_set();
    }
    seen.len()
}

/// Checks the challenge directories of an imported repository against the manifest:
/// as many as the manifest has distinct keys, each listed in it (checked in order).
pub fn check_challenge_dirs(dirs: &Vec<String>, manifest_keys: &Vec<String>) -> (r: Result<
    (),
    ResponseError,
>)
    ensures
        dirs@.len() != key_set(manifest_keys@).len() ==> (r matches Err(
            ResponseError::PreconditionFailed(m),
        ) && m@ == "challenge directories do not match the release manifest"@),
        dirs@.len() == key_set(manifest_keys@).len() ==> match first_unlisted(dirs@, manifest_keys@) {
            Some(d) => r matches Err(ResponseError::PreconditionFailed(m)) && m@ == "challenge `"@
                + d + "` is missing from the release manifest"@,
            None => r is Ok,
        },
{
    let n = distinct_count(manifest_keys);
    if dirs.len() != n {
        return Err(precondition_failed("challenge directories do not match the release manifest"));
    }
    let mut i: usize = 0;
    proof {
        assert(dirs@.skip(0) =~= dirs@);
    }
    while i < dirs.len()
        invariant
            i <= dirs@.len(),
            dirs@.len() == key_set(manifest_keys@).len(),
            first_unlisted(dirs@, manifest_keys@) == first_unlisted(dirs@.skip(i as int), manifest_keys@),
        decreases dirs.len() - i,
    {
        proof {
            assert(dirs@.skip(i as int)[0] == dirs@[i as int]);
            assert(dirs@.skip(i as int).drop_first() =~= dirs@.skip(i + 1));
        }
        if !contains_key(manifest_keys, dirs[i].as_str()) {
            let mut m = "challenge `".to_owned();
            push_str(&mut m, dirs[i].as_str());
            push_str(&mut m, "` is missing from the release manifest");
            return Err(ResponseError::PreconditionFailed(m));
        }
        i = i + 1;
    }
    proof {
        assert(dirs@.skip(dirs@.len() as int) =~= Seq::<String>::empty());
    }
    Ok(())
}

/// The first directory the manifest does not list.
pub open spec fn first_unlisted(dirs: Seq<String>, keys: Seq<String>) -> Option<Seq<char>>
    decreases dirs.len(),
{
    if dirs.len() == 0 {
        None
    } else if !key_set(keys).contains(dirs[0]@) {
        Some(dirs[0]@)
    } else {
        first_unlisted(dirs.drop_first(), keys)
    }
}

} // verus!
