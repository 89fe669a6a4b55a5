//! Ranges: groups of guest machines that teams attack. Each range gets its own flag per
//! challenge, written into a guest by the range host's agent; only the flag's hash is
//! kept.
use vstd::prelude::*;
use base64::Engine;
use crate::digest::{hex, lemma_encode_len, sha256, sha256_hex};
use crate::error::{bad_request, is_bad_request, ResponseError};
use crate::ident::{is_lower_alnum, mint_flag};
use crate::text::{chars_of, push_str, str_eq, trim_ws, trimmed};

verus! {

/// The standard, padded base64 text of `bytes`.
pub uninterp spec fn base64_standard(bytes: Seq<u8>) -> Seq<char>;

/// Calls `Engine::encode` of `base64::engine::general_purpose::STANDARD`; claims the
/// result is the standard padded base64 text of `bytes`. The bound keeps the length
/// computation in the crate from overflowing, where it panics.
#[verifier::external_body]
pub(crate) fn base64_encode(bytes: &[u8]) -> (s: String)
    requires
        bytes@.len() <= usize::MAX / 2,
    ensures
        s@ == base64_standard(bytes@),
{
    base64::engine::general_purpose::STANDARD.encode(bytes)
}

/// A challenge's `isw.toml`.
pub struct IswConfig {
    pub enabled: bool,
    /// The range template whose ranges carry this challenge's flag.
    pub range_template: String,
    /// The guest the flag is written into.
    pub vm: String,
    pub guest_path: String,
    pub owner: Option<String>,
    /// File mode of the flag, in octal.
    pub mode: String,
}

/// Whether `s` is three or four octal digits.
pub open spec fn octal_mode(s: Seq<char>) -> bool {
    3 <= s.len() <= 4 && forall|i: int| 0 <= i < s.len() ==> '0' <= #[trigger] s[i] && s[i] <= '7'
}

/// The message of the rule an ISW configuration breaks, if any.
pub open spec fn isw_violation(c: IswConfig) -> Option<Seq<char>> {
    let mode = trim_ws(c.mode@);
    if !c.enabled {
        None
    } else if trim_ws(c.range_template@).len() == 0 {
        Some("ISW range template is required"@)
    } else if trim_ws(c.vm@).len() == 0 {
        Some("ISW target VM is required"@)
    } else if trim_ws(c.guest_path@).len() == 0 {
        Some("ISW guest flag path is required"@)
    } else if mode.len() != 0 && !octal_mode(mode) {
        Some("ISW file mode must be a 3-4 digit octal string (e.g. 0644)"@)
    } else {
        None
    }
}

/// An ISW configuration is accepted exactly when ISW is off, or when it names a range
/// template, a target VM and a guest flag path, and its file mode (trimmed) is either
/// empty or three or four octal digits.
pub proof fn lemma_isw_config_accepted(c: IswConfig)
    ensures
        isw_violation(c) is None <==> (!c.enabled || (trim_ws(c.range_template@).len() > 0 && trim_ws(
            c.vm@,
        ).len() > 0 && trim_ws(c.guest_path@).len() > 0 && (trim_ws(c.mode@).len() == 0 || (3 <= trim_ws(
            c.mode@,
        ).len() <= 4 && forall|i: int|
            0 <= i < trim_ws(c.mode@).len() ==> '0' <= #[trigger] trim_ws(c.mode@)[i] && trim_ws(
                c.mode@,
            )[i] <= '7')))),
{
}

fn is_octal_mode(s: &str) -> (b: bool)
    ensures
        b == octal_mode(s@),
{
    let cs = chars_of(s);
    if cs.len() < 3 || cs.len() > 4 {
        return false;
    }
    let mut i: usize = 0;
    while i < cs.len()
        invariant
            i <= cs@.len(),
            cs@ == s@,
            forall|k: int| 0 <= k < i ==> '0' <= #[trigger] cs@[k] && cs@[k] <= '7',
        decreases cs.len() - i,
    {
        if !('0' <= cs[i] && cs[i] <= '7') {
            return false;
        }
        i = i + 1;
    }
    true
}

/// Checks an ISW configuration before it is stored.
pub fn validate_isw_config(config: &IswConfig) -> (r: Result<(), ResponseError>)
    ensures
        match isw_violation(*config) {
            None => r is Ok,
            Some(m) => is_bad_request(r, m),
        },
{
    if !config.enabled {
        return Ok(());
    }
    if trimmed(config.range_template.as_str()).as_str().is_empty() {
        return Err(bad_request("ISW range template is required"));
    }
    if trimmed(config.vm.as_str()).as_str().is_empty() {
        return Err(bad_request("ISW target VM is required"));
    }
    if trimmed(config.guest_path.as_str()).as_str().is_empty() {
        return Err(bad_request("ISW guest flag path is required"));
    }
    let mode = trimmed(config.mode.as_str());
    if !mode.as_str().is_empty() && !is_octal_mode(mode.as_str()) {
        return Err(bad_request("ISW file mode must be a 3-4 digit octal string (e.g. 0644)"));
    }
    Ok(())
}

/// Whether a challenge's flag belongs on the ranges of template `template`.
pub fn targets_template(config: &IswConfig, template: &str) -> (b: bool)
    ensures
        b == (config.enabled && config.range_template@ == template@),
{
    config.enabled && str_eq(config.range_template.as_str(), template)
}

/// A freshly minted flag with what is stored and what is sent for it.
pub struct FlagInjection {
    pub flag: String,
    /// What is stored: the flag's SHA-256 in hexadecimal.
    pub value_hash: String,
    /// What the agent is sent: the flag in base64.
    pub content_b64: String,
}

/// Mints a flag for one range and prepares its injection.
pub fn prepare_flag_injection() -> (r: FlagInjection)
    ensures
        r.flag@.len() == 38,
        r.flag@.take(5) == "flag{"@,
        r.flag@[37] == '}',
        forall|i: int| 5 <= i < 37 ==> is_lower_alnum(#[trigger] r.flag@[i]),
        r.value_hash@ == hex(sha256(vstd::utf8::encode_utf8(r.flag@))),
        r.content_b64@ == base64_standard(vstd::utf8::encode_utf8(r.flag@)),
{
    let flag = mint_flag();
    proof {
        lemma_encode_len(flag@);
    }
    let value_hash = sha256_hex(flag.as_str().as_bytes());
    let content_b64 = base64_encode(flag.as_str().as_bytes());
    FlagInjection { flag, value_hash, content_b64 }
}

/// What the agent answered to an injection.
pub enum InjectReply {
    /// The agent answered: whether it wrote the file, the hash it read back, and a note.
    Answered { ok: bool, sha256: Option<String>, message: Option<String> },
    /// The call failed with this message.
    Failed(String),
}

/// An injection is verified only when the agent wrote the file and read back the
/// expected hash; otherwise its note, or a generic one, explains the failure.
pub open spec fn inject_outcome_spec(reply: InjectReply, hash: Seq<char>) -> (bool, Option<Seq<char>>) {
    match reply {
        InjectReply::Answered { ok, sha256, message } => if ok && (sha256 matches Some(h) && h@
            == hash) {
            (true, None)
        } else {
            (
                false,
                Some(
                    match message {
                        Some(m) => m@,
                        None => "inject/verify mismatch"@,
                    },
                ),
            )
        },
        InjectReply::Failed(e) => (false, Some(e@)),
    }
}

pub open spec fn opt_view(o: Option<String>) -> Option<Seq<char>> {
    match o {
        Some(s) => Some(s@),
        None => None,
    }
}

pub fn inject_outcome(reply: &InjectReply, hash: &str) -> (r: (bool, Option<String>))
    ensures
        (r.0, opt_view(r.1)) == inject_outcome_spec(*reply, hash@),
{
    match reply {
        InjectReply::Answered { ok, sha256, message } => {
            let verified = *ok && match sha256 {
                Some(h) => str_eq(h.as_str(), hash),
                None => false,
            };
            if verified {
                (true, None)
            } else {
                match message {
                    Some(m) => (false, Some(m.clone())),
                    None => (false, Some("inject/verify mismatch".to_owned())),
                }
            }
        },
        InjectReply::Failed(e) => (false, Some(e.clone())),
    }
}

/// How arming went for one challenge's flag.
pub struct FlagArmResult {
    pub challenge_id: i64,
    pub vm: String,
    pub guest_path: String,
    pub ok: bool,
    pub message: Option<String>,
}

/// How arming a range went.
pub struct ArmReport {
    pub range_id: i64,
    pub flags: Vec<FlagArmResult>,
}

/// The first note among `results`.
pub open spec fn first_message(results: Seq<FlagArmResult>) -> Option<Seq<char>>
    decreases results.len(),
{
    if results.len() == 0 {
        None
    } else {
        match results[0].message {
            Some(m) => Some(m@),
            None => first_message(results.drop_first()),
        }
    }
}

/// A range is armed when it carries at least one flag and every flag was verified.
pub open spec fn armed_ok(results: Seq<FlagArmResult>) -> bool {
    results.len() > 0 && forall|i: int| 0 <= i < results.len() ==> #[trigger] results[i].ok
}

/// The state a range is left in after arming, and the error kept for it.
pub open spec fn arm_state_spec(results: Seq<FlagArmResult>, template: Seq<char>) -> (Seq<char>, Option<
    Seq<char>,
>) {
    if armed_ok(results) {
        ("armed"@, None)
    } else if results.len() == 0 {
        (
            "error"@,
            Some(
                "no enabled isw.toml challenge targets range template `"@ + template + "`"@,
            ),
        )
    } else {
        ("error"@, first_message(results))
    }
}

/// The first note is that of the earliest result carrying one; none when no result does.
pub proof fn lemma_first_message_is_earliest(results: Seq<FlagArmResult>)
    ensures
        forall|k: int|
            0 <= k < results.len() && (#[trigger] results[k]).message is Some && (forall|j: int|
                0 <= j < k ==> (#[trigger] results[j]).message is None) ==> first_message(results) == Some(
                results[k].message->0@,
            ),
        (forall|j: int| 0 <= j < results.len() ==> (#[trigger] results[j]).message is None)
            ==> first_message(results) is None,
    decreases results.len(),
{
    if results.len() > 0 {
        let rest = results.drop_first();
        lemma_first_message_is_earliest(rest);
        assert forall|k: int|
            0 <= k < results.len() && (#[trigger] results[k]).message is Some && (forall|j: int|
                0 <= j < k ==> (#[trigger] results[j]).message is None) implies first_message(results)
                == Some(results[k].message->0@) by {
            if k > 0 {
                assert(results[0].message is None);
                assert(rest[k - 1] == results[k]);
                assert forall|j: int| 0 <= j < k - 1 implies (#[trigger] rest[j]).message is None by {
                    assert(rest[j] == results[j + 1]);
                }
            }
        }
        if forall|j: int| 0 <= j < results.len() ==> (#[trigger] results[j]).message is None {
            assert(results[0].message is None);
            assert forall|j: int| 0 <= j < rest.len() implies (#[trigger] rest[j]).message is None by {
                assert(rest[j] == results[j + 1]);
            }
        }
    }
}

/// A range is left armed exactly when it carries at least one flag and every flag was
/// verified, and then no error is kept; otherwise it is in error, and where some flag
/// failed the error kept is the first note among the results.
pub proof fn lemma_armed_only_when_all_verified(results: Seq<FlagArmResult>, template: Seq<char>)
    ensures
        arm_state_spec(results, template).0 == "armed"@ <==> (results.len() > 0 && forall|i: int|
            0 <= i < results.len() ==> #[trigger] results[i].ok),
        arm_state_spec(results, template).0 == "armed"@ ==> arm_state_spec(results, template).1 is None,
        arm_state_spec(results, template).0 != "armed"@ ==> arm_state_spec(results, template).0 == "error"@,
        (exists|i: int| 0 <= i < results.len() && !(#[trigger] results[i]).ok) ==> arm_state_spec(
            results,
            template,
        ).1 == first_message(results),
{
    reveal_strlit("armed");
    reveal_strlit("error");
    assert("armed"@[0] != "error"@[0]);
}

pub fn arm_state(results: &Vec<FlagArmResult>, template: &str) -> (r: (String, Option<String>))
    ensures
        (r.0@, opt_view(r.1)) == arm_state_spec(results@, template@),
{
    if results.len() == 0 {
        let mut m = "no enabled isw.toml challenge targets range template `".to_owned();
        push_str(&mut m, template);
        push_str(&mut m, "`");
        return ("error".to_owned(), Some(m));
    }
    let mut i: usize = 0;
    let mut all_ok = true;
    let mut first: Option<String> = None;
    proof {
        assert(results@.skip(0) =~= results@);
    }
    while i < results.len()
        invariant
            i <= results@.len(),
            all_ok <==> forall|k: int| 0 <= k < i ==> #[trigger] results@[k].ok,
            first is Some ==> opt_view(first) == first_message(results@),
            first is None ==> first_message(results@) == first_message(results@.skip(i as int)),
        decreases results.len() - i,
    {
        if !results[i].ok {
            all_ok = false;
        }
        if first.is_none() {
            proof {
                assert(results@.skip(i as int)[0] == results@[i as int]);
                assert(results@.skip(i as int).drop_first() =~= results@.skip(i + 1));
            }
            match &results[i].message {
                Some(m) => {
                    first = Some(m.clone());
                },
                None => {},
            }
        }
        i = i + 1;
    }
    proof {
        assert(results@.skip(results@.len() as int) =~= Seq::<FlagArmResult>::empty());
    }
    if all_ok {
        ("armed".to_owned(), None)
    } else {
        ("error".to_owned(), first)
    }
}

/// The snapshot a range's guests are reset to when none was named.
pub const DEFAULT_SNAPSHOT: &'static str = "clean-armed";

pub fn snapshot_name(configured: Option<&str>) -> (s: String)
    ensures
        s@ == match configured {
            Some(c) => c@,
            None => DEFAULT_SNAPSHOT@,
        },
{
    match configured {
        Some(c) => c.to_owned(),
        None => DEFAULT_SNAPSHOT.to_owned(),
    }
}

/// What the agent answers when it provisions a VPN peer.
pub struct VpnPeerResponse {
    pub client_private_key: String,
    pub client_public_key: String,
    pub server_public_key: String,
    pub endpoint: String,
    pub dns: Option<String>,
}

/// The WireGuard client configuration handed to a team.
pub open spec fn wg_config_spec(resp: VpnPeerResponse, address: Seq<char>, subnet: Seq<char>) -> Seq<char> {
    let dns = match resp.dns {
        Some(d) => "DNS = "@ + d@ + "\n"@,
        None => Seq::empty(),
    };
    "[Interface]\nPrivateKey = "@ + resp.client_private_key@ + "\nAddress = "@ + address
        + "/32\n"@ + dns + "\n[Peer]\nPublicKey = "@ + resp.server_public_key@ + "\nEndpoint = "@
        + resp.endpoint@ + "\nAllowedIPs = "@ + subnet + "\nPersistentKeepalive = 25\n"@
}

pub fn build_wg_config(resp: &VpnPeerResponse, address: &str, subnet: &str) -> (s: String)
    ensures
        s@ == wg_config_spec(*resp, address@, subnet@),
{
    let mut s = "[Interface]\nPrivateKey = ".to_owned();
    push_str(&mut s, resp.client_private_key.as_str());
    push_str(&mut s, "\nAddress = ");
    push_str(&mut s, address);
    push_str(&mut s, "/32\n");
    let ghost before_dns = s@;
    match &resp.dns {
        Some(d) => {
            push_str(&mut s, "DNS = ");
            push_str(&mut s, d.as_str());
            push_str(&mut s, "\n");
        },
        None => {
            proof {
                assert(s@ =~= before_dns + Seq::<char>::empty());
            }
        },
    }
    push_str(&mut s, "\n[Peer]\nPublicKey = ");
    push_str(&mut s, resp.server_public_key.as_str());
    push_str(&mut s, "\nEndpoint = ");
    push_str(&mut s, resp.endpoint.as_str());
    push_str(&mut s, "\nAllowedIPs = ");
    push_str(&mut s, subnet);
    push_str(&mut s, "\nPersistentKeepalive = 25\n");
    s
}

/// A stored VPN peer, as the provisioning reads it.
pub struct PeerRow {
    pub id: i64,
    pub team_id: i64,
    pub revoked: bool,
}

/// The peers revoked before a team gets a new one: its own that are still active, in
/// order.
pub open spec fn to_revoke(peers: Seq<PeerRow>, team_id: i64) -> Seq<i64>
    decreases peers.len(),
{
    if peers.len() == 0 {
        Seq::empty()
    } else {
        let rest = to_revoke(peers.drop_last(), team_id);
        let p = peers.last();
        if p.team_id == team_id && !p.revoked {
            rest.push(p.id)
        } else {
            rest
        }
    }
}

/// The peers once those whose ids are in `ids` are marked revoked.
pub open spec fn revoke_ids(peers: Seq<PeerRow>, ids: Seq<i64>) -> Seq<PeerRow> {
    peers.map_values(
        |p: PeerRow| if ids.contains(p.id) { PeerRow { revoked: true, ..p } } else { p },
    )
}

/// Provisioning leaves a team one active peer: the peers to revoke are exactly the
/// team's active ones, so once they are revoked and the new peer is added, the new peer
/// is the team's only active one, and no other team's peer changes (peer ids being
/// distinct, as stored rows' are).
pub proof fn lemma_one_active_peer(peers: Seq<PeerRow>, team_id: i64, new_peer: PeerRow)
    requires
        new_peer.team_id == team_id,
        !new_peer.revoked,
        forall|a: int, b: int| 0 <= a < b < peers.len() ==> (#[trigger] peers[a]).id != (#[trigger] peers[b]).id,
    ensures
        ({
            let after = revoke_ids(peers, to_revoke(peers, team_id)).push(new_peer);
            &&& forall|i: int|
                0 <= i < after.len() && (#[trigger] after[i]).team_id == team_id && !after[i].revoked
                    ==> i == peers.len()
            &&& forall|i: int|
                0 <= i < peers.len() && (#[trigger] peers[i]).team_id != team_id ==> after[i] == peers[i]
        }),
{
    lemma_to_revoke_covers(peers, team_id);
    let ids = to_revoke(peers, team_id);
    let after = revoke_ids(peers, ids).push(new_peer);
    assert forall|i: int|
        0 <= i < after.len() && (#[trigger] after[i]).team_id == team_id && !after[i].revoked
            implies i == peers.len() by {
        if i < peers.len() {
            assert(after[i] == revoke_ids(peers, ids)[i]);
            if !ids.contains(peers[i].id) {
                assert(peers[i].team_id == team_id && !peers[i].revoked);
            }
        }
    }
    assert forall|i: int| 0 <= i < peers.len() && (#[trigger] peers[i]).team_id != team_id implies after[i]
        == peers[i] by {
        assert(after[i] == revoke_ids(peers, ids)[i]);
        if ids.contains(peers[i].id) {
            let k = choose|k: int| 0 <= k < ids.len() && ids[k] == peers[i].id;
            let j = choose|j: int|
                0 <= j < peers.len() && (#[trigger] peers[j]).team_id == team_id && !peers[j].revoked
                    && peers[j].id == #[trigger] ids[k];
            assert(j != i);
        }
    }
}

/// The ids to revoke are those of the team's active peers, every one of them.
proof fn lemma_to_revoke_covers(peers: Seq<PeerRow>, team_id: i64)
    ensures
        forall|i: int|
            0 <= i < peers.len() && (#[trigger] peers[i]).team_id == team_id && !peers[i].revoked
                ==> to_revoke(peers, team_id).contains(peers[i].id),
        forall|k: int|
            0 <= k < to_revoke(peers, team_id).len() ==> exists|j: int|
                0 <= j < peers.len() && (#[trigger] peers[j]).team_id == team_id && !peers[j].revoked
                    && peers[j].id == #[trigger] to_revoke(peers, team_id)[k],
    decreases peers.len(),
{
    if peers.len() > 0 {
        let init = peers.drop_last();
        lemma_to_revoke_covers(init, team_id);
        let rest = to_revoke(init, team_id);
        let cur = to_revoke(peers, team_id);
        assert forall|i: int|
            0 <= i < peers.len() && (#[trigger] peers[i]).team_id == team_id && !peers[i].revoked
                implies cur.contains(peers[i].id) by {
            if i < peers.len() - 1 {
                assert(init[i] == peers[i]);
                let k = choose|k: int| 0 <= k < rest.len() && rest[k] == peers[i].id;
                assert(cur[k] == rest[k]);
            } else {
                assert(cur[cur.len() - 1] == peers[i].id);
            }
        }
        assert forall|k: int| 0 <= k < cur.len() implies exists|j: int|
            0 <= j < peers.len() && (#[trigger] peers[j]).team_id == team_id && !peers[j].revoked
                && peers[j].id == #[trigger] cur[k] by {
            if k < rest.len() {
                assert(cur[k] == rest[k]);
                let j = choose|j: int|
                    0 <= j < init.len() && (#[trigger] init[j]).team_id == team_id && !init[j].revoked
                        && init[j].id == rest[k];
                assert(peers[j] == init[j]);
            } else {
                assert(peers[peers.len() - 1] == peers.last());
            }
        }
    }
}

pub fn peers_to_revoke(peers: &Vec<PeerRow>, team_id: i64) -> (ids: Vec<i64>)
    ensures
        ids@ == to_revoke(peers@, team_id),
{
    let mut ids: Vec<i64> = Vec::new();
    let mut i: usize = 0;
    while i < peers.len()
        invariant
            i <= peers@.len(),
            ids@ == to_revoke(peers@.take(i as int), team_id),
        decreases peers.len() - i,
    {
        proof {
            assert(peers@.take(i + 1).drop_last() =~= peers@.take(i as int));
        }
        if peers[i].team_id == team_id && !peers[i].revoked {
            ids.push(peers[i].id);
        }
        i = i + 1;
    }
    proof {
        assert(peers@.take(peers@.len() as int) =~= peers@);
    }
    ids
}

/// The configuration a team may download: that of its peer, unless revoked.
pub fn downloadable_config(revoked: bool, config: Option<&str>) -> (r: Option<String>)
    ensures
        revoked ==> r is None,
        !revoked ==> opt_view(r) == match config {
            Some(c) => Some(c@),
            None => None,
        },
{
    if revoked {
        return None;
    }
    match config {
        Some(c) => Some(c.to_owned()),
        None => None,
    }
}

} // verus!
