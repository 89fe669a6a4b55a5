//! Synchronisation of games between instances: the rules that requests to the sync
//! endpoints and imports from a remote instance follow.
use vstd::prelude::*;
use vstd::utf8::is_char_boundary;
use vstd::string::StringSliceAdditionalSpecFns;
use crate::digest::lemma_encode_len;
use crate::error::{bad_request, conflict, ResponseError};
use crate::instance::{lemma_lex_irreflexive, lemma_lex_total, lemma_lex_transitive, lex_lt};
use crate::isw::{base64_encode, base64_standard};
use crate::text::push_str;
use crate::text::{
    chars_of, find_exec, first_occurrence, occurs_at_exec, starts_with, starts_with_exec,
    string_of_range, str_eq, strip_repeated, strip_repeated_exec, trim, trim_bounds, trim_end,
    trim_end_bound, trim_ws, trimmed, CharClass,
};

verus! {

/// `base_url` without surrounding whitespace and trailing slashes.
pub open spec fn base_url_core(base_url: Seq<char>) -> Seq<char> {
    trim_end(trim_ws(base_url), CharClass::Exactly('/'))
}

/// Normalises the base URL of a remote instance: surrounding whitespace and trailing
/// slashes go; what remains must be an `http://` or `https://` URL.
pub fn normalize_base_url(base_url: &str) -> (r: Result<String, ResponseError>)
    ensures
        ({
            let u = base_url_core(base_url@);
            if u.len() == 0 {
                r matches Err(ResponseError::BadRequest(m)) && m@
                    == "remote base url can not be empty"@
            } else if !(starts_with(u, "http://"@) || starts_with(u, "https://"@)) {
                r matches Err(ResponseError::BadRequest(m)) && m@
                    == "remote base url must start with http:// or https://"@
            } else {
                r matches Ok(s) && s@ == u
            }
        }),
{
    let cs = chars_of(base_url);
    let (a, b) = trim_bounds(cs.as_slice(), 0, cs.len(), CharClass::Whitespace);
    let e = trim_end_bound(cs.as_slice(), a, b, CharClass::Exactly('/'));
    proof {
        assert(cs@.subrange(0, cs@.len() as int) =~= cs@);
    }
    if e == a {
        return Err(bad_request("remote base url can not be empty"));
    }
    let u = string_of_range(cs.as_slice(), a, e);
    if !(starts_with_exec(u.as_str(), "http://") || starts_with_exec(u.as_str(), "https://")) {
        return Err(bad_request("remote base url must start with http:// or https://"));
    }
    Ok(u)
}

/// A sync token with surrounding whitespace removed; a blank token counts as none.
pub fn normalized_sync_token<'a>(sync_token: Option<&'a str>) -> (r: Option<&'a str>)
    ensures
        match sync_token {
            None => r is None,
            Some(t) => if trim_ws(t@).len() == 0 {
                r is None
            } else {
                r matches Some(x) && x@ == trim_ws(t@)
            },
        },
{
    match sync_token {
        None => None,
        Some(t) => {
            let cs = chars_of(t);
            let (a, b) = trim_bounds(cs.as_slice(), 0, cs.len(), CharClass::Whitespace);
            proof {
                assert(cs@.subrange(0, cs@.len() as int) =~= cs@);
            }
            if a == b {
                None
            } else {
                Some(t.substring_char(a, b))
            }
        },
    }
}

/// What a sync registry path names: the repository, the kind of object and its reference.
pub open spec fn registry_path_split(path: Seq<char>, marker: Seq<char>) -> Option<(Seq<char>, Seq<char>)> {
    match first_occurrence(path, marker) {
        Some(i) => Some((trim(path.take(i), CharClass::Exactly('/')), path.skip(i + marker.len()))),
        None => None,
    }
}

fn split_registry_path(cs: &Vec<char>, marker: &str) -> (r: Option<(String, String)>)
    ensures
        match registry_path_split(cs@, marker@) {
            None => r is None,
            Some((repo, reference)) => r matches Some((x, y)) && x@ == repo && y@ == reference,
        },
{
    let ms = chars_of(marker);
    match find_exec(cs.as_slice(), ms.as_slice()) {
        None => None,
        Some(i) => {
            let (a, b) = trim_bounds(cs.as_slice(), 0, i, CharClass::Exactly('/'));
            let repo = string_of_range(cs.as_slice(), a, b);
            assert(i + ms.len() <= cs.len());
            let reference = string_of_range(cs.as_slice(), i + ms.len(), cs.len());
            proof {
                assert(cs@.subrange(0, i as int) =~= cs@.take(i as int));
                assert(cs@.subrange(i + ms@.len(), cs@.len() as int) =~= cs@.skip(i + ms@.len()));
            }
            Some((repo, reference))
        },
    }
}

/// Splits a path under a release's registry proxy into the repository, the kind of
/// object (`manifests` or `blobs`) and the reference; the repository loses its surrounding
/// slashes. A path that names neither is refused.
pub fn parse_sync_registry_path(path: &str) -> (r: Result<(String, &'static str, String), ResponseError>)
    ensures
        match registry_path_split(path@, "/manifests/"@) {
            Some((repo, reference)) => r matches Ok((x, k, y)) && x@ == repo && k@ == "manifests"@
                && y@ == reference,
            None => match registry_path_split(path@, "/blobs/"@) {
                Some((repo, reference)) => r matches Ok((x, k, y)) && x@ == repo && k@ == "blobs"@
                    && y@ == reference,
                None => r matches Err(ResponseError::BadRequest(m)) && m@
                    == "unsupported sync registry path"@,
            },
        },
{
    let cs = chars_of(path);
    if let Some((repo, reference)) = split_registry_path(&cs, "/manifests/") {
        return Ok((repo, "manifests", reference));
    }
    if let Some((repo, reference)) = split_registry_path(&cs, "/blobs/") {
        return Ok((repo, "blobs", reference));
    }
    Err(bad_request("unsupported sync registry path"))
}

/// The first twelve bytes of a release id (all of it when shorter), as shown in commit
/// messages. The cut must fall on a character boundary.
pub fn short_release_id(release_id: &str) -> (r: &str)
    requires
        release_id.spec_bytes().len() <= usize::MAX,
        is_char_boundary(
            release_id.spec_bytes(),
            if release_id.spec_bytes().len() < 12 {
                release_id.spec_bytes().len() as int
            } else {
                12
            },
        ),
    ensures
        r.spec_bytes() == release_id.spec_bytes().take(
            if release_id.spec_bytes().len() < 12 {
                release_id.spec_bytes().len() as int
            } else {
                12
            },
        ),
{
    proof {
        broadcast use vstd::utf8::encode_utf8_valid_utf8;
    }
    let n = if release_id.len() < 12 { release_id.len() } else { 12 };
    let (head, _) = release_id.split_at(n);
    head
}

/// The query of a git `info/refs` request.
pub struct InfoRefsQuery {
    pub service: String,
}

impl InfoRefsQuery {
    /// The service name without its `git-` prefix (repeated prefixes all go).
    pub fn service_trimmed(&self) -> (s: String)
        ensures
            s@ == strip_repeated(self.service@, "git-"@),
    {
        strip_repeated_exec(self.service.as_str(), "git-")
    }
}

/// The token of an `Authorization: Bearer <token>` header value.
pub fn bearer_token(authorization: Option<&str>) -> (r: Option<String>)
    ensures
        match authorization {
            None => r is None,
            Some(v) => if starts_with(v@, "Bearer "@) {
                r matches Some(t) && t@ == v@.skip(7)
            } else {
                r is None
            },
        },
{
    match authorization {
        None => None,
        Some(v) => {
            let cs = chars_of(v);
            let p = chars_of("Bearer ");
            proof {
                reveal_strlit("Bearer ");
            }
            if occurs_at_exec(cs.as_slice(), p.as_slice(), 0) {
                let t = string_of_range(cs.as_slice(), 7, cs.len());
                proof {
                    assert(cs@.subrange(7, cs@.len() as int) =~= v@.skip(7));
                }
                Some(t)
            } else {
                None
            }
        },
    }
}

/// Whether a game's releases may be served to a caller: a game whose policy forbids
/// sync (2) or whose mirror was detached serves nobody; an open game (0) serves everybody;
/// a token-guarded game (1) serves callers that present its sync token.
pub open spec fn release_visible_spec(
    sync_policy: i32,
    detached: bool,
    token: Option<Seq<char>>,
    game_token: Option<Seq<char>>,
) -> bool {
    if sync_policy == 2 || detached {
        false
    } else if sync_policy == 0 {
        true
    } else if sync_policy == 1 {
        token is Some && game_token == token
    } else {
        false
    }
}

/// Releases are served only for an attached game that is open to sync, or guarded by a
/// token the caller presents; an attached open game serves every caller.
pub proof fn lemma_release_visibility(
    sync_policy: i32,
    detached: bool,
    token: Option<Seq<char>>,
    game_token: Option<Seq<char>>,
)
    ensures
        release_visible_spec(sync_policy, detached, token, game_token) ==> !detached && (sync_policy == 0
            || (sync_policy == 1 && token is Some && token == game_token)),
        !detached && sync_policy == 0 ==> release_visible_spec(sync_policy, detached, token, game_token),
        !detached && sync_policy == 1 && token is Some && token == game_token ==> release_visible_spec(
            sync_policy,
            detached,
            token,
            game_token,
        ),
{
}

pub open spec fn str_opt_view(o: Option<&str>) -> Option<Seq<char>> {
    match o {
        Some(s) => Some(s@),
        None => None,
    }
}

/// Decides whether a game's releases are visible to a caller presenting `token`.
pub fn release_visible(sync_policy: i32, detached: bool, token: Option<&str>, game_token: Option<&str>) -> (b: bool)
    ensures
        b == release_visible_spec(sync_policy, detached, str_opt_view(token), str_opt_view(game_token)),
{
    if sync_policy == 2 || detached {
        false
    } else if sync_policy == 0 {
        true
    } else if sync_policy == 1 {
        match (token, game_token) {
            (Some(t), Some(g)) => str_eq(t, g),
            _ => false,
        }
    } else {
        false
    }
}


/// Where a sync registry request is relayed: the internal registry's `/v2/` API for the
/// local repository, with the server and repository stripped of surrounding slashes.
pub open spec fn relay_uri_spec(
    insecure: bool,
    server: Seq<char>,
    repository: Seq<char>,
    kind: Seq<char>,
    reference: Seq<char>,
) -> Seq<char> {
    (if insecure {
        "http"@
    } else {
        "https"@
    }) + "://"@ + trim(server, CharClass::Exactly('/')) + "/v2/"@ + trim(
        repository,
        CharClass::Exactly('/'),
    ) + "/"@ + kind + "/"@ + reference
}

fn trimmed_slashes(s: &str) -> (r: String)
    ensures
        r@ == trim(s@, CharClass::Exactly('/')),
{
    let cs = chars_of(s);
    let (a, b) = trim_bounds(cs.as_slice(), 0, cs.len(), CharClass::Exactly('/'));
    proof {
        assert(cs@.subrange(0, cs@.len() as int) =~= cs@);
    }
    string_of_range(cs.as_slice(), a, b)
}

pub fn relay_uri(insecure: bool, server: &str, repository: &str, kind: &str, reference: &str) -> (r:
    String)
    ensures
        r@ == relay_uri_spec(insecure, server@, repository@, kind@, reference@),
{
    let mut r = if insecure {
        "http".to_owned()
    } else {
        "https".to_owned()
    };
    push_str(&mut r, "://");
    let sv = trimmed_slashes(server);
    push_str(&mut r, sv.as_str());
    push_str(&mut r, "/v2/");
    let rp = trimmed_slashes(repository);
    push_str(&mut r, rp.as_str());
    push_str(&mut r, "/");
    push_str(&mut r, kind);
    push_str(&mut r, "/");
    push_str(&mut r, reference);
    r
}

/// The `Authorization` value for the internal registry: basic credentials where both a
/// user name and a password are configured.
pub open spec fn registry_auth_spec(username: Option<Seq<char>>, password: Option<Seq<char>>) -> Option<
    Seq<char>,
> {
    match (username, password) {
        (Some(u), Some(p)) => Some(
            "Basic "@ + base64_standard(vstd::utf8::encode_utf8(u + ":"@ + p)),
        ),
        _ => None,
    }
}

pub fn registry_basic_auth(username: Option<&str>, password: Option<&str>) -> (r: Option<String>)
    requires
        username matches Some(u) ==> u@.len() < usize::MAX / 32,
        password matches Some(p) ==> p@.len() < usize::MAX / 32,
    ensures
        match registry_auth_spec(str_opt_view(username), str_opt_view(password)) {
            Some(a) => r matches Some(x) && x@ == a,
            None => r is None,
        },
{
    match (username, password) {
        (Some(u), Some(p)) => {
            let mut cred = u.to_owned();
            push_str(&mut cred, ":");
            push_str(&mut cred, p);
            proof {
                reveal_strlit(":");
                lemma_encode_len(cred@);
            }
            let enc = base64_encode(cred.as_str().as_bytes());
            let mut a = "Basic ".to_owned();
            push_str(&mut a, enc.as_str());
            Some(a)
        },
        _ => None,
    }
}

/// Refuses a release whose recorded snapshot is not what its release ref points at.
pub fn check_release_ref(ref_oid: Option<&str>, snapshot_commit: &str) -> (r: Result<(), ResponseError>)
    ensures
        str_opt_view(ref_oid) == Some(snapshot_commit@) ==> r is Ok,
        str_opt_view(ref_oid) != Some(snapshot_commit@) ==> (r matches Err(
            ResponseError::Conflict(m),
        ) && m@ == "requested release ref is missing or no longer matches the recorded snapshot"@),
{
    let ok = match ref_oid {
        Some(o) => str_eq(o, snapshot_commit),
        None => false,
    };
    if ok {
        Ok(())
    } else {
        Err(conflict("requested release ref is missing or no longer matches the recorded snapshot"))
    }
}

/// Whether a release may be served: it must exist, its mirror must not be detached and
/// it must be visible to the caller.
pub fn check_release_access(found: bool, detached: bool, visible: bool) -> (r: Result<(), ResponseError>)
    ensures
        !found ==> (r matches Err(ResponseError::NotFound(m)) && m@ == "game release not found"@),
        found && detached ==> (r matches Err(ResponseError::Conflict(m)) && m@
            == "detached mirrors can no longer serve sync traffic"@),
        found && !detached && !visible ==> (r matches Err(ResponseError::Forbidden(m)) && m@
            == "game release is not accessible through sync"@),
        found && !detached && visible ==> r is Ok,
{
    if !found {
        return Err(ResponseError::NotFound("game release not found".to_owned()));
    }
    if detached {
        return Err(conflict("detached mirrors can no longer serve sync traffic"));
    }
    if !visible {
        return Err(ResponseError::Forbidden("game release is not accessible through sync".to_owned()));
    }
    Ok(())
}


/// The display order of the `i`-th challenge when challenges are listed by game and id:
/// its place, from 1, among the challenges of its game.
pub open spec fn display_order_at(games: Seq<i64>, i: int) -> int
    decreases i,
{
    if i <= 0 {
        1
    } else if games[i] != games[i - 1] {
        1
    } else {
        display_order_at(games, i - 1) + 1
    }
}

proof fn lemma_display_order_bound(games: Seq<i64>, i: int)
    requires
        0 <= i,
    ensures
        1 <= display_order_at(games, i) <= i + 1,
    decreases i,
{
    if i > 0 && games[i] == games[i - 1] {
        lemma_display_order_bound(games, i - 1);
    }
}

/// The display orders of challenges listed by game and id (`games[i]` is the game of the
/// `i`-th): numbered from 1 within each game.
pub fn display_orders(games: &Vec<i64>) -> (orders: Vec<i32>)
    requires
        games@.len() <= i32::MAX,
    ensures
        orders@.len() == games@.len(),
        forall|i: int| 0 <= i < games@.len() ==> orders@[i] == display_order_at(games@, i),
{
    let mut orders: Vec<i32> = Vec::new();
    let mut i: usize = 0;
    let mut current: i32 = 0;
    while i < games.len()
        invariant
            i <= games@.len(),
            games@.len() <= i32::MAX,
            orders@.len() == i,
            forall|k: int| 0 <= k < i ==> orders@[k] == display_order_at(games@, k),
            i > 0 ==> current == display_order_at(games@, i - 1),
        decreases games.len() - i,
    {
        proof {
            lemma_display_order_bound(games@, i as int);
        }
        if i == 0 || games[i] != games[i - 1] {
            current = 1;
        } else {
            current = current + 1;
        }
        orders.push(current);
        i = i + 1;
    }
    orders
}

/// The registry source every instance starts with.
pub const DEFAULT_SOURCE_NAME: &'static str = "ret2shell-official";
pub const DEFAULT_SOURCE_URL: &'static str = "https://github.com/ret2shell/game-registry";
pub const DEFAULT_SOURCE_BRANCH: &'static str = "main";

/// A registry source as the start-up check reads it.
pub struct SourceRow {
    pub name: String,
    pub git_url: String,
    pub branch: String,
}

pub open spec fn is_default_source(s: SourceRow) -> bool {
    s.name@ == DEFAULT_SOURCE_NAME@ || (s.git_url@ == DEFAULT_SOURCE_URL@ && s.branch@
        == DEFAULT_SOURCE_BRANCH@)
}

/// Whether the default registry source is already configured, by name or by location.
pub fn has_default_source(sources: &Vec<SourceRow>) -> (b: bool)
    ensures
        b == exists|i: int| 0 <= i < sources@.len() && is_default_source(#[trigger] sources@[i]),
{
    let mut i: usize = 0;
    while i < sources.len()
        invariant
            i <= sources@.len(),
            forall|k: int| 0 <= k < i ==> !is_default_source(#[trigger] sources@[k]),
        decreases sources.len() - i,
    {
        let s = &sources[i];
        if str_eq(s.name.as_str(), DEFAULT_SOURCE_NAME) || (str_eq(s.git_url.as_str(), DEFAULT_SOURCE_URL)
            && str_eq(s.branch.as_str(), DEFAULT_SOURCE_BRANCH)) {
            return true;
        }
        i = i + 1;
    }
    false
}

/// The instance id kept in the workspace, when the file holds one.
pub fn stored_instance_id(contents: Option<&str>) -> (r: Option<String>)
    ensures
        match contents {
            Some(c) => if trim_ws(c@).len() > 0 {
                r matches Some(x) && x@ == trim_ws(c@)
            } else {
                r is None
            },
            None => r is None,
        },
{
    match contents {
        Some(c) => {
            let t = trimmed(c);
            if t.as_str().is_empty() {
                None
            } else {
                Some(t)
            }
        },
        None => None,
    }
}

/// What a game's sync fields are filled with at start-up: its sync key, or else its
/// bucket; whether it still needs a fresh sync token; and whether anything changes.
pub fn sync_fields_backfill(sync_key: Option<&str>, bucket: Option<&str>, has_token: bool) -> (r: (
    Option<String>,
    bool,
    bool,
))
    ensures
        str_opt_view2(r.0) == (match sync_key {
            Some(k) => Some(k@),
            None => match bucket {
                Some(b) => Some(b@),
                None => None,
            },
        }),
        r.1 == !has_token,
        r.2 == (!has_token || (sync_key is None && bucket is Some)),
{
    let key = match sync_key {
        Some(k) => Some(k.to_owned()),
        None => match bucket {
            Some(b) => Some(b.to_owned()),
            None => None,
        },
    };
    let changed = !has_token || (sync_key.is_none() && bucket.is_some());
    (key, !has_token, changed)
}

pub open spec fn str_opt_view2(o: Option<String>) -> Option<Seq<char>> {
    match o {
        Some(s) => Some(s@),
        None => None,
    }
}


/// How many of `keys` are `k`.
pub open spec fn key_count(keys: Seq<String>, k: Seq<char>) -> nat
    decreases keys.len(),
{
    if keys.len() == 0 {
        0
    } else {
        key_count(keys.drop_last(), k) + if keys.last()@ == k {
            1nat
        } else {
            0nat
        }
    }
}

proof fn lemma_key_count_bound(keys: Seq<String>, k: Seq<char>)
    ensures
        key_count(keys, k) <= keys.len(),
    decreases keys.len(),
{
    if keys.len() > 0 {
        lemma_key_count_bound(keys.drop_last(), k);
    }
}

proof fn lemma_key_count_absent(keys: Seq<String>, k: Seq<char>)
    requires
        forall|j: int| 0 <= j < keys.len() ==> (#[trigger] keys[j])@ != k,
    ensures
        key_count(keys, k) == 0,
    decreases keys.len(),
{
    if keys.len() > 0 {
        let p = keys.drop_last();
        assert forall|j: int| 0 <= j < p.len() implies (#[trigger] p[j])@ != k by {
            assert(p[j] == keys[j]);
        }
        lemma_key_count_absent(p, k);
        assert(keys[keys.len() - 1]@ != k);
    }
}

/// A game offered for sync, with how many of its releases are visible.
pub struct SyncGameSummary {
    pub game_key: String,
    pub release_count: usize,
}

/// Summaries listed in strictly increasing key order.
pub open spec fn summaries_sorted(out: Seq<SyncGameSummary>) -> bool {
    forall|a: int, b: int| 0 <= a < b < out.len() ==> lex_lt((#[trigger] out[a]).game_key@, (#[trigger] out[b]).game_key@)
}

/// Each summary counts its key among `keys`, and every key of `keys` has a summary.
pub open spec fn summaries_count(out: Seq<SyncGameSummary>, keys: Seq<String>) -> bool {
    &&& forall|a: int| 0 <= a < out.len() ==> (#[trigger] out[a]).release_count == key_count(keys, out[a].game_key@)
    &&& forall|j: int| 0 <= j < keys.len() ==> exists|a: int| 0 <= a < out.len() && out[a].game_key@ == (#[trigger] keys[j])@
}

proof fn lemma_summaries_insert_sorted(out: Seq<SyncGameSummary>, p: int, x: SyncGameSummary)
    requires
        summaries_sorted(out),
        0 <= p <= out.len(),
        forall|q: int| 0 <= q < p ==> lex_lt((#[trigger] out[q]).game_key@, x.game_key@),
        p < out.len() ==> lex_lt(x.game_key@, out[p].game_key@),
    ensures
        summaries_sorted(out.insert(p, x)),
{
    let n = out.insert(p, x);
    assert forall|a: int, b: int| 0 <= a < b < n.len() implies lex_lt((#[trigger] n[a]).game_key@, (#[trigger] n[b]).game_key@) by {
        if a < p && b < p {
            assert(n[a] == out[a] && n[b] == out[b]);
        } else if a < p && b == p {
            assert(n[a] == out[a]);
        } else if a < p {
            assert(n[a] == out[a] && n[b] == out[b - 1]);
            lemma_lex_transitive(out[a].game_key@, x.game_key@, out[p].game_key@);
            if b - 1 > p {
                lemma_lex_transitive(out[a].game_key@, out[p].game_key@, out[b - 1].game_key@);
            }
        } else if a == p {
            assert(n[b] == out[b - 1]);
            if b - 1 > p {
                lemma_lex_transitive(x.game_key@, out[p].game_key@, out[b - 1].game_key@);
            }
        } else {
            assert(n[a] == out[a - 1] && n[b] == out[b - 1]);
        }
    }
}

/// The games offered for sync, from the game keys of the visible releases: one summary
/// per key, in key order, counting the key's releases.
#[verifier::rlimit(30)]
pub fn summarize_sync_games(keys: &Vec<String>) -> (out: Vec<SyncGameSummary>)
    ensures
        summaries_sorted(out@),
        summaries_count(out@, keys@),
{
    let mut out: Vec<SyncGameSummary> = Vec::new();
    let mut i: usize = 0;
    while i < keys.len()
        invariant
            i <= keys@.len(),
            out@.len() <= i,
            summaries_sorted(out@),
            summaries_count(out@, keys@.take(i as int)),
        decreases keys.len() - i,
    {
        let k = keys[i].as_str();
        let ghost pre = keys@.take(i as int);
        let ghost post = keys@.take(i + 1);
        proof {
            assert(post.drop_last() =~= pre);
            assert(post.last() == keys@[i as int]);
            assert forall|j: int| 0 <= j < i implies post[j] == pre[j] by {}
        }
        let mut q: usize = 0;
        let mut found: Option<usize> = None;
        while q < out.len()
            invariant
                q <= out@.len(),
                found matches Some(f) ==> f < out@.len() && out@[f as int].game_key@ == k@,
                found is None ==> forall|a: int| 0 <= a < q ==> (#[trigger] out@[a]).game_key@ != k@,
            decreases out.len() - q,
        {
            if found.is_none() && crate::text::str_eq(out[q].game_key.as_str(), k) {
                found = Some(q);
            }
            q = q + 1;
        }
        let ghost old_out = out@;
        match found {
            Some(f) => {
                proof {
                    lemma_key_count_bound(pre, k@);
                }
                let c = out[f].release_count;
                let name = out[f].game_key.clone();
                out.set(f, SyncGameSummary { game_key: name, release_count: c + 1 });
                proof {
                    assert forall|a: int, b: int| 0 <= a < b < out@.len() implies lex_lt((#[trigger] out@[a]).game_key@, (#[trigger] out@[b]).game_key@) by {
                        assert(out@[a].game_key@ == old_out[a].game_key@);
                        assert(out@[b].game_key@ == old_out[b].game_key@);
                    }
                    assert forall|a: int| 0 <= a < out@.len() implies (#[trigger] out@[a]).release_count == key_count(post, out@[a].game_key@) by {
                        if a != f {
                            assert(old_out[a].game_key@ != k@) by {
                                lemma_lex_irreflexive(k@);
                                if a < f {
                                    assert(lex_lt(old_out[a].game_key@, old_out[f as int].game_key@));
                                } else {
                                    assert(lex_lt(old_out[f as int].game_key@, old_out[a].game_key@));
                                }
                            }
                        }
                    }
                    assert forall|j: int| 0 <= j < post.len() implies exists|a: int| 0 <= a < out@.len() && out@[a].game_key@ == (#[trigger] post[j])@ by {
                        if j < i {
                            assert(post[j] == pre[j]);
                            let a = choose|a: int| 0 <= a < old_out.len() && old_out[a].game_key@ == (#[trigger] pre[j])@;
                            assert(out@[a].game_key@ == old_out[a].game_key@);
                        } else {
                            assert(out@[f as int].game_key@ == k@);
                        }
                    }
                }
            },
            None => {
                let mut p: usize = 0;
                while p < out.len() && crate::instance::lex_less(out[p].game_key.as_str(), k)
                    invariant
                        p <= out@.len(),
                        forall|a: int| 0 <= a < p ==> lex_lt((#[trigger] out@[a]).game_key@, k@),
                    decreases out.len() - p,
                {
                    p = p + 1;
                }
                let x = SyncGameSummary { game_key: k.to_owned(), release_count: 1 };
                proof {
                    if p < old_out.len() {
                        lemma_lex_total(old_out[p as int].game_key@, k@);
                    }
                    lemma_summaries_insert_sorted(old_out, p as int, x);
                    assert forall|j: int| 0 <= j < pre.len() implies (#[trigger] pre[j])@ != k@ by {
                        let a = choose|a: int| 0 <= a < old_out.len() && old_out[a].game_key@ == (#[trigger] pre[j])@;
                    }
                    lemma_key_count_absent(pre, k@);
                }
                out.insert(p, x);
                proof {
                    assert forall|a: int| 0 <= a < out@.len() implies (#[trigger] out@[a]).release_count == key_count(post, out@[a].game_key@) by {
                        if a < p {
                            assert(out@[a] == old_out[a]);
                        } else if a > p {
                            assert(out@[a] == old_out[a - 1]);
                        }
                    }
                    assert forall|j: int| 0 <= j < post.len() implies exists|a: int| 0 <= a < out@.len() && out@[a].game_key@ == (#[trigger] post[j])@ by {
                        if j < i {
                            assert(post[j] == pre[j]);
                            let a = choose|a: int| 0 <= a < old_out.len() && old_out[a].game_key@ == (#[trigger] pre[j])@;
                            if a < p {
                                assert(out@[a] == old_out[a]);
                            } else {
                                assert(out@[a + 1] == old_out[a]);
                            }
                        } else {
                            assert(out@[p as int].game_key@ == k@);
                        }
                    }
                }
            },
        }
        i = i + 1;
    }
    proof {
        assert(keys@.take(keys@.len() as int) =~= keys@);
    }
    out
}

} // verus!
