//! King of the Hill: configuration rules, the hill's status address, and the scoring
//! decisions taken at every check.
use vstd::prelude::*;
use crate::awd::trunc_div;
use crate::cluster::{first_image_port, first_port, require_service_port, ChallengeEnv, CHALLENGE_NS};
use crate::ident::{is_lower_alnum, random_lower_alnum};
use crate::error::{bad_request, is_bad_request, precondition_failed, ResponseError};
use crate::text::{
    chars_of, dec, parse_u16, parse_u16_spec, push_str, split_on, starts_with, starts_with_exec,
    string_of, trim_ws, trimmed, u64_to_string,
};

verus! {

/// How a hill is scored.
#[derive(Clone, Copy, Debug, PartialEq, Eq, Structural)]
pub enum KohMode {
    /// An agent reports which team currently holds the hill.
    AgentHttp,
    /// An agent reports a ranking of teams for every completed round.
    RoundRankHttp,
    /// Reserved for a rating worker.
    GameElo,
}

/// A challenge's `koh.toml`.
pub struct KohConfig {
    pub enabled: bool,
    pub mode: KohMode,
    pub interval_secs: u32,
    pub round_secs: u32,
    pub reward: i32,
    pub rank_count: u32,
    pub rank_percentages: Vec<i32>,
    pub timeout_secs: u64,
    pub total_rounds: u32,
    pub status_path: String,
    pub status_url: Option<String>,
    pub agent_port: Option<u16>,
    pub target_port: Option<u16>,
    pub api_key: Option<String>,
    pub auto_start: bool,
}

/// Whether some of the first `n` rank percentages lies outside `0..=100`.
pub open spec fn bad_percentage(p: Seq<i32>, n: int) -> bool {
    exists|i: int| 0 <= i < n && i < p.len() && !(0 <= #[trigger] p[i] && p[i] <= 100)
}

/// The message of the rule a KoH configuration breaks, if any.
pub open spec fn koh_violation(c: KohConfig) -> Option<Seq<char>> {
    if !c.enabled {
        None
    } else if c.mode == KohMode::GameElo {
        Some("KoH game_elo mode is not implemented yet"@)
    } else if c.interval_secs < 1 {
        Some("KoH interval must be greater than zero"@)
    } else if c.round_secs < 1 {
        Some("KoH round length must be greater than zero"@)
    } else if c.reward < 0 {
        Some("KoH reward cannot be negative"@)
    } else if c.mode == KohMode::RoundRankHttp && c.rank_count < 1 {
        Some("KoH scored team count must be greater than zero"@)
    } else if c.mode == KohMode::RoundRankHttp && c.rank_percentages@.len() < c.rank_count {
        Some("KoH rank percentages must cover every scored team"@)
    } else if c.mode == KohMode::RoundRankHttp && bad_percentage(
        c.rank_percentages@,
        c.rank_count as int,
    ) {
        Some("KoH rank percentages must be between 0 and 100"@)
    } else if c.timeout_secs < 1 {
        Some("KoH timeout must be greater than zero"@)
    } else if c.mode == KohMode::AgentHttp && trim_ws(c.status_path@).len() == 0 {
        Some("KoH status path cannot be empty"@)
    } else {
        None
    }
}

/// A KoH configuration is accepted exactly when KoH is off, or when the mode is not
/// `game_elo`, interval, round length and timeout are positive, the reward is not
/// negative, a ranked mode scores at least one team with a percentage between 0 and 100
/// for each, and an agent mode names a status path.
pub proof fn lemma_koh_config_accepted(c: KohConfig)
    ensures
        koh_violation(c) is None <==> (!c.enabled || (c.mode != KohMode::GameElo && c.interval_secs >= 1
            && c.round_secs >= 1 && c.reward >= 0 && c.timeout_secs >= 1 && (c.mode
            == KohMode::RoundRankHttp ==> (c.rank_count >= 1 && c.rank_percentages@.len() >= c.rank_count
            && forall|i: int|
            0 <= i < c.rank_count ==> 0 <= #[trigger] c.rank_percentages@[i] && c.rank_percentages@[i]
                <= 100)) && (c.mode == KohMode::AgentHttp ==> trim_ws(c.status_path@).len() > 0))),
{
}

/// Checks a KoH configuration before it is stored.
#[verifier::loop_isolation(false)]
pub fn validate_koh_config(config: &KohConfig) -> (r: Result<(), ResponseError>)
    ensures
        match koh_violation(*config) {
            None => r is Ok,
            Some(m) => is_bad_request(r, m),
        },
{
    if !config.enabled {
        return Ok(());
    }
    if config.mode == KohMode::GameElo {
        return Err(bad_request("KoH game_elo mode is not implemented yet"));
    }
    if config.interval_secs < 1 {
        return Err(bad_request("KoH interval must be greater than zero"));
    }
    if config.round_secs < 1 {
        return Err(bad_request("KoH round length must be greater than zero"));
    }
    if config.reward < 0 {
        return Err(bad_request("KoH reward cannot be negative"));
    }
    if config.mode == KohMode::RoundRankHttp {
        if config.rank_count < 1 {
            return Err(bad_request("KoH scored team count must be greater than zero"));
        }
        if config.rank_percentages.len() < config.rank_count as usize {
            return Err(bad_request("KoH rank percentages must cover every scored team"));
        }
        let n = config.rank_count as usize;
        let mut i: usize = 0;
        while i < n && i < config.rank_percentages.len()
            invariant
                i <= n,
                n == config.rank_count,
                n <= config.rank_percentages@.len(),
                forall|k: int|
                    0 <= k < i ==> 0 <= #[trigger] config.rank_percentages@[k] && config.rank_percentages@[k] <= 100,
            decreases n - i,
        {
            let p = config.rank_percentages[i];
            if !(0 <= p && p <= 100) {
                proof {
                    assert(p == config.rank_percentages@[i as int]);
                    assert(bad_percentage(config.rank_percentages@, config.rank_count as int));
                }
                return Err(bad_request("KoH rank percentages must be between 0 and 100"));
            }
            i = i + 1;
        }
    }
    if config.timeout_secs < 1 {
        return Err(bad_request("KoH timeout must be greater than zero"));
    }
    if config.mode == KohMode::AgentHttp && trimmed(config.status_path.as_str()).as_str().is_empty() {
        return Err(bad_request("KoH status path cannot be empty"));
    }
    Ok(())
}

/// The port the hill's agent answers on: the configured agent port, else the target
/// port, else the first port the environment exposes.
pub fn infer_agent_port(koh: &KohConfig, env: &ChallengeEnv) -> (p: Option<u16>)
    ensures
        p == (if koh.agent_port is Some {
            koh.agent_port
        } else if koh.target_port is Some {
            koh.target_port
        } else {
            first_port(env.images@)
        }),
{
    if koh.agent_port.is_some() {
        koh.agent_port
    } else if koh.target_port.is_some() {
        koh.target_port
    } else {
        first_image_port(&env.images)
    }
}

/// The in-cluster URL of the hill's status endpoint.
pub open spec fn status_url_spec(pod: Seq<char>, port: nat, path: Seq<char>) -> Seq<char> {
    "http://"@ + pod + seq!['.'] + CHALLENGE_NS@ + ".svc:"@ + dec(port) + (if starts_with(
        path,
        "/"@,
    ) {
        path
    } else {
        seq!['/'] + path
    })
}

/// The in-cluster URL of the status endpoint of `pod_name` on `port`; `path` gains a
/// leading `/` when it lacks one.
pub fn internal_status_url(pod_name: &str, port: u16, path: &str) -> (url: String)
    ensures
        url@ == status_url_spec(pod_name@, port as nat, path@),
{
    let mut url = "http://".to_owned();
    push_str(&mut url, pod_name);
    url.push('.');
    push_str(&mut url, CHALLENGE_NS);
    push_str(&mut url, ".svc:");
    let p = u64_to_string(port as u64);
    push_str(&mut url, p.as_str());
    if !starts_with_exec(path, "/") {
        url.push('/');
    }
    push_str(&mut url, path);
    proof {
        if starts_with(path@, "/"@) {
            assert(url@ =~= status_url_spec(pod_name@, port as nat, path@));
        } else {
            assert(url@ =~= status_url_spec(pod_name@, port as nat, path@));
        }
    }
    url
}


/// How often a hill is checked: every round for ranked hills, every interval otherwise,
/// and at least every second.
pub open spec fn check_interval_spec(c: KohConfig) -> u32 {
    let v = if c.mode == KohMode::RoundRankHttp {
        c.round_secs
    } else {
        c.interval_secs
    };
    if v < 1 {
        1
    } else {
        v
    }
}

pub fn check_interval(config: &KohConfig) -> (s: u32)
    ensures
        s == check_interval_spec(*config),
        s >= 1,
{
    let v = if config.mode == KohMode::RoundRankHttp {
        config.round_secs
    } else {
        config.interval_secs
    };
    if v < 1 {
        1
    } else {
        v
    }
}

/// Whether a check runs now: always when forced or never checked before, else once a
/// full interval has passed since the last check (`elapsed`, in seconds).
pub fn check_due(force: bool, elapsed: Option<i64>, interval: u32) -> (b: bool)
    ensures
        b == (force || match elapsed {
            Some(e) => e >= interval,
            None => true,
        }),
{
    if force {
        return true;
    }
    match elapsed {
        Some(e) => e >= interval as i64,
        None => true,
    }
}

/// The tick a check at second `now` scores.
pub fn koh_tick(now: i64, interval: u32) -> (t: i64)
    requires
        interval >= 1,
    ensures
        t == trunc_div(now as int, interval as int),
{
    now / (interval as i64)
}

/// Whether a hill is scored at second `now`: its game runs, is neither offline nor
/// frozen, and the challenge is visible, released and not archived.
pub fn is_active(
    in_progress: bool,
    offline: bool,
    frozen: bool,
    hidden: bool,
    release_at: Option<i64>,
    archive_at: Option<i64>,
    now: i64,
) -> (b: bool)
    ensures
        b == (in_progress && !offline && !frozen && !hidden && match release_at {
            Some(r) => r <= now,
            None => true,
        } && match archive_at {
            Some(a) => a > now,
            None => true,
        }),
{
    in_progress && !offline && !frozen && !hidden && match release_at {
        Some(r) => r <= now,
        None => true,
    } && match archive_at {
        Some(a) => a > now,
        None => true,
    }
}

/// Where the hill's status is read: the configured URL when it is not blank, else the
/// status path on the running hill's pod at the agent port.
pub fn resolve_status_url(
    config: &KohConfig,
    env: Option<&ChallengeEnv>,
    hill_pod: Option<Option<&str>>,
) -> (r: Result<String, ResponseError>)
    ensures
        match config.status_url {
            Some(u) => if trim_ws(u@).len() != 0 {
                r matches Ok(x) && x@ == u@
            } else {
                status_url_fallback(*config, env, hill_pod, r)
            },
            None => status_url_fallback(*config, env, hill_pod, r),
        },
{
    match &config.status_url {
        Some(u) => {
            if !trimmed(u.as_str()).as_str().is_empty() {
                return Ok(u.clone());
            }
        },
        None => {},
    }
    let e = match env {
        Some(e) => e,
        None => return Err(precondition_failed("KoH requires status_url or an online environment")),
    };
    let port = match infer_agent_port(config, e) {
        Some(p) => p,
        None => return Err(
            precondition_failed("KoH agent port is not configured and cannot be inferred"),
        ),
    };
    match hill_pod {
        None => Err(precondition_failed("KoH hill is not running yet")),
        Some(None) => Err(precondition_failed("KoH hill pod has no name")),
        Some(Some(name)) => Ok(internal_status_url(name, port, config.status_path.as_str())),
    }
}

/// The status URL read from the hill's pod: `hill_pod` is `None` while no hill runs and
/// `Some(None)` for a pod without a name.
pub open spec fn status_url_fallback(
    c: KohConfig,
    env: Option<&ChallengeEnv>,
    hill_pod: Option<Option<&str>>,
    r: Result<String, ResponseError>,
) -> bool {
    match env {
        None => r matches Err(ResponseError::PreconditionFailed(m)) && m@
            == "KoH requires status_url or an online environment"@,
        Some(e) => {
            let port = if c.agent_port is Some {
                c.agent_port
            } else if c.target_port is Some {
                c.target_port
            } else {
                first_port(e.images@)
            };
            match port {
                None => r matches Err(ResponseError::PreconditionFailed(m)) && m@
                    == "KoH agent port is not configured and cannot be inferred"@,
                Some(p) => match hill_pod {
                    None => r matches Err(ResponseError::PreconditionFailed(m)) && m@
                        == "KoH hill is not running yet"@,
                    Some(None) => r matches Err(ResponseError::PreconditionFailed(m)) && m@
                        == "KoH hill pod has no name"@,
                    Some(Some(name)) => r matches Ok(x) && x@ == status_url_spec(
                        name@,
                        p as nat,
                        c.status_path@,
                    ),
                },
            }
        },
    }
}

/// Refuses to start a shared hill without an enabled configuration or without an
/// environment that exposes a service port.
pub fn check_hill_start(config: Option<&KohConfig>, env: Option<&ChallengeEnv>) -> (r: Result<
    (),
    ResponseError,
>)
    ensures
        config is None ==> (r matches Err(ResponseError::PreconditionFailed(m)) && m@
            == "KoH config is not set"@),
        config matches Some(c) ==> if !c.enabled {
            r matches Err(ResponseError::PreconditionFailed(m)) && m@ == "KoH is disabled"@
        } else {
            match env {
                None => r matches Err(ResponseError::PreconditionFailed(m)) && m@
                    == "KoH shared hill requires an online environment"@,
                Some(e) => if exists|i: int|
                    0 <= i < e.images@.len() && e.images@[i].port is Some {
                    r is Ok
                } else {
                    r matches Err(ResponseError::PreconditionFailed(m)) && m@
                        == "KoH shared hill requires at least one service port"@
                },
            }
        },
{
    let c = match config {
        Some(c) => c,
        None => return Err(precondition_failed("KoH config is not set")),
    };
    if !c.enabled {
        return Err(precondition_failed("KoH is disabled"));
    }
    match env {
        None => Err(precondition_failed("KoH shared hill requires an online environment")),
        Some(e) => require_service_port(e, "KoH shared hill requires at least one service port"),
    }
}

/// Refuses to change a hill's interval or round length once it has scored: the ticks
/// already credited are counted in them.
pub fn check_koh_reconfig(previous: Option<&KohConfig>, next: &KohConfig, scored: bool) -> (r: Result<
    (),
    ResponseError,
>)
    ensures
        (previous matches Some(p) && (p.interval_secs != next.interval_secs || p.round_secs
            != next.round_secs) && scored) ==> (r matches Err(ResponseError::PreconditionFailed(m))
            && m@ == "cannot change KoH interval/round length after scoring has started"@),
        !(previous matches Some(p) && (p.interval_secs != next.interval_secs || p.round_secs
            != next.round_secs) && scored) ==> r is Ok,
{
    match previous {
        Some(p) => {
            if (p.interval_secs != next.interval_secs || p.round_secs != next.round_secs) && scored {
                return Err(
                    precondition_failed(
                        "cannot change KoH interval/round length after scoring has started",
                    ),
                );
            }
            Ok(())
        },
        None => Ok(()),
    }
}

/// The name a hill's agent is told its mode by.
pub fn koh_mode_name(mode: KohMode) -> (s: &'static str)
    ensures
        s@ == match mode {
            KohMode::AgentHttp => "agent_http"@,
            KohMode::RoundRankHttp => "round_rank_http"@,
            KohMode::GameElo => "game_elo"@,
        },
{
    match mode {
        KohMode::AgentHttp => "agent_http",
        KohMode::RoundRankHttp => "round_rank_http",
        KohMode::GameElo => "game_elo",
    }
}

/// The ports a comma-separated list names, skipping parts that are not ports.
pub open spec fn parsed_ports(parts: Seq<Seq<char>>) -> Seq<u16>
    decreases parts.len(),
{
    if parts.len() == 0 {
        Seq::empty()
    } else {
        let rest = parsed_ports(parts.drop_last());
        match parse_u16_spec(parts.last()) {
            Some(v) => rest.push(v as u16),
            None => rest,
        }
    }
}

fn parse_part(cs: &Vec<char>) -> (r: Option<u16>)
    ensures
        match parse_u16_spec(cs@) {
            Some(v) => r == Some(v as u16),
            None => r is None,
        },
{
    let s = string_of(cs.as_slice());
    match parse_u16(s.as_str()) {
        Some(v) => Some(v),
        None => None,
    }
}

/// The ports of a hill's `ports` annotation.
pub fn parse_ports(label: &str) -> (ports: Vec<u16>)
    ensures
        ports@ == parsed_ports(split_on(label@, ',')),
{
    let cs = chars_of(label);
    let mut ports: Vec<u16> = Vec::new();
    let mut cur: Vec<char> = Vec::new();
    let ghost mut done: Seq<Seq<char>> = Seq::empty();
    let mut i: usize = 0;
    proof {
        assert(cs@.take(0) =~= Seq::<char>::empty());
        assert(split_on(Seq::<char>::empty(), ',') =~= done.push(cur@));
    }
    while i < cs.len()
        invariant
            i <= cs@.len(),
            cs@ == label@,
            split_on(cs@.take(i as int), ',') == done.push(cur@),
            ports@ == parsed_ports(done),
        decreases cs.len() - i,
    {
        let c = cs[i];
        proof {
            assert(cs@.take(i + 1).drop_last() =~= cs@.take(i as int));
            assert(cs@.take(i + 1).last() == c);
        }
        if c == ',' {
            let p = parse_part(&cur);
            proof {
                let nd = done.push(cur@);
                assert(nd.drop_last() =~= done);
                assert(nd.last() == cur@);
                done = nd;
            }
            match p {
                Some(v) => ports.push(v),
                None => {},
            }
            cur = Vec::new();
            proof {
                assert(split_on(cs@.take(i + 1), ',') =~= done.push(cur@));
            }
        } else {
            let ghost old_cur = cur@;
            cur.push(c);
            proof {
                assert(done.push(old_cur).update(done.len() as int, old_cur.push(c)) =~= done.push(
                    cur@,
                ));
            }
        }
        i = i + 1;
    }
    proof {
        assert(cs@.take(cs@.len() as int) =~= cs@);
        let all = done.push(cur@);
        assert(all.drop_last() =~= done);
    }
    let p = parse_part(&cur);
    match p {
        Some(v) => ports.push(v),
        None => {},
    }
    ports
}

/// A team's identifier on a hill is only handed out for a team of the hill's own game.
pub fn identifier_applies(team_game_id: Option<i64>, game_id: i64) -> (b: bool)
    ensures
        b == (team_game_id == Some(game_id)),
{
    match team_game_id {
        Some(g) => g == game_id,
        None => false,
    }
}

/// How many times a fresh identifier is drawn before giving up.
pub const IDENTIFIER_TRIES: u32 = 5;

/// A fresh identifier for a team on a hill: `koh_` and 16 random lower-case letters and
/// digits.
pub fn mint_identifier() -> (s: String)
    ensures
        s@.len() == 20,
        s@.take(4) == "koh_"@,
        forall|i: int| 4 <= i < 20 ==> is_lower_alnum(#[trigger] s@[i]),
{
    let body = random_lower_alnum(16);
    let mut s = "koh_".to_owned();
    push_str(&mut s, body.as_str());
    proof {
        reveal_strlit("koh_");
        assert(s@.take(4) =~= "koh_"@);
        assert forall|i: int| 4 <= i < 20 implies is_lower_alnum(#[trigger] s@[i]) by {
            assert(s@[i] == body@[i - 4]);
        }
    }
    s
}

/// What is answered when every drawn identifier was taken.
pub fn identifier_exhausted() -> (e: ResponseError)
    ensures
        e matches ResponseError::Conflict(m) && m@ == "failed to allocate a unique KoH identifier"@,
{
    ResponseError::Conflict("failed to allocate a unique KoH identifier".to_owned())
}

/// The number of hill events listed: 50 unless asked, and between 1 and 200.
pub fn event_limit(limit: Option<u64>) -> (n: u64)
    ensures
        n == match limit {
            None => 50,
            Some(l) => if l < 1 {
                1
            } else if l > 200 {
                200
            } else {
                l
            },
        },
{
    match limit {
        None => 50,
        Some(l) => if l < 1 {
            1
        } else if l > 200 {
            200
        } else {
            l
        },
    }
}


/// What a holder-reporting agent answers.
pub struct AgentResponse {
    pub success: Option<bool>,
    pub message: Option<String>,
    pub identifier: Option<String>,
    /// The identifier may also come wrapped in a `data` object, which then wins.
    pub data: Option<AgentData>,
}

pub struct AgentData {
    pub identifier: Option<String>,
}

pub open spec fn reported_identifier(r: AgentResponse) -> Option<String> {
    match r.data {
        Some(d) => if d.identifier is Some {
            d.identifier
        } else {
            r.identifier
        },
        None => r.identifier,
    }
}

/// The holder an agent reports: an answer with `success: false` is an error carrying its
/// message; otherwise the reported identifier without surrounding whitespace, with a
/// blank one meaning nobody holds the hill.
pub fn agent_identifier(resp: &AgentResponse) -> (r: Result<Option<String>, String>)
    ensures
        resp.success == Some(false) ==> (r matches Err(m) && m@ == (match resp.message {
            Some(x) => x@,
            None => "KoH agent returned success=false"@,
        })),
        resp.success != Some(false) ==> match reported_identifier(*resp) {
            Some(id) => if trim_ws(id@).len() == 0 {
                r matches Ok(None)
            } else {
                r matches Ok(Some(x)) && x@ == trim_ws(id@)
            },
            None => r matches Ok(None),
        },
{
    if resp.success == Some(false) {
        return match &resp.message {
            Some(m) => Err(m.clone()),
            None => Err("KoH agent returned success=false".to_owned()),
        };
    }
    let id: Option<&String> = match &resp.data {
        Some(d) => match &d.identifier {
            Some(x) => Some(x),
            None => match &resp.identifier {
                Some(x) => Some(x),
                None => None,
            },
        },
        None => match &resp.identifier {
            Some(x) => Some(x),
            None => None,
        },
    };
    match id {
        Some(x) => {
            let t = trimmed(x.as_str());
            if t.as_str().is_empty() {
                Ok(None)
            } else {
                Ok(Some(t))
            }
        },
        None => Ok(None),
    }
}

/// The API key sent to the agent, when one is configured and not empty.
pub fn agent_api_key(config: &KohConfig) -> (r: Option<String>)
    ensures
        match config.api_key {
            Some(k) => if k@.len() > 0 {
                r matches Some(x) && x@ == k@
            } else {
                r is None
            },
            None => r is None,
        },
{
    match &config.api_key {
        Some(k) => if k.as_str().is_empty() {
            None
        } else {
            Some(k.clone())
        },
        None => None,
    }
}

} // verus!
