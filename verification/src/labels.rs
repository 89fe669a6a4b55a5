//! The labels, annotations and environment variables that environments are created
//! with. Labels let the server find an environment again; annotations and variables
//! tell the environment's scripts whom it serves.
use vstd::prelude::*;
use crate::koh::{KohConfig, KohMode};
use crate::text::{dec, dec_int, i64_to_string, push_str, u64_to_string};

verus! {

/// Key-value pairs as texts.
pub open spec fn pairs(v: Seq<(String, String)>) -> Seq<(Seq<char>, Seq<char>)> {
    v.map_values(|p: (String, String)| (p.0@, p.1@))
}

/// How a flag is written out: `true` or `false`.
pub open spec fn bool_text(b: bool) -> Seq<char> {
    if b {
        "true"@
    } else {
        "false"@
    }
}

fn bool_string(b: bool) -> (s: String)
    ensures
        s@ == bool_text(b),
{
    if b {
        "true".to_owned()
    } else {
        "false".to_owned()
    }
}

fn push_pair(v: &mut Vec<(String, String)>, k: &str, val: String)
    ensures
        pairs(final(v)@) == pairs(old(v)@).push((k@, val@)),
{
    let ghost before = v@;
    v.push((k.to_owned(), val));
    proof {
        assert(pairs(v@) =~= pairs(before).push((k@, val@)));
    }
}

fn num(n: i64) -> (s: String)
    ensures
        s@ == dec_int(n as int),
{
    i64_to_string(n)
}

/// The labels of the target environment of fix submission `id`.
pub fn fix_target_labels(id: i64, challenge_id: i64, team_id: Option<i64>, user_id: i64, internet: bool) -> (v:
    Vec<(String, String)>)
    ensures
        pairs(v@) == seq![
            ("ret.sh.cn/fix"@, "true"@),
            ("ret.sh.cn/fix-role"@, "target"@),
            ("ret.sh.cn/fix-submission"@, dec_int(id as int)),
            ("ret.sh.cn/fix-challenge"@, dec_int(challenge_id as int)),
            ("ret.sh.cn/fix-team"@, dec_int(match team_id { Some(t) => t as int, None => 0 })),
            ("ret.sh.cn/fix-user"@, dec_int(user_id as int)),
            ("ret.sh.cn/fix-traffic"@, "fix-"@ + dec_int(id as int)),
            ("ret.sh.cn/internet"@, bool_text(internet)),
        ],
{
    let mut v: Vec<(String, String)> = Vec::new();
    push_pair(&mut v, "ret.sh.cn/fix", "true".to_owned());
    push_pair(&mut v, "ret.sh.cn/fix-role", "target".to_owned());
    push_pair(&mut v, "ret.sh.cn/fix-submission", num(id));
    push_pair(&mut v, "ret.sh.cn/fix-challenge", num(challenge_id));
    let team = match team_id {
        Some(t) => t,
        None => 0,
    };
    push_pair(&mut v, "ret.sh.cn/fix-team", num(team));
    push_pair(&mut v, "ret.sh.cn/fix-user", num(user_id));
    let mut traffic = "fix-".to_owned();
    push_str(&mut traffic, num(id).as_str());
    push_pair(&mut v, "ret.sh.cn/fix-traffic", traffic);
    push_pair(&mut v, "ret.sh.cn/internet", bool_string(internet));
    v
}

/// The annotations of a fix target environment.
pub fn fix_target_annotations(challenge: &str, game: &str, account: &str, nickname: &str, port: u16) -> (v:
    Vec<(String, String)>)
    ensures
        pairs(v@) == seq![
            ("ret.sh.cn/challenge"@, challenge@),
            ("ret.sh.cn/game"@, game@),
            ("ret.sh.cn/user"@, account@),
            ("ret.sh.cn/user-nickname"@, nickname@),
            ("ret.sh.cn/ports"@, dec(port as nat)),
        ],
{
    let mut v: Vec<(String, String)> = Vec::new();
    push_pair(&mut v, "ret.sh.cn/challenge", challenge.to_owned());
    push_pair(&mut v, "ret.sh.cn/game", game.to_owned());
    push_pair(&mut v, "ret.sh.cn/user", account.to_owned());
    push_pair(&mut v, "ret.sh.cn/user-nickname", nickname.to_owned());
    push_pair(&mut v, "ret.sh.cn/ports", u64_to_string(port as u64));
    v
}

/// The labels of the tester of fix submission `id`; testers never reach the internet.
pub fn fix_tester_labels(id: i64, challenge_id: i64, user_id: i64) -> (v: Vec<(String, String)>)
    ensures
        pairs(v@) == seq![
            ("ret.sh.cn/fix"@, "true"@),
            ("ret.sh.cn/fix-role"@, "tester"@),
            ("ret.sh.cn/fix-submission"@, dec_int(id as int)),
            ("ret.sh.cn/fix-challenge"@, dec_int(challenge_id as int)),
            ("ret.sh.cn/fix-user"@, dec_int(user_id as int)),
            ("ret.sh.cn/internet"@, "false"@),
        ],
{
    let mut v: Vec<(String, String)> = Vec::new();
    push_pair(&mut v, "ret.sh.cn/fix", "true".to_owned());
    push_pair(&mut v, "ret.sh.cn/fix-role", "tester".to_owned());
    push_pair(&mut v, "ret.sh.cn/fix-submission", num(id));
    push_pair(&mut v, "ret.sh.cn/fix-challenge", num(challenge_id));
    push_pair(&mut v, "ret.sh.cn/fix-user", num(user_id));
    push_pair(&mut v, "ret.sh.cn/internet", "false".to_owned());
    v
}

/// The annotations of a fix tester.
pub fn fix_tester_annotations(challenge: &str, game: &str, account: &str) -> (v: Vec<(String, String)>)
    ensures
        pairs(v@) == seq![
            ("ret.sh.cn/challenge"@, challenge@),
            ("ret.sh.cn/game"@, game@),
            ("ret.sh.cn/user"@, account@),
        ],
{
    let mut v: Vec<(String, String)> = Vec::new();
    push_pair(&mut v, "ret.sh.cn/challenge", challenge.to_owned());
    push_pair(&mut v, "ret.sh.cn/game", game.to_owned());
    push_pair(&mut v, "ret.sh.cn/user", account.to_owned());
    v
}

/// What a fix tester is told: where the patched target answers, which variable to
/// report, and a failing result until it reports one.
pub fn fix_tester_env(target: &str, port: u16, result_env: &str) -> (v: Vec<(String, String)>)
    ensures
        pairs(v@) == seq![
            ("R2S_FIX_TARGET_HOST"@, target@),
            ("R2S_FIX_TARGET_PORT"@, dec(port as nat)),
            ("R2S_FIX_TARGET_URL"@, "http://"@ + target@ + ":"@ + dec(port as nat)),
            ("R2S_FIX_RESULT_ENV"@, result_env@),
            ("R2S_FIX_RESULT"@, "failed"@),
        ],
{
    let mut v: Vec<(String, String)> = Vec::new();
    push_pair(&mut v, "R2S_FIX_TARGET_HOST", target.to_owned());
    push_pair(&mut v, "R2S_FIX_TARGET_PORT", u64_to_string(port as u64));
    let mut url = "http://".to_owned();
    push_str(&mut url, target);
    push_str(&mut url, ":");
    push_str(&mut url, u64_to_string(port as u64).as_str());
    push_pair(&mut v, "R2S_FIX_TARGET_URL", url);
    push_pair(&mut v, "R2S_FIX_RESULT_ENV", result_env.to_owned());
    push_pair(&mut v, "R2S_FIX_RESULT", "failed".to_owned());
    v
}

/// The labels of a player's challenge environment; `team` is the team label value (`0`
/// for a player alone).
pub fn instance_labels(challenge_id: i64, team: &str, game_id: i64, user_id: i64, traffic: &str, internet: bool) -> (v:
    Vec<(String, String)>)
    ensures
        pairs(v@) == seq![
            ("ret.sh.cn/challenge"@, dec_int(challenge_id as int)),
            ("ret.sh.cn/team"@, team@),
            ("ret.sh.cn/game"@, dec_int(game_id as int)),
            ("ret.sh.cn/user"@, dec_int(user_id as int)),
            ("ret.sh.cn/traffic"@, traffic@),
            ("ret.sh.cn/internet"@, bool_text(internet)),
        ],
{
    let mut v: Vec<(String, String)> = Vec::new();
    push_pair(&mut v, "ret.sh.cn/challenge", num(challenge_id));
    push_pair(&mut v, "ret.sh.cn/team", team.to_owned());
    push_pair(&mut v, "ret.sh.cn/game", num(game_id));
    push_pair(&mut v, "ret.sh.cn/user", num(user_id));
    push_pair(&mut v, "ret.sh.cn/traffic", traffic.to_owned());
    push_pair(&mut v, "ret.sh.cn/internet", bool_string(internet));
    v
}

/// The annotations of a player's challenge environment; it starts never renewed.
pub fn instance_annotations(challenge: &str, team: &str, game: &str, account: &str, ports: &str) -> (v:
    Vec<(String, String)>)
    ensures
        pairs(v@) == seq![
            ("ret.sh.cn/challenge"@, challenge@),
            ("ret.sh.cn/team"@, team@),
            ("ret.sh.cn/game"@, game@),
            ("ret.sh.cn/user"@, account@),
            ("ret.sh.cn/renew"@, "0"@),
            ("ret.sh.cn/ports"@, ports@),
        ],
{
    let mut v: Vec<(String, String)> = Vec::new();
    push_pair(&mut v, "ret.sh.cn/challenge", challenge.to_owned());
    push_pair(&mut v, "ret.sh.cn/team", team.to_owned());
    push_pair(&mut v, "ret.sh.cn/game", game.to_owned());
    push_pair(&mut v, "ret.sh.cn/user", account.to_owned());
    push_pair(&mut v, "ret.sh.cn/renew", "0".to_owned());
    push_pair(&mut v, "ret.sh.cn/ports", ports.to_owned());
    v
}

/// The labels of a team's attack-and-defense machine.
pub fn awd_labels(challenge_id: i64, team_id: i64, traffic: &str, internet: bool) -> (v: Vec<(String, String)>)
    ensures
        pairs(v@) == seq![
            ("ret.sh.cn/awd"@, "true"@),
            ("ret.sh.cn/challenge"@, dec_int(challenge_id as int)),
            ("ret.sh.cn/team"@, dec_int(team_id as int)),
            ("ret.sh.cn/traffic"@, traffic@),
            ("ret.sh.cn/internet"@, bool_text(internet)),
        ],
{
    let mut v: Vec<(String, String)> = Vec::new();
    push_pair(&mut v, "ret.sh.cn/awd", "true".to_owned());
    push_pair(&mut v, "ret.sh.cn/challenge", num(challenge_id));
    push_pair(&mut v, "ret.sh.cn/team", num(team_id));
    push_pair(&mut v, "ret.sh.cn/traffic", traffic.to_owned());
    push_pair(&mut v, "ret.sh.cn/internet", bool_string(internet));
    v
}

/// The labels of a challenge's shared hill.
pub fn hill_labels(challenge_id: i64, game_id: i64, traffic: &str, internet: bool) -> (v: Vec<(String, String)>)
    ensures
        pairs(v@) == seq![
            ("ret.sh.cn/koh"@, "true"@),
            ("ret.sh.cn/koh-role"@, "hill"@),
            ("ret.sh.cn/challenge"@, dec_int(challenge_id as int)),
            ("ret.sh.cn/game"@, dec_int(game_id as int)),
            ("ret.sh.cn/team"@, "0"@),
            ("ret.sh.cn/user"@, "0"@),
            ("ret.sh.cn/traffic"@, traffic@),
            ("ret.sh.cn/internet"@, bool_text(internet)),
        ],
{
    let mut v: Vec<(String, String)> = Vec::new();
    push_pair(&mut v, "ret.sh.cn/koh", "true".to_owned());
    push_pair(&mut v, "ret.sh.cn/koh-role", "hill".to_owned());
    push_pair(&mut v, "ret.sh.cn/challenge", num(challenge_id));
    push_pair(&mut v, "ret.sh.cn/game", num(game_id));
    push_pair(&mut v, "ret.sh.cn/team", "0".to_owned());
    push_pair(&mut v, "ret.sh.cn/user", "0".to_owned());
    push_pair(&mut v, "ret.sh.cn/traffic", traffic.to_owned());
    push_pair(&mut v, "ret.sh.cn/internet", bool_string(internet));
    v
}

/// The annotations of a shared hill: it belongs to no team and no player.
pub fn hill_annotations(challenge: &str, game: &str, ports: &str) -> (v: Vec<(String, String)>)
    ensures
        pairs(v@) == seq![
            ("ret.sh.cn/challenge"@, challenge@),
            ("ret.sh.cn/game"@, game@),
            ("ret.sh.cn/team"@, "KoH"@),
            ("ret.sh.cn/user"@, "ret2shell"@),
            ("ret.sh.cn/user-nickname"@, "Ret2Shell"@),
            ("ret.sh.cn/renew"@, "0"@),
            ("ret.sh.cn/ports"@, ports@),
        ],
{
    let mut v: Vec<(String, String)> = Vec::new();
    push_pair(&mut v, "ret.sh.cn/challenge", challenge.to_owned());
    push_pair(&mut v, "ret.sh.cn/game", game.to_owned());
    push_pair(&mut v, "ret.sh.cn/team", "KoH".to_owned());
    push_pair(&mut v, "ret.sh.cn/user", "ret2shell".to_owned());
    push_pair(&mut v, "ret.sh.cn/user-nickname", "Ret2Shell".to_owned());
    push_pair(&mut v, "ret.sh.cn/renew", "0".to_owned());
    push_pair(&mut v, "ret.sh.cn/ports", ports.to_owned());
    v
}

/// Numbers joined by commas.
pub open spec fn numbers_text(p: Seq<i32>) -> Seq<char>
    decreases p.len(),
{
    if p.len() == 0 {
        Seq::empty()
    } else if p.len() == 1 {
        dec_int(p[0] as int)
    } else {
        numbers_text(p.drop_last()) + ","@ + dec_int(p.last() as int)
    }
}

/// The rank shares written out for a hill's agent.
pub fn percentages_text(p: &Vec<i32>) -> (s: String)
    ensures
        s@ == numbers_text(p@),
{
    let mut s = String::new();
    let mut i: usize = 0;
    while i < p.len()
        invariant
            i <= p@.len(),
            s@ == numbers_text(p@.take(i as int)),
        decreases p.len() - i,
    {
        proof {
            assert(p@.take(i + 1).drop_last() =~= p@.take(i as int));
        }
        if i > 0 {
            push_str(&mut s, ",");
        }
        push_str(&mut s, i64_to_string(p[i] as i64).as_str());
        proof {
            if i == 0 {
                assert(s@ =~= numbers_text(p@.take(1)));
            }
        }
        i = i + 1;
    }
    proof {
        assert(p@.take(p@.len() as int) =~= p@);
    }
    s
}

pub open spec fn mode_text(m: KohMode) -> Seq<char> {
    match m {
        KohMode::AgentHttp => "agent_http"@,
        KohMode::RoundRankHttp => "round_rank_http"@,
        KohMode::GameElo => "game_elo"@,
    }
}

/// What a hill's agent is told about its challenge and its scoring.
pub fn hill_env(challenge_id: i64, game_id: i64, c: &KohConfig) -> (v: Vec<(String, String)>)
    ensures
        pairs(v@) == seq![
            ("R2S_KOH"@, "true"@),
            ("R2S_KOH_CHALLENGE_ID"@, dec_int(challenge_id as int)),
            ("R2S_KOH_GAME_ID"@, dec_int(game_id as int)),
            ("R2S_KOH_MODE"@, mode_text(c.mode)),
            ("KOH_INTERVAL_SECS"@, dec(c.interval_secs as nat)),
            ("KOH_ROUND_SECS"@, dec(c.round_secs as nat)),
            ("KOH_TOTAL_ROUNDS"@, dec(c.total_rounds as nat)),
            ("KOH_REWARD"@, dec_int(c.reward as int)),
            ("KOH_RANK_COUNT"@, dec(c.rank_count as nat)),
            ("KOH_RANK_PERCENTAGES"@, numbers_text(c.rank_percentages@)),
        ],
{
    let mut v: Vec<(String, String)> = Vec::new();
    push_pair(&mut v, "R2S_KOH", "true".to_owned());
    push_pair(&mut v, "R2S_KOH_CHALLENGE_ID", num(challenge_id));
    push_pair(&mut v, "R2S_KOH_GAME_ID", num(game_id));
    push_pair(&mut v, "R2S_KOH_MODE", crate::koh::koh_mode_name(c.mode).to_owned());
    push_pair(&mut v, "KOH_INTERVAL_SECS", u64_to_string(c.interval_secs as u64));
    push_pair(&mut v, "KOH_ROUND_SECS", u64_to_string(c.round_secs as u64));
    push_pair(&mut v, "KOH_TOTAL_ROUNDS", u64_to_string(c.total_rounds as u64));
    push_pair(&mut v, "KOH_REWARD", num(c.reward as i64));
    push_pair(&mut v, "KOH_RANK_COUNT", u64_to_string(c.rank_count as u64));
    push_pair(&mut v, "KOH_RANK_PERCENTAGES", percentages_text(&c.rank_percentages));
    v
}

} // verus!
