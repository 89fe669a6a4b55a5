//! Attack and defense: every team runs its own machine; each round a fresh flag is
//! written into every machine and its service is checked. Stealing another team's live
//! flag scores at once; service and defense points are paid when the round closes.
use vstd::prelude::*;
use crate::cluster::{ChallengeEnv, ImageSpec};
use crate::digest::{hex, lemma_encode_len, sha256, sha256_hex};
use crate::error::{bad_request, is_bad_request, ResponseError};
use crate::koh_round::{join, join_strings};
use crate::text::{
    contains_exec, dec_int, i64_to_string, occurs_at, push_str, replace_char, replace_char_exec,
    starts_with, starts_with_exec, trim_ws, trimmed,
};

verus! {

/// A challenge's `awd.toml`.
pub struct AwdConfig {
    pub enabled: bool,
    pub image: ImageSpec,
    pub internet: bool,
    pub restricted: bool,
    pub privileged: bool,
    pub pull_secret: Option<String>,
    pub round_secs: u32,
    pub timeout_secs: u64,
    /// Where the round's flag is written on every machine.
    pub flag_path: String,
    /// The service check run on a machine after its flag is written.
    pub check_command: Option<Vec<String>>,
    pub attack_reward: i32,
    pub sla_reward: i32,
    pub defense_reward: i32,
}

/// Whether `s` holds `c` somewhere.
pub open spec fn has_char(s: Seq<char>, c: char) -> bool {
    exists|i: int| 0 <= i < s.len() && s[i] == c
}

/// The message of the rule an AWD configuration breaks, if any.
pub open spec fn awd_violation(c: AwdConfig) -> Option<Seq<char>> {
    let path = trim_ws(c.flag_path@);
    if !c.enabled {
        None
    } else if c.round_secs < 1 {
        Some("AWD round length must be greater than zero"@)
    } else if trim_ws(c.image.name@).len() == 0 {
        Some("AWD machine image is required"@)
    } else if path.len() == 0 || !starts_with(path, "/"@) {
        Some("AWD flag path must be an absolute path (e.g. /flag)"@)
    } else if has_char(path, '\n') || has_char(path, '\r') || has_char(path, '\0') {
        Some("AWD flag path must not contain newlines or null bytes"@)
    } else {
        None
    }
}

/// An AWD configuration is accepted exactly when AWD is off, or when rounds last at least
/// a second, a machine image is named, and the flag path (trimmed) is absolute and holds
/// no newline, carriage return or NUL.
pub proof fn lemma_awd_config_accepted(c: AwdConfig)
    ensures
        awd_violation(c) is None <==> (!c.enabled || (c.round_secs >= 1 && trim_ws(c.image.name@).len()
            > 0 && trim_ws(c.flag_path@).len() > 0 && starts_with(trim_ws(c.flag_path@), "/"@)
            && forall|i: int|
            0 <= i < trim_ws(c.flag_path@).len() ==> #[trigger] trim_ws(c.flag_path@)[i] != '\n'
                && trim_ws(c.flag_path@)[i] != '\r' && trim_ws(c.flag_path@)[i] != '\0')),
{
}

fn has_char_exec(s: &str, c: char) -> (b: bool)
    ensures
        b == has_char(s@, c),
{
    let mut p = String::new();
    p.push(c);
    let b = contains_exec(s, p.as_str());
    proof {
        if b {
            let i = choose|i: int| occurs_at(s@, p@, i);
            assert(s@.subrange(i, i + 1)[0] == c);
        }
        if has_char(s@, c) {
            let i = choose|i: int| 0 <= i < s@.len() && s@[i] == c;
            assert(s@.subrange(i, i + 1) =~= p@);
            assert(occurs_at(s@, p@, i));
        }
    }
    b
}

/// Checks an AWD configuration before it is stored.
pub fn validate_awd_config(config: &AwdConfig) -> (r: Result<(), ResponseError>)
    ensures
        match awd_violation(*config) {
            None => r is Ok,
            Some(m) => is_bad_request(r, m),
        },
{
    if !config.enabled {
        return Ok(());
    }
    if config.round_secs < 1 {
        return Err(bad_request("AWD round length must be greater than zero"));
    }
    if trimmed(config.image.name.as_str()).as_str().is_empty() {
        return Err(bad_request("AWD machine image is required"));
    }
    let path = trimmed(config.flag_path.as_str());
    if path.as_str().is_empty() || !starts_with_exec(path.as_str(), "/") {
        return Err(bad_request("AWD flag path must be an absolute path (e.g. /flag)"));
    }
    if has_char_exec(path.as_str(), '\n') || has_char_exec(path.as_str(), '\r') || has_char_exec(
        path.as_str(),
        '\0',
    ) {
        return Err(bad_request("AWD flag path must not contain newlines or null bytes"));
    }
    Ok(())
}

/// `v` as one POSIX single-quoted word: each `'` becomes `'\''`.
pub open spec fn sh_quoted(v: Seq<char>) -> Seq<char> {
    seq!['\''] + replace_char(v, '\'', "'\\''"@) + seq!['\'']
}

pub fn sh_squote(value: &str) -> (q: String)
    ensures
        q@ == sh_quoted(value@),
{
    let mut q = String::new();
    q.push('\'');
    let body = replace_char_exec(value, '\'', "'\\''");
    push_str(&mut q, body.as_str());
    q.push('\'');
    proof {
        assert(q@ =~= sh_quoted(value@));
    }
    q
}

/// The shell command that writes `flag` to `path` on a machine.
pub open spec fn injection_command_spec(flag: Seq<char>, path: Seq<char>) -> Seq<char> {
    "printf '%s' "@ + sh_quoted(flag) + " > "@ + sh_quoted(path)
}

pub fn injection_command(flag: &str, path: &str) -> (c: String)
    ensures
        c@ == injection_command_spec(flag@, path@),
{
    let mut c = "printf '%s' ".to_owned();
    let f = sh_squote(flag);
    push_str(&mut c, f.as_str());
    push_str(&mut c, " > ");
    let p = sh_squote(path);
    push_str(&mut c, p.as_str());
    c
}

/// The environment of a team's machine: the configured image alone, with the
/// configuration's network and privilege settings.
pub fn env_from(config: &AwdConfig) -> (env: ChallengeEnv)
    ensures
        env.internet == config.internet,
        env.restricted == config.restricted,
        env.privileged == config.privileged,
        env.pull_secret == config.pull_secret,
        env.images@.len() == 1,
        env.images@[0] == config.image,
{
    let image = ImageSpec { name: config.image.name.clone(), port: config.image.port };
    let pull_secret = match &config.pull_secret {
        Some(s) => Some(s.clone()),
        None => None,
    };
    let mut images: Vec<ImageSpec> = Vec::new();
    images.push(image);
    ChallengeEnv {
        internet: config.internet,
        restricted: config.restricted,
        privileged: config.privileged,
        images,
        pull_secret,
    }
}

/// Integer division rounding toward zero, as `/` does on machine integers.
pub open spec fn trunc_div(a: int, b: int) -> int {
    if a >= 0 {
        a / b
    } else {
        -((-a) / b)
    }
}

/// The round that wall-clock second `now` falls in; a round lasts at least a second.
pub open spec fn round_at(now: int, round_secs: u32) -> int {
    trunc_div(now, if round_secs < 1 { 1 } else { round_secs as int })
}

/// Rounds are consecutive spans of `round_secs` seconds from second 0: a second at or
/// after 0 falls in round `r` exactly when it lies in `[r * len, (r + 1) * len)`, where
/// `len` is the round length (at least a second).
pub proof fn lemma_round_span(now: int, round_secs: u32)
    requires
        now >= 0,
    ensures
        ({
            let len: int = if round_secs < 1 { 1 } else { round_secs as int };
            let r = round_at(now, round_secs);
            r * len <= now < (r + 1) * len
        }),
{
    let len: int = if round_secs < 1 { 1 } else { round_secs as int };
    let r = now / len;
    vstd::arithmetic::div_mod::lemma_fundamental_div_mod(now, len);
    assert(r * len <= now < (r + 1) * len) by (nonlinear_arith)
        requires
            len >= 1,
            now == len * r + now % len,
            0 <= now % len < len,
    ;
}

pub fn round_of(now: i64, round_secs: u32) -> (r: i64)
    ensures
        r == round_at(now as int, round_secs),
{
    let secs: i64 = if round_secs < 1 { 1 } else { round_secs as i64 };
    now / secs
}

/// The round a tick at `now` opens, or `None` while the last opened round is still
/// running (round `0` counts as none opened yet).
pub open spec fn due_round(now: int, round_secs: u32, last_round: i64) -> Option<int> {
    let current = round_at(now, round_secs);
    if current <= last_round && last_round != 0 {
        None
    } else {
        Some(current)
    }
}

/// A tick opens the round it falls in, and does so exactly when no round was opened
/// yet (`last_round` is 0) or that round is past the last one opened.
pub proof fn lemma_due_opens_current(now: int, round_secs: u32, last_round: i64)
    ensures
        due_round(now, round_secs, last_round) is Some ==> due_round(now, round_secs, last_round) == Some(
            round_at(now, round_secs),
        ),
        due_round(now, round_secs, last_round) is Some <==> (last_round == 0 || round_at(now, round_secs)
            > last_round),
{
}

pub fn round_due(now: i64, round_secs: u32, last_round: i64) -> (r: Option<i64>)
    ensures
        match due_round(now as int, round_secs, last_round) {
            Some(c) => r == Some(c as i64) && r->0 == c,
            None => r is None,
        },
{
    let current = round_of(now, round_secs);
    if current <= last_round && last_round != 0 {
        None
    } else {
        Some(current)
    }
}

/// The round whose flags an attack may present: the last round the worker opened, or
/// the wall-clock round before it has opened any.
pub fn attack_round(last_round: Option<i64>, now: i64, round_secs: u32) -> (r: i64)
    ensures
        r == (match last_round {
            Some(l) => if l > 0 {
                l as int
            } else {
                round_at(now as int, round_secs)
            },
            None => round_at(now as int, round_secs),
        }),
{
    match last_round {
        Some(l) => if l > 0 {
            l
        } else {
            round_of(now, round_secs)
        },
        None => round_of(now, round_secs),
    }
}

/// A machine's service counts as up when its flag was written and, where a check is
/// configured, the check then passed.
pub fn sla_ok(injected: bool, check: Option<bool>) -> (b: bool)
    ensures
        b == (injected && match check {
            Some(ok) => ok,
            None => true,
        }),
{
    match check {
        Some(ok) => injected && ok,
        None => injected,
    }
}

/// A team's record for a closing round.
pub struct RoundRow {
    pub team_id: i64,
    pub sla_ok: bool,
}

/// A score credited to a team.
pub struct Award {
    pub team_id: i64,
    pub score: i32,
    pub reason: String,
}

/// An award as plain values.
pub open spec fn award_view(a: Award) -> (i64, i32, Seq<char>) {
    (a.team_id, a.score, a.reason@)
}

pub open spec fn sla_reason(round: int) -> Seq<char> {
    "AWD SLA up round "@ + dec_int(round)
}

pub open spec fn defense_reason(round: int) -> Seq<char> {
    "AWD defense round "@ + dec_int(round)
}

/// What closing a round pays one team: the service reward where its service was up,
/// and the defense reward where it was also not attacked; rewards that are not
/// positive are not paid.
pub open spec fn row_awards(row: RoundRow, attacked: bool, sla: i32, defense: i32, round: int) -> Seq<
    (i64, i32, Seq<char>),
> {
    if !row.sla_ok {
        Seq::empty()
    } else {
        (if sla > 0 {
            seq![(row.team_id, sla, sla_reason(round))]
        } else {
            Seq::empty()
        }) + (if !attacked && defense > 0 {
            seq![(row.team_id, defense, defense_reason(round))]
        } else {
            Seq::empty()
        })
    }
}

/// What closing a round pays, row by row in order.
pub open spec fn round_awards_spec(
    rows: Seq<RoundRow>,
    attacked: Seq<bool>,
    sla: i32,
    defense: i32,
    round: int,
) -> Seq<(i64, i32, Seq<char>)>
    decreases rows.len(),
{
    if rows.len() == 0 {
        Seq::empty()
    } else {
        round_awards_spec(rows.drop_last(), attacked, sla, defense, round) + row_awards(
            rows.last(),
            attacked[rows.len() - 1],
            sla,
            defense,
            round,
        )
    }
}

fn push_award(out: &mut Vec<Award>, team_id: i64, score: i32, prefix: &str, round: i64)
    ensures
        final(out)@.len() == old(out)@.len() + 1,
        forall|k: int| 0 <= k < old(out)@.len() ==> final(out)@[k] == old(out)@[k],
        award_view(final(out)@[old(out)@.len() as int]) == (team_id, score, prefix@ + dec_int(
            round as int,
        )),
{
    let mut reason = prefix.to_owned();
    let n = i64_to_string(round);
    push_str(&mut reason, n.as_str());
    out.push(Award { team_id, score, reason });
}

/// The awards that close round `round`; `attacked[i]` tells whether the team of
/// `rows[i]` lost a flag in it.
pub fn round_awards(rows: &Vec<RoundRow>, attacked: &Vec<bool>, sla: i32, defense: i32, round: i64) -> (r:
    Vec<Award>)
    requires
        attacked@.len() == rows@.len(),
    ensures
        r@.map_values(|a: Award| award_view(a)) == round_awards_spec(
            rows@,
            attacked@,
            sla,
            defense,
            round as int,
        ),
{
    let mut out: Vec<Award> = Vec::new();
    let mut i: usize = 0;
    while i < rows.len()
        invariant
            i <= rows@.len(),
            attacked@.len() == rows@.len(),
            out@.map_values(|a: Award| award_view(a)) == round_awards_spec(
                rows@.take(i as int),
                attacked@,
                sla,
                defense,
                round as int,
            ),
        decreases rows.len() - i,
    {
        let ghost before = out@.map_values(|a: Award| award_view(a));
        let row = &rows[i];
        if row.sla_ok {
            if sla > 0 {
                push_award(&mut out, row.team_id, sla, "AWD SLA up round ", round);
            }
            let ghost mid = out@.map_values(|a: Award| award_view(a));
            if !attacked[i] && defense > 0 {
                push_award(&mut out, row.team_id, defense, "AWD defense round ", round);
            }
            proof {
                assert(mid =~= before + (if sla > 0 {
                    seq![(row.team_id, sla, sla_reason(round as int))]
                } else {
                    Seq::empty()
                }));
                assert(out@.map_values(|a: Award| award_view(a)) =~= mid + (if !attacked@[i as int]
                    && defense > 0 {
                    seq![(row.team_id, defense, defense_reason(round as int))]
                } else {
                    Seq::empty()
                }));
            }
        }
        proof {
            let t = rows@.take(i + 1);
            assert(t.drop_last() =~= rows@.take(i as int));
            assert(t.last() == rows@[i as int]);
            assert(out@.map_values(|a: Award| award_view(a)) =~= round_awards_spec(
                t,
                attacked@,
                sla,
                defense,
                round as int,
            ));
        }
        i = i + 1;
    }
    proof {
        assert(rows@.take(rows@.len() as int) =~= rows@);
    }
    out
}

/// Whether award `a` is backed by a row whose service was up and, for a defense award,
/// that lost no flag.
pub open spec fn backed_by_row(rows: Seq<RoundRow>, attacked: Seq<bool>, round: int, a: (i64, i32, Seq<char>)) -> bool {
    exists|i: int|
        0 <= i < rows.len() && #[trigger] rows[i].team_id == a.0 && rows[i].sla_ok && a.1 > 0 && (a.2
            == defense_reason(round) ==> !attacked[i]) && (a.2 == sla_reason(round) || a.2
            == defense_reason(round))
}

/// Every defense award closing a round goes to a team whose service was up and that lost
/// no flag in it; every service award to a team whose service was up.
pub proof fn lemma_awards_need_service_up(
    rows: Seq<RoundRow>,
    attacked: Seq<bool>,
    sla: i32,
    defense: i32,
    round: int,
    k: int,
)
    requires
        rows.len() <= attacked.len(),
        0 <= k < round_awards_spec(rows, attacked, sla, defense, round).len(),
    ensures
        backed_by_row(rows, attacked, round, round_awards_spec(rows, attacked, sla, defense, round)[k]),
    decreases rows.len(),
{
    let prev = round_awards_spec(rows.drop_last(), attacked, sla, defense, round);
    let last = row_awards(rows.last(), attacked[rows.len() - 1], sla, defense, round);
    let all = round_awards_spec(rows, attacked, sla, defense, round);
    assert(all == prev + last);
    let n = rows.len() - 1;
    if k < prev.len() {
        lemma_awards_need_service_up(rows.drop_last(), attacked, sla, defense, round, k);
        let r = rows.drop_last();
        let a = prev[k];
        assert(all[k] == a);
        assert(backed_by_row(r, attacked, round, a));
        let i = choose|i: int|
            0 <= i < r.len() && #[trigger] r[i].team_id == a.0 && r[i].sla_ok && a.1 > 0 && (a.2
                == defense_reason(round) ==> !attacked[i]) && (a.2 == sla_reason(round) || a.2
                == defense_reason(round));
        assert(rows[i] == r[i]);
        assert(rows[i].team_id == a.0);
    } else {
        let a = all[k];
        let j = k - prev.len();
        assert(a == last[j]);
        lemma_reasons_differ(round);
        let row = rows.last();
        assert(rows[n] == row);
        let s1: Seq<(i64, i32, Seq<char>)> = if sla > 0 {
            seq![(row.team_id, sla, sla_reason(round))]
        } else {
            Seq::empty()
        };
        let s2: Seq<(i64, i32, Seq<char>)> = if !attacked[n] && defense > 0 {
            seq![(row.team_id, defense, defense_reason(round))]
        } else {
            Seq::empty()
        };
        assert(row.sla_ok);
        assert(last == s1 + s2);
        if j < s1.len() {
            assert(a == s1[j]);
        } else {
            assert(a == s2[j - s1.len()]);
        }
        assert(rows[n].team_id == a.0);
        assert(rows[n].team_id == a.0 && rows[n].sla_ok && a.1 > 0 && (a.2 == defense_reason(
            round,
        ) ==> !attacked[n]) && (a.2 == sla_reason(round) || a.2 == defense_reason(round)));
    }
}

/// Each award closing a round pays exactly the configured reward of its kind: a service
/// award pays `sla`, a defense award pays `defense`. And none is left out: every team
/// whose service was up gets the service award when `sla` is positive, and the defense
/// award as well when it lost no flag and `defense` is positive.
pub proof fn lemma_awards_pay_configured_rewards(
    rows: Seq<RoundRow>,
    attacked: Seq<bool>,
    sla: i32,
    defense: i32,
    round: int,
)
    requires
        rows.len() <= attacked.len(),
    ensures
        forall|k: int|
            0 <= k < round_awards_spec(rows, attacked, sla, defense, round).len() ==> {
                let a = #[trigger] round_awards_spec(rows, attacked, sla, defense, round)[k];
                &&& a.2 == sla_reason(round) ==> a.1 == sla
                &&& a.2 == defense_reason(round) ==> a.1 == defense
            },
        forall|i: int|
            0 <= i < rows.len() && (#[trigger] rows[i]).sla_ok && sla > 0 ==> round_awards_spec(
                rows,
                attacked,
                sla,
                defense,
                round,
            ).contains((rows[i].team_id, sla, sla_reason(round))),
        forall|i: int|
            0 <= i < rows.len() && (#[trigger] rows[i]).sla_ok && !attacked[i] && defense > 0
                ==> round_awards_spec(rows, attacked, sla, defense, round).contains(
                (rows[i].team_id, defense, defense_reason(round)),
            ),
    decreases rows.len(),
{
    lemma_reasons_differ(round);
    if rows.len() > 0 {
        let init = rows.drop_last();
        lemma_awards_pay_configured_rewards(init, attacked, sla, defense, round);
        let prev = round_awards_spec(init, attacked, sla, defense, round);
        let n = rows.len() - 1;
        let row = rows[n];
        let last = row_awards(row, attacked[n], sla, defense, round);
        let all = round_awards_spec(rows, attacked, sla, defense, round);
        assert(all == prev + last);
        let s1: Seq<(i64, i32, Seq<char>)> = if sla > 0 {
            seq![(row.team_id, sla, sla_reason(round))]
        } else {
            Seq::empty()
        };
        let s2: Seq<(i64, i32, Seq<char>)> = if !attacked[n] && defense > 0 {
            seq![(row.team_id, defense, defense_reason(round))]
        } else {
            Seq::empty()
        };
        if row.sla_ok {
            assert(last == s1 + s2);
        } else {
            assert(last.len() == 0);
        }
        assert forall|k: int| 0 <= k < all.len() implies {
            let a = #[trigger] all[k];
            &&& a.2 == sla_reason(round) ==> a.1 == sla
            &&& a.2 == defense_reason(round) ==> a.1 == defense
        } by {
            if k < prev.len() {
                assert(all[k] == prev[k]);
            } else {
                let j = k - prev.len();
                assert(all[k] == last[j]);
                if j < s1.len() {
                    assert(last[j] == s1[j]);
                } else {
                    assert(last[j] == s2[j - s1.len()]);
                }
            }
        }
        assert forall|i: int| 0 <= i < rows.len() && (#[trigger] rows[i]).sla_ok && sla > 0 implies all.contains(
            (rows[i].team_id, sla, sla_reason(round)),
        ) by {
            if i < n {
                assert(init[i] == rows[i]);
                let k = choose|k: int| 0 <= k < prev.len() && prev[k] == (init[i].team_id, sla, sla_reason(round));
                assert(all[k] == prev[k]);
            } else {
                assert(all[prev.len() as int] == last[0]);
                assert(last[0] == s1[0]);
            }
        }
        assert forall|i: int|
            0 <= i < rows.len() && (#[trigger] rows[i]).sla_ok && !attacked[i] && defense > 0 implies all.contains(
            (rows[i].team_id, defense, defense_reason(round)),
        ) by {
            if i < n {
                assert(init[i] == rows[i]);
                let k = choose|k: int|
                    0 <= k < prev.len() && prev[k] == (init[i].team_id, defense, defense_reason(round));
                assert(all[k] == prev[k]);
            } else {
                let j = s1.len() as int;
                assert(last[j] == s2[0]);
                assert(all[prev.len() + j] == last[j]);
            }
        }
    }
}

/// The two reasons never coincide.
pub proof fn lemma_reasons_differ(round: int)
    ensures
        sla_reason(round) != defense_reason(round),
{
    reveal_strlit("AWD SLA up round ");
    reveal_strlit("AWD defense round ");
    assert(sla_reason(round)[4] == 'S');
    assert(defense_reason(round)[4] == 'd');
}


/// The live round flag an attack presented, as recorded.
pub struct VictimRound {
    pub team_id: i64,
    pub round: i64,
    pub finalized: bool,
}

/// The answer to an attack that is not scored: a flag of no live round, of a round
/// already closed, or the attacker's own.
pub open spec fn attack_refusal(victim: Option<VictimRound>, attacker: i64) -> Option<(bool, Seq<char>)> {
    match victim {
        None => Some((false, "not a current-round flag"@)),
        Some(v) => if v.finalized {
            Some((false, "this round has already been scored"@))
        } else if v.team_id == attacker {
            Some((false, "cannot submit your own flag"@))
        } else {
            None
        },
    }
}

pub fn attack_precheck(victim: Option<&VictimRound>, attacker: i64) -> (r: Option<(bool, String)>)
    ensures
        match attack_refusal(
            match victim {
                Some(v) => Some(*v),
                None => None,
            },
            attacker,
        ) {
            Some((ok, m)) => r matches Some(x) && x.0 == ok && x.1@ == m,
            None => r is None,
        },
{
    match victim {
        None => Some((false, "not a current-round flag".to_owned())),
        Some(v) => {
            if v.finalized {
                Some((false, "this round has already been scored".to_owned()))
            } else if v.team_id == attacker {
                Some((false, "cannot submit your own flag".to_owned()))
            } else {
                None
            }
        },
    }
}

/// The answer to an attack that stole the same flag before: accepted, scored once.
pub fn already_stolen_answer() -> (r: (bool, String))
    ensures
        r.0,
        r.1@ == "already stolen this round"@,
{
    (true, "already stolen this round".to_owned())
}

/// How many teams count as exploited once this attack lands: the victim adds one unless
/// it was exploited before.
pub fn exploited_after(exploited: u64, victim_already: bool) -> (n: u64)
    requires
        exploited < u64::MAX,
    ensures
        n == if victim_already { exploited as int } else { exploited + 1 },
{
    if victim_already {
        exploited
    } else {
        exploited + 1
    }
}

/// The attack reward for a given number of exploited teams: the full reward for the
/// first, the floor once the decay window is used up, and a cosine curve between them.
#[derive(Debug, PartialEq, Eq, Structural)]
pub enum AttackValue {
    Fixed(i32),
    /// The reward falls from `initial` to `minimum` along half a cosine as `exploited`
    /// goes from 1 to `decay`.
    Curve { initial: i32, minimum: i32, exploited: u64, decay: u64 },
}

/// The full reward: the configured one, never negative.
pub open spec fn initial_reward(attack_reward: i32) -> int {
    if attack_reward < 0 {
        0
    } else {
        attack_reward as int
    }
}

/// The floor: a third of the full reward, at least one.
pub open spec fn minimum_reward(attack_reward: i32) -> int {
    if initial_reward(attack_reward) / 3 < 1 {
        1
    } else {
        initial_reward(attack_reward) / 3
    }
}

pub fn attack_value_plan(attack_reward: i32, decay_rule: i32, exploited: u64) -> (v: AttackValue)
    ensures
        ({
            let decay: int = if decay_rule < 1 { 1 } else { decay_rule as int };
            if exploited <= 1 {
                v == AttackValue::Fixed(initial_reward(attack_reward) as i32)
            } else if exploited >= decay {
                v == AttackValue::Fixed(minimum_reward(attack_reward) as i32)
            } else {
                v == AttackValue::Curve {
                    initial: initial_reward(attack_reward) as i32,
                    minimum: minimum_reward(attack_reward) as i32,
                    exploited,
                    decay: decay as u64,
                }
            }
        }),
{
    let initial: i32 = if attack_reward < 0 { 0 } else { attack_reward };
    let third: i32 = initial / 3;
    let minimum: i32 = if third < 1 { 1 } else { third };
    let decay: u64 = if decay_rule < 1 { 1 } else { decay_rule as u64 };
    if exploited <= 1 {
        return AttackValue::Fixed(initial);
    }
    if exploited >= decay {
        return AttackValue::Fixed(minimum);
    }
    AttackValue::Curve { initial, minimum, exploited, decay }
}

/// Why an accepted attack is credited.
pub open spec fn attack_reason_spec(victim: int, round: int) -> Seq<char> {
    "AWD attack: stole team "@ + dec_int(victim) + "'s flag (round "@ + dec_int(round) + ")"@
}

pub fn attack_reason(victim: i64, round: i64) -> (s: String)
    ensures
        s@ == attack_reason_spec(victim as int, round as int),
{
    let mut s = "AWD attack: stole team ".to_owned();
    let v = i64_to_string(victim);
    push_str(&mut s, v.as_str());
    push_str(&mut s, "'s flag (round ");
    let r = i64_to_string(round);
    push_str(&mut s, r.as_str());
    push_str(&mut s, ")");
    s
}

/// The answer to a scored attack.
pub fn attack_accepted(value: i32) -> (r: (bool, String))
    ensures
        r.0,
        r.1@ == "attack accepted (+"@ + dec_int(value as int) + ")"@,
{
    let mut s = "attack accepted (+".to_owned();
    let v = i64_to_string(value as i64);
    push_str(&mut s, v.as_str());
    push_str(&mut s, ")");
    (true, s)
}


/// The hash under which a submitted flag is looked up: that of the submission without
/// its surrounding whitespace.
pub fn attack_flag_hash(submitted: &str) -> (h: String)
    requires
        submitted@.len() < 0x0400_0000_0000_0000,
    ensures
        h@ == hex(sha256(vstd::utf8::encode_utf8(trim_ws(submitted@)))),
{
    let t = trimmed(submitted);
    proof {
        crate::text::lemma_trim_len(submitted@, crate::text::CharClass::Whitespace);
        lemma_encode_len(t@);
    }
    sha256_hex(t.as_str().as_bytes())
}

/// The note kept for a machine whose flag could not be written.
pub fn injection_error(team_id: i64) -> (s: String)
    ensures
        s@ == "team "@ + dec_int(team_id as int) + ": flag injection failed"@,
{
    let mut s = "team ".to_owned();
    let t = i64_to_string(team_id);
    push_str(&mut s, t.as_str());
    push_str(&mut s, ": flag injection failed");
    s
}

/// The error kept for a round: its notes joined by `; `, or none.
pub fn round_error_summary(errors: &Vec<String>) -> (r: Option<String>)
    ensures
        errors@.len() == 0 ==> r is None,
        errors@.len() > 0 ==> (r matches Some(s) && s@ == join(
            errors@.map_values(|x: String| x@),
            "; "@,
        )),
{
    if errors.len() == 0 {
        None
    } else {
        Some(join_strings(errors, "; "))
    }
}

/// The name of team `team_id`'s machine for challenge `challenge_id`.
pub fn awd_pod_name(challenge_id: i64, team_id: i64) -> (s: String)
    ensures
        s@ == "ret2shell-awd-"@ + dec_int(challenge_id as int) + "-"@ + dec_int(team_id as int),
{
    let mut s = "ret2shell-awd-".to_owned();
    let c = i64_to_string(challenge_id);
    push_str(&mut s, c.as_str());
    push_str(&mut s, "-");
    let t = i64_to_string(team_id);
    push_str(&mut s, t.as_str());
    s
}

/// Where players reach a machine: the external host and the machine's node port, once
/// the image exposes a port, a non-empty host is configured and the port is assigned.
pub fn machine_address(image_port: Option<u16>, host: Option<&str>, node_port: Option<i32>) -> (r:
    Option<String>)
    ensures
        match (image_port, host, node_port) {
            (Some(_), Some(h), Some(p)) => if h@.len() > 0 {
                r matches Some(a) && a@ == h@ + ":"@ + dec_int(p as int)
            } else {
                r is None
            },
            _ => r is None,
        },
{
    if image_port.is_none() {
        return None;
    }
    let h = match host {
        Some(h) => h,
        None => return None,
    };
    if h.is_empty() {
        return None;
    }
    let p = match node_port {
        Some(p) => p,
        None => return None,
    };
    let mut a = h.to_owned();
    push_str(&mut a, ":");
    let n = i64_to_string(p as i64);
    push_str(&mut a, n.as_str());
    Some(a)
}


/// A round opens once: once a tick has opened round `c` (which then becomes the last
/// opened round), no later tick within `c` opens a round again, so its flags are
/// rotated and the round before it is closed only once.
pub proof fn lemma_round_opens_once(now: int, later: int, round_secs: u32, last: i64, c: i64)
    requires
        due_round(now, round_secs, last) == Some(c as int),
        round_at(later, round_secs) == c,
        c != 0,
    ensures
        due_round(later, round_secs, c) is None,
{
}

} // verus!
