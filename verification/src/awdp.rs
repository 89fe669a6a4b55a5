//! Attack and defense plus: a team that solves (or fixes) a challenge in round `R` earns
//! the challenge's current score in every round from `R` until the game's last scored
//! round.
use vstd::prelude::*;
use crate::awd::{round_at, round_of};
use crate::error::{bad_request, is_bad_request, precondition_failed, ResponseError};
use crate::text::{dec_int, i64_to_string, push_str};

verus! {

/// How a team earns the bonus.
#[derive(Clone, Copy, Debug, PartialEq, Eq, Structural)]
pub enum AwdpMode {
    /// By solving the challenge with a flag.
    Flag,
    /// By fixing the challenge's service.
    Fix,
}

/// A challenge's `awdp.toml`.
pub struct AwdpConfig {
    pub enabled: bool,
    pub mode: AwdpMode,
    pub round_secs: u32,
    /// How many rounds are scored from the game's start; 0 leaves them uncapped.
    pub total_rounds: u32,
}

/// Checks an AWDP configuration before it is stored.
pub fn validate_awdp_config(config: &AwdpConfig) -> (r: Result<(), ResponseError>)
    ensures
        config.enabled && config.round_secs < 1 ==> is_bad_request(
            r,
            "AWDP round length must be greater than zero"@,
        ),
        !(config.enabled && config.round_secs < 1) ==> r is Ok,
{
    if !config.enabled {
        return Ok(());
    }
    if config.round_secs < 1 {
        return Err(bad_request("AWDP round length must be greater than zero"));
    }
    Ok(())
}

/// A fix-mode configuration needs the challenge's fix settings to be enabled.
pub fn check_awdp_fix_mode(config: &AwdpConfig, fix_enabled: bool) -> (r: Result<(), ResponseError>)
    ensures
        config.enabled && config.mode == AwdpMode::Fix && !fix_enabled ==> (r matches Err(
            ResponseError::PreconditionFailed(m),
        ) && m@ == "AWDP fix mode requires an enabled fix.toml"@),
        !(config.enabled && config.mode == AwdpMode::Fix && !fix_enabled) ==> r is Ok,
{
    if config.enabled && config.mode == AwdpMode::Fix && !fix_enabled {
        return Err(precondition_failed("AWDP fix mode requires an enabled fix.toml"));
    }
    Ok(())
}

/// How long after its end a game's bonuses are still reconciled, in seconds.
pub const RECONCILE_GRACE_SECS: i64 = 3600;

/// Whether the bonus worker looks at a game at second `now`: a hosted game that has
/// started and ended at most the grace period ago.
pub open spec fn in_award_window(is_game: bool, start: int, end: int, now: int) -> bool {
    is_game && start <= now && now <= end + RECONCILE_GRACE_SECS
}

pub fn award_window_open(is_game: bool, start: i64, end: i64, now: i64) -> (b: bool)
    ensures
        b == in_award_window(is_game, start as int, end as int, now as int),
{
    is_game && start <= now && (now as i128) <= (end as i128) + (RECONCILE_GRACE_SECS as i128)
}

/// The highest round whose bonus may be paid at second `now`: not past the current
/// round, nor the game's end round, nor, where rounds are capped, the last capped round
/// counted from the game's start.
pub open spec fn cap_round(now: int, start: int, end: int, round_secs: u32, total_rounds: u32) -> int {
    let a = round_at(now, round_secs);
    let b = round_at(end, round_secs);
    let m = if a <= b { a } else { b };
    if total_rounds > 0 {
        let last = round_at(start, round_secs) + total_rounds - 1;
        if m <= last { m } else { last }
    } else {
        m
    }
}

pub fn award_cap_round(now: i64, start: i64, end: i64, round_secs: u32, total_rounds: u32) -> (r: i64)
    ensures
        r == cap_round(now as int, start as int, end as int, round_secs, total_rounds),
{
    let a = round_of(now, round_secs);
    let b = round_of(end, round_secs);
    let m = if a <= b { a } else { b };
    if total_rounds > 0 {
        let last: i128 = (round_of(start, round_secs) as i128) + (total_rounds as i128) - 1;
        if (m as i128) <= last {
            m
        } else {
            last as i64
        }
    } else {
        m
    }
}

/// The earliest solve time of `team` among `solves`, if it solved.
pub open spec fn earliest(solves: Seq<(i64, i64)>, team: i64) -> Option<i64>
    decreases solves.len(),
{
    if solves.len() == 0 {
        None
    } else {
        let e = earliest(solves.drop_last(), team);
        let (t, at) = solves.last();
        if t != team {
            e
        } else {
            match e {
                Some(x) => if at < x {
                    Some(at)
                } else {
                    Some(x)
                },
                None => Some(at),
            }
        }
    }
}

/// Reduces solved submissions `(team, time)` to each solving team's earliest solve.
pub fn first_solves(solves: &Vec<(i64, i64)>) -> (r: Vec<(i64, i64)>)
    ensures
        forall|i: int, j: int| 0 <= i < j < r@.len() ==> r@[i].0 != r@[j].0,
        forall|k: int| 0 <= k < r@.len() ==> earliest(solves@, #[trigger] r@[k].0) == Some(r@[k].1),
        forall|t: i64| #[trigger] earliest(solves@, t) is Some ==> exists|k: int|
            0 <= k < r@.len() && r@[k].0 == t,
{
    let mut r: Vec<(i64, i64)> = Vec::new();
    let mut i: usize = 0;
    while i < solves.len()
        invariant
            i <= solves@.len(),
            forall|a: int, b: int| 0 <= a < b < r@.len() ==> r@[a].0 != r@[b].0,
            forall|k: int|
                0 <= k < r@.len() ==> earliest(solves@.take(i as int), #[trigger] r@[k].0) == Some(
                    r@[k].1,
                ),
            forall|t: i64| #[trigger]
                earliest(solves@.take(i as int), t) is Some ==> exists|k: int|
                    0 <= k < r@.len() && r@[k].0 == t,
        decreases solves.len() - i,
    {
        let (team, at) = solves[i];
        let ghost prev = solves@.take(i as int);
        let ghost next = solves@.take(i + 1);
        proof {
            assert(next.drop_last() =~= prev);
            assert(next.last() == (team, at));
        }
        let mut k: usize = 0;
        let mut pos: Option<usize> = None;
        while k < r.len()
            invariant
                k <= r@.len(),
                pos matches Some(p) ==> p < k && r@[p as int].0 == team,
                pos is None ==> forall|m: int| 0 <= m < k ==> r@[m].0 != team,
            decreases r.len() - k,
        {
            if pos.is_none() && r[k].0 == team {
                pos = Some(k);
            }
            k = k + 1;
        }
        let ghost old_r = r@;
        match pos {
            Some(p) => {
                let cur = r[p].1;
                if at < cur {
                    r.set(p, (team, at));
                }
                proof {
                    assert forall|m: int| 0 <= m < r@.len() implies earliest(
                        next,
                        #[trigger] r@[m].0,
                    ) == Some(r@[m].1) by {
                        if m != p {
                            assert(r@[m] == old_r[m]);
                            assert(old_r[m].0 != team);
                        }
                    }
                    assert forall|t: i64| #[trigger] earliest(next, t) is Some implies exists|m: int|
                        0 <= m < r@.len() && r@[m].0 == t by {
                        if t == team {
                            assert(r@[p as int].0 == t);
                        } else {
                            assert(earliest(prev, t) is Some);
                            let m = choose|m: int| 0 <= m < old_r.len() && old_r[m].0 == t;
                            assert(r@[m].0 == t);
                        }
                    }
                }
            },
            None => {
                r.push((team, at));
                proof {
                    assert(earliest(prev, team) is None) by {
                        if earliest(prev, team) is Some {
                            let m = choose|m: int| 0 <= m < old_r.len() && old_r[m].0 == team;
                            assert(old_r[m].0 != team);
                        }
                    }
                    assert forall|m: int| 0 <= m < r@.len() implies earliest(
                        next,
                        #[trigger] r@[m].0,
                    ) == Some(r@[m].1) by {
                        if m < old_r.len() {
                            assert(r@[m] == old_r[m]);
                            assert(old_r[m].0 != team);
                        }
                    }
                    assert forall|t: i64| #[trigger] earliest(next, t) is Some implies exists|m: int|
                        0 <= m < r@.len() && r@[m].0 == t by {
                        if t == team {
                            assert(r@[old_r.len() as int].0 == t);
                        } else {
                            assert(earliest(prev, t) is Some);
                            let m = choose|m: int| 0 <= m < old_r.len() && old_r[m].0 == t;
                            assert(r@[m].0 == t);
                        }
                    }
                    assert forall|a: int, b: int| 0 <= a < b < r@.len() implies r@[a].0
                        != r@[b].0 by {
                        if b == old_r.len() {
                            assert(old_r[a].0 != team);
                        }
                    }
                }
            },
        }
        i = i + 1;
    }
    proof {
        assert(solves@.take(solves@.len() as int) =~= solves@);
    }
    r
}

/// The rounds still owed to a team that solved at second `solved_at`, as an inclusive
/// range: from its solve round, or from just past the highest round already paid, up to
/// `cap`; `None` when nothing is owed.
pub open spec fn owed(solved_at: int, round_secs: u32, cap: int, paid: Option<i64>) -> Option<(int, int)> {
    let solved_round = round_at(solved_at, round_secs);
    let start = match paid {
        Some(h) => if h + 1 >= solved_round {
            h + 1
        } else {
            solved_round
        },
        None => solved_round,
    };
    if solved_round > cap || start > cap {
        None
    } else {
        Some((start, cap))
    }
}

pub fn owed_rounds(solved_at: i64, round_secs: u32, cap: i64, paid: Option<i64>) -> (r: Option<
    (i64, i64),
>)
    requires
        paid matches Some(h) ==> h < i64::MAX,
    ensures
        match owed(solved_at as int, round_secs, cap as int, paid) {
            Some((a, b)) => r matches Some(x) && x.0 == a && x.1 == b,
            None => r is None,
        },
{
    let solved_round = round_of(solved_at, round_secs);
    if solved_round > cap {
        return None;
    }
    let start = match paid {
        Some(h) => if h + 1 >= solved_round {
            h + 1
        } else {
            solved_round
        },
        None => solved_round,
    };
    if start > cap {
        None
    } else {
        Some((start, cap))
    }
}

/// The bonus is persistent: the rounds paid before (from the solve round up to the
/// frontier `h`) and the rounds owed now are disjoint and together are every round from
/// the solve round up to the cap.
pub proof fn lemma_bonus_covers_every_round(solved_at: int, round_secs: u32, cap: int, h: i64, x: int)
    requires
        round_at(solved_at, round_secs) - 1 <= h < cap,
        h < i64::MAX,
    ensures
        owed(solved_at, round_secs, cap, Some(h)) == Some((h + 1, cap)),
        (round_at(solved_at, round_secs) <= x <= cap) <==> ((round_at(solved_at, round_secs) <= x
            <= h) || (h + 1 <= x <= cap)),
        !((round_at(solved_at, round_secs) <= x <= h) && (h + 1 <= x <= cap)),
{
}

/// Bonuses are paid once: once the rounds up to the cap are paid, running again with
/// the same or an earlier cap owes nothing, and what is owed never reaches past the cap
/// nor back to a paid round.
pub proof fn lemma_bonus_paid_once(solved_at: int, round_secs: u32, cap: int, paid: Option<i64>)
    ensures
        paid matches Some(h) && h >= cap ==> owed(solved_at, round_secs, cap, paid) is None,
        owed(solved_at, round_secs, cap, paid) matches Some((a, b)) ==> b == cap && a <= cap
            && a >= round_at(solved_at, round_secs) && (paid matches Some(h) ==> a > h),
{
}

/// The cap is the latest round allowed by all three limits: it is within each of them
/// (the current round, the game's end round, and, where rounds are capped, the last
/// capped round) and equal to one of them.
pub proof fn lemma_cap_is_tightest(now: int, start: int, end: int, round_secs: u32, total_rounds: u32)
    ensures
        ({
            let c = cap_round(now, start, end, round_secs, total_rounds);
            let last = round_at(start, round_secs) + total_rounds - 1;
            &&& c <= round_at(now, round_secs)
            &&& c <= round_at(end, round_secs)
            &&& total_rounds > 0 ==> c <= last
            &&& (c == round_at(now, round_secs) || c == round_at(end, round_secs) || (total_rounds > 0 && c
                == last))
        }),
{
}

/// Why a round's bonus is credited.
pub open spec fn bonus_reason_spec(round: int, challenge_id: int, name: Seq<char>) -> Seq<char> {
    "AWDP round "@ + dec_int(round) + " bonus for challenge "@ + dec_int(challenge_id) + ":"@
        + name
}

pub fn bonus_reason(round: i64, challenge_id: i64, name: &str) -> (s: String)
    ensures
        s@ == bonus_reason_spec(round as int, challenge_id as int, name@),
{
    let mut s = "AWDP round ".to_owned();
    let r = i64_to_string(round);
    push_str(&mut s, r.as_str());
    push_str(&mut s, " bonus for challenge ");
    let c = i64_to_string(challenge_id);
    push_str(&mut s, c.as_str());
    push_str(&mut s, ":");
    push_str(&mut s, name);
    s
}

/// The round shown to players at second `now`; without a configuration rounds last a
/// second.
pub fn status_round(round_secs: Option<u32>, now: i64) -> (r: i64)
    ensures
        r == round_at(
            now as int,
            match round_secs {
                Some(s) => s,
                None => 1,
            },
        ),
{
    match round_secs {
        Some(s) => round_of(now, s),
        None => round_of(now, 1),
    }
}


/// No bonus is paid past the current round, past the game's end round, or, where rounds
/// are capped, past the last capped round.
pub proof fn lemma_cap_bounds(now: int, start: int, end: int, round_secs: u32, total_rounds: u32)
    ensures
        cap_round(now, start, end, round_secs, total_rounds) <= round_at(now, round_secs),
        cap_round(now, start, end, round_secs, total_rounds) <= round_at(end, round_secs),
        total_rounds > 0 ==> cap_round(now, start, end, round_secs, total_rounds) <= round_at(
            start,
            round_secs,
        ) + total_rounds - 1,
{
}

} // verus!
