//! Scoring of one KoH round from an agent's ranking.
use vstd::prelude::*;
use std::collections::HashSet;
use crate::ranking::{sorted_entries, RankEntry};
use crate::text::{dec_int, i64_to_string, push_str};

verus! {

/// Where a reported round stands.
#[derive(Debug, PartialEq, Eq, Structural)]
pub enum RoundGate {
    /// No completed round is available yet.
    Pending,
    /// The round lies beyond the configured number of rounds.
    Completed,
    /// The round can be scored.
    Open,
}

/// The round to score (the reported one, else the current tick) and where it stands.
pub fn round_gate(reported: Option<i64>, fallback_tick: i64, total_rounds: u32) -> (r: (i64, RoundGate))
    ensures
        r.0 == (match reported {
            Some(x) => x,
            None => fallback_tick,
        }),
        r.1 == (if r.0 <= 0 {
            RoundGate::Pending
        } else if total_rounds > 0 && r.0 > total_rounds {
            RoundGate::Completed
        } else {
            RoundGate::Open
        }),
{
    let round = match reported {
        Some(x) => x,
        None => fallback_tick,
    };
    if round <= 0 {
        (round, RoundGate::Pending)
    } else if total_rounds > 0 && round > total_rounds as i64 {
        (round, RoundGate::Completed)
    } else {
        (round, RoundGate::Open)
    }
}

/// The share of the reward that `rank` earns, in percent (0 past the configured list).
pub open spec fn percent_for(p: Seq<i32>, rank: i32) -> i32 {
    if 1 <= rank && rank <= p.len() {
        p[rank - 1]
    } else {
        0
    }
}

/// `percent`% of `reward`, rounded half up.
pub open spec fn rank_score(reward: i32, percent: i32) -> i32 {
    ((reward as int * percent as int + 50) / 100) as i32
}

/// A team credited for a round.
pub struct RankAward {
    pub team_id: i64,
    pub rank: i32,
    pub percent: i32,
    pub score: i32,
    pub identifier: String,
    /// The text of the event recorded for the award.
    pub message: String,
}

pub struct RankAwardModel {
    pub team_id: i64,
    pub rank: i32,
    pub percent: i32,
    pub score: i32,
    pub identifier: Seq<char>,
    pub message: Seq<char>,
}

pub open spec fn award_model(a: RankAward) -> RankAwardModel {
    RankAwardModel {
        team_id: a.team_id,
        rank: a.rank,
        percent: a.percent,
        score: a.score,
        identifier: a.identifier@,
        message: a.message@,
    }
}

/// The awards and skips decided so far, and the teams already met.
pub struct PlanModel {
    pub awards: Seq<RankAwardModel>,
    pub skipped: Seq<Seq<char>>,
    pub seen: Set<i64>,
}

pub open spec fn msg_scores_zero(rank: i32, percent: i32, reward: i32) -> Seq<char> {
    "rank "@ + dec_int(rank as int) + " scores 0 (percent "@ + dec_int(percent as int)
        + "%, reward "@ + dec_int(reward as int) + ")"@
}

pub open spec fn msg_rounds_to_zero(rank: i32, percent: i32, reward: i32) -> Seq<char> {
    "rank "@ + dec_int(rank as int) + " rounds to 0 ("@ + dec_int(percent as int)
        + "% of reward "@ + dec_int(reward as int) + ")"@
}

pub open spec fn msg_unknown(identifier: Seq<char>) -> Seq<char> {
    "unknown identifier "@ + identifier
}

pub open spec fn msg_duplicate(team: i64) -> Seq<char> {
    "duplicate team "@ + dec_int(team as int)
}

pub open spec fn msg_already(team: i64, round: i64) -> Seq<char> {
    "team "@ + dec_int(team as int) + " already awarded for round "@ + dec_int(round as int)
}

/// The event text of an award: the agent's message, else the metric, else the place.
pub open spec fn msg_award(e: RankEntry, round: i64) -> Seq<char> {
    match e.message {
        Some(m) => m@,
        None => match e.metric {
            Some(x) => "metric="@ + dec_int(x as int),
            None => "round "@ + dec_int(round as int) + " rank "@ + dec_int(e.rank as int),
        },
    }
}

/// One entry of a sorted ranking: out-of-range ranks are ignored; a zero share, an
/// unknown identifier, a team met before and a team already credited for the round are
/// skipped with a reason; otherwise the team is credited.
pub open spec fn plan_step(
    acc: PlanModel,
    e: RankEntry,
    owner: Option<i64>,
    already: bool,
    reward: i32,
    rank_count: u32,
    pct: Seq<i32>,
    round: i64,
) -> PlanModel {
    if !(e.rank > 0 && e.rank <= rank_count) {
        acc
    } else {
        let percent = percent_for(pct, e.rank);
        if percent <= 0 || reward <= 0 {
            PlanModel { skipped: acc.skipped.push(msg_scores_zero(e.rank, percent, reward)), ..acc }
        } else {
            let score = rank_score(reward, percent);
            if score <= 0 {
                PlanModel {
                    skipped: acc.skipped.push(msg_rounds_to_zero(e.rank, percent, reward)),
                    ..acc
                }
            } else {
                match owner {
                    None => PlanModel {
                        skipped: acc.skipped.push(msg_unknown(e.identifier@)),
                        ..acc
                    },
                    Some(t) => if acc.seen.contains(t) {
                        PlanModel { skipped: acc.skipped.push(msg_duplicate(t)), ..acc }
                    } else if already {
                        PlanModel {
                            awards: acc.awards,
                            skipped: acc.skipped.push(msg_already(t, round)),
                            seen: acc.seen.insert(t),
                        }
                    } else {
                        PlanModel {
                            awards: acc.awards.push(
                                RankAwardModel {
                                    team_id: t,
                                    rank: e.rank,
                                    percent,
                                    score,
                                    identifier: e.identifier@,
                                    message: msg_award(e, round),
                                },
                            ),
                            skipped: acc.skipped,
                            seen: acc.seen.insert(t),
                        }
                    },
                }
            }
        }
    }
}

/// The decisions for the first `n` entries of a sorted ranking.
pub open spec fn plan_upto(
    entries: Seq<RankEntry>,
    owners: Seq<Option<i64>>,
    already: Seq<bool>,
    reward: i32,
    rank_count: u32,
    pct: Seq<i32>,
    round: i64,
    n: nat,
) -> PlanModel
    decreases n,
{
    if n == 0 {
        PlanModel { awards: Seq::empty(), skipped: Seq::empty(), seen: Set::empty() }
    } else {
        plan_step(
            plan_upto(entries, owners, already, reward, rank_count, pct, round, (n - 1) as nat),
            entries[n - 1],
            owners[n - 1],
            already[n - 1],
            reward,
            rank_count,
            pct,
            round,
        )
    }
}

fn decimal(n: i64) -> (s: String)
    ensures
        s@ == dec_int(n as int),
{
    i64_to_string(n)
}

fn text_scores_zero(rank: i32, percent: i32, reward: i32) -> (s: String)
    ensures
        s@ == msg_scores_zero(rank, percent, reward),
{
    let mut s = "rank ".to_owned();
    push_str(&mut s, decimal(rank as i64).as_str());
    push_str(&mut s, " scores 0 (percent ");
    push_str(&mut s, decimal(percent as i64).as_str());
    push_str(&mut s, "%, reward ");
    push_str(&mut s, decimal(reward as i64).as_str());
    push_str(&mut s, ")");
    s
}

fn text_rounds_to_zero(rank: i32, percent: i32, reward: i32) -> (s: String)
    ensures
        s@ == msg_rounds_to_zero(rank, percent, reward),
{
    let mut s = "rank ".to_owned();
    push_str(&mut s, decimal(rank as i64).as_str());
    push_str(&mut s, " rounds to 0 (");
    push_str(&mut s, decimal(percent as i64).as_str());
    push_str(&mut s, "% of reward ");
    push_str(&mut s, decimal(reward as i64).as_str());
    push_str(&mut s, ")");
    s
}

fn text_unknown(identifier: &str) -> (s: String)
    ensures
        s@ == msg_unknown(identifier@),
{
    let mut s = "unknown identifier ".to_owned();
    push_str(&mut s, identifier);
    s
}

fn text_duplicate(team: i64) -> (s: String)
    ensures
        s@ == msg_duplicate(team),
{
    let mut s = "duplicate team ".to_owned();
    push_str(&mut s, decimal(team).as_str());
    s
}

fn text_already(team: i64, round: i64) -> (s: String)
    ensures
        s@ == msg_already(team, round),
{
    let mut s = "team ".to_owned();
    push_str(&mut s, decimal(team).as_str());
    push_str(&mut s, " already awarded for round ");
    push_str(&mut s, decimal(round).as_str());
    s
}

fn text_award(e: &RankEntry, round: i64) -> (s: String)
    ensures
        s@ == msg_award(*e, round),
{
    match &e.message {
        Some(m) => m.clone(),
        None => match e.metric {
            Some(x) => {
                let mut s = "metric=".to_owned();
                push_str(&mut s, decimal(x).as_str());
                s
            },
            None => {
                let mut s = "round ".to_owned();
                push_str(&mut s, decimal(round).as_str());
                push_str(&mut s, " rank ");
                push_str(&mut s, decimal(e.rank as i64).as_str());
                s
            },
        },
    }
}

/// What a round's ranking earns.
pub struct RankPlan {
    pub awards: Vec<RankAward>,
    pub skipped: Vec<String>,
}

/// Decides, entry by entry of a sorted ranking, which team is credited and which entry
/// is skipped and why. `owners[i]` is the team that holds the identifier of
/// `entries[i]`, if any; `already[i]` whether that team was credited for `round` before.
pub fn plan_round(
    entries: &Vec<RankEntry>,
    owners: &Vec<Option<i64>>,
    already: &Vec<bool>,
    reward: i32,
    rank_count: u32,
    percentages: &Vec<i32>,
    round: i64,
) -> (plan: RankPlan)
    requires
        owners@.len() == entries@.len(),
        already@.len() == entries@.len(),
    ensures
        ({
            let m = plan_upto(
                entries@,
                owners@,
                already@,
                reward,
                rank_count,
                percentages@,
                round,
                entries@.len(),
            );
            &&& plan.awards@.map_values(|a: RankAward| award_model(a)) == m.awards
            &&& plan.skipped@.map_values(|s: String| s@) == m.skipped
        }),
{
    let mut awards: Vec<RankAward> = Vec::new();
    let mut skipped: Vec<String> = Vec::new();
    broadcast use vstd::std_specs::hash::group_hash_axioms;

    let mut seen: HashSet<i64> = HashSet::new();
    let mut i: usize = 0;
    while i < entries.len()
        invariant
            i <= entries@.len(),
            owners@.len() == entries@.len(),
            already@.len() == entries@.len(),
            ({
                let m = plan_upto(
                    entries@,
                    owners@,
                    already@,
                    reward,
                    rank_count,
                    percentages@,
                    round,
                    i as nat,
                );
                &&& awards@.map_values(|a: RankAward| award_model(a)) == m.awards
                &&& skipped@.map_values(|s: String| s@) == m.skipped
                &&& seen@ == m.seen
            }),
        decreases entries.len() - i,
    {
        let ghost prev = plan_upto(
            entries@,
            owners@,
            already@,
            reward,
            rank_count,
            percentages@,
            round,
            i as nat,
        );
        let ghost old_awards = awards@;
        let ghost old_skipped = skipped@;
        let e = &entries[i];
        if e.rank > 0 && (e.rank as u32) <= rank_count {
            let percent: i32 = if (e.rank as usize) <= percentages.len() {
                percentages[(e.rank - 1) as usize]
            } else {
                0
            };
            if percent <= 0 || reward <= 0 {
                skipped.push(text_scores_zero(e.rank, percent, reward));
            } else {
                proof {
                    assert(0 < reward as int * percent as int <= 0x7fff_ffff * 0x7fff_ffff) by (nonlinear_arith)
                        requires
                            0 < reward <= 0x7fff_ffff,
                            0 < percent <= 0x7fff_ffff,
                    ;
                }
                let score: i32 = #[verifier::truncate] (((reward as i64 * percent as i64 + 50) / 100) as i32);
                if score <= 0 {
                    skipped.push(text_rounds_to_zero(e.rank, percent, reward));
                } else {
                    match owners[i] {
                        None => {
                            skipped.push(text_unknown(e.identifier.as_str()));
                        },
                        Some(t) => {
                            if seen.contains(&t) {
                                skipped.push(text_duplicate(t));
                            } else if already[i] {
                                seen.insert(t);
                                skipped.push(text_already(t, round));
                            } else {
                                seen.insert(t);
                                awards.push(
                                    RankAward {
                                        team_id: t,
                                        rank: e.rank,
                                        percent,
                                        score,
                                        identifier: e.identifier.clone(),
                                        message: text_award(e, round),
                                    },
                                );
                            }
                        },
                    }
                }
            }
        }
        proof {
            assert(awards@.map_values(|a: RankAward| award_model(a)) =~= plan_upto(
                entries@,
                owners@,
                already@,
                reward,
                rank_count,
                percentages@,
                round,
                (i + 1) as nat,
            ).awards);
            assert(skipped@.map_values(|s: String| s@) =~= plan_upto(
                entries@,
                owners@,
                already@,
                reward,
                rank_count,
                percentages@,
                round,
                (i + 1) as nat,
            ).skipped);
            assert(seen@ =~= plan_upto(
                entries@,
                owners@,
                already@,
                reward,
                rank_count,
                percentages@,
                round,
                (i + 1) as nat,
            ).seen);
        }
        i = i + 1;
    }
    RankPlan { awards, skipped }
}

/// Within one round, no team is credited twice, every credited team is among the teams
/// met, and every credit is the rounded share of the reward that a scored rank earns.
pub proof fn lemma_round_credits(
    entries: Seq<RankEntry>,
    owners: Seq<Option<i64>>,
    already: Seq<bool>,
    reward: i32,
    rank_count: u32,
    pct: Seq<i32>,
    round: i64,
    n: nat,
)
    requires
        n <= entries.len(),
        owners.len() == entries.len(),
        already.len() == entries.len(),
    ensures
        ({
            let m = plan_upto(entries, owners, already, reward, rank_count, pct, round, n);
            &&& forall|a: int, b: int|
                0 <= a < b < m.awards.len() ==> (#[trigger] m.awards[a]).team_id != (
                #[trigger] m.awards[b]).team_id
            &&& forall|a: int| 0 <= a < m.awards.len() ==> m.seen.contains((#[trigger] m.awards[a]).team_id)
            &&& forall|a: int|
                0 <= a < m.awards.len() ==> {
                    let w = #[trigger] m.awards[a];
                    &&& 1 <= w.rank <= rank_count
                    &&& w.percent == percent_for(pct, w.rank)
                    &&& w.percent > 0
                    &&& w.score == rank_score(reward, w.percent)
                    &&& w.score > 0
                }
        }),
    decreases n,
{
    if n > 0 {
        lemma_round_credits(entries, owners, already, reward, rank_count, pct, round, (n - 1) as nat);
        let prev = plan_upto(entries, owners, already, reward, rank_count, pct, round, (n - 1) as nat);
        let m = plan_upto(entries, owners, already, reward, rank_count, pct, round, n);
        assert(m == plan_step(prev, entries[n - 1], owners[n - 1], already[n - 1], reward, rank_count, pct, round));
        assert(prev.seen.subset_of(m.seen));
        if m.awards.len() == prev.awards.len() {
            assert(m.awards == prev.awards);
        } else {
            assert(m.awards.drop_last() =~= prev.awards);
            let t = m.awards.last().team_id;
            assert(!prev.seen.contains(t));
            assert forall|a: int, b: int|
                0 <= a < b < m.awards.len() implies (#[trigger] m.awards[a]).team_id != (
                #[trigger] m.awards[b]).team_id by {
                if b == m.awards.len() - 1 {
                    assert(m.awards[a] == prev.awards[a]);
                    assert(prev.seen.contains(prev.awards[a].team_id));
                } else {
                    assert(m.awards[a] == prev.awards[a]);
                    assert(m.awards[b] == prev.awards[b]);
                }
            }
            assert forall|a: int| 0 <= a < m.awards.len() implies {
                let w = #[trigger] m.awards[a];
                &&& 1 <= w.rank <= rank_count
                &&& w.percent == percent_for(pct, w.rank)
                &&& w.percent > 0
                &&& w.score == rank_score(reward, w.percent)
                &&& w.score > 0
            } by {
                if a < m.awards.len() - 1 {
                    assert(m.awards[a] == prev.awards[a]);
                }
            }
        }
    }
}

/// `parts` joined with `sep` between consecutive parts.
pub open spec fn join(parts: Seq<Seq<char>>, sep: Seq<char>) -> Seq<char>
    decreases parts.len(),
{
    if parts.len() == 0 {
        Seq::empty()
    } else if parts.len() == 1 {
        parts[0]
    } else {
        join(parts.drop_last(), sep) + sep + parts.last()
    }
}

/// Joins strings with a separator (`slice::join`).
pub fn join_strings(parts: &Vec<String>, sep: &str) -> (s: String)
    ensures
        s@ == join(parts@.map_values(|x: String| x@), sep@),
{
    let mut s = String::new();
    let mut i: usize = 0;
    while i < parts.len()
        invariant
            i <= parts@.len(),
            s@ == join(parts@.take(i as int).map_values(|x: String| x@), sep@),
        decreases parts.len() - i,
    {
        let ghost before = parts@.take(i as int).map_values(|x: String| x@);
        let ghost after = parts@.take(i + 1).map_values(|x: String| x@);
        proof {
            assert(after.drop_last() =~= before);
            assert(after.last() == parts@[i as int]@);
        }
        if i > 0 {
            push_str(&mut s, sep);
        }
        push_str(&mut s, parts[i].as_str());
        proof {
            if i == 0 {
                assert(s@ =~= join(after, sep@));
            }
        }
        i = i + 1;
    }
    proof {
        assert(parts@.take(parts@.len() as int) =~= parts@);
    }
    s
}

/// Sum of the scores of the awards.
pub open spec fn total_score(awards: Seq<RankAwardModel>) -> int
    decreases awards.len(),
{
    if awards.len() == 0 {
        0
    } else {
        total_score(awards.drop_last()) + awards.last().score
    }
}

/// The total credited is additive: nothing credits nothing, one award credits its
/// score, and the total of two lists of awards put together is the sum of their totals.
pub proof fn lemma_total_score_adds(s: Seq<RankAwardModel>, t: Seq<RankAwardModel>)
    ensures
        total_score(Seq::<RankAwardModel>::empty()) == 0,
        t.len() == 1 ==> total_score(t) == t[0].score,
        total_score(s + t) == total_score(s) + total_score(t),
    decreases t.len(),
{
    if t.len() == 1 {
        assert(t.drop_last() =~= Seq::<RankAwardModel>::empty());
    }
    if t.len() == 0 {
        assert(s + t =~= s);
    } else {
        lemma_total_score_adds(s, t.drop_last());
        assert((s + t).drop_last() =~= s + t.drop_last());
        assert((s + t).last() == t.last());
    }
}

/// The total credited is the sum, in order, of every award's score.
pub proof fn lemma_total_score_is_sum(s: Seq<RankAwardModel>)
    ensures
        total_score(s) == s.map_values(|a: RankAwardModel| a.score as int).fold_left(
            0int,
            |acc: int, x: int| acc + x,
        ),
    decreases s.len(),
{
    let f = |a: RankAwardModel| a.score as int;
    if s.len() > 0 {
        lemma_total_score_is_sum(s.drop_last());
        assert(s.map_values(f).drop_last() =~= s.drop_last().map_values(f));
    }
}

/// The event recorded for a whole round.
pub struct RoundSummary {
    pub status: String,
    pub message: String,
    pub score_delta: i64,
}

pub open spec fn msg_round_awarded(round: i64, n: nat) -> Seq<char> {
    "round "@ + dec_int(round as int) + ": awarded "@ + dec_int(n as int) + " team(s)"@
}

pub open spec fn msg_round_empty(round: i64) -> Seq<char> {
    "round "@ + dec_int(round as int) + " has no ranked submissions"@
}

/// The summary event of a scored round: `round_awarded` with the number of teams
/// credited and the total credited; else `rank_skipped` with the reasons joined by `; `;
/// else `empty`.
pub fn round_summary(plan: &RankPlan, round: i64) -> (r: RoundSummary)
    requires
        plan.awards@.len() < 0x8000_0000,
    ensures
        ({
            let awards = plan.awards@.map_values(|a: RankAward| award_model(a));
            if awards.len() > 0 {
                &&& r.status@ == "round_awarded"@
                &&& r.message@ == msg_round_awarded(round, awards.len())
                &&& r.score_delta == total_score(awards)
            } else if plan.skipped@.len() == 0 {
                &&& r.status@ == "empty"@
                &&& r.message@ == msg_round_empty(round)
                &&& r.score_delta == 0
            } else {
                &&& r.status@ == "rank_skipped"@
                &&& r.message@ == join(plan.skipped@.map_values(|x: String| x@), "; "@)
                &&& r.score_delta == 0
            }
        }),
{
    let ghost awards = plan.awards@.map_values(|a: RankAward| award_model(a));
    if plan.awards.len() > 0 {
        let mut total: i64 = 0;
        let mut i: usize = 0;
        while i < plan.awards.len()
            invariant
                i <= plan.awards@.len() < 0x8000_0000,
                awards == plan.awards@.map_values(|a: RankAward| award_model(a)),
                total == total_score(awards.take(i as int)),
                -0x8000_0000 * i <= total <= 0x7fff_ffff * i,
            decreases plan.awards.len() - i,
        {
            proof {
                assert(awards.take(i + 1).drop_last() =~= awards.take(i as int));
            }
            total = total + plan.awards[i].score as i64;
            i = i + 1;
        }
        proof {
            assert(awards.take(awards.len() as int) =~= awards);
        }
        let mut m = "round ".to_owned();
        push_str(&mut m, decimal(round).as_str());
        push_str(&mut m, ": awarded ");
        push_str(&mut m, decimal(plan.awards.len() as i64).as_str());
        push_str(&mut m, " team(s)");
        RoundSummary { status: "round_awarded".to_owned(), message: m, score_delta: total }
    } else if plan.skipped.len() == 0 {
        let mut m = "round ".to_owned();
        push_str(&mut m, decimal(round).as_str());
        push_str(&mut m, " has no ranked submissions");
        RoundSummary { status: "empty".to_owned(), message: m, score_delta: 0 }
    } else {
        RoundSummary {
            status: "rank_skipped".to_owned(),
            message: join_strings(&plan.skipped, "; "),
            score_delta: 0,
        }
    }
}

/// The event text of a round that is not scored.
pub fn gate_message(round: i64, gate: RoundGate) -> (m: Option<String>)
    ensures
        gate == RoundGate::Pending ==> (m matches Some(t) && t@
            == "no completed KoH round is available yet"@),
        gate == RoundGate::Completed ==> (m matches Some(t) && t@ == "round "@ + dec_int(
            round as int,
        ) + " is beyond configured total rounds"@),
        gate == RoundGate::Open ==> m is None,
{
    match gate {
        RoundGate::Pending => Some("no completed KoH round is available yet".to_owned()),
        RoundGate::Completed => {
            let mut t = "round ".to_owned();
            push_str(&mut t, decimal(round).as_str());
            push_str(&mut t, " is beyond configured total rounds");
            Some(t)
        },
        RoundGate::Open => None,
    }
}

/// What a check of the hill concluded.
#[derive(Clone, Copy, Debug, PartialEq, Eq, Structural)]
pub enum HoldStatus {
    /// Nobody holds the hill.
    Empty,
    /// The holder already has this tick's credit (or holding earns nothing).
    Held,
    /// A different team took the hill and is credited.
    Captured,
    /// The same team holds on and is credited for a new tick.
    Awarded,
    /// The reported identifier belongs to no team.
    UnknownIdentifier,
}

/// The decision taken at one hill check.
#[derive(Clone, Copy, Debug, PartialEq, Eq, Structural)]
pub struct HoldDecision {
    pub status: HoldStatus,
    /// The team named in the event, and the hill's new holder.
    pub holder: Option<i64>,
    /// Whether the credit already recorded for this tick is withdrawn.
    pub revoke_existing: bool,
    /// The team credited with the reward for this tick.
    pub award_to: Option<i64>,
    pub score_delta: i32,
}

/// The decision of a hill check. `reported` is whether the agent named an identifier;
/// `owner` the team that identifier belongs to; `tick_holder` the team already credited
/// for this tick, if any; `previous` the hill's holder before the check. The holder at
/// the end of a tick gets that tick's reward, once: a different team credited earlier in
/// the same tick loses the credit to it.
pub open spec fn hold_spec(
    reported: bool,
    owner: Option<i64>,
    tick_holder: Option<i64>,
    reward: i32,
    previous: Option<i64>,
) -> HoldDecision {
    if !reported {
        HoldDecision {
            status: HoldStatus::Empty,
            holder: None,
            revoke_existing: false,
            award_to: None,
            score_delta: 0,
        }
    } else {
        match owner {
            None => HoldDecision {
                status: HoldStatus::UnknownIdentifier,
                holder: None,
                revoke_existing: false,
                award_to: None,
                score_delta: 0,
            },
            Some(t) => if reward <= 0 || tick_holder == Some(t) {
                HoldDecision {
                    status: HoldStatus::Held,
                    holder: Some(t),
                    revoke_existing: false,
                    award_to: None,
                    score_delta: 0,
                }
            } else {
                HoldDecision {
                    status: if tick_holder is Some || previous != Some(t) {
                        HoldStatus::Captured
                    } else {
                        HoldStatus::Awarded
                    },
                    holder: Some(t),
                    revoke_existing: tick_holder is Some,
                    award_to: Some(t),
                    score_delta: reward,
                }
            },
        }
    }
}

/// Decides a hill check (see `hold_spec`).
pub fn decide_hold(
    reported: bool,
    owner: Option<i64>,
    tick_holder: Option<i64>,
    reward: i32,
    previous: Option<i64>,
) -> (d: HoldDecision)
    ensures
        d == hold_spec(reported, owner, tick_holder, reward, previous),
{
    if !reported {
        return HoldDecision {
            status: HoldStatus::Empty,
            holder: None,
            revoke_existing: false,
            award_to: None,
            score_delta: 0,
        };
    }
    match owner {
        None => HoldDecision {
            status: HoldStatus::UnknownIdentifier,
            holder: None,
            revoke_existing: false,
            award_to: None,
            score_delta: 0,
        },
        Some(t) => {
            if reward <= 0 || tick_holder == Some(t) {
                HoldDecision {
                    status: HoldStatus::Held,
                    holder: Some(t),
                    revoke_existing: false,
                    award_to: None,
                    score_delta: 0,
                }
            } else {
                let status = if tick_holder.is_some() || previous != Some(t) {
                    HoldStatus::Captured
                } else {
                    HoldStatus::Awarded
                };
                HoldDecision {
                    status,
                    holder: Some(t),
                    revoke_existing: tick_holder.is_some(),
                    award_to: Some(t),
                    score_delta: reward,
                }
            }
        },
    }
}

/// The texts recorded with a check: the state's error and the event's message, both
/// set only for an identifier that belongs to no team.
pub fn hold_notes(status: HoldStatus) -> (r: (Option<String>, Option<String>))
    ensures
        status == HoldStatus::UnknownIdentifier ==> (r.0 matches Some(e) && e@
            == "unknown identifier"@) && (r.1 matches Some(m) && m@
            == "identifier does not belong to any team"@),
        status != HoldStatus::UnknownIdentifier ==> r.0 is None && r.1 is None,
{
    if status == HoldStatus::UnknownIdentifier {
        (
            Some("unknown identifier".to_owned()),
            Some("identifier does not belong to any team".to_owned()),
        )
    } else {
        (None, None)
    }
}

/// The name of a check's status, as recorded in the event log.
pub fn hold_status_name(status: HoldStatus) -> (s: &'static str)
    ensures
        status == HoldStatus::Empty ==> s@ == "empty"@,
        status == HoldStatus::Held ==> s@ == "held"@,
        status == HoldStatus::Captured ==> s@ == "captured"@,
        status == HoldStatus::Awarded ==> s@ == "awarded"@,
        status == HoldStatus::UnknownIdentifier ==> s@ == "unknown_identifier"@,
{
    match status {
        HoldStatus::Empty => "empty",
        HoldStatus::Held => "held",
        HoldStatus::Captured => "captured",
        HoldStatus::Awarded => "awarded",
        HoldStatus::UnknownIdentifier => "unknown_identifier",
    }
}

/// The team credited for a tick once a decision is applied to the credit recorded before.
pub open spec fn tick_credit_after(before: Option<i64>, d: HoldDecision) -> Option<i64> {
    if d.award_to is Some {
        d.award_to
    } else if d.revoke_existing {
        None
    } else {
        before
    }
}

/// Each tick is credited to at most one team: a check that names a known holder leaves
/// the tick credited to that holder when a positive reward is at stake, and otherwise
/// leaves the tick's credit as it was; a credit is withdrawn only when another replaces it.
pub proof fn lemma_tick_credit_goes_to_holder(
    reported: bool,
    owner: Option<i64>,
    tick_holder: Option<i64>,
    reward: i32,
    previous: Option<i64>,
)
    ensures
        ({
            let d = hold_spec(reported, owner, tick_holder, reward, previous);
            &&& (reported && owner is Some && reward > 0) ==> tick_credit_after(tick_holder, d)
                == owner
            &&& !(reported && owner is Some && reward > 0) ==> tick_credit_after(tick_holder, d)
                == tick_holder
            &&& d.revoke_existing ==> d.award_to is Some
            &&& d.award_to is Some ==> d.award_to == d.holder && d.score_delta == reward
        }),
{
}


/// The hill's holder after a check is the owner of the reported identifier (nobody when
/// none is reported or it is unknown); a tick is never credited twice to the same team;
/// an earlier credit is withdrawn only when it went to another team; and nothing is
/// credited while the reward is not positive.
pub proof fn lemma_hold_holder_and_credits(
    reported: bool,
    owner: Option<i64>,
    tick_holder: Option<i64>,
    reward: i32,
    previous: Option<i64>,
)
    ensures
        ({
            let d = hold_spec(reported, owner, tick_holder, reward, previous);
            &&& d.holder == (if reported { owner } else { None })
            &&& d.award_to is Some ==> tick_holder != d.award_to
            &&& d.revoke_existing <==> (d.award_to is Some && tick_holder is Some)
            &&& reward <= 0 ==> d.award_to is None && d.score_delta == 0
            &&& d.award_to is None ==> d.score_delta == 0
        }),
{
}

/// Why a hold tick is credited.
pub open spec fn hold_reason_spec(challenge_id: int, name: Seq<char>, tick: int) -> Seq<char> {
    "KoH hold reward for challenge "@ + dec_int(challenge_id) + ":"@ + name + " at tick "@
        + dec_int(tick)
}

pub fn hold_reason(challenge_id: i64, name: &str, tick: i64) -> (s: String)
    ensures
        s@ == hold_reason_spec(challenge_id as int, name@, tick as int),
{
    let mut s = "KoH hold reward for challenge ".to_owned();
    push_str(&mut s, i64_to_string(challenge_id).as_str());
    push_str(&mut s, ":");
    push_str(&mut s, name);
    push_str(&mut s, " at tick ");
    push_str(&mut s, i64_to_string(tick).as_str());
    s
}

/// Why a ranked place is credited.
pub open spec fn rank_reason_spec(
    challenge_id: int,
    name: Seq<char>,
    round: int,
    rank: int,
    percent: int,
) -> Seq<char> {
    "KoH rank reward for challenge "@ + dec_int(challenge_id) + ":"@ + name + " round "@
        + dec_int(round) + " rank "@ + dec_int(rank) + " ("@ + dec_int(percent) + "%)"@
}

pub fn rank_reason(challenge_id: i64, name: &str, round: i64, rank: i32, percent: i32) -> (s: String)
    ensures
        s@ == rank_reason_spec(challenge_id as int, name@, round as int, rank as int, percent as int),
{
    let mut s = "KoH rank reward for challenge ".to_owned();
    push_str(&mut s, i64_to_string(challenge_id).as_str());
    push_str(&mut s, ":");
    push_str(&mut s, name);
    push_str(&mut s, " round ");
    push_str(&mut s, i64_to_string(round).as_str());
    push_str(&mut s, " rank ");
    push_str(&mut s, i64_to_string(rank as i64).as_str());
    push_str(&mut s, " (");
    push_str(&mut s, i64_to_string(percent as i64).as_str());
    push_str(&mut s, "%)");
    s
}

/// Whether entry `i` earns a score and names a known team: its rank is scored, its
/// share and the reward are positive, the rounded score is positive, and its identifier
/// has an owner.
pub open spec fn entry_scores(
    entries: Seq<RankEntry>,
    owners: Seq<Option<i64>>,
    reward: i32,
    rank_count: u32,
    pct: Seq<i32>,
    i: int,
) -> bool {
    let e = entries[i];
    &&& 0 < e.rank && e.rank <= rank_count
    &&& percent_for(pct, e.rank) > 0
    &&& reward > 0
    &&& rank_score(reward, percent_for(pct, e.rank)) > 0
    &&& owners[i] is Some
}

/// Whether entry `i` is credited: it scores, no earlier scoring entry names the same
/// team, and its team holds no award for the round yet.
pub open spec fn entry_credited(
    entries: Seq<RankEntry>,
    owners: Seq<Option<i64>>,
    already: Seq<bool>,
    reward: i32,
    rank_count: u32,
    pct: Seq<i32>,
    i: int,
) -> bool {
    &&& entry_scores(entries, owners, reward, rank_count, pct, i)
    &&& forall|j: int|
        0 <= j < i && #[trigger] entry_scores(entries, owners, reward, rank_count, pct, j) ==> owners[j]
            != owners[i]
    &&& !already[i]
}

/// Whether award `w` comes from a credited entry among the first `n`, of its team,
/// identifier and rank.
pub open spec fn award_from_credited(
    entries: Seq<RankEntry>,
    owners: Seq<Option<i64>>,
    already: Seq<bool>,
    reward: i32,
    rank_count: u32,
    pct: Seq<i32>,
    n: int,
    w: RankAwardModel,
) -> bool {
    exists|i: int|
        0 <= i < n && entry_credited(entries, owners, already, reward, rank_count, pct, i)
            && #[trigger] owners[i] == Some(w.team_id) && w.rank == entries[i].rank && w.identifier
            == entries[i].identifier@
}

/// Whether some award goes to team `t`.
pub open spec fn team_awarded(awards: Seq<RankAwardModel>, t: i64) -> bool {
    exists|a: int| 0 <= a < awards.len() && (#[trigger] awards[a]).team_id == t
}

/// Whether some entry of team `t` among the first `n` is credited.
pub open spec fn team_credited(
    entries: Seq<RankEntry>,
    owners: Seq<Option<i64>>,
    already: Seq<bool>,
    reward: i32,
    rank_count: u32,
    pct: Seq<i32>,
    n: int,
    t: i64,
) -> bool {
    exists|i: int|
        0 <= i < n && entry_credited(entries, owners, already, reward, rank_count, pct, i)
            && #[trigger] owners[i] == Some(t)
}

/// Exactly the credited entries earn an award: a team is credited for the round iff
/// some entry of it is credited, and each award carries that entry's identifier and rank.
pub proof fn lemma_round_award_iff(
    entries: Seq<RankEntry>,
    owners: Seq<Option<i64>>,
    already: Seq<bool>,
    reward: i32,
    rank_count: u32,
    pct: Seq<i32>,
    round: i64,
    n: nat,
)
    requires
        n <= entries.len(),
        owners.len() == entries.len(),
        already.len() == entries.len(),
    ensures
        ({
            let m = plan_upto(entries, owners, already, reward, rank_count, pct, round, n);
            &&& forall|t: i64|
                #[trigger] m.seen.contains(t) <==> exists|j: int|
                    0 <= j < n && entry_scores(entries, owners, reward, rank_count, pct, j)
                        && #[trigger] owners[j] == Some(t)
            &&& forall|t: i64|
                #[trigger] team_awarded(m.awards, t) <==> team_credited(
                    entries,
                    owners,
                    already,
                    reward,
                    rank_count,
                    pct,
                    n as int,
                    t,
                )
            &&& forall|a: int|
                0 <= a < m.awards.len() ==> award_from_credited(
                    entries,
                    owners,
                    already,
                    reward,
                    rank_count,
                    pct,
                    n as int,
                    #[trigger] m.awards[a],
                )
        }),
    decreases n,
{
    if n > 0 {
        let k = (n - 1) as int;
        lemma_round_award_iff(entries, owners, already, reward, rank_count, pct, round, (n - 1) as nat);
        let prev = plan_upto(entries, owners, already, reward, rank_count, pct, round, (n - 1) as nat);
        let m = plan_upto(entries, owners, already, reward, rank_count, pct, round, n);
        assert(m == plan_step(prev, entries[k], owners[k], already[k], reward, rank_count, pct, round));
        let sc = entry_scores(entries, owners, reward, rank_count, pct, k);
        let cr = entry_credited(entries, owners, already, reward, rank_count, pct, k);
        if sc {
            let t = owners[k]->0;
            if prev.seen.contains(t) {
                let j = choose|j: int|
                    0 <= j < k && entry_scores(entries, owners, reward, rank_count, pct, j)
                        && #[trigger] owners[j] == Some(t);
                assert(!cr);
            } else {
                assert forall|j: int|
                    0 <= j < k && #[trigger] entry_scores(entries, owners, reward, rank_count, pct, j)
                        implies owners[j] != owners[k] by {
                    if owners[j] == owners[k] {
                        assert(prev.seen.contains(t));
                    }
                }
            }
        } else {
            assert(!cr);
        }
        assert forall|t: i64|
            #[trigger] m.seen.contains(t) <==> exists|j: int|
                0 <= j < n && entry_scores(entries, owners, reward, rank_count, pct, j)
                    && #[trigger] owners[j] == Some(t) by {
            if sc && owners[k] == Some(t) {
                assert(owners[k] == Some(t));
            }
        }
        assert forall|t: i64|
            #[trigger] team_awarded(m.awards, t) <==> team_credited(
                entries,
                owners,
                already,
                reward,
                rank_count,
                pct,
                n as int,
                t,
            ) by {
            assert(team_awarded(prev.awards, t) == team_credited(entries, owners, already, reward, rank_count, pct, k, t));
            if exists|a: int| 0 <= a < m.awards.len() && (#[trigger] m.awards[a]).team_id == t {
                let a = choose|a: int| 0 <= a < m.awards.len() && (#[trigger] m.awards[a]).team_id == t;
                if a < prev.awards.len() {
                    assert(m.awards[a] == prev.awards[a]);
                } else {
                    assert(cr && owners[k] == Some(t));
                }
            }
            if exists|i: int|
                0 <= i < n && entry_credited(entries, owners, already, reward, rank_count, pct, i)
                    && #[trigger] owners[i] == Some(t) {
                let i = choose|i: int|
                    0 <= i < n && entry_credited(entries, owners, already, reward, rank_count, pct, i)
                        && #[trigger] owners[i] == Some(t);
                if i < k {
                    let a = choose|a: int| 0 <= a < prev.awards.len() && (#[trigger] prev.awards[a]).team_id == t;
                    assert(m.awards[a] == prev.awards[a]);
                } else {
                    assert(m.awards[prev.awards.len() as int].team_id == t);
                }
            }
        }
        assert forall|a: int| 0 <= a < m.awards.len() implies award_from_credited(
            entries,
            owners,
            already,
            reward,
            rank_count,
            pct,
            n as int,
            #[trigger] m.awards[a],
        ) by {
            if a < prev.awards.len() {
                assert(m.awards[a] == prev.awards[a]);
                assert(award_from_credited(entries, owners, already, reward, rank_count, pct, k, prev.awards[a]));
                let i = choose|i: int|
                    0 <= i < k && entry_credited(entries, owners, already, reward, rank_count, pct, i)
                        && #[trigger] owners[i] == Some(prev.awards[a].team_id) && prev.awards[a].rank
                        == entries[i].rank && prev.awards[a].identifier == entries[i].identifier@;
                assert(owners[i] == Some(m.awards[a].team_id));
            } else {
                assert(cr);
                assert(owners[k] == Some(m.awards[a].team_id));
            }
        }
    }
}

/// A round is credited at most once to a team across calls: where `already` tells, for
/// each entry whose identifier has an owner, whether that team holds an award for the
/// round (`credited`), no team in `credited` is credited again; with the awards of one
/// call going to distinct teams, every team ends with at most one award for the round.
pub proof fn lemma_round_credited_once(
    entries: Seq<RankEntry>,
    owners: Seq<Option<i64>>,
    already: Seq<bool>,
    credited: Set<i64>,
    reward: i32,
    rank_count: u32,
    pct: Seq<i32>,
    round: i64,
    n: nat,
)
    requires
        n <= entries.len(),
        owners.len() == entries.len(),
        already.len() == entries.len(),
        forall|i: int|
            0 <= i < entries.len() && (#[trigger] owners[i]) is Some ==> (already[i]
                <==> credited.contains(owners[i]->0)),
    ensures
        forall|a: int|
            0 <= a < plan_upto(entries, owners, already, reward, rank_count, pct, round, n).awards.len()
                ==> !credited.contains(
                (#[trigger] plan_upto(entries, owners, already, reward, rank_count, pct, round, n).awards[a]).team_id,
            ),
    decreases n,
{
    if n > 0 {
        lemma_round_credited_once(entries, owners, already, credited, reward, rank_count, pct, round, (n - 1) as nat);
        let prev = plan_upto(entries, owners, already, reward, rank_count, pct, round, (n - 1) as nat);
        let m = plan_upto(entries, owners, already, reward, rank_count, pct, round, n);
        assert(m == plan_step(prev, entries[n - 1], owners[n - 1], already[n - 1], reward, rank_count, pct, round));
        assert forall|a: int| 0 <= a < m.awards.len() implies !credited.contains((#[trigger] m.awards[a]).team_id) by {
            if a < prev.awards.len() {
                assert(m.awards[a] == prev.awards[a]);
            } else {
                assert(owners[n - 1] is Some);
            }
        }
    }
}

/// Who holds the hill after a scored round: the identifier of the first entry of the
/// ranking in scoring order and `first_owner`, the team that owns that identifier (if it
/// is known); no one where the ranking is empty. In scoring order the first entry has
/// the best rank.
pub fn new_holder(rankings: &Vec<RankEntry>, first_owner: Option<i64>) -> (r: (Option<String>, Option<i64>))
    ensures
        rankings@.len() == 0 ==> r.0 is None && r.1 is None,
        rankings@.len() > 0 ==> (r.0 matches Some(id) && id@ == rankings@[0].identifier@ && r.1
            == first_owner),
        sorted_entries(rankings@) ==> forall|i: int|
            0 <= i < rankings@.len() ==> rankings@[0].rank <= #[trigger] rankings@[i].rank,
{
    proof {
        if sorted_entries(rankings@) {
            assert forall|i: int| 0 <= i < rankings@.len() implies rankings@[0].rank
                <= #[trigger] rankings@[i].rank by {
                if i > 0 {
                    assert(rankings@[0].rank <= rankings@[i].rank);
                }
            }
        }
    }
    if rankings.len() == 0 {
        (None, None)
    } else {
        (Some(rankings[0].identifier.clone()), first_owner)
    }
}

} // verus!
