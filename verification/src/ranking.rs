//! The ranking a KoH round agent reports, put in order.
use vstd::prelude::*;
use vstd::multiset::Multiset;
use crate::text::{chars_of, trim_bounds, string_of_range, trim_ws, CharClass};

verus! {

broadcast use vstd::seq_lib::group_to_multiset_ensures, vstd::multiset::group_multiset_axioms;

/// One team's place in a round, as the agent reports it.
pub struct RankReport {
    pub identifier: String,
    pub rank: Option<i32>,
    pub score: Option<i64>,
    pub metric: Option<i64>,
    pub message: Option<String>,
}

/// One team's place in a round, normalised.
pub struct RankEntry {
    pub identifier: String,
    pub rank: i32,
    pub metric: Option<i64>,
    pub message: Option<String>,
    /// Position of the report in the agent's answer.
    pub position: usize,
}

/// Entries in scoring order: ranks never decrease.
pub open spec fn sorted_entries(s: Seq<RankEntry>) -> bool {
    forall|i: int, j: int| 0 <= i < j < s.len() ==> (#[trigger] s[i]).rank <= (#[trigger] s[j]).rank
}

/// `out` is `input` sorted stably by rank: `out[k]` is `input[perm[k]]`, every input
/// entry appears once, ranks never decrease, and entries of equal rank keep the order
/// they had in `input`.
pub open spec fn stable_rank_sort(input: Seq<RankEntry>, out: Seq<RankEntry>, perm: Seq<int>) -> bool {
    &&& perm.len() == input.len()
    &&& out.len() == input.len()
    &&& forall|k: int| 0 <= k < out.len() ==> 0 <= #[trigger] perm[k] < input.len() && out[k] == input[perm[k]]
    &&& forall|a: int, b: int| 0 <= a < b < out.len() ==> #[trigger] perm[a] != #[trigger] perm[b]
    &&& sorted_entries(out)
    &&& forall|a: int, b: int|
        0 <= a < b < out.len() && (#[trigger] out[a]).rank == (#[trigger] out[b]).rank ==> perm[a] < perm[b]
}

proof fn lemma_insert_multiset<A>(s: Seq<A>, i: int, x: A)
    requires
        0 <= i <= s.len(),
    ensures
        s.insert(i, x).to_multiset() =~= s.to_multiset().insert(x),
{
    let t = s.insert(i, x);
    assert(t.remove(i) =~= s);
    assert(t[i] == x);
    assert(t.remove(i).to_multiset() =~= t.to_multiset().remove(x));
    assert(t.contains(x));
    assert(t.to_multiset().count(x) > 0);
}

/// Orders entries by rank, keeping the agent's order among equal ranks (a stable sort).
pub fn sort_entries(entries: Vec<RankEntry>) -> (out: Vec<RankEntry>)
    ensures
        exists|perm: Seq<int>| stable_rank_sort(entries@, out@, perm),
        out@.to_multiset() == entries@.to_multiset(),
{
    let ghost orig = entries@;
    let mut rest = entries;
    let mut out: Vec<RankEntry> = Vec::new();
    let ghost mut perm: Seq<int> = Seq::empty();
    while rest.len() > 0
        invariant
            rest@ == orig.take(rest@.len() as int),
            rest@.len() <= orig.len(),
            out@.len() + rest@.len() == orig.len(),
            perm.len() == out@.len(),
            forall|k: int|
                0 <= k < out@.len() ==> rest@.len() <= #[trigger] perm[k] < orig.len() && out@[k]
                    == orig[perm[k]],
            forall|a: int, b: int| 0 <= a < b < out@.len() ==> #[trigger] perm[a] != #[trigger] perm[b],
            sorted_entries(out@),
            forall|a: int, b: int|
                0 <= a < b < out@.len() && (#[trigger] out@[a]).rank == (#[trigger] out@[b]).rank
                    ==> perm[a] < perm[b],
            out@.to_multiset().add(rest@.to_multiset()) == orig.to_multiset(),
        decreases rest@.len(),
    {
        let ghost before = rest@;
        let x = rest.pop().unwrap();
        let ghost r: int = rest@.len() as int;
        proof {
            assert(before =~= rest@.push(x));
            assert(rest@ =~= orig.take(r));
            assert(x == orig[r]);
        }
        let mut j: usize = 0;
        while j < out.len() && out[j].rank < x.rank
            invariant
                j <= out@.len(),
                forall|k: int| 0 <= k < j ==> (#[trigger] out@[k]).rank < x.rank,
            decreases out.len() - j,
        {
            j = j + 1;
        }
        let ghost old_out = out@;
        let ghost old_perm = perm;
        out.insert(j, x);
        proof {
            perm = old_perm.insert(j as int, r);
            lemma_insert_multiset(old_out, j as int, x);
            old_out.insert_ensures(j as int, x);
            old_perm.insert_ensures(j as int, r);
            assert forall|k: int| 0 <= k < out@.len() implies rest@.len() <= #[trigger] perm[k]
                < orig.len() && out@[k] == orig[perm[k]] by {
                if k < j {
                    assert(out@[k] == old_out[k] && perm[k] == old_perm[k]);
                } else if k > j {
                    assert(out@[k] == old_out[k - 1] && perm[k] == old_perm[k - 1]);
                }
            }
            assert forall|a: int, b: int| 0 <= a < b < out@.len() implies #[trigger] perm[a]
                != #[trigger] perm[b] by {
                if a != j && b != j {
                    let a0 = if a < j { a } else { a - 1 };
                    let b0 = if b < j { b } else { b - 1 };
                    assert(perm[a] == old_perm[a0] && perm[b] == old_perm[b0]);
                } else if a == j {
                    assert(perm[b] == old_perm[b - 1]);
                } else {
                    assert(perm[a] == old_perm[a]);
                }
            }
            assert forall|a: int, b: int| 0 <= a < b < out@.len() implies (#[trigger] out@[a]).rank
                <= (#[trigger] out@[b]).rank by {
                if b < j {
                    assert(out@[a] == old_out[a] && out@[b] == old_out[b]);
                } else if b == j {
                    assert(out@[a] == old_out[a]);
                } else if a == j {
                    assert(out@[b] == old_out[b - 1]);
                    assert(!(old_out[j as int].rank < x.rank));
                    if b - 1 > j {
                        assert(old_out[j as int].rank <= old_out[b - 1].rank);
                    }
                } else if a < j {
                    assert(out@[a] == old_out[a] && out@[b] == old_out[b - 1]);
                } else {
                    assert(out@[a] == old_out[a - 1] && out@[b] == old_out[b - 1]);
                }
            }
            assert forall|a: int, b: int|
                0 <= a < b < out@.len() && (#[trigger] out@[a]).rank == (#[trigger] out@[b]).rank
                    implies perm[a] < perm[b] by {
                if b < j {
                    assert(out@[a] == old_out[a] && out@[b] == old_out[b]);
                    assert(perm[a] == old_perm[a] && perm[b] == old_perm[b]);
                } else if b == j {
                    assert(out@[a] == old_out[a]);
                } else if a == j {
                    assert(perm[b] == old_perm[b - 1]);
                    assert(old_perm[b - 1] >= r + 1);
                } else if a < j {
                    assert(out@[a] == old_out[a] && out@[b] == old_out[b - 1]);
                } else {
                    assert(out@[a] == old_out[a - 1] && out@[b] == old_out[b - 1]);
                    assert(perm[a] == old_perm[a - 1] && perm[b] == old_perm[b - 1]);
                }
            }
            assert(out@.to_multiset().add(rest@.to_multiset()) =~= orig.to_multiset());
        }
    }
    proof {
        assert(rest@.to_multiset() =~= Multiset::empty());
        assert(out@.to_multiset() =~= orig.to_multiset());
        assert(stable_rank_sort(orig, out@, perm));
    }
    out
}

/// A normalised entry, over mathematical values.
pub struct RankEntryModel {
    pub identifier: Seq<char>,
    pub rank: i32,
    pub metric: Option<i64>,
    pub message: Option<String>,
    pub position: int,
}

pub open spec fn entry_model(e: RankEntry) -> RankEntryModel {
    RankEntryModel {
        identifier: e.identifier@,
        rank: e.rank,
        metric: e.metric,
        message: e.message,
        position: e.position as int,
    }
}

pub open spec fn entries_model(s: Seq<RankEntry>) -> Seq<RankEntryModel> {
    s.map_values(|e: RankEntry| entry_model(e))
}

/// The entries that the reports stand for: reports whose trimmed identifier is empty
/// are dropped; a missing rank is the report's 1-based position; a missing metric is
/// taken from the score.
pub open spec fn normalized(r: Seq<RankReport>) -> Seq<RankEntryModel>
    decreases r.len(),
{
    if r.len() == 0 {
        Seq::empty()
    } else {
        let prev = normalized(r.drop_last());
        let i = r.len() - 1;
        let x = r.last();
        let id = trim_ws(x.identifier@);
        if id.len() == 0 {
            prev
        } else {
            prev.push(
                RankEntryModel {
                    identifier: id,
                    rank: match x.rank {
                        Some(k) => k,
                        None => (i + 1) as i32,
                    },
                    metric: if x.metric is Some {
                        x.metric
                    } else {
                        x.score
                    },
                    message: x.message,
                    position: i,
                },
            )
        }
    }
}

/// Normalising keeps each report with a non-blank identifier, once and in order, and
/// nothing else: every entry stands for the report at its position, with the trimmed
/// identifier and the reported rank (the 1-based position where none was reported).
pub proof fn lemma_normalized_keeps_reports(r: Seq<RankReport>)
    ensures
        forall|k: int|
            0 <= k < normalized(r).len() ==> {
                let e = #[trigger] normalized(r)[k];
                &&& 0 <= e.position < r.len()
                &&& e.identifier == trim_ws(r[e.position].identifier@)
                &&& e.identifier.len() > 0
                &&& e.rank == match r[e.position].rank {
                    Some(x) => x,
                    None => (e.position + 1) as i32,
                }
            },
        forall|a: int, b: int|
            0 <= a < b < normalized(r).len() ==> (#[trigger] normalized(r)[a]).position < (
            #[trigger] normalized(r)[b]).position,
        forall|i: int|
            0 <= i < r.len() && trim_ws((#[trigger] r[i]).identifier@).len() > 0 ==> exists|k: int|
                0 <= k < normalized(r).len() && (#[trigger] normalized(r)[k]).position == i,
    decreases r.len(),
{
    if r.len() > 0 {
        let init = r.drop_last();
        lemma_normalized_keeps_reports(init);
        let prev = normalized(init);
        let cur = normalized(r);
        let n = r.len() - 1;
        assert forall|k: int| 0 <= k < prev.len() implies (#[trigger] prev[k]).position < n by {}
        assert forall|k: int|
            0 <= k < cur.len() implies {
                let e = #[trigger] cur[k];
                &&& 0 <= e.position < r.len()
                &&& e.identifier == trim_ws(r[e.position].identifier@)
                &&& e.identifier.len() > 0
                &&& e.rank == match r[e.position].rank {
                    Some(x) => x,
                    None => (e.position + 1) as i32,
                }
            } by {
            if k < prev.len() {
                assert(cur[k] == prev[k]);
                assert(r[prev[k].position] == init[prev[k].position]);
            }
        }
        assert forall|a: int, b: int| 0 <= a < b < cur.len() implies (#[trigger] cur[a]).position < (
            #[trigger] cur[b]).position by {
            if b < prev.len() {
                assert(cur[a] == prev[a] && cur[b] == prev[b]);
            } else {
                assert(cur[a] == prev[a]);
            }
        }
        assert forall|i: int| 0 <= i < r.len() && trim_ws((#[trigger] r[i]).identifier@).len() > 0 implies exists|k: int|
            0 <= k < cur.len() && (#[trigger] cur[k]).position == i by {
            if i < n {
                assert(init[i] == r[i]);
                let k = choose|k: int| 0 <= k < prev.len() && (#[trigger] prev[k]).position == i;
                assert(cur[k] == prev[k]);
            } else {
                assert(cur[prev.len() as int].position == n);
            }
        }
    }
}

fn clone_opt(o: &Option<String>) -> (r: Option<String>)
    ensures
        r == *o,
{
    match o {
        Some(s) => Some(s.clone()),
        None => None,
    }
}

/// Normalises the reports of a round, keeping their order.
pub fn normalize_reports(reports: &Vec<RankReport>) -> (out: Vec<RankEntry>)
    requires
        reports@.len() < i32::MAX,
    ensures
        entries_model(out@) == normalized(reports@),
        forall|i: int, j: int|
            0 <= i < j < out@.len() ==> (#[trigger] out@[i]).position < (#[trigger] out@[j]).position,
        forall|i: int| 0 <= i < out@.len() ==> (#[trigger] out@[i]).position < reports@.len(),
{
    let mut out: Vec<RankEntry> = Vec::new();
    let mut i: usize = 0;
    while i < reports.len()
        invariant
            i <= reports@.len() < i32::MAX,
            entries_model(out@) == normalized(reports@.take(i as int)),
            forall|a: int, b: int|
                0 <= a < b < out@.len() ==> (#[trigger] out@[a]).position < (#[trigger] out@[b]).position,
            forall|a: int| 0 <= a < out@.len() ==> (#[trigger] out@[a]).position < i,
        decreases reports.len() - i,
    {
        proof {
            assert(reports@.take(i + 1).drop_last() =~= reports@.take(i as int));
            assert(reports@.take(i + 1).last() == reports@[i as int]);
        }
        let r = &reports[i];
        let cs = chars_of(r.identifier.as_str());
        let (a, b) = trim_bounds(cs.as_slice(), 0, cs.len(), CharClass::Whitespace);
        proof {
            assert(cs@.subrange(0, cs@.len() as int) =~= cs@);
        }
        if a < b {
            let id = string_of_range(cs.as_slice(), a, b);
            let rank: i32 = match r.rank {
                Some(k) => k,
                None => (i + 1) as i32,
            };
            let metric = if r.metric.is_some() { r.metric } else { r.score };
            let e = RankEntry { identifier: id, rank, metric, message: clone_opt(&r.message), position: i };
            let ghost old_out = out@;
            out.push(e);
            proof {
                assert(entries_model(out@) =~= entries_model(old_out).push(entry_model(e)));
            }
        }
        i = i + 1;
    }
    proof {
        assert(reports@.take(reports@.len() as int) =~= reports@);
    }
    out
}

/// The `data` object of a round agent's answer.
pub struct RoundRankData {
    pub round: Option<i64>,
    pub tick: Option<i64>,
    pub rankings: Option<Vec<RankReport>>,
    pub identifiers: Option<Vec<String>>,
}

/// A round agent's answer.
pub struct RoundRankResponse {
    pub success: Option<bool>,
    pub data: Option<RoundRankData>,
    pub round: Option<i64>,
    pub tick: Option<i64>,
    pub rankings: Option<Vec<RankReport>>,
    pub identifiers: Option<Vec<String>>,
    pub message: Option<String>,
}

/// The round an agent reports, with its ranking.
pub struct RoundRankCheck {
    pub round: Option<i64>,
    pub rankings: Vec<RankEntry>,
}

/// The reported round: `data` takes precedence over the top level, `round` over `tick`.
pub open spec fn reported_round(r: RoundRankResponse) -> Option<i64> {
    let top = if r.round is Some {
        r.round
    } else {
        r.tick
    };
    match r.data {
        Some(d) => if d.round is Some {
            d.round
        } else if d.tick is Some {
            d.tick
        } else {
            top
        },
        None => top,
    }
}

pub open spec fn bare_report(id: String) -> RankReport {
    RankReport { identifier: id, rank: None, score: None, metric: None, message: None }
}

/// The reported ranking: `data` takes precedence over the top level, `rankings` over a
/// bare list of identifiers; nothing reported is an empty ranking.
pub open spec fn reported_rankings(r: RoundRankResponse) -> Seq<RankReport> {
    let rankings = match r.data {
        Some(d) => if d.rankings is Some {
            d.rankings
        } else {
            r.rankings
        },
        None => r.rankings,
    };
    let identifiers = match r.data {
        Some(d) => if d.identifiers is Some {
            d.identifiers
        } else {
            r.identifiers
        },
        None => r.identifiers,
    };
    match rankings {
        Some(v) => v@,
        None => match identifiers {
            Some(ids) => ids@.map_values(|id: String| bare_report(id)),
            None => Seq::empty(),
        },
    }
}

/// Where the ranking of an answer comes from: a ranking under `data` wins; else the
/// top-level ranking; else a bare list of identifiers (under `data` first), each
/// becoming an unranked report; else the ranking is empty. Likewise the round: `data`'s
/// round, else its tick, else the top-level round, else the top-level tick.
pub proof fn lemma_ranking_source(r: RoundRankResponse)
    ensures
        r.data matches Some(d) ==> (d.rankings matches Some(v) ==> reported_rankings(r) == v@),
        r.data matches Some(d) ==> (d.rankings is None ==> (r.rankings matches Some(v)
            ==> reported_rankings(r) == v@)),
        r.data is None ==> (r.rankings matches Some(v) ==> reported_rankings(r) == v@),
        r.data matches Some(d) ==> (d.rankings is None && r.rankings is None ==> (d.identifiers matches Some(
            ids,
        ) ==> (reported_rankings(r).len() == ids@.len() && forall|i: int|
            0 <= i < ids@.len() ==> #[trigger] reported_rankings(r)[i] == bare_report(ids@[i])))),
        r.data matches Some(d) ==> (d.rankings is None && d.identifiers is None && r.rankings is None
            && r.identifiers is None ==> reported_rankings(r).len() == 0),
        r.data is None && r.rankings is None && r.identifiers is None ==> reported_rankings(r).len() == 0,
        r.data matches Some(d) ==> (d.round matches Some(x) ==> reported_round(r) == Some(x)),
        r.data matches Some(d) ==> (d.round is None ==> (d.tick matches Some(x) ==> reported_round(r)
            == Some(x))),
        r.data is None ==> reported_round(r) == (if r.round is Some {
            r.round
        } else {
            r.tick
        }),
{
}

/// Every list a round agent's answer may carry is shorter than `i32::MAX`.
pub open spec fn rank_lists_bounded(r: RoundRankResponse) -> bool {
    &&& (r.rankings matches Some(v) ==> v@.len() < i32::MAX)
    &&& (r.identifiers matches Some(v) ==> v@.len() < i32::MAX)
    &&& (r.data matches Some(d) ==> {
        &&& (d.rankings matches Some(v) ==> v@.len() < i32::MAX)
        &&& (d.identifiers matches Some(v) ==> v@.len() < i32::MAX)
    })
}

fn bare_reports(ids: &Vec<String>) -> (out: Vec<RankReport>)
    ensures
        out@ == ids@.map_values(|id: String| bare_report(id)),
{
    let mut out: Vec<RankReport> = Vec::new();
    let mut i: usize = 0;
    while i < ids.len()
        invariant
            i <= ids@.len(),
            out@ == ids@.take(i as int).map_values(|id: String| bare_report(id)),
        decreases ids.len() - i,
    {
        out.push(RankReport { identifier: ids[i].clone(), rank: None, score: None, metric: None, message: None });
        proof {
            assert(ids@.take(i + 1).map_values(|id: String| bare_report(id)) =~= ids@.take(
                i as int,
            ).map_values(|id: String| bare_report(id)).push(bare_report(ids@[i as int])));
        }
        i = i + 1;
    }
    proof {
        assert(ids@.take(ids@.len() as int) =~= ids@);
    }
    out
}

/// Reads a round agent's answer: a refusal (`success: false`) gives its message; else the
/// reported round and the normalised ranking.
pub fn normalize_round_rank(resp: &RoundRankResponse) -> (r: Result<RoundRankCheck, String>)
    requires
        rank_lists_bounded(*resp),
    ensures
        resp.success == Some(false) ==> (r matches Err(m) && (m@ == match resp.message {
            Some(x) => x@,
            None => "KoH agent returned success=false"@,
        })),
        resp.success != Some(false) ==> (r matches Ok(c) && c.round == reported_round(*resp)
            && entries_model(c.rankings@) == normalized(reported_rankings(*resp))),
{
    if resp.success == Some(false) {
        return Err(match &resp.message {
            Some(m) => m.clone(),
            None => "KoH agent returned success=false".to_owned(),
        });
    }
    let top_round = if resp.round.is_some() { resp.round } else { resp.tick };
    let round = match &resp.data {
        Some(d) => if d.round.is_some() { d.round } else if d.tick.is_some() { d.tick } else { top_round },
        None => top_round,
    };
    let rankings: Option<&Vec<RankReport>> = match &resp.data {
        Some(d) => if d.rankings.is_some() { d.rankings.as_ref() } else { resp.rankings.as_ref() },
        None => resp.rankings.as_ref(),
    };
    let identifiers: Option<&Vec<String>> = match &resp.data {
        Some(d) => if d.identifiers.is_some() { d.identifiers.as_ref() } else { resp.identifiers.as_ref() },
        None => resp.identifiers.as_ref(),
    };
    let entries = match rankings {
        Some(v) => normalize_reports(v),
        None => match identifiers {
            Some(ids) => {
                let reps = bare_reports(ids);
                normalize_reports(&reps)
            },
            None => {
                let reps: Vec<RankReport> = Vec::new();
                proof {
                    assert(reps@ =~= Seq::<RankReport>::empty());
                }
                normalize_reports(&reps)
            },
        },
    };
    Ok(RoundRankCheck { round, rankings: entries })
}

} // verus!
