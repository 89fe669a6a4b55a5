//! The KoH scoreboard: every team's credits summed and ranked.
use vstd::prelude::*;
use vstd::multiset::Multiset;

verus! {

broadcast use vstd::seq_lib::group_to_multiset_ensures, vstd::multiset::group_multiset_axioms;

/// One credit, as stored.
pub struct KohAwardRow {
    pub team_id: i64,
    pub team_name: Option<String>,
    pub score: i32,
    /// When the credit was given (microseconds since the epoch).
    pub created_at: i64,
}

/// A team's line on the scoreboard.
pub struct KohScore {
    pub team_id: i64,
    pub team_name: Option<String>,
    pub score: i32,
    pub last_awarded_at: Option<i64>,
}

/// Sum of the credits of team `t`.
pub open spec fn team_total(rows: Seq<KohAwardRow>, t: i64) -> int
    decreases rows.len(),
{
    if rows.len() == 0 {
        0
    } else {
        team_total(rows.drop_last(), t) + if rows.last().team_id == t {
            rows.last().score as int
        } else {
            0
        }
    }
}

/// Time of the latest credit of team `t`.
pub open spec fn team_last(rows: Seq<KohAwardRow>, t: i64) -> Option<i64>
    decreases rows.len(),
{
    if rows.len() == 0 {
        None
    } else {
        let prev = team_last(rows.drop_last(), t);
        if rows.last().team_id == t && (prev is None || prev.unwrap() < rows.last().created_at) {
            Some(rows.last().created_at)
        } else {
            prev
        }
    }
}

/// Name recorded with the first credit of team `t`.
pub open spec fn team_first_name(rows: Seq<KohAwardRow>, t: i64) -> Option<String>
    decreases rows.len(),
{
    if rows.len() == 0 {
        None
    } else if rows[0].team_id == t {
        rows[0].team_name
    } else {
        team_first_name(rows.drop_first(), t)
    }
}

pub open spec fn has_team(rows: Seq<KohAwardRow>, t: i64) -> bool {
    exists|i: int| 0 <= i < rows.len() && rows[i].team_id == t
}

/// No team's running total leaves the range of `i32`.
pub open spec fn totals_fit(rows: Seq<KohAwardRow>) -> bool {
    forall|k: int, t: i64|
        0 <= k <= rows.len() ==> i32::MIN <= #[trigger] team_total(rows.take(k), t) <= i32::MAX
}

/// The scoreboard line of team `t`.
pub open spec fn line_of(rows: Seq<KohAwardRow>, t: i64) -> KohScore {
    KohScore {
        team_id: t,
        team_name: team_first_name(rows, t),
        score: team_total(rows, t) as i32,
        last_awarded_at: team_last(rows, t),
    }
}

/// Scoreboard order: higher score first, then earlier last credit (none first), then
/// lower team id.
pub open spec fn line_le(a: KohScore, b: KohScore) -> bool {
    ||| a.score > b.score
    ||| (a.score == b.score && opt_lt(a.last_awarded_at, b.last_awarded_at))
    ||| (a.score == b.score && a.last_awarded_at == b.last_awarded_at && a.team_id <= b.team_id)
}

pub open spec fn opt_lt(a: Option<i64>, b: Option<i64>) -> bool {
    match (a, b) {
        (None, Some(_)) => true,
        (Some(x), Some(y)) => x < y,
        _ => false,
    }
}

fn opt_lt_exec(a: Option<i64>, b: Option<i64>) -> (r: bool)
    ensures
        r == opt_lt(a, b),
{
    match (a, b) {
        (None, Some(_)) => true,
        (Some(x), Some(y)) => x < y,
        _ => false,
    }
}

fn line_le_exec(a: &KohScore, b: &KohScore) -> (r: bool)
    ensures
        r == line_le(*a, *b),
{
    a.score > b.score || (a.score == b.score && opt_lt_exec(a.last_awarded_at, b.last_awarded_at))
        || (a.score == b.score && a.last_awarded_at == b.last_awarded_at && a.team_id <= b.team_id)
}

proof fn lemma_insert_multiset<A>(s: Seq<A>, i: int, x: A)
    requires
        0 <= i <= s.len(),
    ensures
        s.insert(i, x).to_multiset() =~= s.to_multiset().insert(x),
{
    let t = s.insert(i, x);
    assert(t.remove(i) =~= s);
    assert(t[i] == x);
    assert(t.remove(i).to_multiset() =~= t.to_multiset().remove(x));
    assert(t.contains(x));
    assert(t.to_multiset().count(x) > 0);
}

pub open spec fn lines_sorted(s: Seq<KohScore>) -> bool {
    forall|i: int, j: int| 0 <= i < j < s.len() ==> line_le(#[trigger] s[i], #[trigger] s[j])
}

pub open spec fn distinct_teams(s: Seq<KohScore>) -> bool {
    forall|i: int, j: int| 0 <= i < j < s.len() ==> (#[trigger] s[i]).team_id != (#[trigger] s[j]).team_id
}

fn sort_lines(lines: Vec<KohScore>) -> (out: Vec<KohScore>)
    requires
        distinct_teams(lines@),
    ensures
        lines_sorted(out@),
        distinct_teams(out@),
        out@.to_multiset() == lines@.to_multiset(),
{
    let ghost orig = lines@;
    let mut rest = lines;
    let mut out: Vec<KohScore> = Vec::new();
    while rest.len() > 0
        invariant
            lines_sorted(out@),
            distinct_teams(out@),
            distinct_teams(rest@),
            forall|a: int, b: int|
                0 <= a < out@.len() && 0 <= b < rest@.len() ==> (#[trigger] out@[a]).team_id != (
                #[trigger] rest@[b]).team_id,
            out@.to_multiset().add(rest@.to_multiset()) == orig.to_multiset(),
        decreases rest@.len(),
    {
        let ghost before = rest@;
        let x = rest.pop().unwrap();
        proof {
            assert(before =~= rest@.push(x));
        }
        let mut j: usize = 0;
        while j < out.len() && line_le_exec(&out[j], &x)
            invariant
                j <= out@.len(),
                forall|k: int| 0 <= k < j ==> line_le(#[trigger] out@[k], x),
            decreases out.len() - j,
        {
            j = j + 1;
        }
        let ghost old_out = out@;
        out.insert(j, x);
        proof {
            lemma_insert_multiset(old_out, j as int, x);
            old_out.insert_ensures(j as int, x);
            assert forall|a: int, b: int| 0 <= a < b < out@.len() implies line_le(
                #[trigger] out@[a],
                #[trigger] out@[b],
            ) by {
                if b < j {
                    assert(out@[a] == old_out[a] && out@[b] == old_out[b]);
                } else if b == j {
                    assert(out@[a] == old_out[a]);
                } else if a == j {
                    assert(out@[b] == old_out[b - 1]);
                    assert(!line_le(old_out[j as int], x));
                    if b - 1 > j {
                        assert(line_le(old_out[j as int], old_out[b - 1]));
                    }
                } else if a < j {
                    assert(out@[a] == old_out[a] && out@[b] == old_out[b - 1]);
                } else {
                    assert(out@[a] == old_out[a - 1] && out@[b] == old_out[b - 1]);
                }
            }
            assert forall|a: int, b: int| 0 <= a < b < out@.len() implies (#[trigger] out@[a]).team_id
                != (#[trigger] out@[b]).team_id by {
                if b < j {
                    assert(out@[a] == old_out[a] && out@[b] == old_out[b]);
                } else if b == j {
                    assert(out@[a] == old_out[a]);
                    assert(before[before.len() - 1] == x);
                } else if a == j {
                    assert(out@[b] == old_out[b - 1]);
                    assert(before[before.len() - 1] == x);
                } else if a < j {
                    assert(out@[a] == old_out[a] && out@[b] == old_out[b - 1]);
                } else {
                    assert(out@[a] == old_out[a - 1] && out@[b] == old_out[b - 1]);
                }
            }
            assert forall|a: int, b: int|
                0 <= a < out@.len() && 0 <= b < rest@.len() implies (#[trigger] out@[a]).team_id != (
                #[trigger] rest@[b]).team_id by {
                assert(rest@[b] == before[b]);
                if a < j {
                    assert(out@[a] == old_out[a]);
                } else if a == j {
                    assert(before[before.len() - 1] == x);
                } else {
                    assert(out@[a] == old_out[a - 1]);
                }
            }
            assert(out@.to_multiset().add(rest@.to_multiset()) =~= orig.to_multiset());
        }
    }
    proof {
        assert(rest@.to_multiset() =~= Multiset::empty());
        assert(out@.to_multiset() =~= orig.to_multiset());
    }
    out
}

proof fn lemma_total_absent(s: Seq<KohAwardRow>, t: i64)
    requires
        !has_team(s, t),
    ensures
        team_total(s, t) == 0,
        team_last(s, t) is None,
    decreases s.len(),
{
    if s.len() > 0 {
        assert forall|i: int| 0 <= i < s.drop_last().len() implies s.drop_last()[i].team_id != t by {
            assert(s[i].team_id != t);
        }
        assert(s[s.len() - 1].team_id != t);
        lemma_total_absent(s.drop_last(), t);
    }
}

proof fn lemma_first_name_push(s: Seq<KohAwardRow>, x: KohAwardRow, t: i64)
    ensures
        team_first_name(s.push(x), t) === (if has_team(s, t) {
            team_first_name(s, t)
        } else if x.team_id == t {
            x.team_name
        } else {
            None
        }),
    decreases s.len(),
{
    let sp = s.push(x);
    if s.len() == 0 {
        assert(sp.drop_first() =~= Seq::<KohAwardRow>::empty());
        assert(!has_team(s, t));
        assert(sp[0] == x);
        if x.team_id == t {
            assert(team_first_name(sp, t) === x.team_name);
        } else {
            assert(team_first_name(sp, t) === team_first_name(sp.drop_first(), t));
            assert(team_first_name(sp.drop_first(), t) === None);
        }
    } else {
        assert(sp[0] == s[0]);
        assert(sp.drop_first() =~= s.drop_first().push(x));
        lemma_first_name_push(s.drop_first(), x, t);
        if s[0].team_id == t {
            assert(has_team(s, t));
            assert(team_first_name(sp, t) === s[0].team_name);
            assert(team_first_name(s, t) === s[0].team_name);
        } else {
            assert(team_first_name(sp, t) === team_first_name(s.drop_first().push(x), t));
            assert(team_first_name(s, t) === team_first_name(s.drop_first(), t));
            assert(has_team(s, t) == has_team(s.drop_first(), t)) by {
                if has_team(s, t) {
                    let i = choose|i: int| 0 <= i < s.len() && s[i].team_id == t;
                    assert(s.drop_first()[i - 1].team_id == t);
                }
                if has_team(s.drop_first(), t) {
                    let i = choose|i: int| 0 <= i < s.drop_first().len() && s.drop_first()[i].team_id == t;
                    assert(s[i + 1].team_id == t);
                }
            }
        }
    }
}

fn clone_name(o: &Option<String>) -> (r: Option<String>)
    ensures
        r == *o,
{
    match o {
        Some(s) => Some(s.clone()),
        None => None,
    }
}

/// The line of every team that holds a credit, in scoreboard order.
pub fn koh_scoreboard(rows: &Vec<KohAwardRow>) -> (out: Vec<KohScore>)
    requires
        totals_fit(rows@),
    ensures
        lines_sorted(out@),
        forall|i: int| 0 <= i < out@.len() ==> #[trigger] out@[i] == line_of(rows@, out@[i].team_id),
        forall|i: int, j: int| 0 <= i < j < out@.len() ==> (#[trigger] out@[i]).team_id != (#[trigger] out@[j]).team_id,
        forall|t: i64| has_team(rows@, t) <==> exists|i: int| 0 <= i < out@.len() && #[trigger] out@[i].team_id == t,
{
    let mut lines: Vec<KohScore> = Vec::new();
    let mut k: usize = 0;
    while k < rows.len()
        invariant
            k <= rows@.len(),
            totals_fit(rows@),
            forall|i: int| 0 <= i < lines@.len() ==> #[trigger] lines@[i] == line_of(rows@.take(k as int), lines@[i].team_id),
            forall|i: int, j: int| 0 <= i < j < lines@.len() ==> (#[trigger] lines@[i]).team_id != (#[trigger] lines@[j]).team_id,
            forall|t: i64| has_team(rows@.take(k as int), t) <==> exists|i: int| 0 <= i < lines@.len() && #[trigger] lines@[i].team_id == t,
        decreases rows.len() - k,
    {
        let ghost pre = rows@.take(k as int);
        let ghost post = rows@.take(k + 1);
        let row = &rows[k];
        proof {
            assert(post.drop_last() =~= pre);
            assert(post =~= pre.push(rows@[k as int]));
            assert forall|t: i64| has_team(post, t) <==> (has_team(pre, t) || rows@[k as int].team_id == t) by {
                if has_team(post, t) && !(rows@[k as int].team_id == t) {
                    let i = choose|i: int| 0 <= i < post.len() && post[i].team_id == t;
                    assert(pre[i].team_id == t);
                }
                if has_team(pre, t) {
                    let i = choose|i: int| 0 <= i < pre.len() && pre[i].team_id == t;
                    assert(post[i].team_id == t);
                }
                if rows@[k as int].team_id == t {
                    assert(post[k as int].team_id == t);
                }
            }
            assert forall|t: i64| team_first_name(post, t) == (if has_team(pre, t) {
                team_first_name(pre, t)
            } else if rows@[k as int].team_id == t {
                rows@[k as int].team_name
            } else {
                None
            }) by {
                lemma_first_name_push(pre, rows@[k as int], t);
            }
            assert(i32::MIN <= team_total(rows@.take(k + 1), row.team_id) <= i32::MAX);
        }
        let mut i: usize = 0;
        while i < lines.len() && lines[i].team_id != row.team_id
            invariant
                i <= lines@.len(),
                forall|j: int| 0 <= j < i ==> (#[trigger] lines@[j]).team_id != row.team_id,
            decreases lines.len() - i,
        {
            i = i + 1;
        }
        if i < lines.len() {
            let old_last = lines[i].last_awarded_at;
            let last = if old_last.is_none() || old_last.unwrap() < row.created_at {
                Some(row.created_at)
            } else {
                old_last
            };
            let line = KohScore {
                team_id: row.team_id,
                team_name: clone_name(&lines[i].team_name),
                score: lines[i].score + row.score,
                last_awarded_at: last,
            };
            let ghost old_lines = lines@;
            lines.set(i, line);
            proof {
                assert forall|a: int| 0 <= a < lines@.len() implies #[trigger] lines@[a] == line_of(post, lines@[a].team_id) by {
                    if a != i {
                        assert(lines@[a] == old_lines[a]);
                        assert(old_lines[a].team_id != row.team_id);
                    }
                }
                assert forall|t: i64| has_team(post, t) implies exists|a: int| 0 <= a < lines@.len() && #[trigger] lines@[a].team_id == t by {
                    if has_team(pre, t) {
                        let a = choose|a: int| 0 <= a < old_lines.len() && #[trigger] old_lines[a].team_id == t;
                        assert(lines@[a].team_id == t);
                    } else {
                        assert(lines@[i as int].team_id == t);
                    }
                }
                assert forall|t: i64| (exists|a: int| 0 <= a < lines@.len() && #[trigger] lines@[a].team_id == t) implies has_team(post, t) by {
                    let a = choose|a: int| 0 <= a < lines@.len() && #[trigger] lines@[a].team_id == t;
                    assert(old_lines[a].team_id == t);
                }
            }
        } else {
            let line = KohScore {
                team_id: row.team_id,
                team_name: clone_name(&row.team_name),
                score: row.score,
                last_awarded_at: Some(row.created_at),
            };
            let ghost old_lines = lines@;
            lines.push(line);
            proof {
                assert(!has_team(pre, row.team_id));
                lemma_total_absent(pre, row.team_id);
                assert forall|a: int| 0 <= a < lines@.len() implies #[trigger] lines@[a] == line_of(post, lines@[a].team_id) by {
                    if a < old_lines.len() {
                        assert(lines@[a] == old_lines[a]);
                    }
                }
                assert forall|t: i64| has_team(post, t) implies exists|a: int| 0 <= a < lines@.len() && #[trigger] lines@[a].team_id == t by {
                    if has_team(pre, t) {
                        let a = choose|a: int| 0 <= a < old_lines.len() && #[trigger] old_lines[a].team_id == t;
                        assert(lines@[a].team_id == t);
                    } else {
                        assert(lines@[old_lines.len() as int].team_id == t);
                    }
                }
                assert forall|t: i64| (exists|a: int| 0 <= a < lines@.len() && #[trigger] lines@[a].team_id == t) implies has_team(post, t) by {
                    let a = choose|a: int| 0 <= a < lines@.len() && #[trigger] lines@[a].team_id == t;
                    if a < old_lines.len() {
                        assert(old_lines[a].team_id == t);
                    }
                }
            }
        }
        k = k + 1;
    }
    proof {
        assert(rows@.take(rows@.len() as int) =~= rows@);
    }
    let out = sort_lines(lines);
    proof {
        assert forall|i: int| 0 <= i < out@.len() implies lines@.contains(#[trigger] out@[i]) by {
            assert(out@.to_multiset().count(out@[i]) > 0);
        }
        assert forall|t: i64| has_team(rows@, t) implies exists|i: int| 0 <= i < out@.len() && #[trigger] out@[i].team_id == t by {
            let a = choose|a: int| 0 <= a < lines@.len() && #[trigger] lines@[a].team_id == t;
            assert(lines@.to_multiset().count(lines@[a]) > 0);
            assert(out@.contains(lines@[a]));
        }
    }
    out
}


/// Sum of all credits.
pub open spec fn credits_total(rows: Seq<KohAwardRow>) -> int
    decreases rows.len(),
{
    if rows.len() == 0 {
        0
    } else {
        credits_total(rows.drop_last()) + rows.last().score as int
    }
}

/// Sum of the scores of scoreboard lines.
pub open spec fn lines_total(lines: Seq<KohScore>) -> int
    decreases lines.len(),
{
    if lines.len() == 0 {
        0
    } else {
        lines_total(lines.drop_last()) + lines.last().score as int
    }
}

/// Sum of the totals of the teams `ts`.
pub open spec fn teams_total(rows: Seq<KohAwardRow>, ts: Seq<i64>) -> int
    decreases ts.len(),
{
    if ts.len() == 0 {
        0
    } else {
        teams_total(rows, ts.drop_last()) + team_total(rows, ts.last())
    }
}

/// How often `x` occurs in `ts`.
pub open spec fn occurrences(ts: Seq<i64>, x: i64) -> int
    decreases ts.len(),
{
    if ts.len() == 0 {
        0
    } else {
        occurrences(ts.drop_last(), x) + if ts.last() == x {
            1int
        } else {
            0
        }
    }
}

proof fn lemma_occurs_once(ts: Seq<i64>, x: i64)
    requires
        forall|i: int, j: int| 0 <= i < j < ts.len() ==> ts[i] != ts[j],
    ensures
        occurrences(ts, x) == if ts.contains(x) {
            1int
        } else {
            0
        },
    decreases ts.len(),
{
    if ts.len() > 0 {
        let p = ts.drop_last();
        lemma_occurs_once(p, x);
        if ts.last() == x {
            assert(!p.contains(x)) by {
                if p.contains(x) {
                    let i = choose|i: int| 0 <= i < p.len() && p[i] == x;
                    assert(ts[i] == ts[ts.len() - 1]);
                }
            }
        }
        if p.contains(x) {
            let i = choose|i: int| 0 <= i < p.len() && p[i] == x;
            assert(ts[i] == x);
        }
        if ts.contains(x) && ts.last() != x {
            let i = choose|i: int| 0 <= i < ts.len() && ts[i] == x;
            assert(p[i] == x);
        }
    }
}

proof fn lemma_teams_total_push(pre: Seq<KohAwardRow>, r: KohAwardRow, ts: Seq<i64>)
    ensures
        teams_total(pre.push(r), ts) == teams_total(pre, ts) + occurrences(ts, r.team_id)
            * r.score,
    decreases ts.len(),
{
    let rows = pre.push(r);
    assert(rows.drop_last() =~= pre);
    if ts.len() > 0 {
        lemma_teams_total_push(pre, r, ts.drop_last());
        let a = occurrences(ts, r.team_id);
        let b = occurrences(ts.drop_last(), r.team_id);
        let c: int = if ts.last() == r.team_id { 1 } else { 0 };
        let sc = r.score as int;
        assert(a == b + c);
        assert(a * sc == b * sc + c * sc) by (nonlinear_arith)
            requires
                a == b + c,
        ;
    }
}

proof fn lemma_absent_team_total(rows: Seq<KohAwardRow>, t: i64)
    requires
        !has_team(rows, t),
    ensures
        team_total(rows, t) == 0,
    decreases rows.len(),
{
    if rows.len() > 0 {
        assert(!has_team(rows.drop_last(), t)) by {
            if has_team(rows.drop_last(), t) {
                let i = choose|i: int| 0 <= i < rows.drop_last().len() && rows.drop_last()[i].team_id == t;
                assert(rows[i].team_id == t);
            }
        }
        lemma_absent_team_total(rows.drop_last(), t);
        assert(rows[rows.len() - 1].team_id != t);
    }
}

/// Summing per team loses nothing: over distinct teams that include every credited team,
/// the team totals add up to all credits.
proof fn lemma_totals_partition(rows: Seq<KohAwardRow>, ts: Seq<i64>)
    requires
        forall|i: int, j: int| 0 <= i < j < ts.len() ==> ts[i] != ts[j],
        forall|t: i64| has_team(rows, t) ==> ts.contains(t),
    ensures
        teams_total(rows, ts) == credits_total(rows),
    decreases rows.len(),
{
    if rows.len() == 0 {
        lemma_zero_totals(rows, ts);
    } else {
        let pre = rows.drop_last();
        let r = rows.last();
        assert(rows =~= pre.push(r));
        assert forall|t: i64| has_team(pre, t) implies ts.contains(t) by {
            let i = choose|i: int| 0 <= i < pre.len() && pre[i].team_id == t;
            assert(rows[i].team_id == t);
        }
        lemma_totals_partition(pre, ts);
        lemma_teams_total_push(pre, r, ts);
        assert(has_team(rows, r.team_id)) by {
            assert(rows[rows.len() - 1].team_id == r.team_id);
        }
        lemma_occurs_once(ts, r.team_id);
    }
}

proof fn lemma_zero_totals(rows: Seq<KohAwardRow>, ts: Seq<i64>)
    requires
        rows.len() == 0,
    ensures
        teams_total(rows, ts) == 0,
    decreases ts.len(),
{
    if ts.len() > 0 {
        lemma_zero_totals(rows, ts.drop_last());
    }
}

proof fn lemma_lines_as_teams(rows: Seq<KohAwardRow>, lines: Seq<KohScore>)
    requires
        totals_fit(rows),
        forall|i: int| 0 <= i < lines.len() ==> #[trigger] lines[i] == line_of(rows, lines[i].team_id),
    ensures
        lines_total(lines) == teams_total(rows, lines.map_values(|l: KohScore| l.team_id)),
    decreases lines.len(),
{
    if lines.len() > 0 {
        let p = lines.drop_last();
        assert forall|i: int| 0 <= i < p.len() implies #[trigger] p[i] == line_of(rows, p[i].team_id) by {
            assert(p[i] == lines[i]);
        }
        lemma_lines_as_teams(rows, p);
        let ts = lines.map_values(|l: KohScore| l.team_id);
        assert(ts.drop_last() =~= p.map_values(|l: KohScore| l.team_id));
        let t = lines.last().team_id;
        assert(lines[lines.len() - 1] == line_of(rows, t));
        assert(rows.take(rows.len() as int) =~= rows);
        assert(i32::MIN <= team_total(rows.take(rows.len() as int), t) <= i32::MAX);
    }
}

/// The scoreboard shows every credit: its lines, one per credited team with that team's
/// total, add up to the sum of all credits.
pub proof fn lemma_scoreboard_conserves(rows: Seq<KohAwardRow>, out: Seq<KohScore>)
    requires
        totals_fit(rows),
        forall|i: int| 0 <= i < out.len() ==> #[trigger] out[i] == line_of(rows, out[i].team_id),
        forall|i: int, j: int| 0 <= i < j < out.len() ==> (#[trigger] out[i]).team_id != (#[trigger] out[j]).team_id,
        forall|t: i64| has_team(rows, t) <==> exists|i: int| 0 <= i < out.len() && #[trigger] out[i].team_id == t,
    ensures
        lines_total(out) == credits_total(rows),
{
    let ts = out.map_values(|l: KohScore| l.team_id);
    lemma_lines_as_teams(rows, out);
    assert forall|i: int, j: int| 0 <= i < j < ts.len() implies ts[i] != ts[j] by {
        assert(ts[i] == out[i].team_id && ts[j] == out[j].team_id);
    }
    assert forall|t: i64| has_team(rows, t) implies ts.contains(t) by {
        let i = choose|i: int| 0 <= i < out.len() && #[trigger] out[i].team_id == t;
        assert(ts[i] == t);
    }
    lemma_totals_partition(rows, ts);
}

} // verus!
