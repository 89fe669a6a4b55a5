//! Player-started challenge environments: who owns one and when a start is refused.
use vstd::prelude::*;
use crate::cluster::{has_service_port, ChallengeEnv};
use crate::error::{conflict, precondition_failed, ResponseError};
use crate::text::{chars_of, dec, dec_int, i64_to_string, push_str, str_eq, u64_to_string};

verus! {

/// An environment belongs to the player's team only while the game runs and the
/// challenge is not archived; otherwise to the player alone.
pub fn instance_team(team: Option<i64>, in_progress: bool, challenge_open: bool) -> (r: Option<i64>)
    ensures
        r == (if team is Some && in_progress && challenge_open {
            team
        } else {
            None
        }),
{
    if team.is_some() && in_progress && challenge_open {
        team
    } else {
        None
    }
}

/// The environments already running for whoever starts a new one.
pub enum RunningEnvs {
    /// A team's environments, each by the challenge label it carries; a team runs at most
    /// `team_size` at once.
    Team { team_size: u32, challenges: Vec<String> },
    /// How many environments the player runs alone.
    User { count: usize },
}

pub open spec fn team_limit_message(team_size: u32) -> Seq<char> {
    "your team can only start "@ + dec(team_size as nat) + " instance(s) at the same time"@
}

/// Whether a start is refused, checked in order: no cluster, a start within the last
/// minute, a team at its limit, a team already running this challenge, a player
/// already running an environment.
#[verifier::loop_isolation(false)]
pub fn check_instance_start(
    cluster_enabled: bool,
    calming_down: bool,
    running: &RunningEnvs,
    challenge_id: i64,
) -> (r: Result<(), ResponseError>)
    ensures
        !cluster_enabled ==> (r matches Err(ResponseError::PreconditionFailed(m)) && m@
            == "cluster is disabled"@),
        cluster_enabled && calming_down ==> (r matches Err(ResponseError::PreconditionFailed(m))
            && m@ == "please wait for rebuilding cargo crates"@),
        cluster_enabled && !calming_down ==> match *running {
            RunningEnvs::Team { team_size, challenges } => if challenges@.len() >= team_size {
                r matches Err(ResponseError::PreconditionFailed(m)) && m@ == team_limit_message(
                    team_size,
                )
            } else if exists|i: int|
                0 <= i < challenges@.len() && challenges@[i]@ == dec_int(challenge_id as int) {
                r matches Err(ResponseError::Conflict(m)) && m@
                    == "this challenge instance is already launched"@
            } else {
                r is Ok
            },
            RunningEnvs::User { count } => if count > 0 {
                r matches Err(ResponseError::PreconditionFailed(m)) && m@
                    == "you can only start one instance at the same time"@
            } else {
                r is Ok
            },
        },
{
    if !cluster_enabled {
        return Err(precondition_failed("cluster is disabled"));
    }
    if calming_down {
        return Err(precondition_failed("please wait for rebuilding cargo crates"));
    }
    match running {
        RunningEnvs::Team { team_size, challenges } => {
            if challenges.len() as u64 >= *team_size as u64 {
                let mut m = "your team can only start ".to_owned();
                let n = u64_to_string(*team_size as u64);
                push_str(&mut m, n.as_str());
                push_str(&mut m, " instance(s) at the same time");
                return Err(ResponseError::PreconditionFailed(m));
            }
            let id = i64_to_string(challenge_id);
            let mut i: usize = 0;
            while i < challenges.len()
                invariant
                    cluster_enabled && !calming_down,
                    i <= challenges@.len(),
                    id@ == dec_int(challenge_id as int),
                    forall|k: int| 0 <= k < i ==> challenges@[k]@ != dec_int(challenge_id as int),
                decreases challenges.len() - i,
            {
                if str_eq(challenges[i].as_str(), id.as_str()) {
                    assert(challenges@[i as int]@ == dec_int(challenge_id as int));
                    return Err(conflict("this challenge instance is already launched"));
                }
                i = i + 1;
            }
            Ok(())
        },
        RunningEnvs::User { count } => {
            if *count > 0 {
                Err(precondition_failed("you can only start one instance at the same time"))
            } else {
                Ok(())
            }
        },
    }
}

/// Refuses a start for a challenge without an environment, or whose environment
/// exposes no service port.
pub fn check_instance_env(env: Option<&ChallengeEnv>) -> (r: Result<(), ResponseError>)
    ensures
        env is None ==> (r matches Err(ResponseError::PreconditionFailed(m)) && m@
            == "challenge does not have online environment"@),
        env matches Some(e) ==> if exists|i: int|
            0 <= i < e.images@.len() && e.images@[i].port is Some {
            r is Ok
        } else {
            r matches Err(ResponseError::PreconditionFailed(m)) && m@
                == "at least one service with its exposed port is required"@
        },
{
    match env {
        None => Err(precondition_failed("challenge does not have online environment")),
        Some(e) => {
            if has_service_port(e) {
                Ok(())
            } else {
                Err(precondition_failed("at least one service with its exposed port is required"))
            }
        },
    }
}

/// The team label and annotation of an environment: the team's id and name, or `0` and
/// `wheel` for a player alone.
pub fn team_label_values(team: Option<(i64, &str)>) -> (r: (String, String))
    ensures
        match team {
            Some((id, name)) => r.0@ == dec_int(id as int) && r.1@ == name@,
            None => r.0@ == "0"@ && r.1@ == "wheel"@,
        },
{
    match team {
        Some((id, name)) => (i64_to_string(id), name.to_owned()),
        None => ("0".to_owned(), "wheel".to_owned()),
    }
}


/// Strict lexicographic order of texts by code point, which is the byte order of their
/// UTF-8 forms.
pub open spec fn lex_lt(a: Seq<char>, b: Seq<char>) -> bool
    decreases a.len(),
{
    if a.len() == 0 {
        b.len() > 0
    } else if b.len() == 0 {
        false
    } else if a[0] != b[0] {
        a[0] < b[0]
    } else {
        lex_lt(a.drop_first(), b.drop_first())
    }
}

pub proof fn lemma_lex_irreflexive(a: Seq<char>)
    ensures
        !lex_lt(a, a),
    decreases a.len(),
{
    if a.len() > 0 {
        lemma_lex_irreflexive(a.drop_first());
    }
}

pub proof fn lemma_lex_transitive(a: Seq<char>, b: Seq<char>, c: Seq<char>)
    requires
        lex_lt(a, b),
        lex_lt(b, c),
    ensures
        lex_lt(a, c),
    decreases a.len(),
{
    if a.len() > 0 && b.len() > 0 && c.len() > 0 && a[0] == b[0] && b[0] == c[0] {
        lemma_lex_transitive(a.drop_first(), b.drop_first(), c.drop_first());
    }
}

pub proof fn lemma_lex_total(a: Seq<char>, b: Seq<char>)
    ensures
        a == b || lex_lt(a, b) || lex_lt(b, a),
    decreases a.len(),
{
    if a.len() > 0 && b.len() > 0 && a[0] == b[0] {
        lemma_lex_total(a.drop_first(), b.drop_first());
        if a.drop_first() == b.drop_first() {
            assert(a =~= seq![a[0]] + a.drop_first());
            assert(b =~= seq![b[0]] + b.drop_first());
        }
    } else if a.len() == 0 && b.len() == 0 {
        assert(a =~= b);
    }
}

/// The name of an environment, as its pod carries it.
pub open spec fn name_view(n: Option<String>) -> Option<Seq<char>> {
    match n {
        Some(s) => Some(s@),
        None => None,
    }
}

/// The order environments are listed in: unnamed first, then by name.
pub open spec fn name_lt(a: Option<Seq<char>>, b: Option<Seq<char>>) -> bool {
    match (a, b) {
        (None, Some(_)) => true,
        (Some(x), Some(y)) => lex_lt(x, y),
        _ => false,
    }
}

proof fn lemma_name_order(a: Option<Seq<char>>, b: Option<Seq<char>>, c: Option<Seq<char>>)
    ensures
        !name_lt(a, a),
        name_lt(a, b) && name_lt(b, c) ==> name_lt(a, c),
        a == b || name_lt(a, b) || name_lt(b, a),
{
    if let Some(x) = a {
        lemma_lex_irreflexive(x);
        if let Some(y) = b {
            lemma_lex_total(x, y);
            if let Some(z) = c {
                if lex_lt(x, y) && lex_lt(y, z) {
                    lemma_lex_transitive(x, y, z);
                }
            }
        }
    }
}

pub(crate) fn lex_less(a: &str, b: &str) -> (r: bool)
    ensures
        r == lex_lt(a@, b@),
{
    let x = chars_of(a);
    let y = chars_of(b);
    let mut k: usize = 0;
    proof {
        assert(x@.skip(0) =~= x@);
        assert(y@.skip(0) =~= y@);
    }
    while k < x.len() && k < y.len() && x[k] == y[k]
        invariant
            k <= x@.len(),
            k <= y@.len(),
            lex_lt(a@, b@) == lex_lt(x@.skip(k as int), y@.skip(k as int)),
        decreases x.len() - k,
    {
        proof {
            assert(x@.skip(k as int).drop_first() =~= x@.skip(k + 1));
            assert(y@.skip(k as int).drop_first() =~= y@.skip(k + 1));
        }
        k = k + 1;
    }
    if k == x.len() {
        k < y.len()
    } else if k == y.len() {
        false
    } else {
        proof {
            assert(x@.skip(k as int)[0] == x@[k as int]);
            assert(y@.skip(k as int)[0] == y@[k as int]);
        }
        x[k] < y[k]
    }
}

fn name_less(a: &Option<String>, b: &Option<String>) -> (r: bool)
    ensures
        r == name_lt(name_view(*a), name_view(*b)),
{
    match (a, b) {
        (None, Some(_)) => true,
        (Some(x), Some(y)) => lex_less(x.as_str(), y.as_str()),
        _ => false,
    }
}

fn name_equal(a: &Option<String>, b: &Option<String>) -> (r: bool)
    ensures
        r == (name_view(*a) == name_view(*b)),
{
    match (a, b) {
        (None, None) => true,
        (Some(x), Some(y)) => str_eq(x.as_str(), y.as_str()),
        _ => false,
    }
}

/// Every listed position is among the first `n`.
pub open spec fn listed_within(n: int, idx: Seq<usize>) -> bool {
    forall|k: int| 0 <= k < idx.len() ==> #[trigger] idx[k] < n
}

/// Listed environments are in strictly increasing name order.
pub open spec fn listed_sorted(names: Seq<Option<String>>, idx: Seq<usize>) -> bool {
    forall|j: int, k: int|
        0 <= j < k < idx.len() ==> name_lt(
            name_view(names[#[trigger] idx[j] as int]),
            name_view(names[#[trigger] idx[k] as int]),
        )
}

/// A listed environment is the first found with its name.
pub open spec fn listed_first(names: Seq<Option<String>>, idx: Seq<usize>) -> bool {
    forall|k: int, m: int|
        0 <= k < idx.len() && 0 <= m < idx[k] ==> name_view(#[trigger] names[m]) != name_view(
            names[#[trigger] idx[k] as int],
        )
}

/// Every name among the first `n` found is listed.
pub open spec fn listed_cover(names: Seq<Option<String>>, n: int, idx: Seq<usize>) -> bool {
    forall|i: int|
        0 <= i < n ==> exists|k: int|
            0 <= k < idx.len() && name_view(names[idx[k] as int]) == name_view(#[trigger] names[i])
}

/// The environments among the first `n` found that a player is shown, by position in
/// `names`: one per name (the first found), ordered by name.
pub open spec fn listed_upto(names: Seq<Option<String>>, n: int, idx: Seq<usize>) -> bool {
    &&& listed_within(n, idx)
    &&& listed_sorted(names, idx)
    &&& listed_first(names, idx)
    &&& listed_cover(names, n, idx)
}

/// The environments a player is shown, given the names of all found in the order they
/// were found.
pub open spec fn listed_envs(names: Seq<Option<String>>, idx: Seq<usize>) -> bool {
    listed_upto(names, names.len() as int, idx)
}

proof fn lemma_list_skip(names: Seq<Option<String>>, i: int, idx: Seq<usize>, q: int)
    requires
        0 <= i < names.len(),
        listed_upto(names, i, idx),
        0 <= q < idx.len(),
        name_view(names[idx[q] as int]) == name_view(names[i]),
    ensures
        listed_upto(names, i + 1, idx),
{
    assert forall|x: int| 0 <= x < i + 1 implies exists|k: int|
        0 <= k < idx.len() && name_view(names[idx[k] as int]) == name_view(#[trigger] names[x]) by {
        if x == i {
            assert(name_view(names[idx[q] as int]) == name_view(names[x]));
        }
    }
}

/// What inserting the `i`-th environment at position `p` relies on: it is new by name,
/// and `p` is where its name belongs.
pub open spec fn insert_ok(names: Seq<Option<String>>, i: int, old_idx: Seq<usize>, p: int) -> bool {
    &&& 0 <= i < names.len()
    &&& i <= usize::MAX
    &&& listed_upto(names, i, old_idx)
    &&& forall|q: int|
        0 <= q < old_idx.len() ==> name_view(names[#[trigger] old_idx[q] as int]) != name_view(
            names[i],
        )
    &&& 0 <= p <= old_idx.len()
    &&& forall|q: int|
        0 <= q < p ==> name_lt(name_view(names[#[trigger] old_idx[q] as int]), name_view(names[i]))
    &&& p < old_idx.len() ==> !name_lt(name_view(names[old_idx[p] as int]), name_view(names[i]))
}

proof fn lemma_insert_pair(
    names: Seq<Option<String>>,
    ni: Option<Seq<char>>,
    old_idx: Seq<usize>,
    p: int,
    v: usize,
    j: int,
    kk: int,
)
    requires
        0 <= v < names.len(),
        name_view(names[v as int]) == ni,
        listed_sorted(names, old_idx),
        0 <= p <= old_idx.len(),
        forall|q: int| 0 <= q < p ==> name_lt(name_view(names[#[trigger] old_idx[q] as int]), ni),
        p < old_idx.len() ==> name_lt(ni, name_view(names[old_idx[p] as int])),
        0 <= j < kk < old_idx.len() + 1,
    ensures
        name_lt(
            name_view(names[old_idx.insert(p, v)[j] as int]),
            name_view(names[old_idx.insert(p, v)[kk] as int]),
        ),
{
    let idx = old_idx.insert(p, v);
    if j < p && kk < p {
        assert(idx[j] == old_idx[j] && idx[kk] == old_idx[kk]);
    } else if j < p && kk == p {
        assert(idx[j] == old_idx[j]);
    } else if j < p && kk > p {
        assert(idx[j] == old_idx[j] && idx[kk] == old_idx[kk - 1]);
        let nj = name_view(names[old_idx[j] as int]);
        let np = name_view(names[old_idx[p] as int]);
        let nk = name_view(names[old_idx[kk - 1] as int]);
        lemma_name_order(nj, ni, np);
        if kk - 1 > p {
            lemma_name_order(ni, np, nk);
        }
    } else if j == p {
        assert(idx[j] == v);
        assert(idx[kk] == old_idx[kk - 1]);
        let np = name_view(names[old_idx[p] as int]);
        let nk = name_view(names[old_idx[kk - 1] as int]);
        if kk - 1 > p {
            lemma_name_order(ni, np, nk);
        }
    } else {
        assert(idx[j] == old_idx[j - 1] && idx[kk] == old_idx[kk - 1]);
    }
}

proof fn lemma_insert_sorted(names: Seq<Option<String>>, i: int, old_idx: Seq<usize>, p: int)
    requires
        insert_ok(names, i, old_idx, p),
    ensures
        listed_sorted(names, old_idx.insert(p, i as usize)),
{
    let idx = old_idx.insert(p, i as usize);
    let ni = name_view(names[i]);
    if p < old_idx.len() {
        let np = name_view(names[old_idx[p] as int]);
        lemma_name_order(np, ni, ni);
    }
    assert forall|j: int, kk: int| 0 <= j < kk < idx.len() implies name_lt(
        name_view(names[#[trigger] idx[j] as int]),
        name_view(names[#[trigger] idx[kk] as int]),
    ) by {
        lemma_insert_pair(names, ni, old_idx, p, i as usize, j, kk);
    }
}

#[verifier::spinoff_prover]
#[verifier::rlimit(40)]
proof fn lemma_insert_first(names: Seq<Option<String>>, i: int, old_idx: Seq<usize>, p: int)
    requires
        insert_ok(names, i, old_idx, p),
    ensures
        listed_within(i + 1, old_idx.insert(p, i as usize)),
        listed_first(names, old_idx.insert(p, i as usize)),
        listed_cover(names, i + 1, old_idx.insert(p, i as usize)),
{
    let idx = old_idx.insert(p, i as usize);
    let ni = name_view(names[i]);
    assert forall|k: int| 0 <= k < idx.len() implies #[trigger] idx[k] < i + 1 by {
        if k < p {
            assert(idx[k] == old_idx[k]);
        } else if k > p {
            assert(idx[k] == old_idx[k - 1]);
        }
    }
    assert forall|kk: int, m: int| 0 <= kk < idx.len() && 0 <= m < idx[kk] implies name_view(
        #[trigger] names[m],
    ) != name_view(names[#[trigger] idx[kk] as int]) by {
        if kk == p {
            let x = choose|x: int|
                0 <= x < old_idx.len() && name_view(names[old_idx[x] as int]) == name_view(
                    #[trigger] names[m],
                );
            assert(name_view(names[old_idx[x] as int]) != ni);
        } else if kk < p {
            assert(idx[kk] == old_idx[kk]);
        } else {
            assert(idx[kk] == old_idx[kk - 1]);
        }
    }
    assert forall|x: int| 0 <= x < i + 1 implies exists|kk: int|
        0 <= kk < idx.len() && name_view(names[idx[kk] as int]) == name_view(#[trigger] names[x]) by {
        if x < i {
            let kk = choose|kk: int|
                0 <= kk < old_idx.len() && name_view(names[old_idx[kk] as int]) == name_view(
                    #[trigger] names[x],
                );
            if kk < p {
                assert(idx[kk] == old_idx[kk]);
            } else {
                assert(idx[kk + 1] == old_idx[kk]);
            }
        } else {
            assert(idx[p] == i);
        }
    }
}

proof fn lemma_list_insert(names: Seq<Option<String>>, i: int, old_idx: Seq<usize>, p: int)
    requires
        insert_ok(names, i, old_idx, p),
    ensures
        listed_upto(names, i + 1, old_idx.insert(p, i as usize)),
{
    lemma_insert_sorted(names, i, old_idx, p);
    lemma_insert_first(names, i, old_idx, p);
}

/// Lists a player's environments: the positions in `names` of the environments shown.
pub fn list_envs(names: &Vec<Option<String>>) -> (idx: Vec<usize>)
    ensures
        listed_envs(names@, idx@),
{
    let mut idx: Vec<usize> = Vec::new();
    let mut i: usize = 0;
    while i < names.len()
        invariant
            i <= names@.len(),
            listed_upto(names@, i as int, idx@),
        decreases names.len() - i,
    {
        let mut k: usize = 0;
        let mut seen: Option<usize> = None;
        while k < idx.len()
            invariant
                k <= idx@.len(),
                i < names@.len(),
                listed_upto(names@, i as int, idx@),
                seen matches Some(q) ==> q < idx@.len() && name_view(names@[idx@[q as int] as int])
                    == name_view(names@[i as int]),
                seen is None ==> forall|q: int|
                    0 <= q < k ==> name_view(names@[#[trigger] idx@[q] as int]) != name_view(
                        names@[i as int],
                    ),
            decreases idx.len() - k,
        {
            if seen.is_none() && name_equal(&names[idx[k]], &names[i]) {
                seen = Some(k);
            }
            k = k + 1;
        }
        match seen {
            Some(q) => {
                proof {
                    lemma_list_skip(names@, i as int, idx@, q as int);
                }
            },
            None => {
                let mut p: usize = 0;
                while p < idx.len() && name_less(&names[idx[p]], &names[i])
                    invariant
                        p <= idx@.len(),
                        i < names@.len(),
                        listed_upto(names@, i as int, idx@),
                        forall|q: int|
                            0 <= q < p ==> name_lt(
                                name_view(names@[#[trigger] idx@[q] as int]),
                                name_view(names@[i as int]),
                            ),
                    decreases idx.len() - p,
                {
                    p = p + 1;
                }
                proof {
                    lemma_list_insert(names@, i as int, idx@, p as int);
                }
                idx.insert(p, i);
            },
        }
        i = i + 1;
    }
    idx
}

/// Whether traffic exposure is on: there is a traffic script and it is not empty.
pub fn traffic_script_active(script: Option<&str>) -> (b: bool)
    ensures
        b == (script matches Some(x) && x@.len() > 0),
{
    match script {
        Some(x) => chars_of(x).len() > 0,
        None => false,
    }
}

pub open spec fn traffic_views(v: Seq<String>) -> Seq<Seq<char>> {
    v.map_values(|s: String| s@)
}

/// The positions, among the first `n` of a player's environments with traffic ids
/// `traffic`, of those listed: all of them while traffic exposure is off; while it is
/// on, each one whose traffic id no environment listed before it has.
pub open spec fn shown_upto(traffic: Seq<Seq<char>>, active: bool, n: nat) -> Seq<int>
    decreases n,
{
    if n == 0 {
        Seq::empty()
    } else {
        let prev = shown_upto(traffic, active, (n - 1) as nat);
        if !active || !(exists|j: int| 0 <= j < prev.len() && traffic[#[trigger] prev[j]] == traffic[n - 1]) {
            prev.push(n - 1)
        } else {
            prev
        }
    }
}

proof fn lemma_shown_bounded(traffic: Seq<Seq<char>>, active: bool, n: nat)
    ensures
        forall|k: int| 0 <= k < shown_upto(traffic, active, n).len() ==> 0 <= #[trigger] shown_upto(traffic, active, n)[k] < n,
    decreases n,
{
    if n > 0 {
        let m = (n - 1) as nat;
        lemma_shown_bounded(traffic, active, m);
        let prev = shown_upto(traffic, active, m);
        assert forall|k: int| 0 <= k < shown_upto(traffic, active, n).len() implies 0
            <= #[trigger] shown_upto(traffic, active, n)[k] < n by {
            if k < prev.len() {
                assert(shown_upto(traffic, active, n)[k] == prev[k]);
            }
        }
    }
}

/// While traffic exposure is on, no two listed environments share a traffic id, and
/// every environment left out shares its id with one listed before it.
pub proof fn lemma_shown_traffic_distinct(traffic: Seq<Seq<char>>, n: nat)
    requires
        n <= traffic.len(),
    ensures
        forall|a: int, b: int|
            0 <= a < b < shown_upto(traffic, true, n).len() ==> traffic[#[trigger] shown_upto(
                traffic,
                true,
                n,
            )[a]] != traffic[#[trigger] shown_upto(traffic, true, n)[b]],
        forall|i: int|
            0 <= i < n && !shown_upto(traffic, true, n).contains(i) ==> exists|j: int|
                0 <= j < shown_upto(traffic, true, n).len() && shown_upto(traffic, true, n)[j] < i
                    && traffic[#[trigger] shown_upto(traffic, true, n)[j]] == traffic[i],
    decreases n,
{
    if n > 0 {
        let m = (n - 1) as nat;
        lemma_shown_traffic_distinct(traffic, m);
        lemma_shown_bounded(traffic, true, m);
        let prev = shown_upto(traffic, true, m);
        let cur = shown_upto(traffic, true, n);
        if cur.len() > prev.len() {
            assert(cur == prev.push(m as int));
            assert forall|a: int, b: int| 0 <= a < b < cur.len() implies traffic[#[trigger] cur[a]]
                != traffic[#[trigger] cur[b]] by {
                if b == prev.len() {
                    assert(cur[a] == prev[a]);
                } else {
                    assert(cur[a] == prev[a]);
                    assert(cur[b] == prev[b]);
                }
            }
            assert forall|i: int| 0 <= i < n && !cur.contains(i) implies exists|j: int|
                0 <= j < cur.len() && cur[j] < i && traffic[#[trigger] cur[j]] == traffic[i] by {
                assert(cur[prev.len() as int] == m);
                if i < m {
                    if prev.contains(i) {
                        let q = choose|q: int| 0 <= q < prev.len() && prev[q] == i;
                        assert(cur[q] == i);
                    }
                    let j = choose|j: int|
                        0 <= j < prev.len() && prev[j] < i && traffic[#[trigger] prev[j]] == traffic[i];
                    assert(cur[j] == prev[j]);
                }
            }
        } else {
            assert(cur == prev);
            assert forall|i: int| 0 <= i < n && !cur.contains(i) implies exists|j: int|
                0 <= j < cur.len() && cur[j] < i && traffic[#[trigger] cur[j]] == traffic[i] by {
                if i == m {
                    let j = choose|j: int| 0 <= j < prev.len() && traffic[#[trigger] prev[j]] == traffic[m as int];
                    assert(prev[j] < m);
                }
            }
        }
    }
}

/// The environments listed to a player, by position: while traffic exposure is on, an
/// environment whose traffic id was already listed is left out.
pub fn shown_instances(traffic: &Vec<String>, script_active: bool) -> (idx: Vec<usize>)
    ensures
        idx@.len() == shown_upto(traffic_views(traffic@), script_active, traffic@.len()).len(),
        forall|k: int| 0 <= k < idx@.len() ==> #[trigger] idx@[k] as int == shown_upto(
            traffic_views(traffic@),
            script_active,
            traffic@.len(),
        )[k],
{
    let ghost tv = traffic_views(traffic@);
    let mut idx: Vec<usize> = Vec::new();
    let mut i: usize = 0;
    while i < traffic.len()
        invariant
            i <= traffic@.len(),
            tv == traffic_views(traffic@),
            idx@.len() == shown_upto(tv, script_active, i as nat).len(),
            forall|k: int| 0 <= k < idx@.len() ==> #[trigger] idx@[k] as int == shown_upto(
                tv,
                script_active,
                i as nat,
            )[k],
        decreases traffic.len() - i,
    {
        let ghost prev = shown_upto(tv, script_active, i as nat);
        proof {
            lemma_shown_bounded(tv, script_active, i as nat);
        }
        let mut keep = true;
        if script_active {
            let mut k: usize = 0;
            while k < idx.len()
                invariant
                    k <= idx@.len(),
                    i < traffic@.len(),
                    tv == traffic_views(traffic@),
                    idx@.len() == prev.len(),
                    forall|q: int| 0 <= q < idx@.len() ==> #[trigger] idx@[q] as int == prev[q],
                    forall|q: int| 0 <= q < prev.len() ==> 0 <= #[trigger] prev[q] < i,
                    keep <==> !(exists|j: int| 0 <= j < k && tv[#[trigger] prev[j]] == tv[i as int]),
                decreases idx.len() - k,
            {
                let p = idx[k];
                assert(p as int == prev[k as int]);
                if str_eq(traffic[p].as_str(), traffic[i].as_str()) {
                    keep = false;
                }
                proof {
                    assert(tv[prev[k as int]] == traffic@[p as int]@);
                    assert(tv[i as int] == traffic@[i as int]@);
                    if !keep {
                        if tv[prev[k as int]] == tv[i as int] {
                            assert(exists|j: int| 0 <= j < k + 1 && tv[#[trigger] prev[j]] == tv[i as int]);
                        }
                    } else {
                        assert forall|j: int| 0 <= j < k + 1 implies !(tv[#[trigger] prev[j]] == tv[i as int]) by {
                            if j < k {
                            } else {
                                assert(j == k);
                            }
                        }
                    }
                }
                k = k + 1;
            }
        }
        if keep {
            idx.push(i);
        }
        proof {
            let next = shown_upto(tv, script_active, (i + 1) as nat);
            assert(((i + 1) as nat - 1) as nat == i as nat);
            assert(next == (if !script_active || !(exists|j: int| 0 <= j < prev.len() && tv[#[trigger] prev[j]] == tv[(i + 1) as nat - 1]) {
                prev.push((i + 1) as nat - 1)
            } else {
                prev
            }));
            assert(idx@.len() == next.len());
            assert forall|k: int| 0 <= k < idx@.len() implies #[trigger] idx@[k] as int == next[k] by {
                if k < prev.len() {
                }
            }
        }
        i = i + 1;
    }
    idx
}

} // verus!
