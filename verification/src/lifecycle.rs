//! Lifecycle hooks: which script runs when an environment starts or stops, and what it
//! is told about the environment's owner when only the environment's labels are left.
use vstd::prelude::*;
use crate::cluster::{ClusterSettings, GameSettings};
use crate::text::{dec_int, i64_to_string, parse_i64, parse_i64_spec, push_str, trim_ws, trimmed};

verus! {

/// Where a lifecycle script comes from.
#[derive(Clone, Copy, Debug, PartialEq, Eq, Structural)]
pub enum ScriptScope {
    Global,
    Game,
}

impl ScriptScope {
    pub open spec fn name(self) -> Seq<char> {
        match self {
            ScriptScope::Global => "global"@,
            ScriptScope::Game => "game"@,
        }
    }

    pub fn as_str(self) -> (s: &'static str)
        ensures
            s@ == self.name(),
    {
        match self {
            ScriptScope::Global => "global",
            ScriptScope::Game => "game",
        }
    }
}

/// The script that handles an event, with the key its compiled form is cached under.
pub struct ResolvedLifecycleScript {
    pub key: String,
    pub script: String,
    pub scope: ScriptScope,
}

pub open spec fn string_opt(o: Option<String>) -> Option<Seq<char>> {
    match o {
        Some(s) => Some(s@),
        None => None,
    }
}

/// Picks the lifecycle script of a game: none without cluster settings; the game's own
/// script, keyed by its bucket, while the game is live (`live`: not yet archived) and has
/// one; else the cluster's script (empty when unset), keyed `default`. A live game with a
/// script but no bucket is an error.
pub fn resolve_lifecycle_script(
    cluster: Option<&ClusterSettings>,
    game: &GameSettings,
    live: bool,
) -> (r: Result<Option<ResolvedLifecycleScript>, String>)
    ensures
        cluster is None ==> r matches Ok(None),
        cluster matches Some(c) ==> {
            if live && game.lifecycle is Some {
                match game.bucket {
                    Some(b) => r matches Ok(Some(s)) && s.key@ == b@ && Some(s.script@) == string_opt(
                        game.lifecycle,
                    ) && s.scope == ScriptScope::Game,
                    None => r matches Err(m) && m@ == "game "@ + dec_int(game.id as int) + ":"@
                        + game.name@ + " missing bucket for lifecycle"@,
                }
            } else {
                r matches Ok(Some(s)) && s.key@ == "default"@ && s.script@ == (match c.lifecycle {
                    Some(l) => l@,
                    None => Seq::<char>::empty(),
                }) && s.scope == ScriptScope::Global
            }
        },
{
    let c = match cluster {
        Some(c) => c,
        None => return Ok(None),
    };
    if live {
        match &game.lifecycle {
            Some(l) => {
                return match &game.bucket {
                    Some(b) => Ok(
                        Some(
                            ResolvedLifecycleScript {
                                key: b.clone(),
                                script: l.clone(),
                                scope: ScriptScope::Game,
                            },
                        ),
                    ),
                    None => {
                        let mut m = "game ".to_owned();
                        let id = i64_to_string(game.id);
                        push_str(&mut m, id.as_str());
                        push_str(&mut m, ":");
                        push_str(&mut m, game.name.as_str());
                        push_str(&mut m, " missing bucket for lifecycle");
                        Err(m)
                    },
                };
            },
            None => {},
        }
    }
    let script = match &c.lifecycle {
        Some(l) => l.clone(),
        None => String::new(),
    };
    Ok(Some(ResolvedLifecycleScript { key: "default".to_owned(), script, scope: ScriptScope::Global }))
}

/// Whether a resolved script has nothing to run.
pub fn script_is_empty(script: &str) -> (b: bool)
    ensures
        b == (trim_ws(script@).len() == 0),
{
    trimmed(script).as_str().is_empty()
}

/// The user a hook is told about.
pub struct LifecycleUserInfo {
    pub id: i64,
    pub account: String,
    pub nickname: String,
    pub institute_id: Option<i64>,
}

/// The team a hook is told about.
pub struct LifecycleTeamInfo {
    pub id: Option<i64>,
    pub name: Option<String>,
    pub institute_id: Option<i64>,
    pub token: Option<String>,
}

/// The challenge a hook is told about.
pub struct LifecycleChallengeInfo {
    pub id: i64,
    pub name: String,
    pub game_id: i64,
}

/// The number an environment label holds, if it holds one.
pub open spec fn label_number(label: Option<Seq<char>>) -> Option<int> {
    match label {
        Some(v) => parse_i64_spec(v),
        None => None,
    }
}

pub open spec fn str_opt(o: Option<&str>) -> Option<Seq<char>> {
    match o {
        Some(s) => Some(s@),
        None => None,
    }
}

/// Reads the number in an environment label.
pub fn label_id(label: Option<&str>) -> (r: Option<i64>)
    ensures
        match label_number(str_opt(label)) {
            Some(v) => r == Some(v as i64) && r->0 == v,
            None => r is None,
        },
{
    match label {
        Some(v) => parse_i64(v),
        None => None,
    }
}

/// The text of an annotation, empty when it is missing.
pub open spec fn or_empty(o: Option<Seq<char>>) -> Seq<char> {
    match o {
        Some(s) => s,
        None => Seq::empty(),
    }
}

fn owned_or_empty(o: Option<&str>) -> (s: String)
    ensures
        s@ == or_empty(str_opt(o)),
{
    match o {
        Some(v) => v.to_owned(),
        None => String::new(),
    }
}

/// The user of an environment as its labels tell it: the id in its user label (0 when
/// unreadable) and its account and nickname annotations (empty when missing).
pub fn fallback_user_info(user_label: Option<&str>, account: Option<&str>, nickname: Option<&str>) -> (u:
    LifecycleUserInfo)
    ensures
        u.id == (match label_number(str_opt(user_label)) {
            Some(v) => v,
            None => 0,
        }),
        u.account@ == or_empty(str_opt(account)),
        u.nickname@ == or_empty(str_opt(nickname)),
        u.institute_id is None,
{
    let id = match label_id(user_label) {
        Some(v) => v,
        None => 0,
    };
    LifecycleUserInfo {
        id,
        account: owned_or_empty(account),
        nickname: owned_or_empty(nickname),
        institute_id: None,
    }
}

/// The team of an environment as its labels tell it: only a positive id in its team
/// label names a team, with the team annotation as its name.
pub fn fallback_team_info(team_label: Option<&str>, team_name: Option<&str>) -> (t: Option<
    LifecycleTeamInfo,
>)
    ensures
        match label_number(str_opt(team_label)) {
            Some(v) => if v > 0 {
                t matches Some(info) && info.id == Some(v as i64) && string_opt(info.name) == str_opt(
                    team_name,
                ) && info.institute_id is None && info.token is None
            } else {
                t is None
            },
            None => t is None,
        },
{
    let id = match label_id(team_label) {
        Some(v) => v,
        None => return None,
    };
    if id <= 0 {
        return None;
    }
    let name = match team_name {
        Some(n) => Some(n.to_owned()),
        None => None,
    };
    Some(LifecycleTeamInfo { id: Some(id), name, institute_id: None, token: None })
}

/// The challenge of an environment as its labels tell it.
pub fn fallback_challenge_info(challenge_label: Option<&str>, name: Option<&str>, game_id: i64) -> (c:
    LifecycleChallengeInfo)
    ensures
        c.id == (match label_number(str_opt(challenge_label)) {
            Some(v) => v,
            None => 0,
        }),
        c.name@ == or_empty(str_opt(name)),
        c.game_id == game_id,
{
    let id = match label_id(challenge_label) {
        Some(v) => v,
        None => 0,
    };
    LifecycleChallengeInfo { id, name: owned_or_empty(name), game_id }
}

} // verus!
