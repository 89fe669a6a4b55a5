//! Game administration rules.
use vstd::prelude::*;
use crate::error::{precondition_failed, ResponseError};
use crate::text::push_str;

verus! {

/// The event announced when an update freezes or unfreezes a game: `Some(true)` and its
/// message for a freeze, `Some(false)` for an unfreeze, nothing when the state stays.
pub fn freeze_change(was_frozen: bool, frozen: bool) -> (r: Option<(bool, String)>)
    ensures
        was_frozen == frozen ==> r is None,
        was_frozen != frozen ==> (r matches Some((f, m)) && f == frozen && m@ == (if frozen {
            "Freeze the game"@
        } else {
            "Unfreeze the game"@
        })),
{
    if was_frozen == frozen {
        None
    } else if frozen {
        Some((true, "Freeze the game".to_owned()))
    } else {
        Some((false, "Unfreeze the game".to_owned()))
    }
}

/// A game with challenges is only deleted when forced.
pub fn check_game_delete(challenges: u64, force: Option<bool>) -> (r: Result<(), ResponseError>)
    ensures
        (challenges > 0 && force != Some(true)) ==> (r matches Err(
            ResponseError::PreconditionFailed(m),
        ) && m@ == "game has existing challenges, can not be deleted safely"@),
        !(challenges > 0 && force != Some(true)) ==> r is Ok,
{
    let forced = match force {
        Some(f) => f,
        None => false,
    };
    if challenges > 0 && !forced {
        return Err(precondition_failed("game has existing challenges, can not be deleted safely"));
    }
    Ok(())
}

/// The address bucket commits are authored under for an account.
pub fn commit_email(account: &str) -> (e: String)
    ensures
        e@ == account@ + "@private.ret.sh.cn"@,
{
    let mut e = account.to_owned();
    push_str(&mut e, "@private.ret.sh.cn");
    e
}


/// How long a queued game event stays worth broadcasting, in seconds.
pub const EVENT_TTL_SECS: i64 = 600;

/// Whether a queued event is too old to broadcast: more than ten minutes passed.
pub fn event_expired(age_secs: i64) -> (b: bool)
    ensures
        b == (age_secs > EVENT_TTL_SECS),
{
    age_secs > EVENT_TTL_SECS
}

/// Whether the event pusher is restarted after its stream ended `retries` times.
pub fn pusher_restarts(retries: u32) -> (b: bool)
    ensures
        b == (retries < 5),
{
    retries < 5
}

} // verus!
