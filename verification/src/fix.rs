//! Fix challenges: a player uploads a patched artifact, the server runs the challenge's
//! fix script on a fresh target and lets a tester judge the patched service.
use vstd::prelude::*;
use std::collections::HashSet;
use crate::cluster::{first_image_port, first_port, has_service_port, ChallengeEnv, ImageSpec};
use crate::error::{bad_request, conflict, is_bad_request, precondition_failed, ResponseError};
use crate::text::{
    trimmed, u64_to_string, dec, dec_int, i64_to_string, chars_of, push_str, replace_char, replace_char_exec, split_on, starts_with,
    starts_with_exec, str_eq, string_of_range, trim_bounds, trim_ws, CharClass, occurs_at_exec,
};

verus! {

/// Marks a submission's content as fix metadata rather than a flag.
pub const FIX_SUBMISSION_PREFIX: &'static str = "__r2s_fix__:";

/// What a fix submission stores: where its artifact was uploaded and the name it had.
pub struct FixSubmissionMeta {
    pub token: String,
    pub file_name: String,
}

/// The stored content of a fix submission whose metadata serialises to `payload`.
pub open spec fn framed(payload: Seq<char>) -> Seq<char> {
    FIX_SUBMISSION_PREFIX@ + payload
}

/// Frames serialised metadata as submission content.
pub fn frame_fix_submission(payload: &str) -> (content: String)
    ensures
        content@ == framed(payload@),
{
    let mut content = FIX_SUBMISSION_PREFIX.to_owned();
    push_str(&mut content, payload);
    content
}

/// Whether stored submission content is fix metadata.
pub open spec fn is_fix_content(content: Option<Seq<char>>) -> bool {
    content matches Some(c) && starts_with(c, FIX_SUBMISSION_PREFIX@)
}

pub fn is_fix_submission(content: Option<&str>) -> (b: bool)
    ensures
        b == is_fix_content(
            match content {
                Some(c) => Some(c@),
                None => None,
            },
        ),
{
    match content {
        Some(c) => starts_with_exec(c, FIX_SUBMISSION_PREFIX),
        None => false,
    }
}

/// The serialised metadata inside fix submission content; `None` for any other content.
pub fn fix_submission_payload(content: Option<&str>) -> (r: Option<String>)
    ensures
        match content {
            Some(c) => if starts_with(c@, FIX_SUBMISSION_PREFIX@) {
                r matches Some(p) && p@ == c@.skip(FIX_SUBMISSION_PREFIX@.len() as int)
            } else {
                r is None
            },
            None => r is None,
        },
{
    match content {
        Some(c) => {
            if starts_with_exec(c, FIX_SUBMISSION_PREFIX) {
                let cs = chars_of(c);
                let n = FIX_SUBMISSION_PREFIX.unicode_len();
                proof {
                    assert(cs@.subrange(n as int, cs@.len() as int) =~= c@.skip(n as int));
                }
                Some(string_of_range(cs.as_slice(), n, cs.len()))
            } else {
                None
            }
        },
        None => None,
    }
}

/// Framing and then reading back gives the payload unchanged.
pub proof fn lemma_frame_roundtrip(payload: Seq<char>)
    ensures
        starts_with(framed(payload), FIX_SUBMISSION_PREFIX@),
        framed(payload).skip(FIX_SUBMISSION_PREFIX@.len() as int) == payload,
{
    let f = framed(payload);
    let n = FIX_SUBMISSION_PREFIX@.len() as int;
    assert(f.subrange(0, n) =~= FIX_SUBMISSION_PREFIX@);
    assert(f.skip(n) =~= payload);
}

/// `v` as one single-quoted shell word: each `'` closes the quote, adds a double-quoted
/// `'` and reopens it.
pub open spec fn shell_quoted(v: Seq<char>) -> Seq<char> {
    seq!['\''] + replace_char(v, '\'', "'\"'\"'"@) + seq!['\'']
}

pub fn shell_quote(value: &str) -> (q: String)
    ensures
        q@ == shell_quoted(value@),
{
    let mut q = String::new();
    q.push('\'');
    let body = replace_char_exec(value, '\'', "'\"'\"'");
    push_str(&mut q, body.as_str());
    q.push('\'');
    proof {
        assert(q@ =~= shell_quoted(value@));
    }
    q
}

/// What one log line reports for `prefix`: the line, trimmed, must start with it; the
/// rest, trimmed again, is the value.
pub open spec fn line_result(line: Seq<char>, prefix: Seq<char>) -> Option<Seq<char>> {
    let l = trim_ws(line);
    if starts_with(l, prefix) {
        Some(trim_ws(l.skip(prefix.len() as int)))
    } else {
        None
    }
}

/// The value reported by the last line that reports one.
pub open spec fn last_result(lines: Seq<Seq<char>>, prefix: Seq<char>) -> Option<Seq<char>>
    decreases lines.len(),
{
    if lines.len() == 0 {
        None
    } else {
        match line_result(lines.last(), prefix) {
            Some(v) => Some(v),
            None => last_result(lines.drop_last(), prefix),
        }
    }
}

/// The value of `env_name` that the tester's logs report last. Lines are cut at `\n`;
/// a `\r` before it is whitespace and goes with the trim.
pub open spec fn fix_result(logs: Seq<char>, env_name: Seq<char>) -> Option<Seq<char>> {
    last_result(split_on(logs, '\n'), env_name.push('='))
}

fn line_result_exec(line: &[char], p: &[char]) -> (r: Option<String>)
    ensures
        match line_result(line@, p@) {
            Some(v) => r matches Some(s) && s@ == v,
            None => r is None,
        },
{
    let n = line.len();
    let (a, b) = trim_bounds(line, 0, n, CharClass::Whitespace);
    let ghost t = line@.subrange(a as int, b as int);
    proof {
        assert(line@.subrange(0, n as int) =~= line@);
    }
    if p.len() <= b - a && occurs_at_exec(line, p, a) {
        let m = a + p.len();
        let (c, d) = trim_bounds(line, m, b, CharClass::Whitespace);
        proof {
            assert(t.subrange(0, p@.len() as int) =~= line@.subrange(a as int, m as int));
            assert(t.skip(p@.len() as int) =~= line@.subrange(m as int, b as int));
        }
        Some(string_of_range(line, c, d))
    } else {
        proof {
            if starts_with(t, p@) {
                assert(t.subrange(0, p@.len() as int) =~= line@.subrange(
                    a as int,
                    a + p@.len(),
                ));
            }
        }
        None
    }
}

/// The value of `env_name` reported last in the tester's logs.
pub fn parse_fix_result(logs: &str, env_name: &str) -> (r: Option<String>)
    ensures
        match fix_result(logs@, env_name@) {
            Some(v) => r matches Some(s) && s@ == v,
            None => r is None,
        },
{
    let mut prefix: Vec<char> = chars_of(env_name);
    prefix.push('=');
    let cs = chars_of(logs);
    let mut cur: Vec<char> = Vec::new();
    let mut found: Option<String> = None;
    let ghost mut done: Seq<Seq<char>> = Seq::empty();
    let mut i: usize = 0;
    proof {
        assert(cs@.take(0) =~= Seq::<char>::empty());
        assert(split_on(Seq::<char>::empty(), '\n') =~= done.push(cur@));
    }
    while i < cs.len()
        invariant
            i <= cs@.len(),
            cs@ == logs@,
            prefix@ == env_name@.push('='),
            split_on(cs@.take(i as int), '\n') == done.push(cur@),
            match last_result(done, prefix@) {
                Some(v) => found matches Some(s) && s@ == v,
                None => found is None,
            },
        decreases cs.len() - i,
    {
        let c = cs[i];
        proof {
            assert(cs@.take(i + 1).drop_last() =~= cs@.take(i as int));
            assert(cs@.take(i + 1).last() == c);
        }
        if c == '\n' {
            let r = line_result_exec(cur.as_slice(), prefix.as_slice());
            proof {
                let nd = done.push(cur@);
                assert(nd.drop_last() =~= done);
                assert(nd.last() == cur@);
                done = nd;
            }
            if r.is_some() {
                found = r;
            }
            cur = Vec::new();
            proof {
                assert(split_on(cs@.take(i + 1), '\n') =~= done.push(cur@));
            }
        } else {
            let ghost old_cur = cur@;
            cur.push(c);
            proof {
                assert(done.push(old_cur).update(done.len() as int, old_cur.push(c)) =~= done.push(
                    cur@,
                ));
            }
        }
        i = i + 1;
    }
    proof {
        assert(cs@.take(cs@.len() as int) =~= cs@);
        let all = done.push(cur@);
        assert(all.drop_last() =~= done);
    }
    let r = line_result_exec(cur.as_slice(), prefix.as_slice());
    if r.is_some() {
        r
    } else {
        found
    }
}


/// A challenge's fix settings.
pub struct FixConfig {
    pub enabled: bool,
    pub max_attempts: u32,
    /// The script, inside the challenge bucket, run on the target to apply the artifact.
    pub fix_script: String,
    /// Where on the target the artifact is placed.
    pub upload_path: String,
    pub timeout_secs: u64,
    /// The variable whose value the tester reports in its logs.
    pub result_env: String,
    /// The reported value that accepts the fix.
    pub success_value: String,
    pub tester: Option<ImageSpec>,
    pub target_port: Option<u16>,
    pub target_container: Option<String>,
}

/// The message of the rule a fix configuration breaks, if any.
pub open spec fn fix_violation(c: FixConfig) -> Option<Seq<char>> {
    if !c.enabled {
        None
    } else if c.max_attempts < 1 {
        Some("max attempts must be greater than zero"@)
    } else if trim_ws(c.fix_script@).len() == 0 {
        Some("fix script cannot be empty"@)
    } else if trim_ws(c.upload_path@).len() == 0 || !starts_with(c.upload_path@, "/"@) {
        Some("upload path must be an absolute path"@)
    } else if c.timeout_secs < 10 {
        Some("timeout must be at least 10 seconds"@)
    } else if trim_ws(c.result_env@).len() == 0 {
        Some("result env cannot be empty"@)
    } else if trim_ws(c.success_value@).len() == 0 {
        Some("success value cannot be empty"@)
    } else if c.tester is None {
        Some("tester image is required when fix is enabled"@)
    } else {
        None
    }
}

/// A fix configuration is accepted exactly when fix is off, or when it allows at least
/// one attempt, names a fix script, uploads to an absolute path, waits at least ten
/// seconds, names the result variable and the success value, and names a tester image.
pub proof fn lemma_fix_config_accepted(c: FixConfig)
    ensures
        fix_violation(c) is None <==> (!c.enabled || (c.max_attempts >= 1 && trim_ws(c.fix_script@).len()
            > 0 && trim_ws(c.upload_path@).len() > 0 && starts_with(c.upload_path@, "/"@)
            && c.timeout_secs >= 10 && trim_ws(c.result_env@).len() > 0 && trim_ws(
            c.success_value@,
        ).len() > 0 && c.tester is Some)),
{
}

/// Checks a fix configuration before it is stored.
pub fn validate_fix_config(config: &FixConfig) -> (r: Result<(), ResponseError>)
    ensures
        match fix_violation(*config) {
            None => r is Ok,
            Some(m) => is_bad_request(r, m),
        },
{
    if !config.enabled {
        return Ok(());
    }
    if config.max_attempts < 1 {
        return Err(bad_request("max attempts must be greater than zero"));
    }
    if trimmed(config.fix_script.as_str()).as_str().is_empty() {
        return Err(bad_request("fix script cannot be empty"));
    }
    if trimmed(config.upload_path.as_str()).as_str().is_empty() || !starts_with_exec(
        config.upload_path.as_str(),
        "/",
    ) {
        return Err(bad_request("upload path must be an absolute path"));
    }
    if config.timeout_secs < 10 {
        return Err(bad_request("timeout must be at least 10 seconds"));
    }
    if trimmed(config.result_env.as_str()).as_str().is_empty() {
        return Err(bad_request("result env cannot be empty"));
    }
    if trimmed(config.success_value.as_str()).as_str().is_empty() {
        return Err(bad_request("success value cannot be empty"));
    }
    if config.tester.is_none() {
        return Err(bad_request("tester image is required when fix is enabled"));
    }
    Ok(())
}

/// Whether a configuration is present and enabled.
pub open spec fn fix_enabled(config: Option<FixConfig>) -> bool {
    config matches Some(c) && c.enabled
}

/// Attempts left to a player who has used `used`; none are counted where fix is off.
pub fn attempts_remaining(config: &Option<FixConfig>, used: u64) -> (r: Option<u64>)
    ensures
        match *config {
            Some(c) => if c.enabled {
                r == Some(if used <= c.max_attempts { (c.max_attempts - used) as u64 } else { 0u64 })
            } else {
                r is None
            },
            None => r is None,
        },
{
    match config {
        Some(c) => {
            if c.enabled {
                let max = c.max_attempts as u64;
                Some(max.saturating_sub(used))
            } else {
                None
            }
        },
        None => None,
    }
}

/// The result stamped on a fix submission whose check never reached a verdict (the
/// target or the tester could not be run); such submissions are not charged as attempts.
pub const FIX_CHECKER_INTERNAL_ERROR: &'static str = "fix checker internal error, incorrect.";

/// A stored submission, as the attempt count reads it.
pub struct SubmissionRow {
    pub id: i64,
    pub content: Option<String>,
    pub result: Option<String>,
}

pub open spec fn content_view(c: Option<String>) -> Option<Seq<char>> {
    match c {
        Some(s) => Some(s@),
        None => None,
    }
}

/// Whether a stored submission uses up a fix attempt: it is a fix submission, and its
/// check did not end in the checker's own failure.
pub open spec fn is_charged(row: SubmissionRow) -> bool {
    &&& is_fix_content(content_view(row.content))
    &&& content_view(row.result) != Some(FIX_CHECKER_INTERNAL_ERROR@)
}

/// Ids of the submissions in `rows` that use up a fix attempt.
pub open spec fn fix_ids(rows: Seq<SubmissionRow>) -> Set<i64> {
    Set::new(
        |id: i64| exists|i: int| 0 <= i < rows.len() && rows[i].id == id && is_charged(#[trigger] rows[i]),
    )
}

/// The fix attempts charged to a player: the distinct charged fix submissions made by
/// the player or by the player's team.
pub open spec fn charged_attempts(user_rows: Seq<SubmissionRow>, team_rows: Seq<SubmissionRow>) -> Set<
    i64,
> {
    fix_ids(user_rows).union(fix_ids(team_rows))
}

/// Whether a queued fix submission was already handled and is skipped: it has a result
/// or a solved mark.
pub fn fix_already_processed(result: Option<&str>, solved: Option<bool>) -> (b: bool)
    ensures
        b == (result is Some || solved is Some),
{
    result.is_some() || solved.is_some()
}

/// Whether one stored submission uses up a fix attempt.
pub fn row_is_charged(row: &SubmissionRow) -> (b: bool)
    ensures
        b == is_charged(*row),
{
    let is_fix = match &row.content {
        Some(c) => is_fix_submission(Some(c.as_str())),
        None => is_fix_submission(None),
    };
    let internal = match &row.result {
        Some(r) => str_eq(r.as_str(), FIX_CHECKER_INTERNAL_ERROR),
        None => false,
    };
    is_fix && !internal
}

fn collect_fix_ids(rows: &Vec<SubmissionRow>, ids: &mut HashSet<i64>)
    ensures
        final(ids)@ == old(ids)@.union(fix_ids(rows@)),
{
    broadcast use vstd::std_specs::hash::group_hash_axioms;

    let mut i: usize = 0;
    let ghost start = ids@;
    while i < rows.len()
        invariant
            i <= rows@.len(),
            ids@ == start.union(fix_ids(rows@.take(i as int))),
        decreases rows.len() - i,
    {
        let row = &rows[i];
        let charged = row_is_charged(row);
        let ghost before = ids@;
        if charged {
            ids.insert(row.id);
        }
        proof {
            let t = rows@.take(i + 1);
            let p = rows@.take(i as int);
            assert(t[i as int] == rows@[i as int]);
            assert forall|x: i64| fix_ids(t).contains(x) <==> (fix_ids(p).contains(x) || (charged && x == row.id)) by {
                if fix_ids(t).contains(x) {
                    let j = choose|j: int| 0 <= j < t.len() && t[j].id == x && is_charged(#[trigger] t[j]);
                    if j < i {
                        assert(p[j] == t[j]);
                    }
                }
                if fix_ids(p).contains(x) {
                    let j = choose|j: int| 0 <= j < p.len() && p[j].id == x && is_charged(#[trigger] p[j]);
                    assert(t[j] == p[j]);
                }
            }
            assert(ids@ =~= start.union(fix_ids(t)));
        }
        i = i + 1;
    }
    proof {
        assert(rows@.take(rows@.len() as int) =~= rows@);
    }
}

/// The number of fix attempts charged to a player: distinct fix submissions over the
/// player's own and, where there is one, the team's.
pub fn count_fix_attempts(user_rows: &Vec<SubmissionRow>, team_rows: Option<&Vec<SubmissionRow>>) -> (n:
    u64)
    ensures
        n == charged_attempts(
            user_rows@,
            match team_rows {
                Some(t) => t@,
                None => Seq::empty(),
            },
        ).len(),
{
    broadcast use vstd::std_specs::hash::group_hash_axioms;

    let mut ids: HashSet<i64> = HashSet::new();
    collect_fix_ids(user_rows, &mut ids);
    let ghost team_seq: Seq<SubmissionRow> = match team_rows {
        Some(t) => t@,
        None => Seq::empty(),
    };
    match team_rows {
        Some(t) => collect_fix_ids(t, &mut ids),
        None => {
            proof {
                assert(fix_ids(team_seq) =~= Set::<i64>::empty());
            }
        },
    }
    proof {
        assert(ids@ =~= charged_attempts(user_rows@, team_seq));
    }
    ids.len() as u64
}


/// Refuses a fix submission where fix is off, where the challenge is already solved by
/// the player or the team, or where every attempt is used.
pub fn check_fix_submit(config: &Option<FixConfig>, solved: bool, used: u64) -> (r: Result<
    (),
    ResponseError,
>)
    ensures
        !fix_enabled(*config) ==> (r matches Err(ResponseError::PreconditionFailed(m)) && m@
            == "this challenge is not a fix challenge"@),
        fix_enabled(*config) && solved ==> (r matches Err(ResponseError::Conflict(m)) && m@
            == "challenge already solved"@),
        fix_enabled(*config) && !solved && used >= config->0.max_attempts ==> (r matches Err(
            ResponseError::PreconditionFailed(m),
        ) && m@ == "fix attempts exhausted"@),
        fix_enabled(*config) && !solved && used < config->0.max_attempts ==> r is Ok,
{
    match config {
        Some(c) => {
            if !c.enabled {
                return Err(precondition_failed("this challenge is not a fix challenge"));
            }
            if solved {
                return Err(conflict("challenge already solved"));
            }
            if used >= c.max_attempts as u64 {
                return Err(precondition_failed("fix attempts exhausted"));
            }
            Ok(())
        },
        None => Err(precondition_failed("this challenge is not a fix challenge")),
    }
}

/// Why a fix check cannot start, if it cannot; otherwise the target port it probes.
pub open spec fn fix_target(config: FixConfig, env: Option<ChallengeEnv>) -> Result<u16, Seq<char>> {
    match env {
        None => Err("fix challenge requires an online environment"@),
        Some(e) => if !(exists|i: int| 0 <= i < e.images@.len() && e.images@[i].port is Some) {
            Err("fix challenge target requires at least one service port"@)
        } else if config.tester is None {
            Err("fix tester image is required"@)
        } else {
            match config.target_port {
                Some(p) => Ok(p),
                None => match first_port(e.images@) {
                    Some(p) => Ok(p),
                    None => Err("fix challenge target port is required"@),
                },
            }
        },
    }
}

/// A fix check can run exactly when the challenge has an environment with at least one
/// exposed port and fix names a tester image; the port probed is then the configured
/// one, else that of the earliest image exposing a port.
pub proof fn lemma_fix_target_port(config: FixConfig, env: Option<ChallengeEnv>)
    ensures
        fix_target(config, env) is Ok <==> (env matches Some(e) && (exists|i: int|
            0 <= i < e.images@.len() && (#[trigger] e.images@[i]).port is Some) && config.tester is Some),
        fix_target(config, env) matches Ok(p) ==> (config.target_port matches Some(q) ==> p == q),
        fix_target(config, env) matches Ok(p) ==> (config.target_port is None ==> (env matches Some(e) && exists|k: int|
            0 <= k < e.images@.len() && (#[trigger] e.images@[k]).port == Some(p) && forall|j: int|
                0 <= j < k ==> (#[trigger] e.images@[j]).port is None)),
{
    if let Some(e) = env {
        crate::cluster::lemma_first_port_is_earliest(e.images@);
        if exists|i: int| 0 <= i < e.images@.len() && (#[trigger] e.images@[i]).port is Some {
            let i = choose|i: int| 0 <= i < e.images@.len() && (#[trigger] e.images@[i]).port is Some;
            assert(first_port(e.images@) is Some);
            lemma_first_port_witness(e.images@);
        }
    }
}

proof fn lemma_first_port_witness(images: Seq<crate::cluster::ImageSpec>)
    requires
        first_port(images) is Some,
    ensures
        exists|k: int|
            0 <= k < images.len() && (#[trigger] images[k]).port == first_port(images) && forall|j: int|
                0 <= j < k ==> (#[trigger] images[j]).port is None,
    decreases images.len(),
{
    if images[0].port is Some {
        assert(images[0].port == first_port(images));
    } else {
        let rest = images.drop_first();
        lemma_first_port_witness(rest);
        let k = choose|k: int|
            0 <= k < rest.len() && (#[trigger] rest[k]).port == first_port(rest) && forall|j: int|
                0 <= j < k ==> (#[trigger] rest[j]).port is None;
        assert(images[k + 1] == rest[k]);
        assert forall|j: int| 0 <= j < k + 1 implies (#[trigger] images[j]).port is None by {
            if j > 0 {
                assert(images[j] == rest[j - 1]);
            }
        }
    }
}

/// Checks that a fix check can run and picks the port the tester probes: the configured
/// one, else the first port the environment exposes.
pub fn plan_fix_target(config: &FixConfig, env: Option<&ChallengeEnv>) -> (r: Result<u16, ResponseError>)
    ensures
        match fix_target(
            *config,
            match env {
                Some(e) => Some(*e),
                None => None,
            },
        ) {
            Ok(p) => r == Ok::<u16, ResponseError>(p),
            Err(m) => r matches Err(ResponseError::PreconditionFailed(s)) && s@ == m,
        },
{
    let e = match env {
        Some(e) => e,
        None => return Err(precondition_failed("fix challenge requires an online environment")),
    };
    if !has_service_port(e) {
        return Err(precondition_failed("fix challenge target requires at least one service port"));
    }
    if config.tester.is_none() {
        return Err(precondition_failed("fix tester image is required"));
    }
    match config.target_port {
        Some(p) => Ok(p),
        None => match first_image_port(&e.images) {
            Some(p) => Ok(p),
            None => Err(precondition_failed("fix challenge target port is required")),
        },
    }
}

/// Where the fix script is placed on the target.
pub const FIX_SCRIPT_PATH: &'static str = "/tmp/ret2shell-fix/fix.sh";

/// The shell command that applies an artifact on the target.
pub open spec fn fix_command_spec(upload_path: Seq<char>, file_name: Seq<char>) -> Seq<char> {
    "chmod +x "@ + shell_quoted(FIX_SCRIPT_PATH@) + " && R2S_FIX_UPLOAD="@ + shell_quoted(
        upload_path,
    ) + " R2S_FIX_ORIGINAL_NAME="@ + shell_quoted(file_name)
        + " R2S_FIX_WORKDIR=/tmp/ret2shell-fix "@ + shell_quoted(FIX_SCRIPT_PATH@)
}

pub fn fix_command(upload_path: &str, file_name: &str) -> (c: String)
    ensures
        c@ == fix_command_spec(upload_path@, file_name@),
{
    let script = shell_quote(FIX_SCRIPT_PATH);
    let mut c = "chmod +x ".to_owned();
    push_str(&mut c, script.as_str());
    push_str(&mut c, " && R2S_FIX_UPLOAD=");
    let u = shell_quote(upload_path);
    push_str(&mut c, u.as_str());
    push_str(&mut c, " R2S_FIX_ORIGINAL_NAME=");
    let f = shell_quote(file_name);
    push_str(&mut c, f.as_str());
    push_str(&mut c, " R2S_FIX_WORKDIR=/tmp/ret2shell-fix ");
    push_str(&mut c, script.as_str());
    c
}

/// The verdict on a fix: accepted only when the tester pod succeeded and its logs report
/// `success_value` for `result_env`; otherwise rejected with what was seen.
pub open spec fn fix_verdict_spec(
    phase: Option<Seq<char>>,
    logs: Seq<char>,
    result_env: Seq<char>,
    success_value: Seq<char>,
) -> (bool, Seq<char>) {
    let v = fix_result(logs, result_env);
    if phase == Some("Succeeded"@) && v == Some(success_value) {
        (true, "fix accepted"@)
    } else {
        (
            false,
            "fix rejected: tester status="@ + (match phase {
                Some(p) => p,
                None => "Unknown"@,
            }) + ", "@ + result_env + "="@ + (match v {
                Some(x) => x,
                None => "<missing>"@,
            }),
        )
    }
}

/// The value read from the logs is that of the latest line reporting one: a line that
/// reports a value with no reporting line after it decides; with no reporting line at all
/// there is no value.
pub proof fn lemma_last_report_wins(lines: Seq<Seq<char>>, prefix: Seq<char>)
    ensures
        forall|k: int|
            0 <= k < lines.len() && (#[trigger] line_result(lines[k], prefix)) is Some && (forall|j: int|
                k < j < lines.len() ==> (#[trigger] line_result(lines[j], prefix)) is None) ==> last_result(
                lines,
                prefix,
            ) == line_result(lines[k], prefix),
        (forall|j: int| 0 <= j < lines.len() ==> (#[trigger] line_result(lines[j], prefix)) is None)
            ==> last_result(lines, prefix) is None,
    decreases lines.len(),
{
    if lines.len() > 0 {
        let init = lines.drop_last();
        lemma_last_report_wins(init, prefix);
        let n = lines.len() - 1;
        assert forall|k: int|
            0 <= k < lines.len() && (#[trigger] line_result(lines[k], prefix)) is Some && (forall|j: int|
                k < j < lines.len() ==> (#[trigger] line_result(lines[j], prefix)) is None) implies last_result(
                lines,
                prefix,
            ) == line_result(lines[k], prefix) by {
            if k < n {
                assert(line_result(lines[n], prefix) is None);
                assert(init[k] == lines[k]);
                assert forall|j: int| k < j < init.len() implies (#[trigger] line_result(init[j], prefix)) is None by {
                    assert(init[j] == lines[j]);
                }
            }
        }
        if forall|j: int| 0 <= j < lines.len() ==> (#[trigger] line_result(lines[j], prefix)) is None {
            assert(line_result(lines[n], prefix) is None);
            assert forall|j: int| 0 <= j < init.len() implies (#[trigger] line_result(init[j], prefix)) is None by {
                assert(init[j] == lines[j]);
            }
        }
    }
}

/// A fix is accepted exactly when the tester pod succeeded and the value its logs report
/// last for `result_env` is `success_value`; a rejection says so, naming the phase and
/// the value seen.
pub proof fn lemma_fix_accepted_only_on_success(
    phase: Option<Seq<char>>,
    logs: Seq<char>,
    result_env: Seq<char>,
    success_value: Seq<char>,
)
    ensures
        fix_verdict_spec(phase, logs, result_env, success_value).0 <==> (phase == Some("Succeeded"@)
            && fix_result(logs, result_env) == Some(success_value)),
        fix_verdict_spec(phase, logs, result_env, success_value).0 ==> fix_verdict_spec(
            phase,
            logs,
            result_env,
            success_value,
        ).1 == "fix accepted"@,
        !fix_verdict_spec(phase, logs, result_env, success_value).0 ==> starts_with(
            fix_verdict_spec(phase, logs, result_env, success_value).1,
            "fix rejected: tester status="@,
        ),
{
    let r = fix_verdict_spec(phase, logs, result_env, success_value);
    if !r.0 {
        let p = "fix rejected: tester status="@;
        assert(r.1.subrange(0, p.len() as int) =~= p);
    }
}

pub fn fix_verdict(phase: Option<&str>, logs: &str, result_env: &str, success_value: &str) -> (r: (
    bool,
    String,
))
    ensures
        (r.0, r.1@) == fix_verdict_spec(
            match phase {
                Some(p) => Some(p@),
                None => None,
            },
            logs@,
            result_env@,
            success_value@,
        ),
{
    let succeeded = match phase {
        Some(p) => crate::text::str_eq(p, "Succeeded"),
        None => false,
    };
    let v = parse_fix_result(logs, result_env);
    let matches = match &v {
        Some(x) => crate::text::str_eq(x.as_str(), success_value),
        None => false,
    };
    proof {
        reveal_strlit("Succeeded");
    }
    if succeeded && matches {
        return (true, "fix accepted".to_owned());
    }
    let mut m = "fix rejected: tester status=".to_owned();
    match phase {
        Some(p) => push_str(&mut m, p),
        None => push_str(&mut m, "Unknown"),
    }
    push_str(&mut m, ", ");
    push_str(&mut m, result_env);
    push_str(&mut m, "=");
    match &v {
        Some(x) => push_str(&mut m, x.as_str()),
        None => push_str(&mut m, "<missing>"),
    }
    (false, m)
}


/// A fix earns a blood bonus when it is among the first three accepted: `decay` is how
/// many teams had solved the challenge, this one included.
pub fn fix_blood_state(decay: u64) -> (b: Option<i32>)
    ensures
        decay <= 3 ==> b == Some(decay as i32),
        decay > 3 ==> b is None,
{
    if decay <= 3 {
        Some(decay as i32)
    } else {
        None
    }
}

/// Whether an accepted fix is scored: the submission was accepted, for a team, and the
/// team had not solved the challenge before.
pub fn fix_scores(solved: bool, has_team: bool, prev_submitted: bool) -> (b: bool)
    ensures
        b == (solved && has_team && !prev_submitted),
{
    solved && has_team && !prev_submitted
}

/// Why a blood bonus for a fix is credited.
pub open spec fn fix_blood_reason_spec(blood: int, challenge_id: int, name: Seq<char>) -> Seq<char> {
    "No."@ + dec_int(blood) + " fix for challenge "@ + dec_int(challenge_id) + ":"@ + name
}

pub fn fix_blood_reason(blood: i32, challenge_id: i64, name: &str) -> (s: String)
    ensures
        s@ == fix_blood_reason_spec(blood as int, challenge_id as int, name@),
{
    let mut s = "No.".to_owned();
    let b = i64_to_string(blood as i64);
    push_str(&mut s, b.as_str());
    push_str(&mut s, " fix for challenge ");
    let c = i64_to_string(challenge_id);
    push_str(&mut s, c.as_str());
    push_str(&mut s, ":");
    push_str(&mut s, name);
    s
}

/// What a fix that failed to run is answered with.
pub fn fix_check_failed(err: &str) -> (r: (bool, String))
    ensures
        !r.0,
        r.1@ == "fix check failed: "@ + err@,
{
    let mut m = "fix check failed: ".to_owned();
    push_str(&mut m, err);
    (false, m)
}

/// What a fix whose script failed on the target is answered with: the script's error
/// output and, where there is one, the reason in brackets.
pub fn fix_script_failed(stderr: &str, reason: Option<&str>) -> (r: (bool, String))
    ensures
        !r.0,
        r.1@ == "fix script failed: "@ + stderr@ + match reason {
            Some(x) => " ("@ + x@ + ")"@,
            None => Seq::<char>::empty(),
        },
{
    let mut m = "fix script failed: ".to_owned();
    push_str(&mut m, stderr);
    let ghost before = m@;
    match reason {
        Some(x) => {
            push_str(&mut m, " (");
            push_str(&mut m, x);
            push_str(&mut m, ")");
        },
        None => {
            proof {
                assert(m@ =~= before + Seq::<char>::empty());
            }
        },
    }
    (false, m)
}

/// What a fix whose upload to the target failed is answered with; `what` names the file.
pub fn fix_upload_failed(what: &str, stderr: &str) -> (r: (bool, String))
    ensures
        !r.0,
        r.1@ == "failed to upload fix "@ + what@ + ": "@ + stderr@,
{
    let mut m = "failed to upload fix ".to_owned();
    push_str(&mut m, what);
    push_str(&mut m, ": ");
    push_str(&mut m, stderr);
    (false, m)
}

/// The name of the tester pod of submission `id`.
pub fn fix_tester_name(id: i64) -> (s: String)
    ensures
        s@ == "ret2shell-fix-test-"@ + dec_int(id as int),
{
    let mut s = "ret2shell-fix-test-".to_owned();
    let n = i64_to_string(id);
    push_str(&mut s, n.as_str());
    s
}

/// The URL the tester probes the patched target at.
pub fn fix_target_url(target: &str, port: u16) -> (s: String)
    ensures
        s@ == "http://"@ + target@ + ":"@ + dec(port as nat),
{
    let mut s = "http://".to_owned();
    push_str(&mut s, target);
    push_str(&mut s, ":");
    let n = u64_to_string(port as u64);
    push_str(&mut s, n.as_str());
    s
}


/// The ids of fix submissions among `rows` form a finite set.
pub proof fn lemma_fix_ids_finite(rows: Seq<SubmissionRow>)
    ensures
        fix_ids(rows).finite(),
{
    let all = rows.map_values(|r: SubmissionRow| r.id).to_set();
    vstd::seq_lib::seq_to_set_is_finite(rows.map_values(|r: SubmissionRow| r.id));
    assert forall|id: i64| fix_ids(rows).contains(id) implies all.contains(id) by {
        let i = choose|i: int| 0 <= i < rows.len() && rows[i].id == id && is_charged(#[trigger] rows[i]);
        assert(rows.map_values(|r: SubmissionRow| r.id)[i] == id);
    }
    vstd::set_lib::lemma_len_subset(fix_ids(rows), all);
}

/// Attempts are charged over the union of a player's and the team's fix submissions, so
/// moving between playing alone and playing in the team never lowers the count: it is
/// at least the player's own and at least the team's.
pub proof fn lemma_attempts_cover_both(user_rows: Seq<SubmissionRow>, team_rows: Seq<SubmissionRow>)
    ensures
        charged_attempts(user_rows, team_rows).finite(),
        charged_attempts(user_rows, team_rows).len() >= fix_ids(user_rows).len(),
        charged_attempts(user_rows, team_rows).len() >= fix_ids(team_rows).len(),
{
    lemma_fix_ids_finite(user_rows);
    lemma_fix_ids_finite(team_rows);
    let u = charged_attempts(user_rows, team_rows);
    vstd::set::axiom_set_union_finite(fix_ids(user_rows), fix_ids(team_rows));
    vstd::set_lib::lemma_len_subset(fix_ids(user_rows), u);
    vstd::set_lib::lemma_len_subset(fix_ids(team_rows), u);
}


/// The verdict recorded for a fix whose check could not be run.
pub fn fix_internal_failure() -> (r: (bool, String))
    ensures
        !r.0,
        r.1@ == FIX_CHECKER_INTERNAL_ERROR@,
{
    (false, FIX_CHECKER_INTERNAL_ERROR.to_owned())
}

} // verus!
