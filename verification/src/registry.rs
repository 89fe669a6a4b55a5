//! Game registries: git repositories in which instances publish their releases. This
//! module holds what the server asks git to do with a registry checkout.
use vstd::prelude::*;
use vstd::string::StringSliceAdditionalSpecFns;
use vstd::utf8::is_char_boundary;
use crate::sync::short_release_id;
use crate::text::{dec_int, i64_to_string, push_str, str_eq, trim_ws, trimmed};

verus! {

/// The texts of a list of strings.
pub open spec fn texts(v: Seq<String>) -> Seq<Seq<char>> {
    v.map_values(|s: String| s@)
}

/// Refuses to publish to a registry source that does not take publications.
pub fn check_publish_enabled(enabled: bool, name: &str) -> (r: Result<(), String>)
    ensures
        enabled ==> r is Ok,
        !enabled ==> (r matches Err(m) && m@ == "registry source "@ + name@
            + " is not publish-enabled"@),
{
    if enabled {
        return Ok(());
    }
    let mut m = "registry source ".to_owned();
    push_str(&mut m, name);
    push_str(&mut m, " is not publish-enabled");
    Err(m)
}

/// The git arguments that clone a registry's branch into `dir`.
pub fn registry_clone_args(branch: &str, git_url: &str, dir: &str) -> (v: Vec<String>)
    ensures
        texts(v@) == seq!["clone"@, "--branch"@, branch@, "--single-branch"@, git_url@, dir@],
{
    let mut v: Vec<String> = Vec::new();
    v.push("clone".to_owned());
    v.push("--branch".to_owned());
    v.push(branch.to_owned());
    v.push("--single-branch".to_owned());
    v.push(git_url.to_owned());
    v.push(dir.to_owned());
    proof {
        assert(texts(v@) =~= seq!["clone"@, "--branch"@, branch@, "--single-branch"@, git_url@, dir@]);
    }
    v
}

/// The git commands, in order, that bring an existing checkout up to a registry's branch:
/// point `origin` at the URL, fetch the branch, and reset the local branch to it.
pub fn registry_refresh_commands(branch: &str, git_url: &str) -> (v: Vec<Vec<String>>)
    ensures
        v@.len() == 3,
        texts(v@[0]@) == seq!["remote"@, "set-url"@, "origin"@, git_url@],
        texts(v@[1]@) == seq!["fetch"@, "origin"@, branch@, "--prune"@],
        texts(v@[2]@) == seq!["checkout"@, "-B"@, branch@, "origin/"@ + branch@],
{
    let mut a: Vec<String> = Vec::new();
    a.push("remote".to_owned());
    a.push("set-url".to_owned());
    a.push("origin".to_owned());
    a.push(git_url.to_owned());
    let mut b: Vec<String> = Vec::new();
    b.push("fetch".to_owned());
    b.push("origin".to_owned());
    b.push(branch.to_owned());
    b.push("--prune".to_owned());
    let mut c: Vec<String> = Vec::new();
    c.push("checkout".to_owned());
    c.push("-B".to_owned());
    c.push(branch.to_owned());
    let mut o = "origin/".to_owned();
    push_str(&mut o, branch);
    c.push(o);
    proof {
        assert(texts(a@) =~= seq!["remote"@, "set-url"@, "origin"@, git_url@]);
        assert(texts(b@) =~= seq!["fetch"@, "origin"@, branch@, "--prune"@]);
        assert(texts(c@) =~= seq!["checkout"@, "-B"@, branch@, "origin/"@ + branch@]);
    }
    let mut v: Vec<Vec<String>> = Vec::new();
    v.push(a);
    v.push(b);
    v.push(c);
    v
}

/// The file a release's manifest is published as.
pub fn release_file_name(release_id: &str) -> (s: String)
    ensures
        s@ == release_id@ + ".toml"@,
{
    let mut s = release_id.to_owned();
    push_str(&mut s, ".toml");
    s
}

/// The file an upstream advertisement published at `millis` is written to.
pub fn upstream_file_name(millis: i64) -> (s: String)
    ensures
        s@ == dec_int(millis as int) + ".toml"@,
{
    let mut s = i64_to_string(millis);
    push_str(&mut s, ".toml");
    s
}

/// Whether a release's manifest still has to be written: not when the file exists with
/// the same content; an existing file with other content is refused.
pub fn release_write_needed(existing: Option<&str>, body: &str, path: &str) -> (r: Result<bool, String>)
    ensures
        match existing {
            None => r == Ok::<bool, String>(true),
            Some(e) => if e@ == body@ {
                r == Ok::<bool, String>(false)
            } else {
                r matches Err(m) && m@ == "release file "@ + path@
                    + " already exists with different content"@
            },
        },
{
    match existing {
        None => Ok(true),
        Some(e) => {
            if str_eq(e, body) {
                Ok(false)
            } else {
                let mut m = "release file ".to_owned();
                push_str(&mut m, path);
                push_str(&mut m, " already exists with different content");
                Err(m)
            }
        },
    }
}

/// Whether `git status --porcelain` reports anything to commit.
pub fn has_changes(status: &str) -> (b: bool)
    ensures
        b == (trim_ws(status@).len() > 0),
{
    !trimmed(status).as_str().is_empty()
}

/// The length of a release id's short form, in bytes.
pub open spec fn short_len(release_id: &str) -> int {
    if release_id.spec_bytes().len() < 12 {
        release_id.spec_bytes().len() as int
    } else {
        12
    }
}

/// The git arguments of the commit that publishes a release.
pub fn publish_commit_args(game_key: &str, release_id: &str) -> (v: Vec<String>)
    requires
        release_id.spec_bytes().len() <= usize::MAX,
        is_char_boundary(release_id.spec_bytes(), short_len(release_id)),
    ensures
        v@.len() == 5,
        texts(v@.take(4)) == seq!["commit"@, "--author"@, "platform <platform@private.ret.sh.cn>"@, "-m"@],
        exists|short: &str|
            short.spec_bytes() == release_id.spec_bytes().take(short_len(release_id)) && v@[4]@
                == ":sparkles: publish release "@ + game_key@ + "@"@ + short@,
{
    let short = short_release_id(release_id);
    let mut m = ":sparkles: publish release ".to_owned();
    push_str(&mut m, game_key);
    push_str(&mut m, "@");
    push_str(&mut m, short);
    let mut v: Vec<String> = Vec::new();
    v.push("commit".to_owned());
    v.push("--author".to_owned());
    v.push("platform <platform@private.ret.sh.cn>".to_owned());
    v.push("-m".to_owned());
    v.push(m);
    proof {
        assert(texts(v@.take(4)) =~= seq![
            "commit"@,
            "--author"@,
            "platform <platform@private.ret.sh.cn>"@,
            "-m"@,
        ]);
    }
    v
}

/// The git arguments that push the published commit to the registry's branch.
pub fn publish_push_args(branch: &str) -> (v: Vec<String>)
    ensures
        texts(v@) == seq!["push"@, "origin"@, "HEAD:"@ + branch@],
{
    let mut r = "HEAD:".to_owned();
    push_str(&mut r, branch);
    let mut v: Vec<String> = Vec::new();
    v.push("push".to_owned());
    v.push("origin".to_owned());
    v.push(r);
    proof {
        assert(texts(v@) =~= seq!["push"@, "origin"@, "HEAD:"@ + branch@]);
    }
    v
}


/// Whether an update moves a registry source to another repository or branch, which
/// discards its checkout and its fetch state.
pub fn source_location_changed(prev_url: &str, prev_branch: &str, url: &str, branch: &str) -> (b: bool)
    ensures
        b == (prev_url@ != url@ || prev_branch@ != branch@),
{
    !str_eq(prev_url, url) || !str_eq(prev_branch, branch)
}

} // verus!
