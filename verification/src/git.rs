//! The smart HTTP git endpoints of a game's repository: which services they serve, the
//! headers they check and the framing they answer with.
use vstd::prelude::*;
use crate::error::{bad_request, ResponseError};
use crate::text::{push_str, split_on, str_eq};

verus! {

/// An ASCII letter or digit.
pub open spec fn is_alnum(c: char) -> bool {
    ('0' <= c && c <= '9') || ('a' <= c && c <= 'z') || ('A' <= c && c <= 'Z')
}

/// `key=value` with a non-empty alphanumeric key and value.
pub open spec fn protocol_pair(p: Seq<char>) -> bool {
    exists|i: int|
        0 < i < p.len() - 1 && p[i] == '=' && forall|j: int|
            0 <= j < p.len() && j != i ==> is_alnum(#[trigger] p[j])
}

/// A `Git-Protocol` header that is safe to hand to git: one or more `key=value` pairs
/// joined by `:`.
pub open spec fn safe_protocol(s: Seq<char>) -> bool {
    forall|k: int| 0 <= k < split_on(s, ':').len() ==> protocol_pair(#[trigger] split_on(s, ':')[k])
}

/// The form of a `Git-Protocol` value that is passed on: `key=value` pairs of letters and
/// digits joined by `:`.
pub const GIT_PROTOCOL_PATTERN: &'static str = r"^[0-9a-zA-Z]+=[0-9a-zA-Z]+(:[0-9a-zA-Z]+=[0-9a-zA-Z]+)*$";

/// Calls `regex::Regex::new` on `pattern`, which must be `GIT_PROTOCOL_PATTERN`, and
/// `Regex::is_match` on `protocol`; claims the match succeeds exactly on the language
/// that pattern denotes, stated by `safe_protocol` (`$` is the end of the text in this
/// crate's syntax). That pattern is valid, so building it does not fail.
#[verifier::external_body]
fn protocol_pattern_matches(pattern: &str, protocol: &str) -> (b: bool)
    requires
        pattern@ == GIT_PROTOCOL_PATTERN@,
    ensures
        b == safe_protocol(protocol@),
{
    regex::Regex::new(pattern).unwrap().is_match(protocol)
}

/// Whether a `Git-Protocol` value is safe to pass on.
pub fn check_git_protocol_safe(protocol: &str) -> (b: bool)
    ensures
        b == safe_protocol(protocol@),
{
    protocol_pattern_matches(GIT_PROTOCOL_PATTERN, protocol)
}

/// The protocol to run git with, from the `Git-Protocol` header: `None` when the header
/// is absent, `Some(None)` when its value is not visible ASCII text.
pub fn get_protocol(header: Option<Option<&str>>) -> (r: Result<String, ResponseError>)
    ensures
        match header {
            None => r matches Ok(p) && p@.len() == 0,
            Some(None) => r matches Err(ResponseError::BadRequest(m)) && m@ == "invalid git protocol"@,
            Some(Some(p)) => if safe_protocol(p@) {
                r matches Ok(q) && q@ == p@
            } else {
                r matches Err(ResponseError::BadRequest(m)) && m@ == "invalid git protocol"@
            },
        },
{
    match header {
        None => Ok(String::new()),
        Some(None) => Err(bad_request("invalid git protocol")),
        Some(Some(p)) => {
            if check_git_protocol_safe(p) {
                Ok(p.to_owned())
            } else {
                Err(bad_request("invalid git protocol"))
            }
        },
    }
}

/// The git services a repository answers.
#[derive(Clone, Copy, Debug, PartialEq, Eq, Structural)]
pub enum GitService {
    UploadPack,
    ReceivePack,
}

pub open spec fn service_name(s: GitService) -> Seq<char> {
    match s {
        GitService::UploadPack => "upload-pack"@,
        GitService::ReceivePack => "receive-pack"@,
    }
}

/// The service a request names; any other name is refused.
pub fn parse_service(name: &str) -> (r: Result<GitService, ResponseError>)
    ensures
        name@ == "upload-pack"@ ==> r == Ok::<GitService, ResponseError>(GitService::UploadPack),
        name@ == "receive-pack"@ ==> r == Ok::<GitService, ResponseError>(GitService::ReceivePack),
        name@ != "upload-pack"@ && name@ != "receive-pack"@ ==> (r matches Err(
            ResponseError::BadRequest(m),
        ) && m@ == "Invalid git service"@),
{
    proof {
        reveal_strlit("upload-pack");
        reveal_strlit("receive-pack");
        assert("upload-pack"@[0] != "receive-pack"@[0]);
    }
    if str_eq(name, "upload-pack") {
        Ok(GitService::UploadPack)
    } else if str_eq(name, "receive-pack") {
        Ok(GitService::ReceivePack)
    } else {
        Err(bad_request("Invalid git service"))
    }
}

fn push_service(s: &mut String, service: GitService)
    ensures
        final(s)@ == old(s)@ + service_name(service),
{
    match service {
        GitService::UploadPack => push_str(s, "upload-pack"),
        GitService::ReceivePack => push_str(s, "receive-pack"),
    }
}

/// `application/x-git-<service>-<suffix>`.
pub open spec fn git_content_type(service: GitService, suffix: Seq<char>) -> Seq<char> {
    "application/x-git-"@ + service_name(service) + "-"@ + suffix
}

fn content_type(service: GitService, suffix: &str) -> (s: String)
    ensures
        s@ == git_content_type(service, suffix@),
{
    let mut s = "application/x-git-".to_owned();
    push_service(&mut s, service);
    push_str(&mut s, "-");
    push_str(&mut s, suffix);
    s
}

/// The content type of a service's ref advertisement.
pub fn advertisement_content_type(service: GitService) -> (s: String)
    ensures
        s@ == git_content_type(service, "advertisement"@),
{
    content_type(service, "advertisement")
}

/// The content type of a service's result.
pub fn result_content_type(service: GitService) -> (s: String)
    ensures
        s@ == git_content_type(service, "result"@),
{
    content_type(service, "result")
}

/// Checks the content type of an RPC request: it must be present (`Some`), readable
/// (`Some(Some(..))`) and the one the service expects.
pub fn check_rpc_content_type(service: GitService, header: Option<Option<&str>>) -> (r: Result<
    (),
    ResponseError,
>)
    ensures
        match header {
            None => r matches Err(ResponseError::BadRequest(m)) && m@
                == "missing content type for git rpc"@,
            Some(Some(c)) => if c@ == git_content_type(service, "request"@) {
                r is Ok
            } else {
                r matches Err(ResponseError::BadRequest(m)) && m@
                    == "invalid content type for git rpc"@
            },
            Some(None) => r matches Err(ResponseError::BadRequest(m)) && m@
                == "invalid content type for git rpc"@,
        },
{
    match header {
        None => Err(bad_request("missing content type for git rpc")),
        Some(None) => Err(bad_request("invalid content type for git rpc")),
        Some(Some(c)) => {
            let expected = content_type(service, "request");
            if str_eq(c, expected.as_str()) {
                Ok(())
            } else {
                Err(bad_request("invalid content type for git rpc"))
            }
        },
    }
}

/// Lower-case hexadecimal digit of `d < 16`.
pub open spec fn hex_char(d: int) -> char {
    if d < 10 {
        (d + 48) as char
    } else {
        (d + 87) as char
    }
}

/// `n < 65536` as four lower-case hexadecimal digits.
pub open spec fn hex4(n: int) -> Seq<char> {
    seq![hex_char(n / 4096), hex_char((n / 256) % 16), hex_char((n / 16) % 16), hex_char(n % 16)]
}

/// A git pkt-line: the line's length in bytes plus four, in four hexadecimal digits,
/// then the line (for ASCII text a character is a byte).
pub open spec fn pkt_line(line: Seq<char>) -> Seq<char> {
    hex4(line.len() + 4int) + line
}

fn hex_char_exec(d: u32) -> (c: char)
    requires
        d < 16,
    ensures
        c == hex_char(d as int),
{
    if d < 10 {
        ((d + 48) as u8) as char
    } else {
        ((d + 87) as u8) as char
    }
}

/// The first lines of a ref advertisement: the service announcement as a pkt-line,
/// then a flush packet.
pub open spec fn advertisement_prefix_spec(service: GitService) -> Seq<char> {
    pkt_line("# service=git-"@ + service_name(service) + "\n"@) + "0000"@
}

pub fn advertisement_prefix(service: GitService) -> (s: String)
    ensures
        s@ == advertisement_prefix_spec(service),
{
    let mut line = "# service=git-".to_owned();
    push_service(&mut line, service);
    push_str(&mut line, "\n");
    proof {
        reveal_strlit("# service=git-");
        reveal_strlit("upload-pack");
        reveal_strlit("receive-pack");
        reveal_strlit("\n");
    }
    let n: u32 = match service {
        GitService::UploadPack => 30,
        GitService::ReceivePack => 31,
    };
    assert(n == line@.len() + 4);
    let mut s = String::new();
    s.push(hex_char_exec(n / 4096));
    s.push(hex_char_exec((n / 256) % 16));
    s.push(hex_char_exec((n / 16) % 16));
    s.push(hex_char_exec(n % 16));
    push_str(&mut s, line.as_str());
    push_str(&mut s, "0000");
    proof {
        assert(s@ =~= advertisement_prefix_spec(service));
    }
    s
}

/// Pushing to a game's repository over HTTP is not offered.
pub fn receive_pack_refusal() -> (e: ResponseError)
    ensures
        e matches ResponseError::Gone(m) && m@ == "this feature is not implemented"@,
{
    ResponseError::Gone("this feature is not implemented".to_owned())
}

} // verus!
