//! Where the server keeps its working files, as paths joined the way `PathBuf::push`
//! joins them on Unix.
use vstd::prelude::*;
use crate::text::{chars_of, dec_int, i64_to_string, push_str, starts_with, starts_with_exec};

verus! {

/// `base` joined with `seg`: an absolute `seg` replaces `base`; otherwise a `/` is put
/// between them unless `base` is empty or already ends with one.
pub open spec fn join(base: Seq<char>, seg: Seq<char>) -> Seq<char> {
    if starts_with(seg, "/"@) {
        seg
    } else if base.len() == 0 || base.last() == '/' {
        base + seg
    } else {
        base + seq!['/'] + seg
    }
}

/// Joins `seg` onto `base`.
pub fn path_join(base: &str, seg: &str) -> (p: String)
    ensures
        p@ == join(base@, seg@),
{
    if starts_with_exec(seg, "/") {
        return seg.to_owned();
    }
    let cs = chars_of(base);
    let mut p = base.to_owned();
    if cs.len() > 0 && cs[cs.len() - 1] != '/' {
        p.push('/');
    }
    push_str(&mut p, seg);
    p
}

/// The directory an uploaded fix artifact is kept in, under the system's temporary
/// directory `temp_dir`.
pub open spec fn fix_upload_dir_spec(temp_dir: Seq<char>, token: Seq<char>) -> Seq<char> {
    join(join(join(temp_dir, "ret2shell"@), "fix"@), token)
}

pub fn fix_upload_dir(temp_dir: &str, token: &str) -> (p: String)
    ensures
        p@ == fix_upload_dir_spec(temp_dir@, token@),
{
    let a = path_join(temp_dir, "ret2shell");
    let b = path_join(a.as_str(), "fix");
    path_join(b.as_str(), token)
}

/// The file an uploaded fix artifact is stored as.
pub fn fix_upload_path(temp_dir: &str, token: &str) -> (p: String)
    ensures
        p@ == join(fix_upload_dir_spec(temp_dir@, token@), "upload"@),
{
    let d = fix_upload_dir(temp_dir, token);
    path_join(d.as_str(), "upload")
}

/// The sync workspace, inside the bucket directory; without a bucket configuration there
/// is none.
pub fn sync_root(bucket_path: Option<&str>) -> (r: Result<String, String>)
    ensures
        match bucket_path {
            None => r matches Err(m) && m@ == "bucket configuration not found"@,
            Some(b) => r matches Ok(p) && p@ == join(b@, ".sync"@),
        },
{
    match bucket_path {
        None => Err("bucket configuration not found".to_owned()),
        Some(b) => Ok(path_join(b, ".sync")),
    }
}

/// The checkout of registry source `source_id`.
pub fn source_cache_dir(bucket_path: Option<&str>, source_id: i64) -> (r: Result<String, String>)
    ensures
        match bucket_path {
            None => r matches Err(m) && m@ == "bucket configuration not found"@,
            Some(b) => r matches Ok(p) && p@ == join(
                join(join(b@, ".sync"@), "sources"@),
                dec_int(source_id as int),
            ),
        },
{
    let root = sync_root(bucket_path)?;
    let sources = path_join(root.as_str(), "sources");
    let id = i64_to_string(source_id);
    Ok(path_join(sources.as_str(), id.as_str()))
}

/// The scratch directory of sync job `job_id`.
pub fn job_workspace_dir(bucket_path: Option<&str>, job_id: &str) -> (r: Result<String, String>)
    ensures
        match bucket_path {
            None => r matches Err(m) && m@ == "bucket configuration not found"@,
            Some(b) => r matches Ok(p) && p@ == join(join(join(b@, ".sync"@), "jobs"@), job_id@),
        },
{
    let root = sync_root(bucket_path)?;
    let jobs = path_join(root.as_str(), "jobs");
    Ok(path_join(jobs.as_str(), job_id))
}

} // verus!
