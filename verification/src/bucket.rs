//! Names of bucket directories and of the files kept in them.
use vstd::prelude::*;
use heck::ToSnakeCase;
use crate::error::ResponseError;
use crate::ident::{random_safe, SAFE};
use crate::text::{
    chars_of, dec_int, i64_to_string, lemma_trim_shape, push_str, string_of_range, trim, trim_bounds, trim_ws,
    trimmed, u64_to_string, dec, CharClass,
};

verus! {

/// The ASCII transliteration of `s`, with `tofu` for characters that have none.
pub uninterp spec fn transliterate(s: Seq<char>, tofu: Seq<char>) -> Seq<char>;

/// Calls `deunicode::deunicode_with_tofu`; claims the result is the transliteration of
/// `s` with `tofu` as placeholder and that text made only of characters below `0x7F`
/// comes back unchanged (the function returns such text as it is).
#[verifier::external_body]
fn deunicode_tofu(s: &str, tofu: &str) -> (r: String)
    ensures
        r@ == transliterate(s@, tofu@),
        (forall|i: int| 0 <= i < s@.len() ==> (s@[i] as u32) < 0x7f) ==> r@ == s@,
{
    deunicode::deunicode_with_tofu(s, tofu)
}

/// The snake case form of `s`.
pub uninterp spec fn snake_case(s: Seq<char>) -> Seq<char>;

/// Calls `heck::ToSnakeCase::to_snake_case` on a `str`; claims the result is the snake
/// case form of `s`, that the empty string stays empty, and that no ASCII capital is
/// left (every word is written through `char::to_lowercase`, words are joined by `_`).
#[verifier::external_body]
fn to_snake(s: &str) -> (r: String)
    ensures
        r@ == snake_case(s@),
        s@.len() == 0 ==> r@.len() == 0,
        forall|i: int| 0 <= i < r@.len() ==> !is_ascii_upper(#[trigger] r@[i]),
{
    s.to_snake_case()
}

/// An ASCII capital letter.
pub open spec fn is_ascii_upper(c: char) -> bool {
    'A' <= c && c <= 'Z'
}

/// An ASCII letter or digit.
pub open spec fn is_ascii_alnum(c: char) -> bool {
    ('0' <= c && c <= '9') || ('a' <= c && c <= 'z') || ('A' <= c && c <= 'Z')
}

/// A character as a bucket name keeps it: letters, digits and `_` stay, anything else
/// becomes `_`.
pub open spec fn bucket_char(c: char) -> char {
    if is_ascii_alnum(c) || c == '_' {
        c
    } else {
        '_'
    }
}

/// The bucket name made of an already snake-cased seed: unsafe characters become `_`,
/// leading and trailing `_` go, an empty result becomes `synced_game`, and at most 72
/// characters are kept.
pub open spec fn bucket_seed_of(snake: Seq<char>) -> Seq<char> {
    let t = trim(snake.map_values(|c: char| bucket_char(c)), CharClass::Exactly('_'));
    let u = if t.len() == 0 {
        "synced_game"@
    } else {
        t
    };
    if u.len() > 72 {
        u.take(72)
    } else {
        u
    }
}

pub fn finish_bucket_seed(snake: &str) -> (r: String)
    ensures
        r@ == bucket_seed_of(snake@),
{
    let cs = chars_of(snake);
    let mut mapped: Vec<char> = Vec::new();
    let mut i: usize = 0;
    while i < cs.len()
        invariant
            i <= cs@.len(),
            cs@ == snake@,
            mapped@ == cs@.take(i as int).map_values(|c: char| bucket_char(c)),
        decreases cs.len() - i,
    {
        let c = cs[i];
        let ok = ('0' <= c && c <= '9') || ('a' <= c && c <= 'z') || ('A' <= c && c <= 'Z') || c
            == '_';
        mapped.push(if ok { c } else { '_' });
        proof {
            assert(cs@.take(i + 1).map_values(|c: char| bucket_char(c)) =~= cs@.take(
                i as int,
            ).map_values(|c: char| bucket_char(c)).push(bucket_char(c)));
        }
        i = i + 1;
    }
    proof {
        assert(cs@.take(cs@.len() as int) =~= cs@);
        assert(mapped@.subrange(0, mapped@.len() as int) =~= mapped@);
    }
    let (a, b) = trim_bounds(mapped.as_slice(), 0, mapped.len(), CharClass::Exactly('_'));
    if a == b {
        proof {
            reveal_strlit("synced_game");
        }
        return "synced_game".to_owned();
    }
    let end = if b - a > 72 { a + 72 } else { b };
    proof {
        let t = mapped@.subrange(a as int, b as int);
        if b - a > 72 {
            assert(t.take(72) =~= mapped@.subrange(a as int, end as int));
        }
    }
    string_of_range(mapped.as_slice(), a, end)
}

/// A bucket directory name for a game imported under key `value`.
pub open spec fn bucket_seed(value: Seq<char>) -> Seq<char> {
    bucket_seed_of(snake_case(trim_ws(transliterate(value, "_"@))))
}

pub fn sanitize_bucket_seed(value: &str) -> (r: String)
    ensures
        r@ == bucket_seed(value@),
        forall|i: int| 0 <= i < r@.len() ==> !is_ascii_upper(#[trigger] r@[i]),
        (forall|i: int| 0 <= i < value@.len() ==> (value@[i] as u32) < 0x7f) && trim_ws(value@).len()
            == 0 ==> r@ == "synced_game"@,
{
    let t = deunicode_tofu(value, "_");
    let trimmed_t = trimmed(t.as_str());
    let s = to_snake(trimmed_t.as_str());
    proof {
        lemma_bucket_seed_lowercase(s@);
        reveal_strlit("synced_game");
        if s@.len() == 0 {
            assert(s@.map_values(|c: char| bucket_char(c)) =~= Seq::<char>::empty());
            lemma_trim_shape(Seq::<char>::empty(), CharClass::Exactly('_'));
            let t0 = trim(Seq::<char>::empty(), CharClass::Exactly('_'));
            if t0.len() > 0 {
                assert(exists|j: int| 0 <= j < 0 && Seq::<char>::empty()[j] == t0[0]);
            }
        }
    }
    finish_bucket_seed(s.as_str())
}

/// The `index`-th name tried for a new bucket: the base itself first, then the base
/// with `_1`, `_2` and so on.
pub fn bucket_name_candidate(base: &str, index: u32) -> (r: String)
    ensures
        index == 0 ==> r@ == base@,
        index > 0 ==> r@ == base@ + "_"@ + dec(index as nat),
{
    let mut r = base.to_owned();
    if index > 0 {
        push_str(&mut r, "_");
        let n = u64_to_string(index as u64);
        push_str(&mut r, n.as_str());
    }
    r
}

/// How many suffixed names are tried for a new bucket before a random one is taken.
pub const MAX_BUCKET_CANDIDATES: u32 = 9999;

/// The name taken for a new bucket when every candidate is in use: the base, `_` and the
/// first eight characters of a fresh URL-safe identifier.
pub fn bucket_name_fallback(base: &str) -> (r: String)
    ensures
        r@.len() == base@.len() + 9,
        r@.take(base@.len() as int) == base@,
        r@[base@.len() as int] == '_',
        forall|i: int| base@.len() < i < r@.len() ==> SAFE@.contains(#[trigger] r@[i]),
{
    let id = random_safe(21);
    let cs = chars_of(id.as_str());
    let tail = string_of_range(cs.as_slice(), 0, 8);
    let mut r = base.to_owned();
    push_str(&mut r, "_");
    push_str(&mut r, tail.as_str());
    proof {
        reveal_strlit("_");
        assert(r@ =~= base@ + "_"@ + id@.subrange(0, 8));
        assert(r@.take(base@.len() as int) =~= base@);
        assert forall|i: int| base@.len() < i < r@.len() implies SAFE@.contains(#[trigger] r@[i]) by {
            assert(r@[i] == id@[i - base@.len() - 1]);
        }
    }
    r
}

/// The `index`-th name tried for a new bucket.
pub open spec fn candidate_name(base: Seq<char>, index: nat) -> Seq<char> {
    if index == 0 {
        base
    } else {
        base + "_"@ + dec(index)
    }
}

/// The name of a new bucket, given which of the names tried are in use (`in_use[i]` for
/// the `i`-th candidate, as far as they were probed): the first candidate not in use
/// among the base and its 9999 suffixed forms, else a random name.
pub fn pick_bucket_name(base: &str, in_use: &Vec<bool>) -> (r: String)
    ensures
        forall|k: int|
            0 <= k < in_use@.len() && k <= MAX_BUCKET_CANDIDATES && !in_use@[k] && (forall|j: int|
                0 <= j < k ==> #[trigger] in_use@[j]) ==> r@ == candidate_name(base@, k as nat),
        (forall|j: int| 0 <= j < in_use@.len() && j <= MAX_BUCKET_CANDIDATES ==> #[trigger] in_use@[j])
            ==> {
            &&& r@.len() == base@.len() + 9
            &&& r@.take(base@.len() as int) == base@
            &&& r@[base@.len() as int] == '_'
            &&& forall|i: int| base@.len() < i < r@.len() ==> SAFE@.contains(#[trigger] r@[i])
        },
{
    let mut i: usize = 0;
    while i < in_use.len() && i <= MAX_BUCKET_CANDIDATES as usize
        invariant
            i <= in_use@.len(),
            i <= MAX_BUCKET_CANDIDATES + 1,
            forall|j: int| 0 <= j < i ==> #[trigger] in_use@[j],
        decreases in_use.len() - i,
    {
        if !in_use[i] {
            let r = bucket_name_candidate(base, i as u32);
            proof {
                assert forall|k: int|
                    0 <= k < in_use@.len() && k <= MAX_BUCKET_CANDIDATES && !in_use@[k] && (forall|j: int|
                        0 <= j < k ==> #[trigger] in_use@[j]) implies r@ == candidate_name(base@, k as nat) by {
                    if k < i {
                    } else if k > i {
                        assert(in_use@[i as int]);
                    }
                }
            }
            return r;
        }
        i = i + 1;
    }
    bucket_name_fallback(base)
}

/// The bucket directory of a challenge: its game, its id and its transliterated name.
pub open spec fn challenge_bucket_name(game_id: int, id: int, name: Seq<char>) -> Seq<char> {
    dec_int(game_id) + "_"@ + dec_int(id) + "_"@ + transliterate(name, "[?]"@)
}

pub fn generate_bucket_name_for_challenge(game_id: i64, id: i64, name: &str) -> (r: String)
    ensures
        r@ == challenge_bucket_name(game_id as int, id as int, name@),
{
    let mut r = i64_to_string(game_id);
    push_str(&mut r, "_");
    let i = i64_to_string(id);
    push_str(&mut r, i.as_str());
    push_str(&mut r, "_");
    let t = deunicode_tofu(name, "[?]");
    push_str(&mut r, t.as_str());
    r
}

/// What is kept beside an uploaded attachment: its original name and its hash.
pub struct AttachmentMeta {
    pub name: String,
    pub hash: String,
}

/// The name an attachment is shown under: the uploaded file's name, or the name it is
/// stored under where the upload carried none.
pub fn attachment_meta(upload_name: Option<&str>, stored_name: &str, hash: &str) -> (m: AttachmentMeta)
    ensures
        m.name@ == match upload_name {
            Some(n) => n@,
            None => stored_name@,
        },
        m.hash@ == hash@,
{
    let name = match upload_name {
        Some(n) => n.to_owned(),
        None => stored_name.to_owned(),
    };
    AttachmentMeta { name, hash: hash.to_owned() }
}

/// The file the metadata of a stored attachment is written to.
pub fn attachment_meta_file(stored_name: &str) -> (r: String)
    ensures
        r@ == stored_name@ + ".meta"@,
{
    let mut r = stored_name.to_owned();
    push_str(&mut r, ".meta");
    r
}


/// The bucket keys of a challenge and of its game, which a check needs both of.
pub fn challenge_bucket_keys(
    game_id: i64,
    game_name: &str,
    game_bucket: Option<&str>,
    challenge_id: i64,
    challenge_name: &str,
    challenge_bucket: Option<&str>,
) -> (r: Result<(String, String), ResponseError>)
    ensures
        match (game_bucket, challenge_bucket) {
            (None, _) => r matches Err(ResponseError::PreconditionFailed(m)) && m@ == "game "@
                + dec_int(game_id as int) + ":"@ + game_name@ + " does not have a valid bucket"@,
            (Some(_), None) => r matches Err(ResponseError::PreconditionFailed(m)) && m@
                == "challenge "@ + dec_int(challenge_id as int) + ":"@ + challenge_name@
                + " in game "@ + dec_int(game_id as int) + ":"@ + game_name@
                + " does not have a valid bucket"@,
            (Some(g), Some(c)) => r matches Ok((x, y)) && x@ == g@ && y@ == c@,
        },
{
    let g = match game_bucket {
        Some(g) => g,
        None => {
            let mut m = "game ".to_owned();
            let id = i64_to_string(game_id);
            push_str(&mut m, id.as_str());
            push_str(&mut m, ":");
            push_str(&mut m, game_name);
            push_str(&mut m, " does not have a valid bucket");
            return Err(ResponseError::PreconditionFailed(m));
        },
    };
    match challenge_bucket {
        Some(c) => Ok((g.to_owned(), c.to_owned())),
        None => {
            let mut m = "challenge ".to_owned();
            let cid = i64_to_string(challenge_id);
            push_str(&mut m, cid.as_str());
            push_str(&mut m, ":");
            push_str(&mut m, challenge_name);
            push_str(&mut m, " in game ");
            let gid = i64_to_string(game_id);
            push_str(&mut m, gid.as_str());
            push_str(&mut m, ":");
            push_str(&mut m, game_name);
            push_str(&mut m, " does not have a valid bucket");
            Err(ResponseError::PreconditionFailed(m))
        },
    }
}

/// The same keys as the round workers ask for them, with shorter messages.
pub fn worker_bucket_keys(
    game_id: i64,
    game_bucket: Option<&str>,
    challenge_id: i64,
    challenge_bucket: Option<&str>,
) -> (r: Result<(String, String), ResponseError>)
    ensures
        match (game_bucket, challenge_bucket) {
            (None, _) => r matches Err(ResponseError::PreconditionFailed(m)) && m@ == "game "@
                + dec_int(game_id as int) + " has no bucket"@,
            (Some(_), None) => r matches Err(ResponseError::PreconditionFailed(m)) && m@
                == "challenge "@ + dec_int(challenge_id as int) + " has no bucket"@,
            (Some(g), Some(c)) => r matches Ok((x, y)) && x@ == g@ && y@ == c@,
        },
{
    let g = match game_bucket {
        Some(g) => g,
        None => {
            let mut m = "game ".to_owned();
            let id = i64_to_string(game_id);
            push_str(&mut m, id.as_str());
            push_str(&mut m, " has no bucket");
            return Err(ResponseError::PreconditionFailed(m));
        },
    };
    match challenge_bucket {
        Some(c) => Ok((g.to_owned(), c.to_owned())),
        None => {
            let mut m = "challenge ".to_owned();
            let cid = i64_to_string(challenge_id);
            push_str(&mut m, cid.as_str());
            push_str(&mut m, " has no bucket");
            Err(ResponseError::PreconditionFailed(m))
        },
    }
}


/// A seed with no ASCII capital gives a bucket name with none.
pub proof fn lemma_bucket_seed_lowercase(snake: Seq<char>)
    requires
        forall|i: int| 0 <= i < snake.len() ==> !is_ascii_upper(#[trigger] snake[i]),
    ensures
        forall|i: int|
            0 <= i < bucket_seed_of(snake).len() ==> !is_ascii_upper(#[trigger] bucket_seed_of(snake)[i]),
{
    let m = snake.map_values(|c: char| bucket_char(c));
    let t = trim(m, CharClass::Exactly('_'));
    lemma_trim_shape(m, CharClass::Exactly('_'));
    reveal_strlit("synced_game");
    let u = if t.len() == 0 {
        "synced_game"@
    } else {
        t
    };
    assert forall|i: int| 0 <= i < u.len() implies !is_ascii_upper(#[trigger] u[i]) by {
        if t.len() > 0 {
            let j = choose|j: int| 0 <= j < m.len() && m[j] == t[i];
            assert(m[j] == bucket_char(snake[j]));
        }
    }
    let r = bucket_seed_of(snake);
    assert forall|i: int| 0 <= i < r.len() implies !is_ascii_upper(#[trigger] r[i]) by {
        assert(r[i] == u[i]);
    }
}

/// A bucket name is always usable as a directory name: between 1 and 72 characters, all
/// ASCII letters, digits or `_`, and not starting with `_`.
pub proof fn lemma_bucket_seed_safe(snake: Seq<char>)
    ensures
        1 <= bucket_seed_of(snake).len() <= 72,
        forall|i: int|
            0 <= i < bucket_seed_of(snake).len() ==> is_ascii_alnum(#[trigger] bucket_seed_of(snake)[i])
                || bucket_seed_of(snake)[i] == '_',
        bucket_seed_of(snake)[0] != '_',
{
    let m = snake.map_values(|c: char| bucket_char(c));
    let t = trim(m, CharClass::Exactly('_'));
    lemma_trim_shape(m, CharClass::Exactly('_'));
    reveal_strlit("synced_game");
    let u = if t.len() == 0 {
        "synced_game"@
    } else {
        t
    };
    assert forall|i: int| 0 <= i < u.len() implies is_ascii_alnum(#[trigger] u[i]) || u[i] == '_' by {
        if t.len() > 0 {
            let j = choose|j: int| 0 <= j < m.len() && m[j] == t[i];
            assert(m[j] == bucket_char(snake[j]));
        }
    }
    let r = bucket_seed_of(snake);
    assert forall|i: int| 0 <= i < r.len() implies is_ascii_alnum(#[trigger] r[i]) || r[i] == '_' by {
        assert(r[i] == u[i]);
    }
    assert(r[0] == u[0]);
}

} // verus!
