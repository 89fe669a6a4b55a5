//! Character-level text primitives with their mathematical meaning.
use vstd::prelude::*;

verus! {

/// `String::push` appends one character: the text afterwards is the text before with
/// `ch` at its end.
pub assume_specification[ String::push ](s: &mut String, ch: char)
    ensures
        final(s)@ == old(s)@.push(ch),
;

/// Unicode `White_Space`, the set that `char::is_whitespace` and `str::trim` use.
pub open spec fn is_ws(c: char) -> bool {
    ||| ('\u{9}' <= c && c <= '\u{d}')
    ||| c == ' '
    ||| c == '\u{85}'
    ||| c == '\u{a0}'
    ||| c == '\u{1680}'
    ||| ('\u{2000}' <= c && c <= '\u{200a}')
    ||| c == '\u{2028}'
    ||| c == '\u{2029}'
    ||| c == '\u{202f}'
    ||| c == '\u{205f}'
    ||| c == '\u{3000}'
}

/// Which characters a trim removes.
#[derive(Clone, Copy)]
pub enum CharClass {
    Whitespace,
    Exactly(char),
}

pub open spec fn in_class(cls: CharClass, c: char) -> bool {
    match cls {
        CharClass::Whitespace => is_ws(c),
        CharClass::Exactly(x) => c == x,
    }
}

pub fn is_whitespace(c: char) -> (b: bool)
    ensures
        b == is_ws(c),
{
    ('\u{9}' <= c && c <= '\u{d}') || c == ' ' || c == '\u{85}' || c == '\u{a0}' || c
        == '\u{1680}' || ('\u{2000}' <= c && c <= '\u{200a}') || c == '\u{2028}' || c
        == '\u{2029}' || c == '\u{202f}' || c == '\u{205f}' || c == '\u{3000}'
}

pub fn class_has(cls: CharClass, c: char) -> (b: bool)
    ensures
        b == in_class(cls, c),
{
    match cls {
        CharClass::Whitespace => is_whitespace(c),
        CharClass::Exactly(x) => c == x,
    }
}

/// Number of leading characters of `s` in `cls`.
pub open spec fn lead_len(s: Seq<char>, cls: CharClass) -> nat
    decreases s.len(),
{
    if s.len() > 0 && in_class(cls, s[0]) {
        1 + lead_len(s.drop_first(), cls)
    } else {
        0
    }
}

/// Number of trailing characters of `s` in `cls`.
pub open spec fn trail_len(s: Seq<char>, cls: CharClass) -> nat
    decreases s.len(),
{
    if s.len() > 0 && in_class(cls, s.last()) {
        1 + trail_len(s.drop_last(), cls)
    } else {
        0
    }
}

pub open spec fn trim_start(s: Seq<char>, cls: CharClass) -> Seq<char> {
    s.skip(lead_len(s, cls) as int)
}

pub open spec fn trim_end(s: Seq<char>, cls: CharClass) -> Seq<char> {
    s.take(s.len() - trail_len(s, cls))
}

/// `str::trim` (with `Whitespace`) and `str::trim_matches(c)` (with `Exactly(c)`).
pub open spec fn trim(s: Seq<char>, cls: CharClass) -> Seq<char> {
    trim_end(trim_start(s, cls), cls)
}

pub open spec fn trim_ws(s: Seq<char>) -> Seq<char> {
    trim(s, CharClass::Whitespace)
}

pub proof fn lemma_lead_len_bound(s: Seq<char>, cls: CharClass)
    ensures
        lead_len(s, cls) <= s.len(),
    decreases s.len(),
{
    if s.len() > 0 && in_class(cls, s[0]) {
        lemma_lead_len_bound(s.drop_first(), cls);
    }
}

pub proof fn lemma_trail_len_bound(s: Seq<char>, cls: CharClass)
    ensures
        trail_len(s, cls) <= s.len(),
    decreases s.len(),
{
    if s.len() > 0 && in_class(cls, s.last()) {
        lemma_trail_len_bound(s.drop_last(), cls);
    }
}

pub proof fn lemma_trim_len(s: Seq<char>, cls: CharClass)
    ensures
        trim(s, cls).len() <= s.len(),
{
    lemma_lead_len_bound(s, cls);
    lemma_trail_len_bound(trim_start(s, cls), cls);
}

/// The first character left by a trim is not in the trimmed class, and every
/// character left was in the text.
pub proof fn lemma_trim_shape(s: Seq<char>, cls: CharClass)
    ensures
        trim(s, cls).len() > 0 ==> !in_class(cls, trim(s, cls)[0]),
        trim(s, cls).len() > 0 ==> !in_class(cls, trim(s, cls).last()),
        forall|i: int|
            0 <= i < trim(s, cls).len() ==> exists|j: int| 0 <= j < s.len() && s[j] == #[trigger] trim(s, cls)[i],
{
    lemma_lead_len_bound(s, cls);
    let l = lead_len(s, cls) as int;
    let u = trim_start(s, cls);
    lemma_trail_len_bound(u, cls);
    let t = trail_len(u, cls) as int;
    let r = trim(s, cls);
    assert(r == u.take(u.len() - t));
    if r.len() > 0 {
        lemma_lead_stop(s, cls);
        lemma_trail_stop(u, cls);
        assert(r[0] == s[l]);
        assert(r.last() == u[u.len() - 1 - t]);
    }
    assert forall|i: int| 0 <= i < r.len() implies exists|j: int| 0 <= j < s.len() && s[j] == #[trigger] r[i] by {
        assert(r[i] == s[l + i]);
    }
}

proof fn lemma_lead_stop(s: Seq<char>, cls: CharClass)
    ensures
        lead_len(s, cls) < s.len() ==> !in_class(cls, s[lead_len(s, cls) as int]),
    decreases s.len(),
{
    if s.len() > 0 && in_class(cls, s[0]) {
        lemma_lead_stop(s.drop_first(), cls);
    }
}

proof fn lemma_trail_stop(s: Seq<char>, cls: CharClass)
    ensures
        trail_len(s, cls) < s.len() ==> !in_class(cls, s[s.len() - 1 - trail_len(s, cls)]),
    decreases s.len(),
{
    if s.len() > 0 && in_class(cls, s.last()) {
        lemma_trail_stop(s.drop_last(), cls);
    }
}

/// Index of the first character at or after `lo` (and before `hi`) that is not in `cls`.
fn skip_class_forward(cs: &[char], lo: usize, hi: usize, cls: CharClass) -> (i: usize)
    requires
        lo <= hi <= cs@.len(),
    ensures
        lo <= i <= hi,
        i - lo == lead_len(cs@.subrange(lo as int, hi as int), cls),
{
    let mut i = lo;
    while i < hi && class_has(cls, cs[i])
        invariant
            lo <= i <= hi <= cs@.len(),
            lead_len(cs@.subrange(lo as int, hi as int), cls) == (i - lo) + lead_len(
                cs@.subrange(i as int, hi as int),
                cls,
            ),
        decreases hi - i,
    {
        proof {
            let t = cs@.subrange(i as int, hi as int);
            assert(t.drop_first() =~= cs@.subrange(i + 1, hi as int));
        }
        i = i + 1;
    }
    i
}

/// Index just past the last character before `hi` (and at or after `lo`) not in `cls`.
fn skip_class_backward(cs: &[char], lo: usize, hi: usize, cls: CharClass) -> (j: usize)
    requires
        lo <= hi <= cs@.len(),
    ensures
        lo <= j <= hi,
        hi - j == trail_len(cs@.subrange(lo as int, hi as int), cls),
{
    let mut j = hi;
    while j > lo && class_has(cls, cs[j - 1])
        invariant
            lo <= j <= hi <= cs@.len(),
            trail_len(cs@.subrange(lo as int, hi as int), cls) == (hi - j) + trail_len(
                cs@.subrange(lo as int, j as int),
                cls,
            ),
        decreases j - lo,
    {
        proof {
            let t = cs@.subrange(lo as int, j as int);
            assert(t.drop_last() =~= cs@.subrange(lo as int, j - 1));
        }
        j = j - 1;
    }
    j
}

/// Bounds of `trim(cs[lo..hi], cls)` inside `cs`.
pub fn trim_bounds(cs: &[char], lo: usize, hi: usize, cls: CharClass) -> (r: (usize, usize))
    requires
        lo <= hi <= cs@.len(),
    ensures
        lo <= r.0 <= r.1 <= hi,
        cs@.subrange(r.0 as int, r.1 as int) == trim(cs@.subrange(lo as int, hi as int), cls),
{
    let a = skip_class_forward(cs, lo, hi, cls);
    let b = skip_class_backward(cs, a, hi, cls);
    proof {
        let s = cs@.subrange(lo as int, hi as int);
        assert(s.skip(a - lo) =~= cs@.subrange(a as int, hi as int));
        let t = cs@.subrange(a as int, hi as int);
        assert(t.take(t.len() - (hi - b)) =~= cs@.subrange(a as int, b as int));
    }
    (a, b)
}

/// The characters of `s`, in order.
pub fn chars_of(s: &str) -> (v: Vec<char>)
    ensures
        v@ == s@,
{
    let mut v: Vec<char> = Vec::new();
    for c in it: s.chars()
        invariant
            v@ == it.seq().take(it.index() as int),
    {
        v.push(c);
    }
    v
}

/// A string holding exactly the characters `cs[lo..hi]`.
pub fn string_of_range(cs: &[char], lo: usize, hi: usize) -> (s: String)
    requires
        lo <= hi <= cs@.len(),
    ensures
        s@ == cs@.subrange(lo as int, hi as int),
{
    let mut s = String::new();
    let mut i: usize = lo;
    while i < hi
        invariant
            lo <= i <= hi <= cs@.len(),
            s@ == cs@.subrange(lo as int, i as int),
        decreases hi - i,
    {
        s.push(cs[i]);
        proof {
            assert(cs@.subrange(lo as int, i + 1) =~= cs@.subrange(lo as int, i as int).push(
                cs@[i as int],
            ));
        }
        i = i + 1;
    }
    s
}

/// A string holding exactly the characters `cs`.
pub fn string_of(cs: &[char]) -> (s: String)
    ensures
        s@ == cs@,
{
    let s = string_of_range(cs, 0, cs.len());
    proof {
        assert(cs@.subrange(0, cs@.len() as int) =~= cs@);
    }
    s
}

/// Appends the characters of `t` to `s`.
pub fn push_str(s: &mut String, t: &str)
    ensures
        final(s)@ == old(s)@ + t@,
{
    let cs = chars_of(t);
    let ghost s0 = s@;
    let mut i: usize = 0;
    while i < cs.len()
        invariant
            i <= cs@.len(),
            cs@ == t@,
            s@ == s0 + cs@.take(i as int),
        decreases cs.len() - i,
    {
        s.push(cs[i]);
        proof {
            assert(cs@.take(i + 1) =~= cs@.take(i as int).push(cs@[i as int]));
            assert(s0 + cs@.take(i + 1) =~= (s0 + cs@.take(i as int)).push(cs@[i as int]));
        }
        i = i + 1;
    }
    proof {
        assert(cs@.take(cs@.len() as int) =~= cs@);
    }
}

/// `s` trimmed of leading and trailing whitespace, as a new string (`str::trim`).
pub fn trimmed(s: &str) -> (r: String)
    ensures
        r@ == trim_ws(s@),
{
    let cs = chars_of(s);
    let (a, b) = trim_bounds(cs.as_slice(), 0, cs.len(), CharClass::Whitespace);
    proof {
        assert(cs@.subrange(0, cs@.len() as int) =~= cs@);
    }
    string_of_range(cs.as_slice(), a, b)
}

/// Whether `p` occurs in `s` starting at index `i`.
pub open spec fn occurs_at(s: Seq<char>, p: Seq<char>, i: int) -> bool {
    0 <= i && i + p.len() <= s.len() && s.subrange(i, i + p.len()) == p
}

/// Whether `cs[i..]` starts with `p`.
pub fn occurs_at_exec(cs: &[char], p: &[char], i: usize) -> (b: bool)
    requires
        i <= cs@.len(),
    ensures
        b == occurs_at(cs@, p@, i as int),
{
    if p.len() > cs.len() - i {
        return false;
    }
    let n = cs.len();
    let mut k: usize = 0;
    while k < p.len()
        invariant
            n == cs@.len(),
            k <= p@.len(),
            i + p@.len() <= cs@.len(),
            forall|m: int| 0 <= m < k ==> cs@[i + m] == p@[m],
        decreases p.len() - k,
    {
        assert(i + k < n);
        if cs[i + k] != p[k] {
            proof {
                assert(cs@.subrange(i as int, i + p@.len())[k as int] != p@[k as int]);
            }
            return false;
        }
        k = k + 1;
    }
    proof {
        assert(cs@.subrange(i as int, i + p@.len()) =~= p@);
    }
    true
}

/// Whether `p` is a prefix of `s` (`str::starts_with`).
pub open spec fn starts_with(s: Seq<char>, p: Seq<char>) -> bool {
    occurs_at(s, p, 0)
}

/// First index at which `p` occurs in `s`, if any (`str::find`).
pub open spec fn first_occurrence(s: Seq<char>, p: Seq<char>) -> Option<int> {
    if exists|i: int| occurs_at(s, p, i) {
        Some(choose|i: int| occurs_at(s, p, i) && forall|j: int| 0 <= j < i ==> !occurs_at(s, p, j))
    } else {
        None
    }
}

/// Search for the first occurrence of `p` in `cs`.
pub fn find_exec(cs: &[char], p: &[char]) -> (r: Option<usize>)
    ensures
        r matches Some(i) ==> occurs_at(cs@, p@, i as int) && forall|j: int|
            0 <= j < i ==> !occurs_at(cs@, p@, j),
        r is None ==> forall|j: int| !occurs_at(cs@, p@, j),
        r matches Some(i) ==> first_occurrence(cs@, p@) == Some(i as int),
        r is None ==> first_occurrence(cs@, p@) is None,
{
    let mut i: usize = 0;
    while i <= cs.len()
        invariant
            i <= cs@.len() + 1,
            forall|j: int| 0 <= j < i ==> !occurs_at(cs@, p@, j),
        decreases cs.len() + 1 - i,
    {
        if occurs_at_exec(cs, p, i) {
            proof {
                let w = choose|k: int|
                    occurs_at(cs@, p@, k) && forall|j: int| 0 <= j < k ==> !occurs_at(cs@, p@, j);
                assert(occurs_at(cs@, p@, w));
                if w < i {
                } else if w > i {
                    assert(!occurs_at(cs@, p@, i as int));
                }
            }
            return Some(i);
        }
        if i == cs.len() {
            return None;
        }
        i = i + 1;
    }
    None
}

/// `s` with every `c` replaced by `r` (`str::replace` with a one-character pattern).
pub open spec fn replace_char(s: Seq<char>, c: char, r: Seq<char>) -> Seq<char>
    decreases s.len(),
{
    if s.len() == 0 {
        Seq::empty()
    } else {
        replace_char(s.drop_last(), c, r) + (if s.last() == c {
            r
        } else {
            seq![s.last()]
        })
    }
}

pub fn replace_char_exec(s: &str, c: char, r: &str) -> (out: String)
    ensures
        out@ == replace_char(s@, c, r@),
{
    let cs = chars_of(s);
    let mut out = String::new();
    let mut i: usize = 0;
    while i < cs.len()
        invariant
            i <= cs@.len(),
            cs@ == s@,
            out@ == replace_char(cs@.take(i as int), c, r@),
        decreases cs.len() - i,
    {
        proof {
            assert(cs@.take(i + 1).drop_last() =~= cs@.take(i as int));
        }
        if cs[i] == c {
            push_str(&mut out, r);
        } else {
            out.push(cs[i]);
            proof {
                assert(out@ =~= replace_char(cs@.take(i as int), c, r@) + seq![cs@[i as int]]);
            }
        }
        i = i + 1;
    }
    proof {
        assert(cs@.take(cs@.len() as int) =~= cs@);
    }
    out
}

/// The decimal digit character for `d < 10`.
pub open spec fn digit_char(d: nat) -> char {
    (d + 48) as char
}

/// Decimal representation of `n`, as `u64::to_string` prints it.
pub open spec fn dec(n: nat) -> Seq<char>
    decreases n,
{
    if n < 10 {
        seq![digit_char(n)]
    } else {
        dec(n / 10).push(digit_char(n % 10))
    }
}

/// Decimal representation of a signed integer, as `i64::to_string` prints it.
pub open spec fn dec_int(n: int) -> Seq<char> {
    if n < 0 {
        seq!['-'] + dec((-n) as nat)
    } else {
        dec(n as nat)
    }
}

fn digit_to_char(d: u64) -> (c: char)
    requires
        d < 10,
    ensures
        c == digit_char(d as nat),
{
    let b: u8 = (d as u8) + 48u8;
    b as char
}

pub fn u64_to_string(n: u64) -> (s: String)
    ensures
        s@ == dec(n as nat),
    decreases n,
{
    if n < 10 {
        let mut s = String::new();
        s.push(digit_to_char(n));
        proof {
            assert(s@ =~= seq![digit_char(n as nat)]);
        }
        s
    } else {
        let mut s = u64_to_string(n / 10);
        s.push(digit_to_char(n % 10));
        s
    }
}

pub fn i64_to_string(n: i64) -> (s: String)
    ensures
        s@ == dec_int(n as int),
{
    if n < 0 {
        let m: u64 = (-(n as i128)) as u64;
        let mut s = String::new();
        s.push('-');
        let t = u64_to_string(m);
        push_str(&mut s, t.as_str());
        proof {
            assert(s@ =~= seq!['-'] + dec(m as nat));
        }
        s
    } else {
        u64_to_string(n as u64)
    }
}

pub open spec fn is_digit(c: char) -> bool {
    '0' <= c && c <= '9'
}

pub open spec fn all_digits(s: Seq<char>) -> bool {
    forall|i: int| 0 <= i < s.len() ==> is_digit(#[trigger] s[i])
}

/// Value of a string of decimal digits.
pub open spec fn digits_value(s: Seq<char>) -> nat
    decreases s.len(),
{
    if s.len() == 0 {
        0
    } else {
        digits_value(s.drop_last()) * 10 + ((s.last() as int) - 48) as nat
    }
}

/// What `str::parse` makes of `s` as an integer, before the range check of the target
/// type: an optional `+` (or, for signed types, `-`) and at least one ASCII digit.
pub open spec fn parse_int_spec(s: Seq<char>, signed: bool) -> Option<int> {
    if s.len() == 0 {
        None
    } else if (s[0] == '+' || s[0] == '-') && s.len() == 1 {
        None
    } else {
        let neg = s[0] == '-' && signed;
        let d = if s[0] == '+' || neg {
            s.drop_first()
        } else {
            s
        };
        if all_digits(d) {
            Some(
                if neg {
                    -(digits_value(d) as int)
                } else {
                    digits_value(d) as int
                },
            )
        } else {
            None
        }
    }
}

/// `s.parse::<i64>().ok()`.
pub open spec fn parse_i64_spec(s: Seq<char>) -> Option<int> {
    match parse_int_spec(s, true) {
        Some(v) => if i64::MIN <= v && v <= i64::MAX {
            Some(v)
        } else {
            None
        },
        None => None,
    }
}

/// `s.parse::<u16>().ok()`.
pub open spec fn parse_u16_spec(s: Seq<char>) -> Option<int> {
    match parse_int_spec(s, false) {
        Some(v) => if 0 <= v && v <= u16::MAX {
            Some(v)
        } else {
            None
        },
        None => None,
    }
}

proof fn lemma_digits_value_prefix(s: Seq<char>, k: int)
    requires
        0 <= k <= s.len(),
    ensures
        digits_value(s.take(k)) <= digits_value(s),
    decreases s.len(),
{
    if k == s.len() {
        assert(s.take(k) =~= s);
    } else {
        assert(s.drop_last().take(k) =~= s.take(k));
        lemma_digits_value_prefix(s.drop_last(), k);
    }
}

/// Scans `cs[start..]` as decimal digits; `None` when a non-digit appears or the value
/// exceeds `bound`.
fn digits_upto(cs: &[char], start: usize, bound: u64) -> (r: Option<u64>)
    requires
        start <= cs@.len(),
    ensures
        r matches Some(v) ==> all_digits(cs@.skip(start as int)) && v == digits_value(
            cs@.skip(start as int),
        ) && v <= bound,
        r is None ==> !all_digits(cs@.skip(start as int)) || digits_value(cs@.skip(start as int))
            > bound,
{
    let ghost d = cs@.skip(start as int);
    let mut acc: u64 = 0;
    let mut i: usize = start;
    while i < cs.len()
        invariant
            start <= i <= cs@.len(),
            d == cs@.skip(start as int),
            all_digits(d.take(i - start)),
            acc == digits_value(d.take(i - start)),
            acc <= bound,
        decreases cs.len() - i,
    {
        let c = cs[i];
        if !('0' <= c && c <= '9') {
            proof {
                assert(d[i - start] == c);
            }
            return None;
        }
        let dv: u64 = (c as u32 - 48) as u64;
        proof {
            assert(d.take(i - start + 1).drop_last() =~= d.take(i - start));
            assert(d.take(i - start + 1).last() == c);
            assert(all_digits(d.take(i - start + 1)));
        }
        if dv > bound || acc > (bound - dv) / 10 {
            proof {
                if dv <= bound {
                    assert(acc * 10 + dv > bound) by (nonlinear_arith)
                        requires
                            acc > (bound - dv) / 10,
                            dv <= bound,
                    ;
                }
                if all_digits(d) {
                    lemma_digits_value_prefix(d, i - start + 1);
                }
            }
            return None;
        }
        proof {
            assert(acc * 10 + dv <= bound) by (nonlinear_arith)
                requires
                    acc <= (bound - dv) / 10,
                    dv <= bound,
            ;
        }
        acc = acc * 10 + dv;
        i = i + 1;
    }
    proof {
        assert(d.take(i - start) =~= d);
    }
    Some(acc)
}

/// `s.parse::<i64>().ok()`.
pub fn parse_i64(s: &str) -> (r: Option<i64>)
    ensures
        r matches Some(v) ==> parse_i64_spec(s@) == Some(v as int),
        r is None ==> parse_i64_spec(s@) is None,
{
    let cs = chars_of(s);
    if cs.len() == 0 {
        return None;
    }
    if (cs[0] == '+' || cs[0] == '-') && cs.len() == 1 {
        return None;
    }
    let neg = cs[0] == '-';
    let start: usize = if cs[0] == '+' || neg { 1 } else { 0 };
    proof {
        if start == 1 {
            assert(cs@.skip(1) =~= cs@.drop_first());
        } else {
            assert(cs@.skip(0) =~= cs@);
        }
    }
    let bound: u64 = if neg { 9223372036854775808u64 } else { 9223372036854775807u64 };
    match digits_upto(cs.as_slice(), start, bound) {
        Some(v) => {
            if neg {
                let r: i128 = -(v as i128);
                Some(r as i64)
            } else {
                Some(v as i64)
            }
        },
        None => None,
    }
}

/// `s.parse::<u16>().ok()`.
pub fn parse_u16(s: &str) -> (r: Option<u16>)
    ensures
        r matches Some(v) ==> parse_u16_spec(s@) == Some(v as int),
        r is None ==> parse_u16_spec(s@) is None,
{
    let cs = chars_of(s);
    if cs.len() == 0 {
        return None;
    }
    if (cs[0] == '+' || cs[0] == '-') && cs.len() == 1 {
        return None;
    }
    let start: usize = if cs[0] == '+' { 1 } else { 0 };
    proof {
        if start == 1 {
            assert(cs@.skip(1) =~= cs@.drop_first());
        } else {
            assert(cs@.skip(0) =~= cs@);
        }
    }
    match digits_upto(cs.as_slice(), start, 65535u64) {
        Some(v) => Some(v as u16),
        None => None,
    }
}

/// Whether `s` starts with `p`.
pub fn starts_with_exec(s: &str, p: &str) -> (b: bool)
    ensures
        b == starts_with(s@, p@),
{
    let cs = chars_of(s);
    let ps = chars_of(p);
    occurs_at_exec(cs.as_slice(), ps.as_slice(), 0)
}

/// Character-wise equality of two strings.
pub fn str_eq(a: &str, b: &str) -> (r: bool)
    ensures
        r == (a@ == b@),
{
    let x = chars_of(a);
    let y = chars_of(b);
    if x.len() != y.len() {
        proof {
            assert(x@.len() != y@.len());
        }
        return false;
    }
    let mut i: usize = 0;
    while i < x.len()
        invariant
            i <= x@.len(),
            x@.len() == y@.len(),
            x@ == a@,
            y@ == b@,
            forall|k: int| 0 <= k < i ==> x@[k] == y@[k],
        decreases x.len() - i,
    {
        if x[i] != y[i] {
            proof {
                assert(a@[i as int] != b@[i as int]);
                assert(a@ != b@);
            }
            return false;
        }
        i = i + 1;
    }
    proof {
        assert(x@ =~= y@);
    }
    true
}

/// Whether `p` occurs anywhere in `s` (`str::contains`).
pub fn contains_exec(s: &str, p: &str) -> (b: bool)
    ensures
        b == exists|i: int| occurs_at(s@, p@, i),
{
    let cs = chars_of(s);
    let ps = chars_of(p);
    match find_exec(cs.as_slice(), ps.as_slice()) {
        Some(_) => true,
        None => false,
    }
}

/// Bound just past `trim_end(cs[lo..hi], cls)` inside `cs`.
pub fn trim_end_bound(cs: &[char], lo: usize, hi: usize, cls: CharClass) -> (j: usize)
    requires
        lo <= hi <= cs@.len(),
    ensures
        lo <= j <= hi,
        cs@.subrange(lo as int, j as int) == trim_end(cs@.subrange(lo as int, hi as int), cls),
{
    let j = skip_class_backward(cs, lo, hi, cls);
    proof {
        let t = cs@.subrange(lo as int, hi as int);
        assert(t.take(t.len() - (hi - j)) =~= cs@.subrange(lo as int, j as int));
    }
    j
}

/// `s` cut at every `c` (`str::split` with a one-character pattern).
pub open spec fn split_on(s: Seq<char>, c: char) -> Seq<Seq<char>>
    decreases s.len(),
{
    if s.len() == 0 {
        seq![Seq::empty()]
    } else {
        let prev = split_on(s.drop_last(), c);
        if s.last() == c {
            prev.push(Seq::empty())
        } else {
            prev.update(prev.len() - 1, prev.last().push(s.last()))
        }
    }
}

pub proof fn lemma_split_on_nonempty(s: Seq<char>, c: char)
    ensures
        split_on(s, c).len() >= 1,
    decreases s.len(),
{
    if s.len() > 0 {
        lemma_split_on_nonempty(s.drop_last(), c);
    }
}

/// `s` with `p` removed from its start as often as it occurs there
/// (`str::trim_start_matches` with a string pattern).
pub open spec fn strip_repeated(s: Seq<char>, p: Seq<char>) -> Seq<char>
    decreases s.len(),
{
    if p.len() > 0 && starts_with(s, p) {
        strip_repeated(s.skip(p.len() as int), p)
    } else {
        s
    }
}

/// `s.trim_start_matches(p)`.
pub fn strip_repeated_exec(s: &str, p: &str) -> (r: String)
    ensures
        r@ == strip_repeated(s@, p@),
{
    let cs = chars_of(s);
    let ps = chars_of(p);
    let mut i: usize = 0;
    proof {
        assert(cs@.skip(0) =~= cs@);
    }
    while ps.len() > 0 && occurs_at_exec(cs.as_slice(), ps.as_slice(), i)
        invariant
            i <= cs@.len(),
            cs@ == s@,
            ps@ == p@,
            strip_repeated(s@, p@) == strip_repeated(cs@.skip(i as int), p@),
        decreases cs@.len() - i,
    {
        proof {
            let t = cs@.skip(i as int);
            assert(t.subrange(0, p@.len() as int) =~= cs@.subrange(i as int, i + p@.len()));
            assert(starts_with(t, p@));
            assert(t.skip(p@.len() as int) =~= cs@.skip(i + p@.len()));
        }
        assert(i + ps.len() <= cs.len());
        i = i + ps.len();
    }
    proof {
        let t = cs@.skip(i as int);
        if ps@.len() > 0 && starts_with(t, p@) {
            assert(t.subrange(0, p@.len() as int) =~= cs@.subrange(i as int, i + p@.len()));
        }
        assert(cs@.subrange(i as int, cs@.len() as int) =~= t);
    }
    string_of_range(cs.as_slice(), i, cs.len())
}

} // verus!
