//! The annotations inside a comment that this program reads: `[%eval ...]`
//! and `[%pv ...]`. Anything else in a comment (`[%clk ...]`, prose) is kept
//! in the comment and not read.

use vstd::prelude::*;
use crate::model::{Eval, Score};
use crate::text::{digit, digit_value, is_digit, is_ws, ws};
use super::lex::{find_char, find_char_exec, lemma_find_char_range, slice_to_vec, trim, trimmed};

verus! {

/// `[%eval `
pub open spec fn eval_pattern() -> Seq<char> {
    seq!['[', '%', 'e', 'v', 'a', 'l', ' ']
}

/// `[%pv `
pub open spec fn pv_pattern() -> Seq<char> {
    seq!['[', '%', 'p', 'v', ' ']
}

/// The first index from `i` at which `p` occurs in `c`, or the length of `c`.
pub open spec fn find_pattern(c: Seq<char>, p: Seq<char>, i: int) -> int
    decreases c.len() + 1 - i,
{
    if i < 0 || i + p.len() > c.len() {
        c.len() as int
    } else if c.subrange(i, i + p.len()) == p {
        i
    } else {
        find_pattern(c, p, i + 1)
    }
}

pub open spec fn all_digits(t: Seq<char>) -> bool {
    forall|k: int| 0 <= k < t.len() ==> is_digit(#[trigger] t[k])
}

/// The number that the decimal digits `t` spell.
pub open spec fn digits_value(t: Seq<char>) -> nat
    decreases t.len(),
{
    if t.len() == 0 {
        0
    } else {
        digits_value(t.drop_last()) * 10 + digit_value(t.last())
    }
}

/// A natural number: one or more digits.
pub open spec fn uint_of(t: Seq<char>) -> Option<nat> {
    if t.len() > 0 && all_digits(t) {
        Some(digits_value(t))
    } else {
        None
    }
}

/// An integer: an optional sign, then one or more digits.
pub open spec fn int_of(t: Seq<char>) -> Option<int> {
    if t.len() > 0 && (t[0] == '-' || t[0] == '+') {
        match uint_of(t.skip(1)) {
            Some(n) => Some(if t[0] == '-' { -n } else { n as int }),
            None => None,
        }
    } else {
        match uint_of(t) {
            Some(n) => Some(n as int),
            None => None,
        }
    }
}

/// Pawns with at most two decimals (`0.32`, `-1.5`, `3`, `.5`), as
/// centipawns without the sign.
pub open spec fn unsigned_centipawns(r: Seq<char>) -> Option<nat> {
    let d = find_char(r, 0, '.');
    if d >= r.len() {
        match uint_of(r) {
            Some(n) => Some(n * 100),
            None => None,
        }
    } else {
        let ip = r.take(d);
        let fp = r.skip(d + 1);
        if ip.len() + fp.len() > 0 && fp.len() <= 2 && all_digits(ip) && all_digits(fp) {
            Some(
                digits_value(ip) * 100 + if fp.len() == 1 {
                    digits_value(fp) * 10
                } else {
                    digits_value(fp)
                },
            )
        } else {
            None
        }
    }
}

/// Signed pawns with at most two decimals, as centipawns.
pub open spec fn centipawns_of(t: Seq<char>) -> Option<int> {
    if t.len() > 0 && (t[0] == '-' || t[0] == '+') {
        match unsigned_centipawns(t.skip(1)) {
            Some(n) => Some(if t[0] == '-' { -n } else { n as int }),
            None => None,
        }
    } else {
        match unsigned_centipawns(t) {
            Some(n) => Some(n as int),
            None => None,
        }
    }
}

pub open spec fn fits_i32(v: int) -> bool {
    -2147483648 <= v <= 2147483647
}

/// The content of an eval annotation: a score (`0.32`, `#-3`) and, after a
/// comma, the depth (`0.32,18`).
pub open spec fn eval_body(b: Seq<char>) -> Option<Eval> {
    let comma = find_char(b, 0, ',');
    let v = b.take(comma);
    let depth: Option<Option<u32>> = if comma < b.len() {
        match uint_of(b.skip(comma + 1)) {
            Some(d) => if d <= 4294967295 { Some(Some(d as u32)) } else { None },
            None => None,
        }
    } else {
        Some(None)
    };
    let score: Option<Score> = if v.len() > 0 && v[0] == '#' {
        match int_of(v.skip(1)) {
            Some(n) => if fits_i32(n) { Some(Score::Mate(n as i32)) } else { None },
            None => None,
        }
    } else {
        match centipawns_of(v) {
            Some(cp) => if fits_i32(cp) { Some(Score::Cp(cp as i32)) } else { None },
            None => None,
        }
    };
    match (score, depth) {
        (Some(s), Some(d)) => Some(Eval { score: s, depth: d }),
        _ => None,
    }
}

/// The evaluation a comment carries: none without an eval annotation, and
/// the text of the annotation when it cannot be read.
pub open spec fn comment_eval(c: Seq<char>) -> Result<Option<Eval>, Seq<char>> {
    let k = find_pattern(c, eval_pattern(), 0);
    if k >= c.len() {
        Ok(None)
    } else {
        let j = find_char(c, k + 7, ']');
        if j >= c.len() {
            Err(c.subrange(k, c.len() as int))
        } else {
            match eval_body(trim(c.subrange(k + 7, j))) {
                Some(e) => Ok(Some(e)),
                None => Err(c.subrange(k, j + 1)),
            }
        }
    }
}

/// The end of the run of non-whitespace from `i`.
pub open spec fn solid_end(t: Seq<char>, i: int) -> int
    decreases t.len() - i,
{
    if 0 <= i < t.len() && !is_ws(t[i]) {
        solid_end(t, i + 1)
    } else {
        i
    }
}

/// The whitespace-separated words of `t` from `i` on.
pub open spec fn words_from(t: Seq<char>, i: int) -> Seq<Seq<char>>
    decreases t.len() - i,
{
    if i < 0 || i >= t.len() {
        seq![]
    } else if is_ws(t[i]) {
        words_from(t, i + 1)
    } else {
        let e = solid_end(t, i);
        if i < e <= t.len() {
            seq![t.subrange(i, e)] + words_from(t, e)
        } else {
            seq![]
        }
    }
}

/// The principal variation a comment carries, in UCI notation as written;
/// empty without a pv annotation.
pub open spec fn comment_pv(c: Seq<char>) -> Seq<Seq<char>> {
    let k = find_pattern(c, pv_pattern(), 0);
    if k >= c.len() {
        seq![]
    } else {
        words_from(c.subrange(k + 5, find_char(c, k + 5, ']')), 0)
    }
}

// ---------------------------------------------------------------------------

proof fn lemma_find_pattern_range(c: Seq<char>, p: Seq<char>, i: int)
    requires
        0 <= i,
    ensures
        find_pattern(c, p, i) <= c.len(),
        find_pattern(c, p, i) < c.len() ==> i <= find_pattern(c, p, i) && find_pattern(c, p, i)
            + p.len() <= c.len(),
    decreases c.len() - i,
{
    if p.len() == 0 && i <= c.len() {
        assert(c.subrange(i, i) =~= p);
    }
    if !(i + p.len() > c.len()) && c.subrange(i, i + p.len()) != p {
        lemma_find_pattern_range(c, p, i + 1);
    }
}

fn matches_at(c: &Vec<char>, p: &Vec<char>, k: usize) -> (b: bool)
    ensures
        b == (k + p@.len() <= c@.len() && c@.subrange(k as int, k + p@.len()) == p@),
{
    let clen = c.len();
    if k > clen || p.len() > clen - k {
        return false;
    }
    let mut j: usize = 0;
    while j < p.len()
        invariant
            clen == c@.len(),
            k + p@.len() <= c@.len(),
            j <= p@.len(),
            forall|m: int| 0 <= m < j ==> c@[k + m] == p@[m],
        decreases p@.len() - j,
    {
        if c[k + j] != p[j] {
            assert(c@.subrange(k as int, k + p@.len())[j as int] != p@[j as int]);
            return false;
        }
        j = j + 1;
    }
    assert(c@.subrange(k as int, k + p@.len()) =~= p@);
    true
}

fn find_pattern_exec(c: &Vec<char>, p: &Vec<char>) -> (k: usize)
    ensures
        k == find_pattern(c@, p@, 0),
{
    let mut k: usize = 0;
    let clen = c.len();
    while p.len() <= clen - k && !matches_at(c, p, k)
        invariant
            clen == c@.len(),
            k <= clen,
            find_pattern(c@, p@, 0) == find_pattern(c@, p@, k as int),
        decreases c@.len() + 1 - k,
    {
        proof {
            if p@.len() == 0 {
                assert(c@.subrange(k as int, k as int) =~= p@);
            }
        }
        k = k + 1;
    }
    if p.len() <= clen - k {
        k
    } else {
        c.len()
    }
}

fn eval_pattern_exec() -> (p: Vec<char>)
    ensures
        p@ == eval_pattern(),
{
    let p = vec!['[', '%', 'e', 'v', 'a', 'l', ' '];
    assert(p@ =~= eval_pattern());
    p
}

fn pv_pattern_exec() -> (p: Vec<char>)
    ensures
        p@ == pv_pattern(),
{
    let p = vec!['[', '%', 'p', 'v', ' '];
    assert(p@ =~= pv_pattern());
    p
}

/// A bound beyond every number an annotation may hold.
pub open spec fn cap() -> nat {
    1_000_000_000_000
}

pub open spec fn capped(n: nat) -> nat {
    if n < cap() { n } else { cap() }
}

/// Reads the digits `t[a..b]`: `None` unless there is at least one and all
/// are digits, else their value held to the cap.
fn uint_exec(t: &Vec<char>, a: usize, b: usize) -> (r: Option<u64>)
    requires
        a <= b <= t@.len(),
    ensures
        match uint_of(t@.subrange(a as int, b as int)) {
            None => r is None,
            Some(n) => r == Some(capped(n) as u64),
        },
{
    if a == b {
        return None;
    }
    let mut acc: u64 = 0;
    let mut k = a;
    while k < b
        invariant
            a <= k <= b <= t@.len(),
            all_digits(t@.subrange(a as int, k as int)),
            acc == capped(digits_value(t@.subrange(a as int, k as int))),
        decreases b - k,
    {
        if !digit(t[k]) {
            assert(t@.subrange(a as int, b as int)[k - a] == t@[k as int]);
            return None;
        }
        let d = (t[k] as u32 - '0' as u32) as u64;
        let ghost prev = t@.subrange(a as int, k as int);
        let ghost next = t@.subrange(a as int, k + 1);
        assert(next.drop_last() =~= prev);
        assert(digits_value(next) == digits_value(prev) * 10 + digit_value(t@[k as int]));
        if acc >= 1_000_000_000_000 {
            assert(digits_value(next) >= digits_value(prev)) by (nonlinear_arith)
                requires
                    digits_value(next) == digits_value(prev) * 10 + digit_value(t@[k as int]),
            ;
            acc = 1_000_000_000_000;
        } else {
            let v = acc * 10 + d;
            acc = if v < 1_000_000_000_000 { v } else { 1_000_000_000_000 };
        }
        k = k + 1;
        assert(all_digits(t@.subrange(a as int, k as int)));
    }
    Some(acc)
}

/// The largest magnitude any annotated number may have: beyond it neither a
/// score nor a depth fits.
pub open spec fn limit() -> nat {
    4294967295
}

/// `w` stands for `n`: the same when `n` is within the limit, and beyond
/// the limit when `n` is.
pub open spec fn stands_for(w: nat, n: nat) -> bool {
    &&& (n <= limit()) == (w <= limit())
    &&& n <= limit() ==> w == n
}

/// Reads unsigned pawns with at most two decimals from all of `r`, as
/// centipawns standing for the value.
fn unsigned_centipawns_exec(r: &Vec<char>) -> (res: Option<u64>)
    ensures
        match unsigned_centipawns(r@) {
            None => res is None,
            Some(n) => res matches Some(w) && stands_for(w as nat, n),
        },
{
    let len = r.len();
    let d = find_char_exec(r, 0, '.');
    proof {
        lemma_find_char_range(r@, 0, '.');
    }
    if d >= len {
        assert(r@.subrange(0, len as int) =~= r@);
        match uint_exec(r, 0, len) {
            None => None,
            Some(n) => Some(n * 100),
        }
    } else {
        let ghost ip = r@.take(d as int);
        let ghost fp = r@.skip(d + 1);
        assert(r@.subrange(0, d as int) =~= ip);
        assert(r@.subrange(d + 1, len as int) =~= fp);
        let flen = len - (d + 1);
        if d + flen == 0 || flen > 2 {
            return None;
        }
        let whole: u64 = if d == 0 {
            assert(ip.len() == 0 && all_digits(ip));
            0
        } else {
            match uint_exec(r, 0, d) {
                None => return None,
                Some(n) => n,
            }
        };
        let frac: u64 = if flen == 0 {
            assert(fp.len() == 0 && all_digits(fp));
            0
        } else {
            match uint_exec(r, d + 1, len) {
                None => return None,
                Some(n) => n,
            }
        };
        assert(digits_value(fp) < 100) by {
            if fp.len() == 1 {
                assert(is_digit(fp[0]));
                assert(fp.drop_last() =~= Seq::<char>::empty());
                assert(digit_value(fp.last()) <= 9);
                assert(digits_value(fp) == digits_value(fp.drop_last()) * 10 + digit_value(
                    fp.last(),
                ));
            } else if fp.len() == 2 {
                let a = fp.drop_last();
                assert(is_digit(fp[0]) && is_digit(fp[1]));
                assert(a.drop_last() =~= Seq::<char>::empty());
                assert(a.last() == fp[0]);
                assert(digit_value(fp[0]) <= 9);
                assert(digit_value(fp[1]) <= 9);
                assert(digits_value(a) == digits_value(a.drop_last()) * 10 + digit_value(a.last()));
                assert(digits_value(fp) == digits_value(a) * 10 + digit_value(fp.last()));
            }
        }
        Some(whole * 100 + if flen == 1 { frac * 10 } else { frac })
    }
}

/// Reads signed pawns with at most two decimals from all of `v`.
fn centipawns_exec(v: &Vec<char>) -> (res: Option<(bool, u64)>)
    ensures
        match centipawns_of(v@) {
            None => res is None,
            Some(n) => res matches Some((neg, w)) && stands_for(w as nat, if n < 0 {
                (-n) as nat
            } else {
                n as nat
            }) && (neg <==> n < 0) && (n == 0 ==> w == 0),
        },
{
    let len = v.len();
    if len > 0 && (v[0] == '-' || v[0] == '+') {
        let r = slice_to_vec(v, 1, len);
        assert(r@ =~= v@.skip(1));
        match unsigned_centipawns_exec(&r) {
            None => None,
            Some(w) => Some((v[0] == '-' && w != 0, w)),
        }
    } else {
        match unsigned_centipawns_exec(v) {
            None => None,
            Some(w) => Some((false, w)),
        }
    }
}

/// Reads a signed integer from all of `v`.
fn int_exec(v: &Vec<char>) -> (res: Option<(bool, u64)>)
    ensures
        match int_of(v@) {
            None => res is None,
            Some(n) => res matches Some((neg, w)) && stands_for(w as nat, if n < 0 {
                (-n) as nat
            } else {
                n as nat
            }) && (neg <==> n < 0) && (n == 0 ==> w == 0),
        },
{
    let len = v.len();
    if len > 0 && (v[0] == '-' || v[0] == '+') {
        assert(v@.subrange(1, len as int) =~= v@.skip(1));
        match uint_exec(v, 1, len) {
            None => None,
            Some(w) => Some((v[0] == '-' && w != 0, w)),
        }
    } else {
        assert(v@.subrange(0, len as int) =~= v@);
        match uint_exec(v, 0, len) {
            None => None,
            Some(w) => Some((false, w)),
        }
    }
}

/// The `i32` with this sign and magnitude, if there is one.
fn to_i32(neg: bool, w: u64) -> (r: Option<i32>)
    ensures
        r matches Some(x) ==> (x as int == if neg { -(w as int) } else { w as int }),
        r is None <==> !fits_i32(if neg { -(w as int) } else { w as int }),
{
    if neg {
        if w <= 2147483648 {
            Some((0i64 - w as i64) as i32)
        } else {
            None
        }
    } else {
        if w <= 2147483647 {
            Some(w as i32)
        } else {
            None
        }
    }
}

/// Reads the content of an eval annotation, all of `b`.
pub fn eval_body_exec(b: &Vec<char>) -> (res: Option<Eval>)
    ensures
        res == eval_body(b@),
{
    let len = b.len();
    let comma = find_char_exec(b, 0, ',');
    proof {
        lemma_find_char_range(b@, 0, ',');
    }
    let v = slice_to_vec(b, 0, comma);
    assert(v@ =~= b@.take(comma as int));
    let depth: Option<Option<u32>> = if comma < len {
        assert(b@.subrange(comma + 1, len as int) =~= b@.skip(comma + 1));
        match uint_exec(b, comma + 1, len) {
            Some(d) => if d <= 4294967295 {
                Some(Some(d as u32))
            } else {
                None
            },
            None => None,
        }
    } else {
        Some(None)
    };
    let score: Option<Score> = if v.len() > 0 && v[0] == '#' {
        let rest = slice_to_vec(&v, 1, v.len());
        assert(rest@ =~= v@.skip(1));
        match int_exec(&rest) {
            Some((neg, w)) => match to_i32(neg, w) {
                Some(x) => Some(Score::Mate(x)),
                None => None,
            },
            None => None,
        }
    } else {
        match centipawns_exec(&v) {
            Some((neg, w)) => match to_i32(neg, w) {
                Some(x) => Some(Score::Cp(x)),
                None => None,
            },
            None => None,
        }
    };
    match (score, depth) {
        (Some(s), Some(d)) => Some(Eval { score: s, depth: d }),
        _ => None,
    }
}

/// The evaluation a comment carries, or the text of an eval annotation that
/// cannot be read.
pub fn comment_eval_exec(c: &Vec<char>) -> (res: Result<Option<Eval>, Vec<char>>)
    ensures
        match comment_eval(c@) {
            Ok(e) => res == Ok::<Option<Eval>, Vec<char>>(e),
            Err(t) => res matches Err(x) && x@ == t,
        },
{
    let len = c.len();
    let k = find_pattern_exec(c, &eval_pattern_exec());
    proof {
        lemma_find_pattern_range(c@, eval_pattern(), 0);
    }
    if k >= len {
        return Ok(None);
    }
    let j = find_char_exec(c, k + 7, ']');
    if j >= len {
        return Err(slice_to_vec(c, k, len));
    }
    let body = trimmed(c, k + 7, j);
    match eval_body_exec(&body) {
        Some(e) => Ok(Some(e)),
        None => Err(slice_to_vec(c, k, j + 1)),
    }
}

proof fn lemma_solid_end_range(t: Seq<char>, i: int)
    requires
        0 <= i <= t.len(),
    ensures
        i <= solid_end(t, i) <= t.len(),
    decreases t.len() - i,
{
    if i < t.len() && !is_ws(t[i]) {
        lemma_solid_end_range(t, i + 1);
    }
}

fn solid_end_exec(t: &Vec<char>, i: usize) -> (r: usize)
    requires
        i <= t@.len(),
    ensures
        r == solid_end(t@, i as int),
        i <= r <= t@.len(),
{
    let mut k = i;
    while k < t.len() && !ws(t[k])
        invariant
            i <= k <= t@.len(),
            solid_end(t@, i as int) == solid_end(t@, k as int),
        decreases t@.len() - k,
    {
        k = k + 1;
    }
    k
}

/// The whitespace-separated words of `t`, each as a `String`.
fn words_exec(t: &Vec<char>) -> (ws_: Vec<String>)
    ensures
        ws_.deep_view() == words_from(t@, 0),
{
    let mut out: Vec<String> = Vec::new();
    let mut i: usize = 0;
    while i < t.len()
        invariant
            i <= t@.len(),
            words_from(t@, 0) == out.deep_view() + words_from(t@, i as int),
        decreases t@.len() - i,
    {
        if ws(t[i]) {
            i = i + 1;
        } else {
            let e = solid_end_exec(t, i);
            proof {
                assert(solid_end(t@, i as int) == solid_end(t@, i + 1));
                lemma_solid_end_range(t@, i + 1);
            }
            let w = crate::text::string_of(slice_to_vec(t, i, e).as_slice());
            let ghost before = out.deep_view();
            out.push(w);
            assert(out.deep_view() =~= before.push(t@.subrange(i as int, e as int)));
            assert(words_from(t@, 0) =~= out.deep_view() + words_from(t@, e as int));
            i = e;
        }
    }
    assert(out.deep_view() + words_from(t@, i as int) =~= out.deep_view());
    out
}

/// The principal variation a comment carries, in UCI notation as written.
pub fn comment_pv_exec(c: &Vec<char>) -> (pv: Vec<String>)
    ensures
        pv.deep_view() == comment_pv(c@),
{
    let len = c.len();
    let k = find_pattern_exec(c, &pv_pattern_exec());
    proof {
        lemma_find_pattern_range(c@, pv_pattern(), 0);
    }
    if k >= len {
        let v: Vec<String> = Vec::new();
        assert(v.deep_view() =~= seq![]);
        return v;
    }
    let j = find_char_exec(c, k + 5, ']');
    let body = slice_to_vec(c, k + 5, j);
    words_exec(&body)
}

/// Scores are signed: a leading `-` gives the same amount for Black (a
/// negative score), a leading `+` the same amount for White, whatever the
/// amount, a fraction of a pawn included.
pub proof fn law_sign_of_centipawns(t: Seq<char>)
    requires
        t.len() == 0 || (t[0] != '-' && t[0] != '+'),
    ensures
        centipawns_of(seq!['-'] + t) == match centipawns_of(t) {
            Some(n) => Some(-n),
            None => None::<int>,
        },
        centipawns_of(seq!['+'] + t) == centipawns_of(t),
        centipawns_of(t) matches Some(n) ==> n >= 0,
{
    assert((seq!['-'] + t).skip(1) =~= t);
    assert((seq!['+'] + t).skip(1) =~= t);
}

} // verus!
