//! Splitting PGN text into tokens.
//!
//! The lexer is lenient: what it does not understand (stray brackets, NAGs,
//! rest-of-line comments) it passes over rather than rejecting the file.

use vstd::prelude::*;
use crate::text::{digit, is_digit, is_ws, ws};

verus! {

/// A token of PGN text.
pub enum Tok {
    /// A tag pair `[Name "Value"]`, the value with its escapes undone.
    Tag(Seq<char>, Seq<char>),
    /// A move number such as `12.` or `12...`.
    Number,
    /// A move in standard algebraic notation.
    San(Seq<char>),
    /// A comment `{...}`: the text between the braces, as written.
    Comment(Seq<char>),
    /// A game termination marker: `1-0`, `0-1`, `1/2-1/2` or `*`.
    Outcome(Seq<char>),
    /// `(`, the start of a variation.
    Open,
    /// `)`, the end of a variation.
    Close,
}

/// A token as the executable lexer holds it.
pub enum Token {
    Tag(Vec<char>, Vec<char>),
    Number,
    San(Vec<char>),
    Comment(Vec<char>),
    Outcome(Vec<char>),
    Open,
    Close,
}

impl View for Token {
    type V = Tok;

    open spec fn view(&self) -> Tok {
        match self {
            Token::Tag(n, v) => Tok::Tag(n@, v@),
            Token::Number => Tok::Number,
            Token::San(x) => Tok::San(x@),
            Token::Comment(c) => Tok::Comment(c@),
            Token::Outcome(o) => Tok::Outcome(o@),
            Token::Open => Tok::Open,
            Token::Close => Tok::Close,
        }
    }
}

pub open spec fn toks_view(ts: Seq<Token>) -> Seq<Tok> {
    ts.map_values(|t: Token| t@)
}

/// Characters that end a word: whitespace and PGN's punctuation.
pub open spec fn is_delim(c: char) -> bool {
    is_ws(c) || c == '{' || c == '}' || c == '(' || c == ')' || c == '[' || c == ']' || c == ';'
        || c == '$' || c == '"'
}

/// The first index from `i` that is not whitespace.
pub open spec fn skip_ws(s: Seq<char>, i: int) -> int
    decreases s.len() - i,
{
    if 0 <= i < s.len() && is_ws(s[i]) {
        skip_ws(s, i + 1)
    } else {
        i
    }
}

/// The end of the word that starts at `i`.
pub open spec fn word_end(s: Seq<char>, i: int) -> int
    decreases s.len() - i,
{
    if 0 <= i < s.len() && !is_delim(s[i]) {
        word_end(s, i + 1)
    } else {
        i
    }
}

/// The first index from `i` holding `c`, or the length of `s`.
pub open spec fn find_char(s: Seq<char>, i: int, c: char) -> int
    decreases s.len() - i,
{
    if 0 <= i < s.len() && s[i] != c {
        find_char(s, i + 1, c)
    } else if i < s.len() {
        i
    } else {
        s.len() as int
    }
}

/// The end of the run of digits from `i`.
pub open spec fn digits_end(s: Seq<char>, i: int) -> int
    decreases s.len() - i,
{
    if 0 <= i < s.len() && is_digit(s[i]) {
        digits_end(s, i + 1)
    } else {
        i
    }
}

/// The end of the run of digits and dots from `i`: a move number.
pub open spec fn number_end(s: Seq<char>, i: int) -> int
    decreases s.len() - i,
{
    if 0 <= i < s.len() && (is_digit(s[i]) || s[i] == '.') {
        number_end(s, i + 1)
    } else {
        i
    }
}

/// A tag value from `i` up to the closing quote, with `\"` and `\\` undone,
/// and the index of that quote (the length of `s` when there is none).
pub open spec fn unescape(s: Seq<char>, i: int) -> (Seq<char>, int)
    decreases s.len() - i,
{
    if i < 0 || i >= s.len() {
        (seq![], s.len() as int)
    } else if s[i] == '"' {
        (seq![], i)
    } else if s[i] == '\\' && i + 1 < s.len() {
        let r = unescape(s, i + 2);
        (seq![s[i + 1]] + r.0, r.1)
    } else {
        let r = unescape(s, i + 1);
        (seq![s[i]] + r.0, r.1)
    }
}

/// `c` without leading whitespace.
pub open spec fn trim_start(c: Seq<char>) -> Seq<char>
    decreases c.len(),
{
    if c.len() > 0 && is_ws(c[0]) {
        trim_start(c.drop_first())
    } else {
        c
    }
}

/// `c` without trailing whitespace.
pub open spec fn trim_end(c: Seq<char>) -> Seq<char>
    decreases c.len(),
{
    if c.len() > 0 && is_ws(c.last()) {
        trim_end(c.drop_last())
    } else {
        c
    }
}

/// `c` without surrounding whitespace.
pub open spec fn trim(c: Seq<char>) -> Seq<char> {
    trim_end(trim_start(c))
}

pub open spec fn is_outcome(w: Seq<char>) -> bool {
    w == seq!['1', '-', '0'] || w == seq!['0', '-', '1'] || w == seq![
        '1',
        '/',
        '2',
        '-',
        '1',
        '/',
        '2',
    ] || w == seq!['*']
}

/// The tokens of a word: a termination marker, a move number (which may be
/// written together with the move after it, as in `1.e4`), or a move.
pub open spec fn word_toks(w: Seq<char>) -> Seq<Tok> {
    if is_outcome(w) {
        seq![Tok::Outcome(w)]
    } else if w.len() > 0 && is_digit(w[0]) {
        let d = number_end(w, 0);
        if d >= w.len() {
            seq![Tok::Number]
        } else {
            seq![Tok::Number, Tok::San(w.skip(d))]
        }
    } else {
        seq![Tok::San(w)]
    }
}

/// One step of the lexer at `i < s.len()`: the tokens it yields and where the
/// next step starts.
pub open spec fn step(s: Seq<char>, i: int) -> (Seq<Tok>, int) {
    let c = s[i];
    if is_ws(c) {
        (seq![], i + 1)
    } else if c == '{' {
        let k = find_char(s, i + 1, '}');
        (
            seq![Tok::Comment(s.subrange(i + 1, k))],
            if k < s.len() { k + 1 } else { s.len() as int },
        )
    } else if c == ';' {
        (seq![], find_char(s, i + 1, '\n'))
    } else if c == '(' {
        (seq![Tok::Open], i + 1)
    } else if c == ')' {
        (seq![Tok::Close], i + 1)
    } else if c == '$' {
        (seq![], digits_end(s, i + 1))
    } else if c == '[' {
        tag_step(s, i)
    } else if is_delim(c) {
        (seq![], i + 1)
    } else {
        let e = word_end(s, i);
        (word_toks(s.subrange(i, e)), e)
    }
}

/// A tag pair starting with `[` at `i`. Without a quoted value it yields
/// nothing and resumes after the next `]`.
pub open spec fn tag_step(s: Seq<char>, i: int) -> (Seq<Tok>, int) {
    let a = skip_ws(s, i + 1);
    let b = word_end(s, a);
    let q = skip_ws(s, b);
    if q < s.len() && s[q] == '"' {
        let (v, e) = unescape(s, q + 1);
        let r = find_char(s, e, ']');
        (
            if b > a { seq![Tok::Tag(s.subrange(a, b), v)] } else { seq![] },
            if r < s.len() { r + 1 } else { s.len() as int },
        )
    } else {
        let r = find_char(s, b, ']');
        (seq![], if r < s.len() { r + 1 } else { s.len() as int })
    }
}

/// The tokens of `s` from index `i` on.
pub open spec fn lex_from(s: Seq<char>, i: int) -> Seq<Tok>
    decreases s.len() - i,
{
    if i < 0 || i >= s.len() {
        seq![]
    } else {
        let (t, n) = step(s, i);
        if i < n <= s.len() {
            t + lex_from(s, n)
        } else {
            t
        }
    }
}

/// The tokens of `s`.
pub open spec fn lex(s: Seq<char>) -> Seq<Tok> {
    lex_from(s, 0)
}

// ---------------------------------------------------------------------------
// Facts about the scanning functions.

pub proof fn lemma_skip_ws_range(s: Seq<char>, i: int)
    requires
        0 <= i <= s.len(),
    ensures
        i <= skip_ws(s, i) <= s.len(),
    decreases s.len() - i,
{
    if i < s.len() && is_ws(s[i]) {
        lemma_skip_ws_range(s, i + 1);
    }
}

pub proof fn lemma_word_end_range(s: Seq<char>, i: int)
    requires
        0 <= i <= s.len(),
    ensures
        i <= word_end(s, i) <= s.len(),
    decreases s.len() - i,
{
    if i < s.len() && !is_delim(s[i]) {
        lemma_word_end_range(s, i + 1);
    }
}

pub proof fn lemma_find_char_range(s: Seq<char>, i: int, c: char)
    requires
        0 <= i,
    ensures
        find_char(s, i, c) <= s.len(),
        i <= s.len() ==> i <= find_char(s, i, c),
        find_char(s, i, c) < s.len() ==> s[find_char(s, i, c)] == c,
    decreases s.len() - i,
{
    if i < s.len() && s[i] != c {
        lemma_find_char_range(s, i + 1, c);
    }
}

pub proof fn lemma_digits_end_range(s: Seq<char>, i: int)
    requires
        0 <= i <= s.len(),
    ensures
        i <= digits_end(s, i) <= s.len(),
    decreases s.len() - i,
{
    if i < s.len() && is_digit(s[i]) {
        lemma_digits_end_range(s, i + 1);
    }
}

pub proof fn lemma_number_end_range(s: Seq<char>, i: int)
    requires
        0 <= i <= s.len(),
    ensures
        i <= number_end(s, i) <= s.len(),
    decreases s.len() - i,
{
    if i < s.len() && (is_digit(s[i]) || s[i] == '.') {
        lemma_number_end_range(s, i + 1);
    }
}

pub proof fn lemma_unescape_range(s: Seq<char>, i: int)
    requires
        0 <= i <= s.len(),
    ensures
        i <= unescape(s, i).1 <= s.len(),
    decreases s.len() - i,
{
    if i < s.len() && s[i] != '"' {
        if s[i] == '\\' && i + 1 < s.len() {
            lemma_unescape_range(s, i + 2);
        } else {
            lemma_unescape_range(s, i + 1);
        }
    }
}

/// Every step moves forward and stays within the text.
pub proof fn lemma_step_advances(s: Seq<char>, i: int)
    requires
        0 <= i < s.len(),
    ensures
        i < step(s, i).1 <= s.len(),
{
    let c = s[i];
    if c == '{' {
        lemma_find_char_range(s, i + 1, '}');
    } else if c == ';' {
        lemma_find_char_range(s, i + 1, '\n');
    } else if c == '$' {
        lemma_digits_end_range(s, i + 1);
    } else if c == '[' {
        let a = skip_ws(s, i + 1);
        lemma_skip_ws_range(s, i + 1);
        lemma_word_end_range(s, a);
        let b = word_end(s, a);
        lemma_skip_ws_range(s, b);
        let q = skip_ws(s, b);
        if q < s.len() && s[q] == '"' {
            lemma_unescape_range(s, q + 1);
            lemma_find_char_range(s, unescape(s, q + 1).1, ']');
        } else {
            lemma_find_char_range(s, b, ']');
        }
    } else if !is_ws(c) && !is_delim(c) {
        lemma_word_end_range(s, i + 1);
        assert(word_end(s, i) == word_end(s, i + 1));
    }
}

// ---------------------------------------------------------------------------
// The executable lexer.

pub fn skip_ws_exec(s: &Vec<char>, i: usize) -> (r: usize)
    requires
        i <= s@.len(),
    ensures
        r == skip_ws(s@, i as int),
        i <= r <= s@.len(),
{
    let mut k = i;
    while k < s.len() && ws(s[k])
        invariant
            i <= k <= s@.len(),
            skip_ws(s@, i as int) == skip_ws(s@, k as int),
        decreases s@.len() - k,
    {
        k = k + 1;
    }
    k
}

fn delim(c: char) -> (b: bool)
    ensures
        b == is_delim(c),
{
    ws(c) || c == '{' || c == '}' || c == '(' || c == ')' || c == '[' || c == ']' || c == ';'
        || c == '$' || c == '"'
}

fn word_end_exec(s: &Vec<char>, i: usize) -> (r: usize)
    requires
        i <= s@.len(),
    ensures
        r == word_end(s@, i as int),
        i <= r <= s@.len(),
{
    let mut k = i;
    while k < s.len() && !delim(s[k])
        invariant
            i <= k <= s@.len(),
            word_end(s@, i as int) == word_end(s@, k as int),
        decreases s@.len() - k,
    {
        k = k + 1;
    }
    k
}

pub fn find_char_exec(s: &Vec<char>, i: usize, c: char) -> (r: usize)
    requires
        i <= s@.len(),
    ensures
        r == find_char(s@, i as int, c),
        i <= r <= s@.len(),
{
    let mut k = i;
    while k < s.len() && s[k] != c
        invariant
            i <= k <= s@.len(),
            find_char(s@, i as int, c) == find_char(s@, k as int, c),
        decreases s@.len() - k,
    {
        k = k + 1;
    }
    k
}

fn digits_end_exec(s: &Vec<char>, i: usize) -> (r: usize)
    requires
        i <= s@.len(),
    ensures
        r == digits_end(s@, i as int),
        i <= r <= s@.len(),
{
    let mut k = i;
    while k < s.len() && digit(s[k])
        invariant
            i <= k <= s@.len(),
            digits_end(s@, i as int) == digits_end(s@, k as int),
        decreases s@.len() - k,
    {
        k = k + 1;
    }
    k
}

fn unescape_exec(s: &Vec<char>, i: usize) -> (r: (Vec<char>, usize))
    requires
        i <= s@.len(),
    ensures
        (r.0@, r.1 as int) == unescape(s@, i as int),
        i <= r.1 <= s@.len(),
{
    let mut v: Vec<char> = Vec::new();
    let mut k = i;
    proof {
        lemma_unescape_range(s@, i as int);
    }
    while k < s.len() && s[k] != '"'
        invariant
            i <= k <= s@.len(),
            unescape(s@, i as int) == (v@ + unescape(s@, k as int).0, unescape(s@, k as int).1),
        decreases s@.len() - k,
    {
        if s[k] == '\\' && k + 1 < s.len() {
            let ghost before = v@;
            v.push(s[k + 1]);
            assert(before + unescape(s@, k as int).0 =~= v@ + unescape(s@, (k + 2) as int).0);
            k = k + 2;
        } else {
            let ghost before = v@;
            v.push(s[k]);
            assert(before + unescape(s@, k as int).0 =~= v@ + unescape(s@, (k + 1) as int).0);
            k = k + 1;
        }
    }
    assert(v@ + unescape(s@, k as int).0 =~= v@);
    (v, k)
}

/// `s[from..to]` as a vector.
pub fn slice_to_vec(s: &Vec<char>, from: usize, to: usize) -> (v: Vec<char>)
    requires
        from <= to <= s@.len(),
    ensures
        v@ == s@.subrange(from as int, to as int),
{
    let mut v: Vec<char> = Vec::new();
    let mut k = from;
    while k < to
        invariant
            from <= k <= to <= s@.len(),
            v@ == s@.subrange(from as int, k as int),
        decreases to - k,
    {
        v.push(s[k]);
        k = k + 1;
        assert(v@ =~= s@.subrange(from as int, k as int));
    }
    v
}

proof fn lemma_trim_start_step(s: Seq<char>, lo: int, hi: int)
    requires
        0 <= lo < hi <= s.len(),
        is_ws(s[lo]),
    ensures
        trim_start(s.subrange(lo, hi)) == trim_start(s.subrange(lo + 1, hi)),
{
    assert(s.subrange(lo, hi).drop_first() =~= s.subrange(lo + 1, hi));
}

proof fn lemma_trim_end_step(s: Seq<char>, lo: int, hi: int)
    requires
        0 <= lo < hi <= s.len(),
        is_ws(s[hi - 1]),
    ensures
        trim_end(s.subrange(lo, hi)) == trim_end(s.subrange(lo, hi - 1)),
{
    assert(s.subrange(lo, hi).drop_last() =~= s.subrange(lo, hi - 1));
}

/// `s[from..to]` without surrounding whitespace.
pub fn trimmed(s: &Vec<char>, from: usize, to: usize) -> (v: Vec<char>)
    requires
        from <= to <= s@.len(),
    ensures
        v@ == trim(s@.subrange(from as int, to as int)),
{
    let mut lo = from;
    while lo < to && ws(s[lo])
        invariant
            from <= lo <= to <= s@.len(),
            trim_start(s@.subrange(from as int, to as int)) == trim_start(
                s@.subrange(lo as int, to as int),
            ),
        decreases to - lo,
    {
        proof {
            lemma_trim_start_step(s@, lo as int, to as int);
        }
        lo = lo + 1;
    }
    assert(trim_start(s@.subrange(lo as int, to as int)) == s@.subrange(lo as int, to as int));
    let mut hi = to;
    while hi > lo && ws(s[hi - 1])
        invariant
            from <= lo <= hi <= to <= s@.len(),
            trim(s@.subrange(from as int, to as int)) == trim_end(
                s@.subrange(lo as int, hi as int),
            ),
        decreases hi - lo,
    {
        proof {
            lemma_trim_end_step(s@, lo as int, hi as int);
        }
        hi = hi - 1;
    }
    slice_to_vec(s, lo, hi)
}

fn outcome_word(s: &Vec<char>, i: usize, e: usize) -> (b: bool)
    requires
        i <= e <= s@.len(),
    ensures
        b == is_outcome(s@.subrange(i as int, e as int)),
{
    let w = slice_to_vec(s, i, e);
    let n = w.len();
    let b = (n == 3 && w[0] == '1' && w[1] == '-' && w[2] == '0') || (n == 3 && w[0] == '0'
        && w[1] == '-' && w[2] == '1') || (n == 7 && w[0] == '1' && w[1] == '/' && w[2] == '2'
        && w[3] == '-' && w[4] == '1' && w[5] == '/' && w[6] == '2') || (n == 1 && w[0] == '*');
    proof {
        let ws = w@;
        if n == 3 && w[0] == '1' && w[1] == '-' && w[2] == '0' {
            assert(ws =~= seq!['1', '-', '0']);
        }
        if n == 3 && w[0] == '0' && w[1] == '-' && w[2] == '1' {
            assert(ws =~= seq!['0', '-', '1']);
        }
        if n == 7 && w[0] == '1' && w[1] == '/' && w[2] == '2' && w[3] == '-' && w[4] == '1'
            && w[5] == '/' && w[6] == '2' {
            assert(ws =~= seq!['1', '/', '2', '-', '1', '/', '2']);
        }
        if n == 1 && w[0] == '*' {
            assert(ws =~= seq!['*']);
        }
    }
    b
}

proof fn lemma_number_end_shift(s: Seq<char>, i: int, e: int, k: int)
    requires
        0 <= i <= k <= e <= s.len(),
    ensures
        number_end(s.subrange(i, e), k - i) == (if number_end_bounded(s, k, e) < e {
            number_end_bounded(s, k, e)
        } else {
            e
        }) - i,
    decreases e - k,
{
    if k < e && (is_digit(s[k]) || s[k] == '.') {
        lemma_number_end_shift(s, i, e, k + 1);
    }
}

/// The end of the run of digits and dots from `k`, stopping at `e`.
pub open spec fn number_end_bounded(s: Seq<char>, k: int, e: int) -> int
    decreases e - k,
{
    if 0 <= k < e && k < s.len() && (is_digit(s[k]) || s[k] == '.') {
        number_end_bounded(s, k + 1, e)
    } else {
        k
    }
}

/// Pushes the tokens of the word `s[i..e]`.
fn push_word(s: &Vec<char>, i: usize, e: usize, out: &mut Vec<Token>)
    requires
        i < e <= s@.len(),
    ensures
        toks_view(final(out)@) == toks_view(old(out)@) + word_toks(s@.subrange(i as int, e as int)),
{
    let ghost w = s@.subrange(i as int, e as int);
    let ghost before = toks_view(out@);
    if outcome_word(s, i, e) {
        out.push(Token::Outcome(slice_to_vec(s, i, e)));
        assert(toks_view(out@) =~= before + word_toks(w));
    } else if digit(s[i]) {
        let mut d = i;
        while d < e && (digit(s[d]) || s[d] == '.')
            invariant
                i <= d <= e <= s@.len(),
                number_end_bounded(s@, i as int, e as int) == number_end_bounded(
                    s@,
                    d as int,
                    e as int,
                ),
            decreases e - d,
        {
            d = d + 1;
        }
        proof {
            lemma_number_end_shift(s@, i as int, e as int, i as int);
            assert(w[0] == s@[i as int]);
        }
        out.push(Token::Number);
        if d < e {
            out.push(Token::San(slice_to_vec(s, d, e)));
            assert(w.skip(d - i) =~= s@.subrange(d as int, e as int));
        }
        assert(toks_view(out@) =~= before + word_toks(w));
    } else {
        out.push(Token::San(slice_to_vec(s, i, e)));
        assert(toks_view(out@) =~= before + word_toks(w));
    }
}

/// Performs one step at `i`, pushing its tokens; returns where the next step
/// starts.
fn step_exec(s: &Vec<char>, i: usize, out: &mut Vec<Token>) -> (n: usize)
    requires
        i < s@.len(),
    ensures
        n == step(s@, i as int).1,
        toks_view(final(out)@) == toks_view(old(out)@) + step(s@, i as int).0,
{
    let ghost before = toks_view(out@);
    let len = s.len();
    let c = s[i];
    if ws(c) {
        assert(toks_view(out@) =~= before + step(s@, i as int).0);
        i + 1
    } else if c == '{' {
        let k = find_char_exec(s, i + 1, '}');
        out.push(Token::Comment(slice_to_vec(s, i + 1, k)));
        assert(toks_view(out@) =~= before + step(s@, i as int).0);
        if k < s.len() { k + 1 } else { s.len() }
    } else if c == ';' {
        assert(toks_view(out@) =~= before + step(s@, i as int).0);
        find_char_exec(s, i + 1, '\n')
    } else if c == '(' {
        out.push(Token::Open);
        assert(toks_view(out@) =~= before + step(s@, i as int).0);
        i + 1
    } else if c == ')' {
        out.push(Token::Close);
        assert(toks_view(out@) =~= before + step(s@, i as int).0);
        i + 1
    } else if c == '$' {
        assert(toks_view(out@) =~= before + step(s@, i as int).0);
        digits_end_exec(s, i + 1)
    } else if c == '[' {
        let a = skip_ws_exec(s, i + 1);
        let b = word_end_exec(s, a);
        let q = skip_ws_exec(s, b);
        if q < s.len() && s[q] == '"' {
            let (v, e) = unescape_exec(s, q + 1);
            let r = find_char_exec(s, e, ']');
            if b > a {
                out.push(Token::Tag(slice_to_vec(s, a, b), v));
            }
            assert(toks_view(out@) =~= before + step(s@, i as int).0);
            if r < s.len() { r + 1 } else { s.len() }
        } else {
            let r = find_char_exec(s, b, ']');
            assert(toks_view(out@) =~= before + step(s@, i as int).0);
            if r < s.len() { r + 1 } else { s.len() }
        }
    } else if delim(c) {
        assert(toks_view(out@) =~= before + step(s@, i as int).0);
        i + 1
    } else {
        let e = word_end_exec(s, i);
        proof {
            assert(word_end(s@, i as int) == word_end(s@, i + 1));
            lemma_word_end_range(s@, i + 1);
        }
        push_word(s, i, e, out);
        e
    }
}

/// The tokens of `s`.
pub fn lex_exec(s: &Vec<char>) -> (ts: Vec<Token>)
    ensures
        toks_view(ts@) == lex(s@),
{
    let mut out: Vec<Token> = Vec::new();
    let mut i: usize = 0;
    while i < s.len()
        invariant
            i <= s@.len(),
            lex(s@) == toks_view(out@) + lex_from(s@, i as int),
        decreases s@.len() - i,
    {
        proof {
            lemma_step_advances(s@, i as int);
        }
        let ghost before = toks_view(out@);
        let n = step_exec(s, i, &mut out);
        assert(lex_from(s@, i as int) == step(s@, i as int).0 + lex_from(s@, n as int)) by {
            reveal_with_fuel(lex_from, 2);
        }
        assert(lex(s@) =~= toks_view(out@) + lex_from(s@, n as int));
        i = n;
    }
    assert(toks_view(out@) + lex_from(s@, i as int) =~= toks_view(out@));
    out
}

} // verus!
