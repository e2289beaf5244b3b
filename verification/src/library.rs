//! The list of game files in a directory.
//!
//! The list is the directory itself: keeping an index beside it would let
//! the two disagree when files are moved or removed. Reading the directory
//! is left to the caller; this module decides which entries are listed and
//! in which order.

use vstd::prelude::*;

verus! {

/// A byte as ASCII lowercase.
pub open spec fn lower(b: u8) -> u8 {
    if 65 <= b <= 90 { (b + 32) as u8 } else { b }
}

/// The index of the last `.` in `n` before index `k`, or -1.
pub open spec fn last_dot(n: Seq<u8>, k: int) -> int
    decreases k,
{
    if k <= 0 {
        -1
    } else if n[k - 1] == 46u8 {
        k - 1
    } else {
        last_dot(n, k - 1)
    }
}

/// Whether a file name has the extension `pgn`, in any case, as
/// `Path::extension` finds extensions: after the last dot, unless that dot
/// starts the name (`.pgn` is a hidden file without an extension).
pub open spec fn is_pgn_name(n: Seq<u8>) -> bool {
    let d = last_dot(n, n.len() as int);
    &&& d > 0
    &&& n.len() == d + 4
    &&& lower(n[d + 1]) == 112u8
    &&& lower(n[d + 2]) == 103u8
    &&& lower(n[d + 3]) == 110u8
}

/// The names of the entries that are files named `*.pgn`, in the order of
/// the entries.
pub open spec fn selected(entries: Seq<(Seq<u8>, bool)>) -> Seq<Seq<u8>>
    decreases entries.len(),
{
    if entries.len() == 0 {
        seq![]
    } else {
        let e = entries.last();
        let rest = selected(entries.drop_last());
        if e.1 && is_pgn_name(e.0) {
            rest.push(e.0)
        } else {
            rest
        }
    }
}

/// Byte strings in lexicographic order, a prefix first: the order of file
/// names, and so of the paths of one directory.
pub open spec fn bytes_le(a: Seq<u8>, b: Seq<u8>) -> bool
    decreases a.len(),
{
    if a.len() == 0 {
        true
    } else if b.len() == 0 {
        false
    } else if a[0] != b[0] {
        a[0] < b[0]
    } else {
        bytes_le(a.drop_first(), b.drop_first())
    }
}

pub open spec fn sorted(s: Seq<Seq<u8>>) -> bool {
    forall|i: int, j: int| 0 <= i < j < s.len() ==> bytes_le(#[trigger] s[i], #[trigger] s[j])
}

pub proof fn lemma_bytes_le_total(a: Seq<u8>, b: Seq<u8>)
    ensures
        bytes_le(a, b) || bytes_le(b, a),
    decreases a.len(),
{
    if a.len() > 0 && b.len() > 0 && a[0] == b[0] {
        lemma_bytes_le_total(a.drop_first(), b.drop_first());
    }
}

pub proof fn lemma_bytes_le_trans(a: Seq<u8>, b: Seq<u8>, c: Seq<u8>)
    requires
        bytes_le(a, b),
        bytes_le(b, c),
    ensures
        bytes_le(a, c),
    decreases a.len(),
{
    if a.len() > 0 && b.len() > 0 && c.len() > 0 && a[0] == b[0] && b[0] == c[0] {
        lemma_bytes_le_trans(a.drop_first(), b.drop_first(), c.drop_first());
    }
}

/// Whether a file name has the extension `pgn`, in any case.
pub fn is_pgn(name: &[u8]) -> (b: bool)
    ensures
        b == is_pgn_name(name@),
{
    let n = name.len();
    let mut k = n;
    while k > 0 && name[k - 1] != 46u8
        invariant
            k <= n == name@.len(),
            last_dot(name@, n as int) == last_dot(name@, k as int),
        decreases k,
    {
        k = k - 1;
    }
    if k <= 1 || n - k != 3 {
        return false;
    }
    let d = k - 1;
    lower_exec(name[d + 1]) == 112u8 && lower_exec(name[d + 2]) == 103u8 && lower_exec(name[d + 3])
        == 110u8
}

fn lower_exec(b: u8) -> (l: u8)
    ensures
        l == lower(b),
{
    if 65 <= b && b <= 90 { b + 32 } else { b }
}

fn bytes_le_exec(a: &Vec<u8>, b: &Vec<u8>) -> (r: bool)
    ensures
        r == bytes_le(a@, b@),
{
    let mut i: usize = 0;
    assert(a@.skip(0) =~= a@);
    assert(b@.skip(0) =~= b@);
    while i < a.len() && i < b.len() && a[i] == b[i]
        invariant
            i <= a@.len(),
            i <= b@.len(),
            bytes_le(a@, b@) == bytes_le(a@.skip(i as int), b@.skip(i as int)),
        decreases a@.len() - i,
    {
        assert(a@.skip(i as int).drop_first() =~= a@.skip(i + 1));
        assert(b@.skip(i as int).drop_first() =~= b@.skip(i + 1));
        i = i + 1;
    }
    if i == a.len() {
        true
    } else if i == b.len() {
        false
    } else {
        a[i] < b[i]
    }
}

/// The names of the entries (name and whether it is a file) that are files
/// named `*.pgn`, sorted by name. Subdirectories are not entered, and a
/// directory named like a game file is not listed. Files are not filtered
/// by whether they hold annotations: unannotated games can be replayed too.
pub fn pgn_names(entries: Vec<(Vec<u8>, bool)>) -> (names: Vec<Vec<u8>>)
    ensures
        sorted(names.deep_view()),
        names.deep_view().to_multiset() == selected(entries.deep_view()).to_multiset(),
{
    broadcast use vstd::seq_lib::group_to_multiset_ensures;

    let mut out: Vec<Vec<u8>> = Vec::new();
    let mut k: usize = 0;
    let ghost all = entries.deep_view();
    assert(all.take(0) =~= Seq::<(Seq<u8>, bool)>::empty());
    assert(out.deep_view() =~= Seq::<Seq<u8>>::empty());
    while k < entries.len()
        invariant
            k <= entries@.len(),
            all == entries.deep_view(),
            sorted(out.deep_view()),
            out.deep_view().to_multiset() == selected(all.take(k as int)).to_multiset(),
        decreases entries@.len() - k,
    {
        let (name, is_file) = (&entries[k].0, entries[k].1);
        assert(all[k as int] == (name@, is_file));
        assert(all.take(k + 1).drop_last() =~= all.take(k as int));
        assert(all.take(k + 1).last() == all[k as int]);
        if is_file && is_pgn(name.as_slice()) {
            let ghost ov = out.deep_view();
            let mut p: usize = 0;
            loop
                invariant
                    p <= out@.len(),
                    ov == out.deep_view(),
                    forall|i: int| 0 <= i < p ==> bytes_le(#[trigger] ov[i], name@),
                ensures
                    p <= out@.len(),
                    forall|i: int| 0 <= i < p ==> bytes_le(#[trigger] ov[i], name@),
                    p < out@.len() ==> !bytes_le(ov[p as int], name@),
                decreases out@.len() - p,
            {
                if p >= out.len() {
                    break;
                }
                assert(ov[p as int] == out@[p as int]@);
                if !bytes_le_exec(&out[p], name) {
                    break;
                }
                p = p + 1;
            }
            let x = name.clone();
            assert(x@ == name@);
            out.insert(p, x);
            let ghost nv = out.deep_view();
            assert(nv =~= ov.insert(p as int, name@));
            proof {
                vstd::seq_lib::to_multiset_insert(ov, p as int, name@);
            }
            assert forall|i: int, j: int| 0 <= i < j < nv.len() implies bytes_le(
                #[trigger] nv[i],
                #[trigger] nv[j],
            ) by {
                if j < p {
                    assert(nv[i] == ov[i] && nv[j] == ov[j]);
                } else if j == p {
                    assert(nv[i] == ov[i]);
                } else if i < p {
                    assert(nv[i] == ov[i] && nv[j] == ov[j - 1]);
                    lemma_bytes_le_total(ov[p as int], name@);
                    if j - 1 > p {
                        lemma_bytes_le_trans(name@, ov[p as int], ov[j - 1]);
                    }
                    lemma_bytes_le_trans(ov[i], name@, ov[j - 1]);
                } else if i == p {
                    assert(nv[j] == ov[j - 1]);
                    lemma_bytes_le_total(ov[p as int], name@);
                    if j - 1 > p {
                        lemma_bytes_le_trans(name@, ov[p as int], ov[j - 1]);
                    }
                } else {
                    assert(nv[i] == ov[i - 1] && nv[j] == ov[j - 1]);
                }
            }
            assert(selected(all.take(k + 1)) == selected(all.take(k as int)).push(name@));
            proof {
                vstd::seq_lib::to_multiset_build(selected(all.take(k as int)), name@);
            }
        } else {
            assert(selected(all.take(k + 1)) == selected(all.take(k as int)));
        }
        k = k + 1;
    }
    assert(all.take(k as int) =~= all);
    out
}

/// Whatever the entries, only files named `*.pgn` are listed.
pub proof fn law_only_game_files(entries: Seq<(Seq<u8>, bool)>, n: Seq<u8>)
    requires
        selected(entries).contains(n),
    ensures
        is_pgn_name(n),
        exists|k: int| 0 <= k < entries.len() && entries[k] == (n, true),
    decreases entries.len(),
{
    if entries.len() > 0 {
        let e = entries.last();
        let rest = selected(entries.drop_last());
        if e.1 && is_pgn_name(e.0) && n == e.0 {
            assert(entries[entries.len() - 1] == (n, true));
        } else {
            if e.1 && is_pgn_name(e.0) {
                assert(rest.push(e.0).contains(n));
                let i = choose|i: int| 0 <= i < rest.push(e.0).len() && rest.push(e.0)[i] == n;
                assert(i < rest.len());
                assert(rest.contains(n));
            }
            law_only_game_files(entries.drop_last(), n);
            let k = choose|k: int| 0 <= k < entries.drop_last().len() && entries.drop_last()[k] == (n, true);
            assert(entries[k] == (n, true));
        }
    }
}

/// Names are ordered as `sort` orders byte strings: `a` comes first when it
/// is a prefix of `b`, or when at the first byte where they differ, its byte
/// is the smaller number (bytes counted from 0 to 255, so a name in ASCII
/// comes before one that starts with a byte of UTF-8 beyond it).
pub proof fn law_names_in_byte_order(a: Seq<u8>, b: Seq<u8>)
    ensures
        bytes_le(a, b) <==> ((a.len() <= b.len() && a == b.take(a.len() as int)) || exists|i: int|
            0 <= i < a.len() && i < b.len() && a.take(i) == b.take(i) && (a[i] as int) < (
            #[trigger] b[i] as int)),
        forall|x: u8, y: u8| #[trigger] bytes_le(seq![x], seq![y]) <==> x <= y,
    decreases a.len(),
{
    assert forall|x: u8, y: u8| #[trigger] bytes_le(seq![x], seq![y]) <==> x <= y by {
        let sx = seq![x];
        let sy = seq![y];
        assert(sx[0] == x && sy[0] == y);
        if x == y {
            assert(sx.drop_first() =~= Seq::<u8>::empty());
            assert(sy.drop_first() =~= Seq::<u8>::empty());
            assert(bytes_le(Seq::<u8>::empty(), Seq::<u8>::empty()));
        }
    }
    let prefix = a.len() <= b.len() && a == b.take(a.len() as int);
    let differs = exists|i: int|
        0 <= i < a.len() && i < b.len() && a.take(i) == b.take(i) && (a[i] as int) < (
        #[trigger] b[i] as int);
    if a.len() == 0 {
        assert(a =~= b.take(0));
    } else if b.len() == 0 {
    } else if a[0] != b[0] {
        assert(!prefix) by {
            if prefix {
                assert(a[0] == b.take(a.len() as int)[0]);
            }
        }
        if differs {
            let i = choose|i: int|
                0 <= i < a.len() && i < b.len() && a.take(i) == b.take(i) && (a[i] as int) < (
                #[trigger] b[i] as int);
            if i > 0 {
                assert(a.take(i)[0] == b.take(i)[0]);
            }
        }
        if a[0] < b[0] {
            assert(a.take(0) =~= b.take(0));
            assert(0 < a.len() && 0 < b.len() && a.take(0) == b.take(0) && (a[0] as int) < (
            b[0] as int));
        }
    } else {
        let a1 = a.drop_first();
        let b1 = b.drop_first();
        law_names_in_byte_order(a1, b1);
        let prefix1 = a1.len() <= b1.len() && a1 == b1.take(a1.len() as int);
        let differs1 = exists|i: int|
            0 <= i < a1.len() && i < b1.len() && a1.take(i) == b1.take(i) && (a1[i] as int) < (
            #[trigger] b1[i] as int);
        assert(prefix == prefix1) by {
            if a.len() <= b.len() {
                if a == b.take(a.len() as int) {
                    assert(a1 =~= b1.take(a1.len() as int));
                }
                if a1 == b1.take(a1.len() as int) {
                    assert forall|k: int| 0 <= k < a.len() implies #[trigger] a[k] == b.take(
                        a.len() as int,
                    )[k] by {
                        if k > 0 {
                            assert(a[k] == a1[k - 1]);
                            assert(a1[k - 1] == b1.take(a1.len() as int)[k - 1]);
                        }
                    }
                    assert(a =~= b.take(a.len() as int));
                }
            }
        }
        if differs {
            let i = choose|i: int|
                0 <= i < a.len() && i < b.len() && a.take(i) == b.take(i) && (a[i] as int) < (
                #[trigger] b[i] as int);
            assert(i > 0);
            assert(a1.take(i - 1) =~= b1.take(i - 1)) by {
                assert forall|k: int| 0 <= k < i - 1 implies #[trigger] a1.take(i - 1)[k] == b1.take(i - 1)[k] by {
                    assert(a.take(i)[k + 1] == b.take(i)[k + 1]);
                }
            }
            assert(a1[i - 1] == a[i] && b1[i - 1] == b[i]);
            assert(differs1);
        }
        if differs1 {
            let j = choose|j: int|
                0 <= j < a1.len() && j < b1.len() && a1.take(j) == b1.take(j) && (a1[j] as int) < (
                #[trigger] b1[j] as int);
            assert(a.take(j + 1) =~= b.take(j + 1)) by {
                assert forall|k: int| 0 <= k < j + 1 implies #[trigger] a.take(j + 1)[k] == b.take(j + 1)[k] by {
                    if k > 0 {
                        assert(a1.take(j)[k - 1] == b1.take(j)[k - 1]);
                    }
                }
            }
            assert(a[j + 1] == a1[j] && b[j + 1] == b1[j]);
            assert(differs);
        }
    }
}

} // verus!
