//! Matching a query against a command: exactly, at its start, inside it, or
//! letter by letter.

use vstd::prelude::*;

use crate::text;

verus! {

/// How well a query matches. The ranks are listed best first.
#[derive(Clone, Copy, PartialEq, Eq, Structural, Debug)]
pub enum Rank {
    Exact,
    Prefix,
    Substring,
    Subsequence,
}

/// A match: how good it is, and the positions that it matched.
pub struct Fit {
    pub rank: Rank,
    pub hl: Seq<int>,
}

/// The first position from `i` on at which `t` stands in `s`, or -1.
pub open spec fn find_from(s: Seq<char>, t: Seq<char>, i: int) -> int
    decreases s.len() + 1 - i,
{
    if i + t.len() > s.len() {
        -1
    } else if text::occurs_at(s, t, i) {
        i
    } else {
        find_from(s, t, i + 1)
    }
}

/// The letters of `q` in `s` from position `i` on, each as early as it can be.
pub open spec fn letters(q: Seq<char>, s: Seq<char>, i: int) -> Option<Seq<int>>
    decreases s.len() - i,
{
    if q.len() == 0 {
        Some(Seq::empty())
    } else if i >= s.len() {
        None
    } else if s[i] == q[0] {
        match letters(q.drop_first(), s, i + 1) {
            Some(rest) => Some(seq![i] + rest),
            None => None,
        }
    } else {
        letters(q, s, i + 1)
    }
}

/// The positions from `a` up to `b`.
pub open spec fn run(a: int, b: int) -> Seq<int> {
    Seq::new((b - a) as nat, |k: int| a + k)
}

/// The best match of `q` in `s`.
pub open spec fn fit(q: Seq<char>, s: Seq<char>) -> Option<Fit> {
    let at = find_from(s, q, 0);
    if q == s {
        Some(Fit { rank: Rank::Exact, hl: run(0, q.len() as int) })
    } else if at == 0 {
        Some(Fit { rank: Rank::Prefix, hl: run(0, q.len() as int) })
    } else if at > 0 {
        Some(Fit { rank: Rank::Substring, hl: run(at, at + q.len()) })
    } else {
        match letters(q, s, 0) {
            Some(hl) => Some(Fit { rank: Rank::Subsequence, hl }),
            None => None,
        }
    }
}

pub open spec fn positions(v: Seq<usize>) -> Seq<int> {
    Seq::new(v.len(), |i: int| v[i] as int)
}

pub open spec fn fit_view(r: Option<(Rank, Vec<usize>)>) -> Option<Fit> {
    match r {
        Some((rank, hl)) => Some(Fit { rank, hl: positions(hl@) }),
        None => None,
    }
}

pub fn find(s: &Vec<char>, t: &Vec<char>) -> (r: Option<usize>)
    ensures
        r matches Some(i) ==> find_from(s@, t@, 0) == i && i + t.len() <= s.len(),
        r is None ==> find_from(s@, t@, 0) < 0,
{
    if t.len() > s.len() {
        return None;
    }
    let mut i: usize = 0;
    while i <= s.len() - t.len()
        invariant
            t@.len() <= s@.len(),
            i <= s@.len() - t@.len() + 1,
            find_from(s@, t@, i as int) == find_from(s@, t@, 0),
        decreases s@.len() - t@.len() + 1 - i,
    {
        if text::stands_at(s, t, i) {
            return Some(i);
        }
        if i == s.len() - t.len() {
            assert(find_from(s@, t@, i + 1) == -1);
            return None;
        }
        i = i + 1;
    }
    None
}

fn run_of(a: usize, b: usize) -> (r: Vec<usize>)
    requires
        a <= b,
    ensures
        positions(r@) == run(a as int, b as int),
{
    let mut r: Vec<usize> = Vec::new();
    let mut i: usize = a;
    while i < b
        invariant
            a <= i <= b,
            r@.len() == i - a,
            forall|k: int| 0 <= k < r@.len() ==> #[trigger] r@[k] == a + k,
        decreases b - i,
    {
        r.push(i);
        i = i + 1;
    }
    assert(positions(r@) =~= run(a as int, b as int));
    r
}

fn letters_of(q: &Vec<char>, s: &Vec<char>) -> (r: Option<Vec<usize>>)
    ensures
        r is Some == letters(q@, s@, 0) is Some,
        r matches Some(v) ==> letters(q@, s@, 0) == Some(positions(v@)),
{
    let mut r: Vec<usize> = Vec::new();
    let mut k: usize = 0;
    let mut i: usize = 0;
    assert(q@.skip(0) =~= q@);
    assert(positions(r@) =~= Seq::<int>::empty());
    proof {
        if let Some(rest) = letters(q@, s@, 0) {
            assert(Seq::<int>::empty() + rest =~= rest);
        }
    }
    while k < q.len() && i < s.len()
        invariant
            k <= q@.len(),
            i <= s@.len(),
            letters(q@, s@, 0) == match letters(q@.skip(k as int), s@, i as int) {
                Some(rest) => Some(positions(r@) + rest),
                None => None,
            },
        decreases s@.len() - i,
    {
        let ghost before = positions(r@);
        let ghost left = q@.skip(k as int);
        proof {
            assert(left[0] == q@[k as int]);
            assert(left.drop_first() =~= q@.skip(k + 1));
        }
        if s[i] == q[k] {
            r.push(i);
            proof {
                assert(positions(r@) =~= before.push(i as int));
                if let Some(rest) = letters(left.drop_first(), s@, i + 1) {
                    assert(before + (seq![i as int] + rest) =~= before.push(i as int) + rest);
                }
            }
            k = k + 1;
        }
        i = i + 1;
    }
    if k == q.len() {
        proof {
            assert(q@.skip(k as int) =~= Seq::<char>::empty());
            assert(positions(r@) + Seq::<int>::empty() =~= positions(r@));
        }
        Some(r)
    } else {
        None
    }
}

/// The best match of the query in the text, if there is one.
pub fn fuzzy_match(query: &str, disp: &str) -> (r: Option<(Rank, Vec<usize>)>)
    ensures
        fit_view(r) == fit(query@, disp@),
{
    let q = text::chars_of(query);
    let s = text::chars_of(disp);
    if text::same(query, disp) {
        return Some((Rank::Exact, run_of(0, q.len())));
    }
    match find(&s, &q) {
        Some(at) => {
            if at == 0 {
                Some((Rank::Prefix, run_of(0, q.len())))
            } else {
                Some((Rank::Substring, run_of(at, at + q.len())))
            }
        },
        None => match letters_of(&q, &s) {
            Some(hl) => Some((Rank::Subsequence, hl)),
            None => None,
        },
    }
}

proof fn lemma_find(s: Seq<char>, t: Seq<char>, i: int)
    requires
        0 <= i,
    ensures
        find_from(s, t, i) >= 0 ==> text::occurs_at(s, t, find_from(s, t, i)),
    decreases s.len() + 1 - i,
{
    if i + t.len() <= s.len() && !text::occurs_at(s, t, i) {
        lemma_find(s, t, i + 1);
    }
}

proof fn lemma_letters(q: Seq<char>, s: Seq<char>, i: int)
    requires
        0 <= i,
    ensures
        letters(q, s, i) matches Some(hl) ==> hl.len() == q.len() && (forall|k: int|
            0 <= k < hl.len() ==> i <= #[trigger] hl[k] < s.len() && s[hl[k]] == q[k]) && (forall|
            j: int,
            k: int,
        |
            0 <= j < k < hl.len() ==> #[trigger] hl[j] < #[trigger] hl[k]),
    decreases s.len() - i,
{
    if q.len() > 0 && i < s.len() {
        if s[i] == q[0] {
            lemma_letters(q.drop_first(), s, i + 1);
            if let Some(rest) = letters(q.drop_first(), s, i + 1) {
                let hl = seq![i] + rest;
                assert forall|k: int| 0 <= k < hl.len() implies i <= #[trigger] hl[k] < s.len()
                    && s[hl[k]] == q[k] by {
                    if k > 0 {
                        assert(hl[k] == rest[k - 1]);
                        assert(q.drop_first()[k - 1] == q[k]);
                    }
                }
                assert forall|j: int, k: int| 0 <= j < k < hl.len() implies #[trigger] hl[j]
                    < #[trigger] hl[k] by {
                    assert(hl[k] == rest[k - 1]);
                    if j > 0 {
                        assert(hl[j] == rest[j - 1]);
                    }
                }
            }
        } else {
            lemma_letters(q, s, i + 1);
        }
    }
}

/// The positions of a match spell the query, from left to right.
pub proof fn match_spells_the_query(q: Seq<char>, s: Seq<char>)
    ensures
        fit(q, s) matches Some(f) ==> f.hl.len() == q.len() && (forall|k: int|
            0 <= k < f.hl.len() ==> 0 <= #[trigger] f.hl[k] < s.len() && s[f.hl[k]] == q[k]) && (
        forall|j: int, k: int|
            0 <= j < k < f.hl.len() ==> #[trigger] f.hl[j] < #[trigger] f.hl[k]),
{
    lemma_find(s, q, 0);
    lemma_letters(q, s, 0);
    let at = find_from(s, q, 0);
    if q != s && at >= 0 {
        assert(s.subrange(at, at + q.len()) == q);
        assert forall|k: int| 0 <= k < q.len() implies s[at + k] == #[trigger] q[k] by {
            assert(s.subrange(at, at + q.len())[k] == s[at + k]);
        }
    }
}

} // verus!
