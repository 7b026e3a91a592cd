//! The results of a history search, and the runs of text that paint one.

use vstd::prelude::*;
use vstd::string::*;

use crate::fuzzy;
use crate::fuzzy::{fuzzy_match, Rank};
use crate::term::BlockRec;
use crate::text;

verus! {

/// One result.
#[derive(Debug)]
pub struct SearchHit {
    /// The command as it was recorded.
    pub cmd: String,
    /// Its one-line form, which the match is in.
    pub disp: String,
    /// The matched positions in that form.
    pub hl: Vec<usize>,
}

/// One result: its command, its one-line form, the matched positions.
pub struct Hit {
    pub cmd: Seq<char>,
    pub disp: Seq<char>,
    pub hl: Seq<int>,
}

impl View for SearchHit {
    type V = Hit;

    open spec fn view(&self) -> Hit {
        Hit { cmd: self.cmd@, disp: self.disp@, hl: fuzzy::positions(self.hl@) }
    }
}

pub open spec fn hits_view(v: Seq<SearchHit>) -> Seq<Hit> {
    Seq::new(v.len(), |i: int| v[i]@)
}

/// A command on one line: every line end as a space.
pub open spec fn flat(s: Seq<char>) -> Seq<char> {
    s.map_values(
        |c: char|
            if c == '\r' || c == '\n' {
                ' '
            } else {
                c
            },
    )
}

/// The record at `i` is searched: it is not blank, and no later record holds
/// the same command.
pub open spec fn searched(recs: Seq<BlockRec>, i: int) -> bool {
    !text::blank(recs[i].cmd@) && forall|j: int|
        i < j < recs.len() ==> (#[trigger] recs[j]).cmd@ != recs[i].cmd@
}

/// The results of rank `rank` among the records from `n` on, newest first.
pub open spec fn hits_of(recs: Seq<BlockRec>, n: int, query: Seq<char>, rank: Rank) -> Seq<Hit>
    decreases recs.len() - n,
{
    if n >= recs.len() {
        Seq::empty()
    } else {
        let newer = hits_of(recs, n + 1, query, rank);
        let cmd = recs[n].cmd@;
        match fuzzy::fit(query, flat(cmd)) {
            Some(f) if searched(recs, n) && f.rank == rank => newer.push(
                Hit { cmd, disp: flat(cmd), hl: f.hl },
            ),
            _ => newer,
        }
    }
}

/// All results: the better ranks first, within a rank the newer first.
pub open spec fn results(recs: Seq<BlockRec>, query: Seq<char>) -> Seq<Hit> {
    hits_of(recs, 0, query, Rank::Exact) + hits_of(recs, 0, query, Rank::Prefix) + hits_of(
        recs,
        0,
        query,
        Rank::Substring,
    ) + hits_of(recs, 0, query, Rank::Subsequence)
}

/// The first `cap` of them.
pub open spec fn capped(s: Seq<Hit>, cap: int) -> Seq<Hit> {
    if s.len() <= cap {
        s
    } else {
        s.take(cap)
    }
}

fn flatten(s: &str) -> (r: String)
    ensures
        r@ == flat(s@),
{
    let v = text::chars_of(s);
    let mut out = String::new();
    let mut i: usize = 0;
    assert(out@ =~= flat(v@.take(0)));
    while i < v.len()
        invariant
            i <= v@.len(),
            out@ == flat(v@.take(i as int)),
        decreases v@.len() - i,
    {
        let c = v[i];
        out.push(
            if c == '\r' || c == '\n' {
                ' '
            } else {
                c
            },
        );
        i = i + 1;
        assert(out@ =~= flat(v@.take(i as int)));
    }
    assert(v@.take(v@.len() as int) =~= v@);
    out
}

fn is_searched(recs: &[BlockRec], i: usize) -> (r: bool)
    requires
        i < recs@.len(),
    ensures
        r == searched(recs@, i as int),
{
    let cmd = recs[i].cmd.as_str();
    if text::is_blank(cmd) {
        return false;
    }
    let mut j: usize = i + 1;
    while j < recs.len()
        invariant
            i < j <= recs@.len(),
            cmd@ == recs@[i as int].cmd@,
            forall|k: int| i < k < j ==> (#[trigger] recs@[k]).cmd@ != recs@[i as int].cmd@,
        decreases recs@.len() - j,
    {
        if text::same(recs[j].cmd.as_str(), cmd) {
            assert(recs@[j as int].cmd@ == recs@[i as int].cmd@);
            return false;
        }
        j = j + 1;
    }
    true
}

fn push_hit(v: &mut Vec<SearchHit>, h: SearchHit)
    ensures
        hits_view(final(v)@) == hits_view(old(v)@).push(h@),
{
    let ghost before = hits_view(v@);
    let ghost n = h@;
    v.push(h);
    assert(hits_view(v@) =~= before.push(n));
}

fn join_hits(v: &mut Vec<SearchHit>, w: Vec<SearchHit>)
    ensures
        hits_view(final(v)@) == hits_view(old(v)@) + hits_view(w@),
{
    let ghost before = hits_view(v@);
    let ghost more = hits_view(w@);
    let mut w = w;
    v.append(&mut w);
    assert(hits_view(v@) =~= before + more);
}

/// The recorded commands that match the query: each once, blank ones not at
/// all, the better matches first and the newer first among equals, at most
/// `cap` of them.
pub fn search_results(recs: &[BlockRec], query: &str, cap: usize) -> (r: Vec<SearchHit>)
    ensures
        hits_view(r@) == capped(results(recs@, query@), cap as int),
{
    let mut exact: Vec<SearchHit> = Vec::new();
    let mut prefix: Vec<SearchHit> = Vec::new();
    let mut inside: Vec<SearchHit> = Vec::new();
    let mut letters: Vec<SearchHit> = Vec::new();
    let mut n: usize = recs.len();
    assert(hits_view(exact@) =~= Seq::<Hit>::empty());
    while n > 0
        invariant
            n <= recs@.len(),
            hits_view(exact@) == hits_of(recs@, n as int, query@, Rank::Exact),
            hits_view(prefix@) == hits_of(recs@, n as int, query@, Rank::Prefix),
            hits_view(inside@) == hits_of(recs@, n as int, query@, Rank::Substring),
            hits_view(letters@) == hits_of(recs@, n as int, query@, Rank::Subsequence),
        decreases n,
    {
        n = n - 1;
        if is_searched(recs, n) {
            let disp = flatten(recs[n].cmd.as_str());
            if let Some((rank, hl)) = fuzzy_match(query, disp.as_str()) {
                let hit = SearchHit { cmd: recs[n].cmd.clone(), disp, hl };
                match rank {
                    Rank::Exact => push_hit(&mut exact, hit),
                    Rank::Prefix => push_hit(&mut prefix, hit),
                    Rank::Substring => push_hit(&mut inside, hit),
                    Rank::Subsequence => push_hit(&mut letters, hit),
                }
            }
        }
    }
    let mut out = exact;
    join_hits(&mut out, prefix);
    join_hits(&mut out, inside);
    join_hits(&mut out, letters);
    let ghost all = hits_view(out@);
    if out.len() > cap {
        out.truncate(cap);
        assert(hits_view(out@) =~= all.take(cap as int));
    }
    out
}

/// Whether each of `n` positions is among the ascending `hl`, of which the
/// first `k` are behind it.
pub open spec fn marked(hl: Seq<usize>, k: int, i: int) -> bool {
    k < hl.len() && hl[k] == i
}

/// How many of `hl` are met before position `i`, each when its turn comes.
pub open spec fn met(hl: Seq<usize>, i: int) -> int
    decreases i,
{
    if i <= 0 {
        0
    } else {
        let k = met(hl, i - 1);
        if marked(hl, k, i - 1) {
            k + 1
        } else {
            k
        }
    }
}

/// Position `i` is highlighted.
pub open spec fn lit(hl: Seq<usize>, i: int) -> bool {
    marked(hl, met(hl, i), i)
}

/// A run of text that is painted alike.
pub struct TextRun {
    pub text: Seq<char>,
    pub lit: bool,
}

#[derive(Debug)]
pub struct Run {
    pub text: String,
    pub lit: bool,
}

pub open spec fn runs_view(v: Seq<Run>) -> Seq<TextRun> {
    Seq::new(v.len(), |i: int| TextRun { text: v[i].text@, lit: v[i].lit })
}

/// `s` in maximal runs of characters that are highlighted alike.
pub open spec fn runs(s: Seq<char>, hl: Seq<usize>) -> Seq<TextRun>
    decreases s.len(),
{
    if s.len() == 0 {
        Seq::empty()
    } else {
        let before = runs(s.drop_last(), hl);
        let l = lit(hl, s.len() - 1);
        if before.len() > 0 && before.last().lit == l {
            before.update(
                before.len() - 1,
                TextRun { text: before.last().text.push(s.last()), lit: l },
            )
        } else {
            before.push(TextRun { text: seq![s.last()], lit: l })
        }
    }
}

/// The text of a result in runs, those that matched lit.
pub fn search_row_job(disp: &str, hl: &[usize]) -> (r: Vec<Run>)
    ensures
        runs_view(r@) == runs(disp@, hl@),
{
    let v = text::chars_of(disp);
    let mut out: Vec<Run> = Vec::new();
    let mut k: usize = 0;
    let mut i: usize = 0;
    assert(v@.take(0) =~= Seq::<char>::empty());
    assert(runs_view(out@) =~= Seq::<TextRun>::empty());
    while i < v.len()
        invariant
            i <= v@.len(),
            k <= hl@.len(),
            k == met(hl@, i as int),
            runs_view(out@) == runs(v@.take(i as int), hl@),
        decreases v@.len() - i,
    {
        let ghost before = runs_view(out@);
        let c = v[i];
        let l: bool = k < hl.len() && hl[k] == i;
        proof {
            assert(v@.take(i + 1).drop_last() =~= v@.take(i as int));
            assert(v@.take(i + 1).last() == c);
        }
        let n: usize = out.len();
        if n > 0 && out[n - 1].lit == l {
            assert(before.last().lit == l);
            match out.pop() {
                Some(mut last) => {
                    last.text.push(c);
                    out.push(last);
                },
                None => {},
            }
            assert(runs_view(out@) =~= before.update(
                before.len() - 1,
                TextRun { text: before.last().text.push(c), lit: l },
            ));
        } else {
            let mut t = String::new();
            t.push(c);
            assert(t@ =~= seq![c]);
            out.push(Run { text: t, lit: l });
            assert(runs_view(out@) =~= before.push(TextRun { text: seq![c], lit: l }));
        }
        if l {
            k = k + 1;
        }
        i = i + 1;
    }
    assert(v@.take(v@.len() as int) =~= v@);
    out
}

/// The text of the runs, one behind the other.
pub open spec fn run_text(r: Seq<TextRun>) -> Seq<char>
    decreases r.len(),
{
    if r.len() == 0 {
        Seq::empty()
    } else {
        run_text(r.drop_last()) + r.last().text
    }
}

/// The runs of a result spell its text: painting loses nothing.
pub proof fn runs_spell_the_text(s: Seq<char>, hl: Seq<usize>)
    ensures
        run_text(runs(s, hl)) == s,
    decreases s.len(),
{
    if s.len() > 0 {
        runs_spell_the_text(s.drop_last(), hl);
        let before = runs(s.drop_last(), hl);
        let after = runs(s, hl);
        let c = s.last();
        if before.len() > 0 && before.last().lit == lit(hl, s.len() - 1) {
            assert(after.drop_last() =~= before.drop_last());
            assert(run_text(after) =~= run_text(before).push(c));
        } else {
            assert(after.drop_last() =~= before);
        }
        assert(s =~= s.drop_last().push(c));
        assert(run_text(after) =~= s.drop_last().push(c));
    } else {
        assert(s =~= Seq::<char>::empty());
    }
}

/// A search shows a command no more than once, and never a blank one.
pub proof fn results_are_distinct(recs: Seq<BlockRec>, query: Seq<char>)
    ensures
        forall|i: int, j: int|
            0 <= i < j < results(recs, query).len() ==> (#[trigger] results(recs, query)[i]).cmd
                != (#[trigger] results(recs, query)[j]).cmd,
        forall|i: int|
            0 <= i < results(recs, query).len() ==> !text::blank(
                (#[trigger] results(recs, query)[i]).cmd,
            ),
{
    let a = hits_of(recs, 0, query, Rank::Exact);
    let b = hits_of(recs, 0, query, Rank::Prefix);
    let c = hits_of(recs, 0, query, Rank::Substring);
    let d = hits_of(recs, 0, query, Rank::Subsequence);
    lemma_hits(recs, 0, query, Rank::Exact);
    lemma_hits(recs, 0, query, Rank::Prefix);
    lemma_hits(recs, 0, query, Rank::Substring);
    lemma_hits(recs, 0, query, Rank::Subsequence);
    let r = results(recs, query);
    let (na, nb, nc) = (a.len() as int, b.len() as int, c.len() as int);
    assert forall|i: int| 0 <= i < r.len() implies rank_at(recs, query, #[trigger] r[i]) == (if i
        < na {
        Rank::Exact
    } else if i < na + nb {
        Rank::Prefix
    } else if i < na + nb + nc {
        Rank::Substring
    } else {
        Rank::Subsequence
    }) && !text::blank(r[i].cmd) by {
        if i < na {
            assert(r[i] == a[i]);
        } else if i < na + nb {
            assert(r[i] == b[i - na]);
        } else if i < na + nb + nc {
            assert(r[i] == c[i - na - nb]);
        } else {
            assert(r[i] == d[i - na - nb - nc]);
        }
    }
    assert forall|i: int, j: int| 0 <= i < j < r.len() implies (#[trigger] r[i]).cmd != (
    #[trigger] r[j]).cmd by {
        if j < na {
            assert(r[i] == a[i] && r[j] == a[j]);
        } else if j < na + nb {
            if i >= na {
                assert(r[i] == b[i - na] && r[j] == b[j - na]);
            }
        } else if j < na + nb + nc {
            if i >= na + nb {
                assert(r[i] == c[i - na - nb] && r[j] == c[j - na - nb]);
            }
        } else if i >= na + nb + nc {
            assert(r[i] == d[i - na - nb - nc] && r[j] == d[j - na - nb - nc]);
        }
    }
}

/// The rank of a result's command.
spec fn rank_at(recs: Seq<BlockRec>, query: Seq<char>, h: Hit) -> Rank {
    fuzzy::fit(query, flat(h.cmd))->0.rank
}

proof fn lemma_hits(recs: Seq<BlockRec>, n: int, query: Seq<char>, rank: Rank)
    requires
        0 <= n,
    ensures
        forall|i: int|
            0 <= i < hits_of(recs, n, query, rank).len() ==> {
                let h = #[trigger] hits_of(recs, n, query, rank)[i];
                &&& fuzzy::fit(query, flat(h.cmd)) is Some
                &&& rank_at(recs, query, h) == rank
                &&& !text::blank(h.cmd)
                &&& exists|k: int| n <= k < recs.len() && (#[trigger] recs[k]).cmd@ == h.cmd
            },
        forall|i: int, j: int|
            0 <= i < j < hits_of(recs, n, query, rank).len() ==> (#[trigger] hits_of(
                recs,
                n,
                query,
                rank,
            )[i]).cmd != (#[trigger] hits_of(recs, n, query, rank)[j]).cmd,
    decreases recs.len() - n,
{
    if n < recs.len() {
        lemma_hits(recs, n + 1, query, rank);
        let newer = hits_of(recs, n + 1, query, rank);
        let all = hits_of(recs, n, query, rank);
        assert forall|i: int| 0 <= i < all.len() implies ({
            let h = #[trigger] all[i];
            &&& fuzzy::fit(query, flat(h.cmd)) is Some
            &&& rank_at(recs, query, h) == rank
            &&& !text::blank(h.cmd)
            &&& exists|k: int| n <= k < recs.len() && (#[trigger] recs[k]).cmd@ == h.cmd
        }) by {
            if i < newer.len() {
                assert(all[i] == newer[i]);
                let k = choose|k: int|
                    n + 1 <= k < recs.len() && (#[trigger] recs[k]).cmd@ == newer[i].cmd;
                assert(n <= k < recs.len() && recs[k].cmd@ == all[i].cmd);
            } else {
                assert(recs[n].cmd@ == all[i].cmd);
            }
        }
        assert forall|i: int, j: int| 0 <= i < j < all.len() implies (#[trigger] all[i]).cmd != (
        #[trigger] all[j]).cmd by {
            assert(all[i] == newer[i]);
            if j < newer.len() {
                assert(all[j] == newer[j]);
            } else {
                let k = choose|k: int|
                    n + 1 <= k < recs.len() && (#[trigger] recs[k]).cmd@ == newer[i].cmd;
                assert(recs[k].cmd@ != recs[n].cmd@);
            }
        }
    }
}

} // verus!
