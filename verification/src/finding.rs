//! What recalling, searching and suggesting recorded commands promise, in terms
//! of the commands alone.

use vstd::prelude::*;

use crate::complete;
use crate::complete::Family;
use crate::encode;
use crate::frame;
use crate::frame::Frame;
use crate::fuzzy;
use crate::fuzzy::Rank;
use crate::history;
use crate::history::Class;
use crate::lexer;
use crate::lexer::Span;
use crate::model::{Composer, RecallSrc};
use crate::play::Press;
use crate::recall;
use crate::search;
use crate::search::TextRun;
use crate::term::BlockRec;
use crate::text;

verus! {

// Matching.

/// The letters of `q` stand in `s` at the positions `at`, from left to right.
pub open spec fn spelled_at(q: Seq<char>, s: Seq<char>, at: Seq<int>) -> bool {
    &&& at.len() == q.len()
    &&& forall|k: int| 0 <= k < at.len() ==> 0 <= #[trigger] at[k] < s.len() && s[at[k]] == q[k]
    &&& forall|j: int, k: int| 0 <= j < k < at.len() ==> #[trigger] at[j] < #[trigger] at[k]
}

proof fn lemma_letters_found(q: Seq<char>, s: Seq<char>, i: int, at: Seq<int>)
    requires
        0 <= i,
        spelled_at(q, s, at),
        at.len() > 0 ==> i <= at[0],
    ensures
        fuzzy::letters(q, s, i) matches Some(hl) && hl.len() == at.len() && forall|k: int|
            0 <= k < at.len() ==> #[trigger] hl[k] <= at[k],
    decreases s.len() - i,
{
    if q.len() > 0 {
        assert(0 <= at[0] < s.len());
        if s[i] == q[0] {
            let rest = q.drop_first();
            let more = at.drop_first();
            assert(spelled_at(rest, s, more)) by {
                assert forall|k: int| 0 <= k < more.len() implies 0 <= #[trigger] more[k] < s.len()
                    && s[more[k]] == rest[k] by {
                    assert(more[k] == at[k + 1]);
                }
                assert forall|j: int, k: int| 0 <= j < k < more.len() implies #[trigger] more[j]
                    < #[trigger] more[k] by {
                    assert(more[j] == at[j + 1] && more[k] == at[k + 1]);
                }
            }
            if more.len() > 0 {
                assert(at[0] < at[1]);
            }
            lemma_letters_found(rest, s, i + 1, more);
            let tail = fuzzy::letters(rest, s, i + 1)->0;
            let hl = seq![i] + tail;
            assert forall|k: int| 0 <= k < at.len() implies #[trigger] hl[k] <= at[k] by {
                if k > 0 {
                    assert(hl[k] == tail[k - 1] && at[k] == more[k - 1]);
                }
            }
        } else {
            assert(i != at[0]) by {
                assert(s[at[0]] == q[0]);
            }
            lemma_letters_found(q, s, i + 1, at);
        }
    }
}

proof fn lemma_found_from(s: Seq<char>, t: Seq<char>, i: int, k: int)
    requires
        0 <= i <= k,
        k + t.len() <= s.len(),
        s.subrange(k, k + t.len()) == t,
    ensures
        i <= fuzzy::find_from(s, t, i) <= k,
    decreases k - i,
{
    if !text::occurs_at(s, t, i) {
        lemma_found_from(s, t, i + 1, k);
    }
}

proof fn lemma_find_stands(s: Seq<char>, t: Seq<char>, i: int)
    requires
        0 <= i,
    ensures
        fuzzy::find_from(s, t, i) == -1 || i <= fuzzy::find_from(s, t, i),
        fuzzy::find_from(s, t, i) >= 0 ==> fuzzy::find_from(s, t, i) + t.len() <= s.len()
            && s.subrange(fuzzy::find_from(s, t, i), fuzzy::find_from(s, t, i) + t.len()) == t,
    decreases s.len() + 1 - i,
{
    if i + t.len() <= s.len() && !text::occurs_at(s, t, i) {
        lemma_find_stands(s, t, i + 1);
    }
}

/// A query is matched exactly where its letters stand in the text from left to
/// right, wherever the first of them stands.
pub proof fn every_subsequence_is_matched(q: Seq<char>, s: Seq<char>)
    ensures
        fuzzy::fit(q, s) is Some <==> exists|at: Seq<int>| spelled_at(q, s, at),
{
    if exists|at: Seq<int>| spelled_at(q, s, at) {
        let at = choose|at: Seq<int>| spelled_at(q, s, at);
        lemma_letters_found(q, s, 0, at);
    }
    if fuzzy::fit(q, s) is Some {
        fuzzy::match_spells_the_query(q, s);
        assert(spelled_at(q, s, (fuzzy::fit(q, s)->0).hl));
    }
}

/// How good a match is follows from where the query stands: it is the text, it
/// starts the text, it stands in it in one piece, or only its letters do. One
/// piece is the first there is, and letters are taken as early as they come.
pub proof fn ranks_say_where_the_query_stands(q: Seq<char>, s: Seq<char>, at: Seq<int>)
    requires
        fuzzy::fit(q, s) is Some,
    ensures
        ({
            let f = fuzzy::fit(q, s)->0;
            let starts = q.len() <= s.len() && s.take(q.len() as int) == q;
            let inside = exists|i: int|
                0 <= i && i + q.len() <= s.len() && #[trigger] s.subrange(i, i + q.len()) == q;
            &&& f.rank == Rank::Exact <==> q == s
            &&& f.rank == Rank::Prefix <==> starts && q != s
            &&& f.rank == Rank::Substring <==> inside && !starts
            &&& f.rank == Rank::Subsequence <==> !inside
            &&& inside ==> forall|k: int| 0 <= k < f.hl.len() ==> #[trigger] f.hl[k] == f.hl[0] + k
            &&& inside ==> forall|i: int|
                0 <= i && i + q.len() <= s.len() && #[trigger] s.subrange(i, i + q.len()) == q
                    && q.len() > 0 ==> f.hl[0] <= i
            &&& !inside && spelled_at(q, s, at) ==> forall|k: int|
                0 <= k < q.len() ==> #[trigger] f.hl[k] <= at[k]
        }),
{
    let found = fuzzy::find_from(s, q, 0);
    lemma_find_stands(s, q, 0);
    fuzzy::match_spells_the_query(q, s);
    if q.len() <= s.len() {
        assert(s.subrange(0, 0 + q.len() as int) =~= s.take(q.len() as int));
        if s.take(q.len() as int) == q {
            lemma_found_from(s, q, 0, 0);
        }
    }
    if q == s {
        assert(s.take(q.len() as int) =~= s);
    }
    assert forall|i: int|
        0 <= i && i + q.len() <= s.len() && #[trigger] s.subrange(i, i + q.len()) == q implies 0
        <= found <= i by {
        lemma_found_from(s, q, 0, i);
    }
    if found >= 0 {
        assert(s.subrange(found, found + q.len()) == q);
    }
    if q.len() > s.len() {
        assert(found < 0);
    }
    if spelled_at(q, s, at) {
        lemma_letters_found(q, s, 0, at);
    }
}

// Searching.

/// Whether a search looks at the record `i`: its command is more than white
/// space, and no newer record holds the same.
pub open spec fn newest_of_its_command(recs: Seq<BlockRec>, i: int) -> bool {
    &&& 0 <= i < recs.len()
    &&& exists|k: int| 0 <= k < recs[i].cmd@.len() && !text::white(#[trigger] recs[i].cmd@[k])
    &&& forall|j: int| i < j < recs.len() ==> (#[trigger] recs[j]).cmd@ != recs[i].cmd@
}

/// The result is the record's: its command, that command on one line, and where
/// the query matched it.
pub open spec fn result_of(recs: Seq<BlockRec>, query: Seq<char>, h: search::Hit, i: int) -> bool {
    let cmd = recs[i].cmd@;
    &&& newest_of_its_command(recs, i)
    &&& h.cmd == cmd
    &&& h.disp.len() == cmd.len()
    &&& forall|k: int|
        0 <= k < cmd.len() ==> #[trigger] h.disp[k] == (if cmd[k] == '\n' || cmd[k] == '\r' {
            ' '
        } else {
            cmd[k]
        })
    &&& fuzzy::fit(query, h.disp) matches Some(f) && h.hl == f.hl
}

proof fn lemma_hit(recs: Seq<BlockRec>, query: Seq<char>, i: int)
    requires
        0 <= i < recs.len(),
    ensures
        search::searched(recs, i) == newest_of_its_command(recs, i),
        search::searched(recs, i) && fuzzy::fit(query, search::flat(recs[i].cmd@)) is Some
            ==> result_of(
            recs,
            query,
            (search::Hit {
                cmd: recs[i].cmd@,
                disp: search::flat(recs[i].cmd@),
                hl: (fuzzy::fit(query, search::flat(recs[i].cmd@))->0).hl,
            }),
            i,
        ),
{
}

/// The records of the results of one rank, newest first.
spec fn sources(recs: Seq<BlockRec>, n: int, query: Seq<char>, rank: Rank) -> Seq<int>
    decreases recs.len() - n,
{
    if n >= recs.len() {
        Seq::empty()
    } else {
        let newer = sources(recs, n + 1, query, rank);
        match fuzzy::fit(query, search::flat(recs[n].cmd@)) {
            Some(f) if search::searched(recs, n) && f.rank == rank => newer.push(n),
            _ => newer,
        }
    }
}

spec fn matched(recs: Seq<BlockRec>, query: Seq<char>, rank: Rank, i: int) -> bool {
    newest_of_its_command(recs, i) && (fuzzy::fit(query, search::flat(recs[i].cmd@)) matches Some(
        f,
    ) && f.rank == rank)
}

/// The result is that of the record at `i`, from `n` on, and of the rank.
spec fn ranked_result(
    recs: Seq<BlockRec>,
    n: int,
    query: Seq<char>,
    rank: Rank,
    h: search::Hit,
    i: int,
) -> bool {
    &&& n <= i < recs.len()
    &&& result_of(recs, query, h, i)
    &&& (fuzzy::fit(query, h.disp)->0).rank == rank
}

proof fn lemma_sources(recs: Seq<BlockRec>, n: int, query: Seq<char>, rank: Rank)
    requires
        0 <= n,
    ensures
        search::hits_of(recs, n, query, rank).len() == sources(recs, n, query, rank).len(),
        forall|k: int|
            0 <= k < sources(recs, n, query, rank).len() ==> ranked_result(
                recs,
                n,
                query,
                rank,
                search::hits_of(recs, n, query, rank)[k],
                #[trigger] sources(recs, n, query, rank)[k],
            ),
        forall|j: int, k: int|
            0 <= j < k < sources(recs, n, query, rank).len() ==> #[trigger] sources(
                recs,
                n,
                query,
                rank,
            )[j] > #[trigger] sources(recs, n, query, rank)[k],
        forall|i: int|
            n <= i < recs.len() && #[trigger] matched(recs, query, rank, i) ==> sources(
                recs,
                n,
                query,
                rank,
            ).contains(i),
    decreases recs.len() - n,
{
    if n < recs.len() {
        lemma_sources(recs, n + 1, query, rank);
        lemma_hit(recs, query, n);
        let newer = sources(recs, n + 1, query, rank);
        let src = sources(recs, n, query, rank);
        let old = search::hits_of(recs, n + 1, query, rank);
        let hits = search::hits_of(recs, n, query, rank);
        assert forall|k: int| 0 <= k < src.len() implies ranked_result(
            recs,
            n,
            query,
            rank,
            hits[k],
            #[trigger] src[k],
        ) by {
            if k < newer.len() {
                assert(src[k] == newer[k] && hits[k] == old[k]);
                assert(ranked_result(recs, n + 1, query, rank, old[k], newer[k]));
            } else {
                assert(src[k] == n);
                assert(hits[k] == search::Hit {
                    cmd: recs[n].cmd@,
                    disp: search::flat(recs[n].cmd@),
                    hl: (fuzzy::fit(query, search::flat(recs[n].cmd@))->0).hl,
                });
            }
        }
        assert forall|j: int, k: int| 0 <= j < k < src.len() implies #[trigger] src[j]
            > #[trigger] src[k] by {
            assert(src[j] == newer[j]);
            if k < newer.len() {
                assert(src[k] == newer[k]);
            }
        }
        assert forall|i: int|
            n <= i < recs.len() && #[trigger] matched(recs, query, rank, i) implies src.contains(
            i,
        ) by {
            if i > n {
                let k = choose|k: int| 0 <= k < newer.len() && newer[k] == i;
                assert(src[k] == i);
            } else {
                assert(src.last() == n);
            }
        }
    }
}

/// Better ranks have smaller numbers.
pub open spec fn grade(r: Rank) -> int {
    match r {
        Rank::Exact => 0,
        Rank::Prefix => 1,
        Rank::Substring => 2,
        Rank::Subsequence => 3,
    }
}

spec fn all_sources(recs: Seq<BlockRec>, query: Seq<char>) -> Seq<int> {
    sources(recs, 0, query, Rank::Exact) + sources(recs, 0, query, Rank::Prefix) + sources(
        recs,
        0,
        query,
        Rank::Substring,
    ) + sources(recs, 0, query, Rank::Subsequence)
}

/// The results `r` are those of the records `from`, one each.
pub open spec fn shows_from(
    recs: Seq<BlockRec>,
    query: Seq<char>,
    r: Seq<search::Hit>,
    from: Seq<int>,
) -> bool {
    &&& from.len() == r.len()
    &&& forall|k: int| 0 <= k < r.len() ==> result_of(recs, query, r[k], #[trigger] from[k])
    &&& forall|j: int, k: int|
        #![trigger from[j], from[k]]
        0 <= j < k < r.len() ==> {
            let a = grade((fuzzy::fit(query, r[j].disp)->0).rank);
            let b = grade((fuzzy::fit(query, r[k].disp)->0).rank);
            a < b || a == b && from[j] > from[k]
        }
    &&& forall|i: int|
        0 <= i < recs.len() && newest_of_its_command(recs, i) && fuzzy::fit(
            query,
            search::flat((#[trigger] recs[i]).cmd@),
        ) is Some ==> from.contains(i)
}

/// A search shows the commands that the query matches, all of them and no
/// others, each as its newest record has it: the better matches first, and of
/// equal ones the newer first.
pub proof fn a_search_shows_what_matches(recs: Seq<BlockRec>, query: Seq<char>)
    ensures
        exists|from: Seq<int>| shows_from(recs, query, search::results(recs, query), from),
{
    let a = sources(recs, 0, query, Rank::Exact);
    let b = sources(recs, 0, query, Rank::Prefix);
    let c = sources(recs, 0, query, Rank::Substring);
    let d = sources(recs, 0, query, Rank::Subsequence);
    let from = all_sources(recs, query);
    let r = search::results(recs, query);
    let ha = search::hits_of(recs, 0, query, Rank::Exact);
    let hb = search::hits_of(recs, 0, query, Rank::Prefix);
    let hc = search::hits_of(recs, 0, query, Rank::Substring);
    let hd = search::hits_of(recs, 0, query, Rank::Subsequence);
    lemma_sources(recs, 0, query, Rank::Exact);
    lemma_sources(recs, 0, query, Rank::Prefix);
    lemma_sources(recs, 0, query, Rank::Substring);
    lemma_sources(recs, 0, query, Rank::Subsequence);
    let (na, nb, nc) = (a.len() as int, b.len() as int, c.len() as int);
    assert forall|k: int| 0 <= k < r.len() implies result_of(recs, query, r[k], #[trigger] from[k])
        && grade((fuzzy::fit(query, r[k].disp)->0).rank) == (if k < na {
        0int
    } else if k < na + nb {
        1
    } else if k < na + nb + nc {
        2
    } else {
        3
    }) by {
        if k < na {
            assert(from[k] == a[k] && r[k] == ha[k]);
        } else if k < na + nb {
            assert(from[k] == b[k - na] && r[k] == hb[k - na]);
        } else if k < na + nb + nc {
            assert(from[k] == c[k - na - nb] && r[k] == hc[k - na - nb]);
        } else {
            assert(from[k] == d[k - na - nb - nc] && r[k] == hd[k - na - nb - nc]);
        }
    }
    assert forall|j: int, k: int|
        #![trigger from[j], from[k]]
        0 <= j < k < r.len() implies {
        let x = grade((fuzzy::fit(query, r[j].disp)->0).rank);
        let y = grade((fuzzy::fit(query, r[k].disp)->0).rank);
        x < y || x == y && from[j] > from[k]
    } by {
        if k < na {
            assert(from[j] == a[j] && from[k] == a[k]);
        } else if k < na + nb {
            if j >= na {
                assert(from[j] == b[j - na] && from[k] == b[k - na]);
            }
        } else if k < na + nb + nc {
            if j >= na + nb {
                assert(from[j] == c[j - na - nb] && from[k] == c[k - na - nb]);
            }
        } else if j >= na + nb + nc {
            assert(from[j] == d[j - na - nb - nc] && from[k] == d[k - na - nb - nc]);
        }
    }
    assert forall|i: int|
        0 <= i < recs.len() && newest_of_its_command(recs, i) && fuzzy::fit(
            query,
            search::flat((#[trigger] recs[i]).cmd@),
        ) is Some implies from.contains(i) by {
        match (fuzzy::fit(query, search::flat(recs[i].cmd@))->0).rank {
            Rank::Exact => {
                assert(matched(recs, query, Rank::Exact, i));
                let k = choose|k: int| 0 <= k < a.len() && a[k] == i;
                assert(from[k] == i);
            },
            Rank::Prefix => {
                assert(matched(recs, query, Rank::Prefix, i));
                let k = choose|k: int| 0 <= k < b.len() && b[k] == i;
                assert(from[na + k] == i);
            },
            Rank::Substring => {
                assert(matched(recs, query, Rank::Substring, i));
                let k = choose|k: int| 0 <= k < c.len() && c[k] == i;
                assert(from[na + nb + k] == i);
            },
            Rank::Subsequence => {
                assert(matched(recs, query, Rank::Subsequence, i));
                let k = choose|k: int| 0 <= k < d.len() && d[k] == i;
                assert(from[na + nb + nc + k] == i);
            },
        }
    }
    assert(shows_from(recs, query, r, from));
}

/// A search shows as many results as it may, the first of them.
pub proof fn a_search_shows_the_first(s: Seq<search::Hit>, cap: int)
    requires
        0 <= cap,
    ensures
        search::capped(s, cap).len() == (if s.len() <= cap {
            s.len() as int
        } else {
            cap
        }),
        forall|k: int| 0 <= k < search::capped(s, cap).len() ==> search::capped(s, cap)[k] == s[k],
{
}

/// Going around `n` results, `c` steps lead `c` results on.
pub proof fn cycling_goes_around(sel: int, n: int, c: nat)
    requires
        0 <= sel < n,
    ensures
        frame::cycled(sel, n, c) == (sel + c) % n,
        0 <= frame::cycled(sel, n, c) < n,
    decreases c,
{
    if c > 0 {
        cycling_goes_around(sel, n, (c - 1) as nat);
        vstd::arithmetic::div_mod::lemma_add_mod_noop(sel + c - 1, 1, n);
        vstd::arithmetic::div_mod::lemma_mod_bound(sel + c, n);
        if n > 1 {
            vstd::arithmetic::div_mod::lemma_small_mod(1, n as nat);
        }
        let before = frame::cycled(sel, n, (c - 1) as nat);
        if n == 1 {
            assert(before == 0);
        } else {
            assert((before + 1) % n == (sel + c) % n);
        }
    } else {
        vstd::arithmetic::div_mod::lemma_small_mod(sel as nat, n as nat);
    }
}

/// The arrows move the selection by their number and stop at the ends.
pub proof fn arrows_stop_at_the_ends(sel: int, n: int, delta: int)
    requires
        0 <= sel < n,
    ensures
        0 <= frame::moved(sel, n, delta) < n,
        0 <= sel + delta < n ==> frame::moved(sel, n, delta) == sel + delta,
        sel + delta < 0 ==> frame::moved(sel, n, delta) == 0,
        sel + delta >= n ==> frame::moved(sel, n, delta) == n - 1,
{
}

/// A character of a result is lit exactly where the query matched it.
pub proof fn matched_characters_are_lit(hl: Seq<usize>, i: int)
    requires
        0 <= i <= usize::MAX,
        forall|j: int, k: int| 0 <= j < k < hl.len() ==> #[trigger] hl[j] < #[trigger] hl[k],
    ensures
        search::lit(hl, i) <==> hl.contains(i as usize),
{
    lemma_met(hl, i);
    let k = search::met(hl, i);
    if hl.contains(i as usize) {
        let j = choose|j: int| 0 <= j < hl.len() && hl[j] == i as usize;
        if j < k {
            assert(hl[j] < i);
        }
        if j > k {
            assert(hl[k] >= i);
            assert(hl[k] < hl[j]);
        }
    }
}

/// Of each character of the runs, one behind the other, whether it is lit.
pub open spec fn lights(r: Seq<TextRun>) -> Seq<bool>
    decreases r.len(),
{
    if r.len() == 0 {
        Seq::empty()
    } else {
        lights(r.drop_last()) + Seq::new(r.last().text.len(), |i: int| r.last().lit)
    }
}

/// The runs light the characters that the query matched and no others, and are
/// as long as can be: none is empty, and no two neighbours are alike.
pub proof fn runs_light_what_matched(s: Seq<char>, hl: Seq<usize>)
    ensures
        lights(search::runs(s, hl)) == Seq::new(s.len(), |i: int| search::lit(hl, i)),
        forall|k: int|
            0 <= k < search::runs(s, hl).len() ==> (#[trigger] search::runs(s, hl)[k]).text.len() > 0,
        forall|k: int|
            0 < k < search::runs(s, hl).len() ==> (#[trigger] search::runs(s, hl)[k]).lit
                != search::runs(s, hl)[k - 1].lit,
    decreases s.len(),
{
    let want = Seq::new(s.len(), |i: int| search::lit(hl, i));
    if s.len() == 0 {
        assert(lights(search::runs(s, hl)) =~= want);
    } else {
        runs_light_what_matched(s.drop_last(), hl);
        let before = search::runs(s.drop_last(), hl);
        let after = search::runs(s, hl);
        let l = search::lit(hl, s.len() - 1);
        if before.len() > 0 && before.last().lit == l {
            assert(after.drop_last() =~= before.drop_last());
            assert(lights(after) =~= lights(before).push(l));
        } else {
            assert(after.drop_last() =~= before);
            assert(lights(after) =~= lights(before).push(l));
        }
        assert(lights(after) =~= want);
    }
}

proof fn lemma_met(hl: Seq<usize>, i: int)
    requires
        0 <= i,
        forall|j: int, k: int| 0 <= j < k < hl.len() ==> #[trigger] hl[j] < #[trigger] hl[k],
    ensures
        0 <= search::met(hl, i) <= hl.len(),
        forall|j: int| 0 <= j < search::met(hl, i) ==> #[trigger] hl[j] < i,
        search::met(hl, i) < hl.len() ==> hl[search::met(hl, i)] >= i,
    decreases i,
{
    if i > 0 {
        lemma_met(hl, i - 1);
        let k = search::met(hl, i - 1);
        if search::marked(hl, k, i - 1) {
            if k + 1 < hl.len() {
                assert(hl[k] < hl[k + 1]);
            }
        }
    }
}

// Suggesting.

/// The word `i` of a line as it is written.
pub open spec fn written(s: Seq<char>, ws: Seq<Span>, i: int) -> Seq<char> {
    s.subrange(ws[i].start, ws[i].end)
}

/// A word that ends one command and lets another follow.
pub open spec fn ends_command(w: Seq<char>) -> bool {
    w == seq!['&', '&'] || w == seq!['|', '|'] || w == seq!['|'] || w == seq![';'] || w == seq!['&']
}

/// The word `i` is a command: the first word, or the first behind one that ends
/// a command.
pub open spec fn is_command(s: Seq<char>, ws: Seq<Span>, i: int) -> bool {
    &&& 0 <= i < ws.len()
    &&& !ends_command(written(s, ws, i))
    &&& i == 0 || ends_command(written(s, ws, i - 1))
}

/// The word `i` is an argument: of a command, and no flag.
pub open spec fn is_argument(s: Seq<char>, ws: Seq<Span>, i: int) -> bool {
    &&& 0 <= i < ws.len()
    &&& !ends_command(written(s, ws, i))
    &&& !is_command(s, ws, i)
    &&& !(written(s, ws, i).len() > 0 && written(s, ws, i)[0] == '-')
}

/// The command that the word `i` belongs to changes the directory.
pub open spec fn follows_cd(s: Seq<char>, ws: Seq<Span>, i: int) -> bool {
    exists|j: int|
        #![trigger is_command(s, ws, j)]
        j < i && is_command(s, ws, j) && history::cd_verb(history::unquoted(written(s, ws, j))) && (
        forall|k: int| j < k <= i ==> !ends_command(#[trigger] written(s, ws, k)))
}

/// The word `i` makes the line depend on the directory.
pub open spec fn depends_at(fam: Family, s: Seq<char>, ws: Seq<Span>, i: int) -> bool {
    let place = history::relative(fam, history::unquoted(written(s, ws, i)));
    ||| is_command(s, ws, i) && place
    ||| is_argument(s, ws, i) && (place || follows_cd(s, ws, i))
}

spec fn in_cd(s: Seq<char>, ws: Seq<Span>, i: int) -> bool
    decreases i,
{
    if i <= 0 {
        false
    } else if is_command(s, ws, i - 1) {
        history::cd_verb(history::unquoted(written(s, ws, i - 1)))
    } else {
        in_cd(s, ws, i - 1)
    }
}

proof fn lemma_in_cd(s: Seq<char>, ws: Seq<Span>, i: int, n: int)
    requires
        0 <= i <= n < ws.len(),
        !is_command(s, ws, n),
        !ends_command(written(s, ws, n)),
        forall|k: int| i <= k <= n ==> !is_command(s, ws, k) && !ends_command(
            #[trigger] written(s, ws, k),
        ),
    ensures
        in_cd(s, ws, i) == follows_cd(s, ws, n),
    decreases i,
{
    if i > 0 {
        assert(!is_command(s, ws, i));
        assert(!ends_command(written(s, ws, i)));
        assert(!ends_command(written(s, ws, i - 1)));
        if is_command(s, ws, i - 1) {
            if in_cd(s, ws, i) {
                assert forall|k: int| i - 1 < k <= n implies !ends_command(
                    #[trigger] written(s, ws, k),
                ) by {}
            }
            if follows_cd(s, ws, n) {
                let j = choose|j: int|
                    #![trigger is_command(s, ws, j)]
                    j < n && is_command(s, ws, j) && history::cd_verb(
                        history::unquoted(written(s, ws, j)),
                    ) && (forall|k: int| j < k <= n ==> !ends_command(#[trigger] written(s, ws, k)));
                if j > i - 1 {
                    assert(!ends_command(written(s, ws, j)));
                    assert(!is_command(s, ws, j));
                }
                if j < i - 1 {
                    assert(!ends_command(written(s, ws, i - 2)) || i - 1 == 0 || j == i - 2);
                    if j < i - 2 {
                        assert(!ends_command(written(s, ws, i - 2)));
                    } else {
                        assert(!ends_command(written(s, ws, j)));
                    }
                }
            }
        } else {
            assert forall|k: int| i - 1 <= k <= n implies !is_command(s, ws, k) && !ends_command(
                #[trigger] written(s, ws, k),
            ) by {}
            lemma_in_cd(s, ws, i - 1, n);
        }
    } else {
        assert(!is_command(s, ws, 0));
        assert(!ends_command(written(s, ws, 0)));
    }
}

proof fn lemma_operator(w: Seq<char>)
    ensures
        history::operator(w) == ends_command(w),
{
    reveal_strlit("&&");
    reveal_strlit("||");
    reveal_strlit("|");
    reveal_strlit(";");
    reveal_strlit("&");
    assert("&&"@ =~= seq!['&', '&']);
    assert("||"@ =~= seq!['|', '|']);
    assert("|"@ =~= seq!['|']);
    assert(";"@ =~= seq![';']);
    assert("&"@ =~= seq!['&']);
}

/// What a word of a line is: an operator by what it is; else the command where
/// one starts, a flag behind it by its dash, or an argument.
pub proof fn words_by_class(w: Seq<char>, first: bool)
    ensures
        ends_command(w) <==> history::class_of(w, first) == Class::Op,
        !ends_command(w) && first <==> history::class_of(w, first) == Class::Head,
        !ends_command(w) && !first && w.len() > 0 && w[0] == '-' <==> history::class_of(w, first)
            == Class::Flag,
{
    lemma_operator(w);
    lemma_dash(w);
}

proof fn lemma_dash(w: Seq<char>)
    ensures
        text::has_prefix(w, seq!['-']) == (w.len() > 0 && w[0] == '-'),
{
    if w.len() > 0 {
        assert(w.subrange(0, 1)[0] == w[0]);
        if w[0] == '-' {
            assert(w.subrange(0, 1) =~= seq!['-']);
        }
    }
}

proof fn lemma_sensitive_from(fam: Family, s: Seq<char>, ws: Seq<Span>, i: int)
    requires
        0 <= i,
    ensures
        i <= ws.len() ==> history::sensitive_from(
            fam,
            s,
            ws,
            i,
            i == 0 || ends_command(written(s, ws, i - 1)),
            in_cd(s, ws, i),
        ) == (exists|k: int| i <= k < ws.len() && #[trigger] depends_at(fam, s, ws, k)),
    decreases ws.len() - i,
{
    if i < ws.len() {
        lemma_sensitive_from(fam, s, ws, i + 1);
        let w = written(s, ws, i);
        lemma_operator(w);
        lemma_dash(w);
        if is_argument(s, ws, i) {
            lemma_in_cd(s, ws, i, i);
        }
        let here = depends_at(fam, s, ws, i);
        let later = exists|k: int| i + 1 <= k < ws.len() && #[trigger] depends_at(fam, s, ws, k);
        if exists|k: int| i <= k < ws.len() && #[trigger] depends_at(fam, s, ws, k) {
            let k = choose|k: int| i <= k < ws.len() && #[trigger] depends_at(fam, s, ws, k);
            assert(k == i ==> here);
            assert(k > i ==> later);
        }
        if later {
            let k = choose|k: int| i + 1 <= k < ws.len() && #[trigger] depends_at(fam, s, ws, k);
            assert(i <= k < ws.len() && depends_at(fam, s, ws, k));
        }
    }
}

/// A command line depends on its directory exactly where one of its words does,
/// wherever that word stands and whatever flags stand before it: a command or
/// an argument that names a relative place, or any argument of a command that
/// changes the directory.
pub proof fn a_line_depends_on_its_directory_by_its_words(fam: Family, cmd: Seq<char>)
    ensures
        history::sensitive(fam, cmd) <==> exists|k: int|
            0 <= k < lexer::words(fam, cmd).len() && #[trigger] depends_at(
                fam,
                cmd,
                lexer::words(fam, cmd),
                k,
            ),
{
    lemma_sensitive_from(fam, cmd, lexer::words(fam, cmd), 0);
}

/// A single or a double quote.
pub open spec fn quote_char(c: char) -> bool {
    c == '\'' || c == '"'
}

proof fn lemma_unquoted_end(w: Seq<char>)
    ensures
        ({
            let u = history::unquoted_end(w);
            &&& u.len() <= w.len()
            &&& u == w.take(u.len() as int)
            &&& forall|k: int| u.len() <= k < w.len() ==> quote_char(#[trigger] w[k])
            &&& u.len() > 0 ==> !quote_char(u.last())
        }),
    decreases w.len(),
{
    if w.len() > 0 && history::quote_mark(w.last()) {
        lemma_unquoted_end(w.drop_last());
        let u = history::unquoted_end(w);
        assert(w.drop_last().take(u.len() as int) =~= w.take(u.len() as int));
        assert forall|k: int| u.len() <= k < w.len() implies quote_char(#[trigger] w[k]) by {
            if k < w.len() - 1 {
                assert(w.drop_last()[k] == w[k]);
            }
        }
    } else {
        assert(w.take(w.len() as int) =~= w);
    }
}

proof fn lemma_unquoted_start(w: Seq<char>)
    ensures
        ({
            let u = history::unquoted_start(w);
            &&& u.len() <= w.len()
            &&& u == w.skip(w.len() - u.len())
            &&& forall|k: int| 0 <= k < w.len() - u.len() ==> quote_char(#[trigger] w[k])
            &&& u.len() > 0 ==> !quote_char(u[0])
        }),
    decreases w.len(),
{
    if w.len() > 0 && history::quote_mark(w[0]) {
        lemma_unquoted_start(w.drop_first());
        let u = history::unquoted_start(w);
        assert(w.drop_first().skip(w.len() - 1 - u.len()) =~= w.skip(w.len() - u.len()));
        assert forall|k: int| 0 <= k < w.len() - u.len() implies quote_char(#[trigger] w[k]) by {
            if k > 0 {
                assert(w.drop_first()[k - 1] == w[k]);
            }
        }
    } else {
        assert(w.skip(0) =~= w);
    }
}

/// Quotes come off both ends of a word, as far as they go, and nothing else
/// does.
pub proof fn quotes_come_off_the_ends(w: Seq<char>)
    ensures
        ({
            let u = history::unquoted(w);
            &&& exists|a: int, b: int|
                {
                    &&& 0 <= a <= b <= w.len()
                    &&& #[trigger] w.subrange(a, b) == u
                    &&& forall|k: int| 0 <= k < a ==> quote_char(#[trigger] w[k])
                    &&& forall|k: int| b <= k < w.len() ==> quote_char(#[trigger] w[k])
                }
            &&& u.len() > 0 ==> !quote_char(u[0]) && !quote_char(u.last())
        }),
{
    lemma_unquoted_end(w);
    let e = history::unquoted_end(w);
    lemma_unquoted_start(e);
    let u = history::unquoted(w);
    let a = e.len() - u.len();
    let b = e.len() as int;
    assert(w.subrange(a, b) =~= u);
    assert forall|k: int| 0 <= k < a implies quote_char(#[trigger] w[k]) by {
        assert(e[k] == w[k]);
    }
    if u.len() > 0 {
        assert(u.last() == e.last());
    }
}

/// `w` reads `t`, small letters all, but for capitals.
pub open spec fn reads(w: Seq<char>, t: Seq<char>) -> bool {
    &&& w.len() == t.len()
    &&& forall|k: int|
        0 <= k < t.len() ==> #[trigger] w[k] == t[k] || 'A' <= w[k] <= 'Z' && w[k] as u32 + 32
            == t[k] as u32
}

proof fn lemma_lower(c: char, d: char)
    requires
        d < 'A' || 'Z' < d,
    ensures
        text::ascii_lower(c) == d <==> c == d || 'A' <= c <= 'Z' && c as u32 + 32 == d as u32,
{
}

proof fn lemma_reads(w: Seq<char>, t: Seq<char>)
    requires
        forall|k: int| 0 <= k < t.len() ==> #[trigger] t[k] < 'A' || 'Z' < t[k],
    ensures
        text::ascii_lowered(w) == t <==> reads(w, t),
{
    let v = text::ascii_lowered(w);
    if v == t {
        assert forall|k: int| 0 <= k < t.len() implies #[trigger] w[k] == t[k] || 'A' <= w[k] <= 'Z'
            && w[k] as u32 + 32 == t[k] as u32 by {
            assert(v[k] == text::ascii_lower(w[k]));
            lemma_lower(w[k], t[k]);
        }
    }
    if reads(w, t) {
        assert forall|k: int| 0 <= k < t.len() implies v[k] == t[k] by {
            assert(w[k] == t[k] || 'A' <= w[k] <= 'Z' && w[k] as u32 + 32 == t[k] as u32);
            lemma_lower(w[k], t[k]);
        }
        assert(v =~= t);
    }
}

/// The verbs that change the directory, in capitals or not: `cd`, `chdir`,
/// `pushd`, `Set-Location` and `sl`, and no others.
pub proof fn five_verbs_change_the_directory(w: Seq<char>)
    ensures
        history::cd_verb(w) <==> {
            ||| reads(w, seq!['c', 'd'])
            ||| reads(w, seq!['c', 'h', 'd', 'i', 'r'])
            ||| reads(w, seq!['p', 'u', 's', 'h', 'd'])
            ||| reads(w, seq!['s', 'e', 't', '-', 'l', 'o', 'c', 'a', 't', 'i', 'o', 'n'])
            ||| reads(w, seq!['s', 'l'])
        },
{
    reveal_strlit("cd");
    reveal_strlit("chdir");
    reveal_strlit("pushd");
    reveal_strlit("set-location");
    reveal_strlit("sl");
    assert("cd"@ =~= seq!['c', 'd']);
    assert("chdir"@ =~= seq!['c', 'h', 'd', 'i', 'r']);
    assert("pushd"@ =~= seq!['p', 'u', 's', 'h', 'd']);
    assert("set-location"@ =~= seq!['s', 'e', 't', '-', 'l', 'o', 'c', 'a', 't', 'i', 'o', 'n']);
    assert("sl"@ =~= seq!['s', 'l']);
    lemma_reads(w, "cd"@);
    lemma_reads(w, "chdir"@);
    lemma_reads(w, "pushd"@);
    lemma_reads(w, "set-location"@);
    lemma_reads(w, "sl"@);
}

/// A slash or a backslash.
pub open spec fn slash(c: char) -> bool {
    c == '/' || c == '\\'
}

/// A word names a relative place exactly where it holds a separator and nothing
/// anchors it: no drive with its root, no share, no home directory, no scheme
/// of a URL, and no root where paths are posix.
pub proof fn relative_places_are_not_anchored(fam: Family, w: Seq<char>)
    ensures
        history::relative(fam, w) <==> {
            &&& exists|k: int| 0 <= k < w.len() && slash(#[trigger] w[k])
            &&& !(w.len() >= 3 && ('a' <= w[0] <= 'z' || 'A' <= w[0] <= 'Z') && w[1] == ':'
                && slash(w[2]))
            &&& !(w.len() >= 2 && slash(w[0]) && w[0] == w[1])
            &&& !(w.len() >= 2 && w[0] == '~' && slash(w[1]))
            &&& !(exists|k: int|
                0 <= k && k + 2 < w.len() && #[trigger] w[k] == ':' && w[k + 1] == '/' && w[k + 2]
                    == '/')
            &&& !(w.len() >= 1 && w[0] == '/' && (fam is Wsl || fam is Ssh))
        },
{
    reveal_strlit("\\\\");
    reveal_strlit("//");
    reveal_strlit("~/");
    reveal_strlit("~\\");
    reveal_strlit("://");
    lemma_two(w, "\\\\"@);
    lemma_two(w, "//"@);
    lemma_two(w, "~/"@);
    lemma_two(w, "~\\"@);
    if w.len() > 0 {
        assert(w.subrange(0, 1)[0] == w[0]);
        if w[0] == '/' {
            assert(w.subrange(0, 1) =~= seq!['/']);
        }
    }
    let url = "://"@;
    lemma_find_stands(w, url, 0);
    let f = fuzzy::find_from(w, url, 0);
    if f >= 0 {
        assert(w.subrange(f, f + 3)[0] == w[f]);
        assert(w.subrange(f, f + 3)[1] == w[f + 1]);
        assert(w.subrange(f, f + 3)[2] == w[f + 2]);
    }
    if exists|k: int|
        0 <= k && k + 2 < w.len() && #[trigger] w[k] == ':' && w[k + 1] == '/' && w[k + 2] == '/' {
        let k = choose|k: int|
            0 <= k && k + 2 < w.len() && #[trigger] w[k] == ':' && w[k + 1] == '/' && w[k + 2]
                == '/';
        assert(w.subrange(k, k + 3) =~= url);
        lemma_found_from(w, url, 0, k);
    }
    if exists|k: int| 0 <= k < w.len() && slash(#[trigger] w[k]) {
        let k = choose|k: int| 0 <= k < w.len() && slash(#[trigger] w[k]);
        assert(w.contains(w[k]));
    }
}

proof fn lemma_two(w: Seq<char>, t: Seq<char>)
    requires
        t.len() == 2,
    ensures
        text::has_prefix(w, t) == (w.len() >= 2 && w[0] == t[0] && w[1] == t[1]),
{
    if w.len() >= 2 {
        assert(w.subrange(0, 2)[0] == w[0]);
        assert(w.subrange(0, 2)[1] == w[1]);
        if w[0] == t[0] && w[1] == t[1] {
            assert(w.subrange(0, 2) =~= t);
        }
    }
}

proof fn lemma_without_separators(s: Seq<char>)
    ensures
        ({
            let u = history::without_separators(s);
            &&& u.len() <= s.len()
            &&& u == s.take(u.len() as int)
            &&& forall|k: int| u.len() <= k < s.len() ==> slash(#[trigger] s[k])
            &&& u.len() > 0 ==> !slash(u.last())
        }),
    decreases s.len(),
{
    if s.len() > 0 && slash(s.last()) {
        lemma_without_separators(s.drop_last());
        let u = history::without_separators(s);
        assert(s.drop_last().take(u.len() as int) =~= s.take(u.len() as int));
        assert forall|k: int| u.len() <= k < s.len() implies slash(#[trigger] s[k]) by {
            if k < s.len() - 1 {
                assert(s.drop_last()[k] == s[k]);
            }
        }
    } else {
        assert(s.take(s.len() as int) =~= s);
    }
}

/// The path without what `n` leaves of it: separators alone, and all of them.
pub open spec fn ends_at(s: Seq<char>, n: int) -> bool {
    &&& 0 <= n <= s.len()
    &&& forall|k: int| n <= k < s.len() ==> slash(#[trigger] s[k])
    &&& n > 0 ==> !slash(s[n - 1])
}

/// Two directories are the same exactly where both are known and they agree
/// letter by letter, capitals aside, up to the separators at their ends.
pub proof fn directories_differ_by_their_letters(
    a: Option<Seq<char>>,
    b: Option<Seq<char>>,
    m: int,
    n: int,
)
    requires
        a matches Some(x) ==> ends_at(x, m),
        b matches Some(y) ==> ends_at(y, n),
    ensures
        history::same_dir(a, b) <==> (a matches Some(x) && b matches Some(y) && m == n && forall|
            k: int,
        |
            0 <= k < m ==> text::ascii_lower(#[trigger] x[k]) == text::ascii_lower(y[k])),
{
    if let (Some(x), Some(y)) = (a, b) {
        lemma_without_separators(x);
        lemma_without_separators(y);
        let u = history::without_separators(x);
        let v = history::without_separators(y);
        lemma_one_end(x, u.len() as int, m);
        lemma_one_end(y, v.len() as int, n);
        let p = text::ascii_lowered(u);
        let q = text::ascii_lowered(v);
        assert(p.len() == u.len() && q.len() == v.len());
        if history::same_dir(a, b) {
            assert forall|k: int| 0 <= k < m implies text::ascii_lower(#[trigger] x[k])
                == text::ascii_lower(y[k]) by {
                assert(p.len() == q.len());
                assert(p[k] == text::ascii_lower(u[k]));
                assert(q[k] == text::ascii_lower(v[k]));
            }
        }
        if m == n && forall|k: int|
            0 <= k < m ==> text::ascii_lower(#[trigger] x[k]) == text::ascii_lower(y[k]) {
            assert(p =~= q) by {
                assert forall|k: int| 0 <= k < m implies p[k] == q[k] by {
                    assert(text::ascii_lower(x[k]) == text::ascii_lower(y[k]));
                }
            }
        }
    }
}

proof fn lemma_one_end(s: Seq<char>, m: int, n: int)
    requires
        ends_at(s, m),
        ends_at(s, n),
    ensures
        m == n,
{
    if m < n {
        assert(slash(s[n - 1]));
    }
    if n < m {
        assert(slash(s[m - 1]));
    }
}

/// The record is worth suggesting behind the draft: its command goes on from
/// the draft on the same line, and is as good here as where it ran.
pub open spec fn worth_suggesting(
    rec: BlockRec,
    draft: Seq<char>,
    fam: Family,
    cwd: Option<Seq<char>>,
) -> bool {
    let cmd = rec.cmd@;
    &&& cmd.len() > draft.len()
    &&& forall|k: int| 0 <= k < draft.len() ==> #[trigger] cmd[k] == draft[k]
    &&& forall|k: int| draft.len() <= k < cmd.len() ==> #[trigger] cmd[k] != '\n'
    &&& exists|k: int| 0 <= k < cmd.len() && !text::white(#[trigger] cmd[k])
    &&& !history::sensitive(fam, cmd) || history::same_dir(complete::opt_text(rec.cwd), cwd)
}

proof fn lemma_suggests(rec: BlockRec, draft: Seq<char>, fam: Family, cwd: Option<Seq<char>>)
    ensures
        history::suggests(rec, draft, fam, cwd) == worth_suggesting(rec, draft, fam, cwd),
{
    let cmd = rec.cmd@;
    if cmd.len() > draft.len() {
        let start = cmd.subrange(0, 0 + draft.len() as int);
        let rest = cmd.skip(draft.len() as int);
        if text::has_prefix(cmd, draft) {
            assert forall|k: int| 0 <= k < draft.len() implies #[trigger] cmd[k] == draft[k] by {
                assert(start[k] == cmd[k]);
            }
        }
        if forall|k: int| 0 <= k < draft.len() ==> #[trigger] cmd[k] == draft[k] {
            assert(start =~= draft);
        }
        if rest.contains('\n') {
            let k = choose|k: int| 0 <= k < rest.len() && rest[k] == '\n';
            assert(cmd[draft.len() + k] == '\n');
        } else {
            assert forall|k: int| draft.len() <= k < cmd.len() implies #[trigger] cmd[k]
                != '\n' by {
                assert(rest[k - draft.len()] == cmd[k]);
                assert(rest.contains(rest[k - draft.len()]));
            }
        }
    }
}

proof fn lemma_suggestion(
    recs: Seq<BlockRec>,
    n: int,
    draft: Seq<char>,
    fam: Family,
    cwd: Option<Seq<char>>,
)
    requires
        0 <= n <= recs.len(),
    ensures
        history::suggestion(recs, n, draft, fam, cwd) is None ==> forall|j: int|
            0 <= j < n ==> !worth_suggesting(#[trigger] recs[j], draft, fam, cwd),
        history::suggestion(recs, n, draft, fam, cwd) matches Some(rest) ==> exists|i: int|
            {
                &&& 0 <= i < n
                &&& worth_suggesting(#[trigger] recs[i], draft, fam, cwd)
                &&& recs[i].cmd@ == draft + rest
                &&& forall|j: int|
                    i < j < n ==> !worth_suggesting(#[trigger] recs[j], draft, fam, cwd)
            },
    decreases n,
{
    if n > 0 {
        lemma_suggests(recs[n - 1], draft, fam, cwd);
        lemma_suggestion(recs, n - 1, draft, fam, cwd);
        if history::suggests(recs[n - 1], draft, fam, cwd) {
            let cmd = recs[n - 1].cmd@;
            assert(draft + cmd.skip(draft.len() as int) =~= cmd);
        } else if history::suggestion(recs, n - 1, draft, fam, cwd) is Some {
            let rest = history::suggestion(recs, n - 1, draft, fam, cwd)->0;
            let i = choose|i: int|
                {
                    &&& 0 <= i < n - 1
                    &&& worth_suggesting(#[trigger] recs[i], draft, fam, cwd)
                    &&& recs[i].cmd@ == draft + rest
                    &&& forall|j: int|
                        i < j < n - 1 ==> !worth_suggesting(#[trigger] recs[j], draft, fam, cwd)
                };
            assert(worth_suggesting(recs[i], draft, fam, cwd));
        }
    }
}

/// Behind a draft of one line that is not empty the newest command worth
/// suggesting is suggested, whole, where there is any; nothing is suggested
/// behind any other draft.
pub proof fn the_newest_fitting_command_is_suggested(
    recs: Seq<BlockRec>,
    draft: Seq<char>,
    fam: Family,
    cwd: Option<Seq<char>>,
)
    ensures
        draft.len() == 0 || draft.contains('\n') ==> history::ghost_of(recs, draft, fam, cwd)
            is None,
        draft.len() > 0 && !draft.contains('\n') ==> match history::ghost_of(
            recs,
            draft,
            fam,
            cwd,
        ) {
            None => forall|j: int|
                0 <= j < recs.len() ==> !worth_suggesting(#[trigger] recs[j], draft, fam, cwd),
            Some(rest) => exists|i: int|
                {
                    &&& 0 <= i < recs.len()
                    &&& worth_suggesting(#[trigger] recs[i], draft, fam, cwd)
                    &&& recs[i].cmd@ == draft + rest
                    &&& forall|j: int|
                        i < j < recs.len() ==> !worth_suggesting(
                            #[trigger] recs[j],
                            draft,
                            fam,
                            cwd,
                        )
                },
        },
{
    lemma_suggestion(recs, recs.len() as int, draft, fam, cwd);
}

/// Where the caret stands in the draft: before it all where the editor has yet
/// to place one, and never past its end.
pub open spec fn caret_stands(draft: Seq<char>, caret: Option<usize>, at: int) -> bool {
    match caret {
        None => at == 0,
        Some(c) => 0 <= at <= draft.len() && (at == c || at == draft.len() && c > draft.len()),
    }
}

proof fn lemma_count_none(s: Seq<char>, c: char)
    ensures
        encode::count(s, c) == 0 <==> forall|k: int| 0 <= k < s.len() ==> #[trigger] s[k] != c,
    decreases s.len(),
{
    if s.len() > 0 {
        lemma_count_none(s.drop_last(), c);
        if encode::count(s, c) == 0 {
            assert forall|k: int| 0 <= k < s.len() implies #[trigger] s[k] != c by {
                if k < s.len() - 1 {
                    assert(s.drop_last()[k] == s[k]);
                }
            }
        }
        if forall|k: int| 0 <= k < s.len() ==> #[trigger] s[k] != c {
            assert(s[s.len() - 1] != c);
            assert forall|k: int| 0 <= k < s.drop_last().len() implies #[trigger] s.drop_last()[k]
                != c by {
                assert(s[k] != c);
            }
        }
    }
}

proof fn lemma_count_parts(a: Seq<char>, b: Seq<char>, c: char)
    ensures
        encode::count(a + b, c) == encode::count(a, c) + encode::count(b, c),
    decreases b.len(),
{
    if b.len() == 0 {
        assert(a + b =~= a);
    } else {
        assert((a + b).drop_last() =~= a + b.drop_last());
        lemma_count_parts(a, b.drop_last(), c);
    }
}

/// Characters are counted one by one, wherever they stand.
pub proof fn characters_are_counted(a: Seq<char>, x: char, b: Seq<char>, c: char)
    ensures
        encode::count(a + seq![x] + b, c) == encode::count(a, c) + encode::count(b, c) + if x == c {
            1int
        } else {
            0int
        },
        encode::count(Seq::<char>::empty(), c) == 0,
{
    lemma_count_parts(a + seq![x], b, c);
    lemma_count_parts(a, seq![x], c);
    assert(seq![x].drop_last() =~= Seq::<char>::empty());
    assert(encode::count(Seq::<char>::empty(), c) == 0);
}

/// An arrow up is taken exactly where no line feed stands in the draft before
/// the caret, and an arrow down exactly where none stands behind it. On every
/// other line neither is: the draft and the walk are as they were, and so is
/// all else.
pub proof fn arrows_walk_from_the_outer_lines(
    c: Composer,
    recs: Seq<BlockRec>,
    up: u32,
    down: u32,
    caret: Option<usize>,
    at: int,
)
    requires
        caret_stands(c.draft, caret, at),
    ensures
        c.takes_up(up, caret) <==> up > 0 && forall|k: int|
            0 <= k < at ==> #[trigger] c.draft[k] != '\n',
        c.takes_down(down, caret) <==> down > 0 && forall|k: int|
            at <= k < c.draft.len() ==> #[trigger] c.draft[k] != '\n',
        (up == 0 || exists|k: int| 0 <= k < at && #[trigger] c.draft[k] == '\n') && (down == 0
            || exists|k: int| at <= k < c.draft.len() && #[trigger] c.draft[k] == '\n')
            ==> c.press_arrows(recs, up, down, caret) == c,
        up > 0 && down == 0 && (forall|k: int| 0 <= k < at ==> #[trigger] c.draft[k] != '\n')
            ==> c.press_arrows(recs, up, down, caret) == c.recalled_prev(recs),
        up == 0 && down > 0 && (forall|k: int|
            at <= k < c.draft.len() ==> #[trigger] c.draft[k] != '\n') ==> c.press_arrows(
            recs,
            up,
            down,
            caret,
        ) == c.recalled_next(recs),
{
    let d = c.draft;
    let before = frame::before_caret(d, caret);
    let behind = d.skip(at);
    assert(before =~= d.take(at));
    assert(before + behind =~= d);
    lemma_count_parts(before, behind, '\n');
    lemma_count_none(before, '\n');
    lemma_count_none(behind, '\n');
    if forall|k: int| 0 <= k < before.len() ==> #[trigger] before[k] != '\n' {
        assert forall|k: int| 0 <= k < at implies #[trigger] d[k] != '\n' by {
            assert(before[k] == d[k]);
        }
    }
    if forall|k: int| 0 <= k < behind.len() ==> #[trigger] behind[k] != '\n' {
        assert forall|k: int| at <= k < d.len() implies #[trigger] d[k] != '\n' by {
            assert(behind[k - at] == d[k]);
        }
    }
}

/// A frame whose only arrow is one down, with the caret on any line but the
/// last, leaves the draft, the walk and all else as they were.
pub proof fn down_inside_the_draft_is_the_editors(
    c: Composer,
    recs: Seq<BlockRec>,
    f: Frame,
    k: Press,
    caret: Option<usize>,
    at: int,
    cwd: Option<Seq<char>>,
)
    requires
        k.enters == 0,
        k.up == 0,
        k.right == 0,
        caret_stands(c.draft, caret, at),
        exists|j: int| at <= j < c.draft.len() && #[trigger] c.draft[j] == '\n',
    ensures
        c.press_lines(recs, f, k, caret, cwd) == c,
{
    arrows_walk_from_the_outer_lines(c, recs, k.up, k.down, caret, at);
}

/// A command that a walk shows: it is not blank, and not what is shown.
pub open spec fn worth_showing(cmd: Seq<char>, shown: Seq<char>) -> bool {
    &&& exists|k: int| 0 <= k < cmd.len() && !text::white(#[trigger] cmd[k])
    &&& cmd != shown
}

proof fn lemma_older(recs: Seq<BlockRec>, from: int, shown: Seq<char>)
    requires
        from <= recs.len(),
    ensures
        -1 <= recall::older(recs, from, shown),
        recall::older(recs, from, shown) >= 0 ==> recall::older(recs, from, shown) < from
            && worth_showing(recs[recall::older(recs, from, shown)].cmd@, shown),
        forall|j: int|
            recall::older(recs, from, shown) < j < from && 0 <= j ==> !worth_showing(
                #[trigger] recs[j].cmd@,
                shown,
            ),
    decreases from,
{
    if from > 0 {
        lemma_older(recs, from - 1, shown);
    }
}

proof fn lemma_newer(recs: Seq<BlockRec>, from: int, shown: Seq<char>)
    requires
        0 <= from,
    ensures
        recall::newer(recs, from, shown) < recs.len() ==> from < recall::newer(recs, from, shown)
            && worth_showing(recs[recall::newer(recs, from, shown)].cmd@, shown),
        recall::newer(recs, from, shown) <= recs.len(),
        forall|j: int|
            from < j < recall::newer(recs, from, shown) ==> !worth_showing(
                #[trigger] recs[j].cmd@,
                shown,
            ),
    decreases recs.len() - from,
{
    if from + 1 < recs.len() {
        lemma_newer(recs, from + 1, shown);
    }
}

/// Arrow up from a draft shows the newest command worth showing and sets the
/// draft aside; with none there is, nothing changes. Only the draft and the
/// walk ever change.
pub proof fn arrow_up_shows_the_newest_command(c: Composer, recs: Seq<BlockRec>)
    requires
        c.recall is None,
        recs.len() <= usize::MAX,
    ensures
        ({
            let r = c.recalled_prev(recs);
            &&& r == (Composer { draft: r.draft, recall: r.recall, ..c })
            &&& match r.recall {
                None => r.draft == c.draft && forall|j: int|
                    0 <= j < recs.len() ==> !worth_showing(#[trigger] recs[j].cmd@, c.draft),
                Some((RecallSrc::Recs(i), saved)) => {
                    &&& saved == c.draft
                    &&& i < recs.len()
                    &&& r.draft == recs[i as int].cmd@
                    &&& worth_showing(r.draft, c.draft)
                    &&& forall|j: int|
                        i < j < recs.len() ==> !worth_showing(#[trigger] recs[j].cmd@, c.draft)
                },
                Some((RecallSrc::History, _)) => false,
            }
        }),
{
    lemma_older(recs, recs.len() as int, c.draft);
}

/// Arrow up in a walk goes to the nearest older command that differs from the
/// one that is shown, and stays at it where there is none. The draft that was
/// set aside stays aside.
pub proof fn arrow_up_goes_to_the_nearest_older(
    c: Composer,
    recs: Seq<BlockRec>,
    i: usize,
    saved: Seq<char>,
)
    requires
        c.recall == Some((RecallSrc::Recs(i), saved)),
        i < recs.len(),
    ensures
        ({
            let r = c.recalled_prev(recs);
            let shown = recs[i as int].cmd@;
            &&& r == (Composer { draft: r.draft, recall: r.recall, ..c })
            &&& r.recall matches Some((RecallSrc::Recs(j), kept)) && {
                &&& kept == saved
                &&& j <= i
                &&& r.draft == recs[j as int].cmd@
                &&& j < i ==> worth_showing(r.draft, shown) && forall|n: int|
                    j < n < i ==> !worth_showing(#[trigger] recs[n].cmd@, shown)
                &&& j == i ==> forall|n: int|
                    0 <= n < i ==> !worth_showing(#[trigger] recs[n].cmd@, shown)
            }
        }),
{
    lemma_older(recs, i as int, recs[i as int].cmd@);
}

/// Arrow up from a command that the history put in the editor goes to the
/// newest command that differs from it, and the draft that was set aside stays
/// aside; where there is none, nothing changes.
pub proof fn arrow_up_goes_on_from_an_insertion(c: Composer, recs: Seq<BlockRec>, saved: Seq<char>)
    requires
        c.recall == Some((RecallSrc::History, saved)),
        recs.len() <= usize::MAX,
    ensures
        ({
            let r = c.recalled_prev(recs);
            ||| r == c && forall|j: int|
                0 <= j < recs.len() ==> !worth_showing(#[trigger] recs[j].cmd@, c.draft)
            ||| r.recall matches Some((RecallSrc::Recs(i), kept)) && {
                &&& kept == saved
                &&& i < recs.len()
                &&& r.draft == recs[i as int].cmd@
                &&& worth_showing(r.draft, c.draft)
                &&& forall|j: int|
                    i < j < recs.len() ==> !worth_showing(#[trigger] recs[j].cmd@, c.draft)
                &&& r == (Composer { draft: r.draft, recall: r.recall, ..c })
            }
        }),
{
    lemma_older(recs, recs.len() as int, c.draft);
}

/// Arrow down in a walk goes to the nearest newer command that differs from
/// the one that is shown. Where there is none, the draft that was set aside is
/// back and the walk is over.
pub proof fn arrow_down_goes_to_the_nearest_newer(
    c: Composer,
    recs: Seq<BlockRec>,
    i: usize,
    saved: Seq<char>,
)
    requires
        c.recall == Some((RecallSrc::Recs(i), saved)),
        i < recs.len() <= usize::MAX,
    ensures
        ({
            let r = c.recalled_next(recs);
            let shown = recs[i as int].cmd@;
            &&& r == (Composer { draft: r.draft, recall: r.recall, ..c })
            &&& match r.recall {
                None => r.draft == saved && forall|n: int|
                    i < n < recs.len() ==> !worth_showing(#[trigger] recs[n].cmd@, shown),
                Some((RecallSrc::Recs(j), kept)) => {
                    &&& kept == saved
                    &&& i < j < recs.len()
                    &&& r.draft == recs[j as int].cmd@
                    &&& worth_showing(r.draft, shown)
                    &&& forall|n: int|
                        i < n < j ==> !worth_showing(#[trigger] recs[n].cmd@, shown)
                },
                Some((RecallSrc::History, _)) => false,
            }
        }),
{
    lemma_newer(recs, i as int, recs[i as int].cmd@);
}

/// A walk that stands past the newest record, because records were dropped or
/// none was shown, goes back to the newest command that differs from the draft
/// set aside, or ends with that draft where there is none; forward it ends
/// with it.
pub proof fn a_walk_past_the_records_comes_back(
    c: Composer,
    recs: Seq<BlockRec>,
    i: usize,
    saved: Seq<char>,
)
    requires
        c.recall == Some((RecallSrc::Recs(i), saved)),
        i == recs.len(),
    ensures
        c.recalled_next(recs) == (Composer { draft: saved, recall: None, ..c }),
        ({
            let r = c.recalled_prev(recs);
            ||| r == (Composer { draft: saved, recall: None, ..c }) && forall|j: int|
                0 <= j < recs.len() ==> !worth_showing(#[trigger] recs[j].cmd@, saved)
            ||| r.recall matches Some((RecallSrc::Recs(k), kept)) && {
                &&& kept == saved
                &&& k < recs.len()
                &&& r.draft == recs[k as int].cmd@
                &&& worth_showing(r.draft, saved)
                &&& forall|j: int|
                    k < j < recs.len() ==> !worth_showing(#[trigger] recs[j].cmd@, saved)
                &&& r == (Composer { draft: r.draft, recall: r.recall, ..c })
            }
        }),
{
    lemma_older(recs, recs.len() as int, saved);
}

/// Without a walk, arrow down changes nothing; behind a command that the
/// history put in the editor it brings the draft back, caret at its end.
pub proof fn arrow_down_ends_an_insertion(c: Composer, recs: Seq<BlockRec>)
    ensures
        c.recall is None ==> c.recalled_next(recs) == c,
        c.recall matches Some((RecallSrc::History, saved)) ==> c.recalled_next(recs) == (Composer {
            draft: saved,
            recall: None,
            caret_to_end: true,
            ..c
        }),
{
}

/// An arrow to the right takes the suggestion exactly where the caret stands
/// behind the whole draft: the draft goes on by it, and nothing else changes.
pub proof fn arrow_right_takes_at_the_end(
    c: Composer,
    recs: Seq<BlockRec>,
    right: u32,
    caret: Option<usize>,
    cwd: Option<Seq<char>>,
)
    ensures
        right > 0 && (caret matches Some(n) ==> n >= c.draft.len()) ==> c.press_ghost(
            recs,
            right,
            caret,
            cwd,
        ) == (Composer {
            draft: c.draft + match c.visible_ghost(recs, cwd) {
                Some(rest) => rest,
                None => Seq::empty(),
            },
            ..c
        }),
        right == 0 || (caret matches Some(n) && n < c.draft.len()) ==> c.press_ghost(
            recs,
            right,
            caret,
            cwd,
        ) == c,
{
    assert(c.draft + Seq::<char>::empty() =~= c.draft);
}

} // verus!
