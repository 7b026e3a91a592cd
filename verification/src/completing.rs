//! What completing a word promises, in terms of the word, the names and the
//! line.

use vstd::arithmetic::div_mod::{
    lemma_mod_bound, lemma_mod_multiples_vanish, lemma_mod_self_0, lemma_small_mod,
};
use vstd::prelude::*;

use crate::candidates;
use crate::candidates::Name;
use crate::complete::{Family, TabCycle};
use crate::lexer;
use crate::lexer::Span;
use crate::model::Composer;
use crate::paths;
use crate::paths::Listing;
use crate::quote;
use crate::sending::white_from;
use crate::tab;
use crate::tab::{Found, Outcome};
use crate::text;

verus! {

// Which names complete.

/// `s` starts with all of `t`, character by character.
pub open spec fn starts(s: Seq<char>, t: Seq<char>) -> bool {
    t.len() <= s.len() && forall|k: int| 0 <= k < t.len() ==> #[trigger] s[k] == t[k]
}

proof fn lemma_starts(s: Seq<char>, t: Seq<char>)
    ensures
        text::has_prefix(s, t) == starts(s, t),
{
    if t.len() <= s.len() {
        let p = s.subrange(0, 0int + t.len());
        if p == t {
            assert forall|k: int| 0 <= k < t.len() implies #[trigger] s[k] == t[k] by {
                assert(p[k] == s[k]);
            }
        }
        if starts(s, t) {
            assert(p =~= t);
        }
    }
}

/// The name is one that the prefix asks for: it starts with all of the prefix,
/// in lower case on both sides where case is ignored, and where names that
/// start with a dot are hidden it is none of them, unless the prefix starts
/// with a dot too.
pub open spec fn asked_for(n: Name, prefix: Seq<char>, ci: bool, posix_hidden: bool) -> bool {
    &&& ci ==> starts(text::lowercase(n.name), text::lowercase(prefix))
    &&& !ci ==> starts(n.name, prefix)
    &&& posix_hidden && n.name.len() > 0 && n.name[0] == '.' ==> prefix.len() > 0 && prefix[0]
        == '.'
}

/// A name completes a prefix exactly where it starts with all of it and is not
/// hidden.
pub proof fn names_start_with_what_was_typed(
    n: Name,
    prefix: Seq<char>,
    ci: bool,
    posix_hidden: bool,
)
    ensures
        candidates::completes(n, prefix, ci, posix_hidden) <==> asked_for(
            n,
            prefix,
            ci,
            posix_hidden,
        ),
        !ci && candidates::completes(n, prefix, ci, posix_hidden) ==> n.name.len() >= prefix.len()
            && n.name.take(prefix.len() as int) == prefix,
{
    lemma_starts(n.name, prefix);
    lemma_starts(text::lowercase(n.name), text::lowercase(prefix));
    lemma_starts(n.name, seq!['.']);
    lemma_starts(prefix, seq!['.']);
    assert(seq!['.'][0] == '.');
    if starts(n.name, prefix) {
        assert(n.name.take(prefix.len() as int) =~= prefix);
    }
    if n.name.len() > 0 && n.name[0] == '.' {
        assert(starts(n.name, seq!['.']));
    }
    if prefix.len() > 0 && prefix[0] == '.' {
        assert(starts(prefix, seq!['.']));
    }
}

/// The names that complete are those of the directory that the prefix asks
/// for, all of them, in the order of the directory.
pub proof fn every_name_asked_for_completes(
    s: Seq<Name>,
    prefix: Seq<char>,
    ci: bool,
    posix_hidden: bool,
)
    ensures
        candidates::completing(s, prefix, ci, posix_hidden) == s.filter(
            |n: Name| asked_for(n, prefix, ci, posix_hidden),
        ),
    decreases s.len(),
{
    reveal(Seq::filter);
    if s.len() > 0 {
        every_name_asked_for_completes(s.drop_last(), prefix, ci, posix_hidden);
        names_start_with_what_was_typed(s.last(), prefix, ci, posix_hidden);
    }
}

proof fn lemma_char_order(a: char, b: char)
    ensures
        a < b <==> (a as u32) < (b as u32),
{
}

/// Dictionary order goes by the first place where two texts differ: there the
/// smaller character comes first, and a text comes before those that go on
/// from it.
pub proof fn the_first_difference_decides(a: Seq<char>, b: Seq<char>, k: int)
    requires
        0 <= k <= a.len(),
        k <= b.len(),
        forall|j: int| 0 <= j < k ==> #[trigger] a[j] == b[j],
        k < a.len() && k < b.len() ==> a[k] != b[k],
    ensures
        candidates::lex_le(a, b) <==> k == a.len() || (k < b.len() && (a[k] as u32) < (b[k] as u32)),
    decreases k,
{
    if k > 0 {
        assert(a[0] == b[0]);
        let x = a.drop_first();
        let y = b.drop_first();
        assert forall|j: int| 0 <= j < k - 1 implies #[trigger] x[j] == y[j] by {
            assert(a[j + 1] == b[j + 1]);
        }
        assert(k < a.len() ==> x[k - 1] == a[k]);
        assert(k < b.len() ==> y[k - 1] == b[k]);
        the_first_difference_decides(x, y, k - 1);
        assert(candidates::lex_le(a, b) == candidates::lex_le(x, y));
        if k < a.len() && k < b.len() {
            assert(candidates::lex_le(x, y) == ((x[k - 1] as u32) < (y[k - 1] as u32)));
        }
    } else if a.len() > 0 && b.len() > 0 {
        lemma_char_order(a[0], b[0]);
    }
}

/// A directory ranks before every other name, whatever they are called, and
/// of two directories, or two other names, the first in dictionary order of
/// their lower case.
pub proof fn directories_rank_first(a: Name, b: Name)
    ensures
        a.dir && !b.dir ==> candidates::ranks_le(a, b) && !candidates::ranks_le(b, a),
        a.dir == b.dir ==> (candidates::ranks_le(a, b) <==> candidates::lex_le(
            text::lowercase(a.name),
            text::lowercase(b.name),
        )),
{
}

/// Neither ranks before the other.
pub open spec fn of_one_rank(a: Name, b: Name) -> bool {
    candidates::ranks_le(a, b) && candidates::ranks_le(b, a)
}

proof fn lemma_insert_stable(s: Seq<Name>, n: Name, x: Name)
    ensures
        candidates::insert_ranked(s, n).filter(|m: Name| of_one_rank(m, x)) == if of_one_rank(
            n,
            x,
        ) {
            s.filter(|m: Name| of_one_rank(m, x)).push(n)
        } else {
            s.filter(|m: Name| of_one_rank(m, x))
        },
    decreases s.len(),
{
    reveal(Seq::filter);
    let p = |m: Name| of_one_rank(m, x);
    let r = candidates::insert_ranked(s, n);
    if s.len() == 0 || candidates::ranks_le(s.last(), n) {
        assert(r.drop_last() =~= s);
        assert(r.last() == n);
    } else {
        lemma_insert_stable(s.drop_last(), n, x);
        assert(r.drop_last() =~= candidates::insert_ranked(s.drop_last(), n));
        assert(r.last() == s.last());
        if of_one_rank(n, x) && of_one_rank(s.last(), x) {
            candidates::lemma_ranks(s.last(), x, n);
        }
    }
}

/// Names of one rank keep the order that they had in the directory.
pub proof fn ordering_keeps_ties(s: Seq<Name>, x: Name)
    ensures
        candidates::ranked(s).filter(|m: Name| of_one_rank(m, x)) == s.filter(
            |m: Name| of_one_rank(m, x),
        ),
    decreases s.len(),
{
    reveal(Seq::filter);
    if s.len() > 0 {
        ordering_keeps_ties(s.drop_last(), x);
        lemma_insert_stable(candidates::ranked(s.drop_last()), s.last(), x);
    }
}

/// Two characters are the same to a completion.
pub open spec fn alike(a: char, b: char, ci: bool) -> bool {
    a == b || ci && text::char_lowercase(a) == text::char_lowercase(b)
}

proof fn lemma_agreeing(a: Seq<char>, b: Seq<char>, ci: bool)
    ensures
        ({
            let n = candidates::agreeing(a, b, ci) as int;
            &&& n <= a.len() && n <= b.len()
            &&& forall|k: int| 0 <= k < n ==> alike(#[trigger] a[k], b[k], ci)
            &&& n < a.len() && n < b.len() ==> !alike(a[n], b[n], ci)
        }),
    decreases a.len(),
{
    if a.len() > 0 && b.len() > 0 && candidates::agree(a[0], b[0], ci) {
        let x = a.drop_first();
        let y = b.drop_first();
        lemma_agreeing(x, y, ci);
        let n = candidates::agreeing(a, b, ci) as int;
        assert forall|k: int| 0 <= k < n implies alike(#[trigger] a[k], b[k], ci) by {
            if k > 0 {
                assert(alike(x[k - 1], y[k - 1], ci));
            }
        }
        if n < a.len() && n < b.len() {
            assert(x[n - 1] == a[n] && y[n - 1] == b[n]);
        }
    }
}

/// What all names share is the longest start of the first that every name
/// has: every name agrees with it so far, and where it ends before the first
/// name does, some name ends there or goes on otherwise.
pub proof fn the_shared_start_is_the_longest(s: Seq<Name>, ci: bool)
    requires
        s.len() > 0,
    ensures
        candidates::shared(s, ci) <= s[0].name.len(),
        forall|i: int|
            0 <= i < s.len() ==> candidates::shared(s, ci) <= (#[trigger] s[i]).name.len(),
        forall|i: int, k: int|
            0 <= i < s.len() && 0 <= k < candidates::shared(s, ci) ==> alike(
                s[0].name[k],
                #[trigger] s[i].name[k],
                ci,
            ),
        candidates::shared(s, ci) < s[0].name.len() ==> exists|i: int|
            0 <= i < s.len() && parts_at((#[trigger] s[i]).name, s[0].name, candidates::shared(
                s,
                ci,
            ) as int, ci),
    decreases s.len(),
{
    if s.len() > 1 {
        let t = s.drop_last();
        the_shared_start_is_the_longest(t, ci);
        lemma_agreeing(s[0].name, s.last().name, ci);
        let rest = candidates::shared(t, ci);
        let last = candidates::agreeing(s[0].name, s.last().name, ci);
        let n = candidates::shared(s, ci);
        assert forall|i: int| 0 <= i < s.len() implies n <= (#[trigger] s[i]).name.len() by {
            if i < s.len() - 1 {
                assert(t[i] == s[i]);
            }
        }
        assert forall|i: int, k: int| 0 <= i < s.len() && 0 <= k < n implies alike(
            s[0].name[k],
            #[trigger] s[i].name[k],
            ci,
        ) by {
            if i < s.len() - 1 {
                assert(t[i] == s[i] && t[0] == s[0]);
                assert(alike(t[0].name[k], t[i].name[k], ci));
            }
        }
        if n < s[0].name.len() {
            if last < rest {
                assert(parts_at(s[s.len() - 1].name, s[0].name, n as int, ci));
            } else {
                let i = choose|i: int|
                    0 <= i < t.len() && parts_at((#[trigger] t[i]).name, t[0].name, rest as int, ci);
                assert(parts_at(s[i].name, s[0].name, n as int, ci));
            }
        }
    }
}

/// `a` ends at `n`, or goes on there otherwise than `b`.
pub open spec fn parts_at(a: Seq<char>, b: Seq<char>, n: int, ci: bool) -> bool {
    a.len() == n || 0 <= n < a.len() && 0 <= n < b.len() && !alike(b[n], a[n], ci)
}

/// A completed word is what was typed before the name, the name, and the
/// separator behind a directory.
pub proof fn a_completed_word_is_its_parts(p: Listing, name: Seq<char>)
    ensures
        candidates::rendered(p, name, false) == p.render_parent + name,
        candidates::rendered(p, name, true) == p.render_parent + name + seq![p.sep],
{
    assert((p.render_parent + name).push(p.sep) =~= p.render_parent + name + seq![p.sep]);
}

// The word at the caret.

/// The word at the caret is the one that holds it, past its first character's
/// start and not past its end; between words it is an empty one at the caret.
pub proof fn the_word_holds_the_caret(fam: Family, s: Seq<char>, k: int)
    ensures
        ({
            let ws = lexer::words(fam, s);
            let w = tab::word_at(ws, k);
            &&& forall|i: int|
                0 <= i < ws.len() && (#[trigger] ws[i]).start < k <= ws[i].end ==> w == ws[i]
            &&& (forall|i: int|
                0 <= i < ws.len() ==> !((#[trigger] ws[i]).start < k <= ws[i].end)) ==> w.start == k
                && w.end == k && w.value.len() == 0
        }),
{
    lexer::words_lie_in_the_line(fam, s);
    lemma_word_at(lexer::words(fam, s), k, 0, s.len() as int);
}

proof fn lemma_word_at(ws: Seq<Span>, k: int, lo: int, hi: int)
    requires
        lexer::in_line(ws, lo, hi),
    ensures
        forall|i: int|
            0 <= i < ws.len() && (#[trigger] ws[i]).start < k <= ws[i].end ==> tab::word_at(ws, k)
                == ws[i],
        (forall|i: int| 0 <= i < ws.len() ==> !((#[trigger] ws[i]).start < k <= ws[i].end))
            ==> tab::word_at(ws, k) == (Span { start: k, end: k, value: Seq::empty() }),
    decreases ws.len(),
{
    if ws.len() > 0 {
        let r = ws.drop_first();
        assert(lexer::in_line(r, lo, hi)) by {
            assert forall|i: int| 0 <= i < r.len() implies lo <= (#[trigger] r[i]).start < r[i].end
                <= hi by {
                assert(r[i] == ws[i + 1]);
            }
            assert forall|i: int, j: int| 0 <= i < j < r.len() implies (#[trigger] r[i]).end
                <= (#[trigger] r[j]).start by {
                assert(r[i] == ws[i + 1] && r[j] == ws[j + 1]);
            }
        }
        lemma_word_at(r, k, lo, hi);
        assert forall|i: int|
            0 <= i < ws.len() && (#[trigger] ws[i]).start < k <= ws[i].end implies tab::word_at(
            ws,
            k,
        ) == ws[i] by {
            if i > 0 {
                assert(ws[0].end <= ws[i].start);
                assert(r[i - 1] == ws[i]);
            }
        }
        if forall|i: int| 0 <= i < ws.len() ==> !((#[trigger] ws[i]).start < k <= ws[i].end) {
            assert(!(ws[0].start < k <= ws[0].end));
            assert forall|i: int| 0 <= i < r.len() implies !((#[trigger] r[i]).start < k
                <= r[i].end) by {
                assert(r[i] == ws[i + 1]);
            }
        }
    }
}

proof fn lemma_token(s: Seq<char>, ws: Seq<Span>, caret: int)
    ensures
        ({
            let t = tab::token(s, ws, caret);
            ||| exists|i: int|
                0 <= i < ws.len() && holds_byte(s, #[trigger] ws[i], caret) && t == (
                    lexer::byte_at(s, ws[i].start) as int,
                    lexer::byte_at(s, ws[i].end) as int,
                    ws[i].value,
                )
            ||| t == (caret, caret, Seq::<char>::empty()) && forall|i: int|
                0 <= i < ws.len() ==> !holds_byte(s, #[trigger] ws[i], caret)
        }),
    decreases ws.len(),
{
    if ws.len() > 0 && !holds_byte(s, ws[0], caret) {
        let r = ws.drop_first();
        lemma_token(s, r, caret);
        if exists|i: int| 0 <= i < r.len() && holds_byte(s, #[trigger] r[i], caret) {
            let i = choose|i: int|
                0 <= i < r.len() && holds_byte(s, #[trigger] r[i], caret) && tab::token(s, r, caret)
                    == (
                    lexer::byte_at(s, r[i].start) as int,
                    lexer::byte_at(s, r[i].end) as int,
                    r[i].value,
                );
            assert(ws[i + 1] == r[i]);
        } else {
            assert forall|i: int| 0 <= i < ws.len() implies !holds_byte(
                s,
                #[trigger] ws[i],
                caret,
            ) by {
                if i > 0 {
                    assert(r[i - 1] == ws[i]);
                }
            }
        }
    }
}

/// The caret, in bytes, is past the word's start and not past its end.
pub open spec fn holds_byte(s: Seq<char>, w: Span, caret: int) -> bool {
    lexer::byte_len(s.take(w.start)) < caret <= lexer::byte_len(s.take(w.end))
}

/// By bytes too the token is a word that holds the caret, with its range and
/// its value, or, where none does, an empty one at the caret.
pub proof fn the_token_holds_the_caret(fam: Family, s: Seq<char>, caret: int)
    ensures
        ({
            let ws = lexer::words(fam, s);
            let t = tab::token(s, ws, caret);
            ||| exists|i: int|
                0 <= i < ws.len() && holds_byte(s, #[trigger] ws[i], caret) && t == (
                    lexer::byte_len(s.take(ws[i].start)) as int,
                    lexer::byte_len(s.take(ws[i].end)) as int,
                    ws[i].value,
                )
            ||| t == (caret, caret, Seq::<char>::empty()) && forall|i: int|
                0 <= i < ws.len() ==> !holds_byte(s, #[trigger] ws[i], caret)
        }),
{
    lemma_token(s, lexer::words(fam, s), caret);
}

proof fn lemma_chars_to(s: Seq<char>, b: int)
    ensures
        ({
            let n = tab::chars_to(s, b);
            &&& 0 <= n <= s.len()
            &&& n < s.len() ==> b <= lexer::byte_len(s.take(n))
            &&& n > 0 ==> lexer::byte_len(s.take(n - 1)) < b
        }),
    decreases s.len(),
{
    assert(s.take(0) =~= Seq::<char>::empty());
    if b > 0 && s.len() > 0 {
        let r = s.drop_first();
        lemma_chars_to(r, b - lexer::width(s[0]));
        let n = tab::chars_to(s, b);
        assert(s.take(n).drop_first() =~= r.take(n - 1));
        if n > 1 {
            assert(s.take(n - 1).drop_first() =~= r.take(n - 2));
        }
    }
}

/// A caret in bytes stands behind the fewest characters that reach it: those
/// before it do not, and where the text has more they do.
pub proof fn a_caret_counts_characters(s: Seq<char>, b: int)
    ensures
        ({
            let n = tab::chars_to(s, b);
            &&& 0 <= n <= s.len()
            &&& n < s.len() ==> b <= lexer::byte_len(s.take(n))
            &&& n > 0 ==> lexer::byte_len(s.take(n - 1)) < b
        }),
{
    lemma_chars_to(s, b);
}

// Reading a line.

/// A piece of a word, as it is written.
pub enum Piece {
    /// One character that stands for itself.
    Plain(char),
    /// A backslash and the character that it escapes.
    Escaped(char),
    /// A text in single quotes.
    Single(Seq<char>),
    /// A text in double quotes.
    Double(Seq<char>),
    /// A backslash and one character in double quotes.
    DoubleEscaped(char),
}

/// The shell reads as bash does.
pub open spec fn like_bash(fam: Family) -> bool {
    fam is Wsl || fam is Ssh
}

impl Piece {
    /// The family knows such a piece.
    pub open spec fn known(self, fam: Family) -> bool {
        match self {
            Piece::Plain(c) => !text::white(c) && c != '"' && (c == '\'' ==> fam is Cmd
                || fam is Other) && (c == '\\' ==> !like_bash(fam)),
            Piece::Escaped(_) => like_bash(fam),
            Piece::Single(t) => (like_bash(fam) || fam is Pwsh) && !t.contains('\''),
            Piece::Double(t) => !t.contains('"') && (like_bash(fam) ==> !t.contains('\\')),
            Piece::DoubleEscaped(c) => like_bash(fam),
        }
    }

    pub open spec fn written(self) -> Seq<char> {
        match self {
            Piece::Plain(c) => seq![c],
            Piece::Escaped(c) => seq!['\\', c],
            Piece::Single(t) => seq!['\''] + t + seq!['\''],
            Piece::Double(t) => seq!['"'] + t + seq!['"'],
            Piece::DoubleEscaped(c) => seq!['"', '\\', c, '"'],
        }
    }

    /// What it stands for. In double quotes a backslash escapes the quote, the
    /// backslash, the dollar and the backtick, and stands for itself before
    /// anything else.
    pub open spec fn meaning(self) -> Seq<char> {
        match self {
            Piece::Plain(c) => seq![c],
            Piece::Escaped(c) => seq![c],
            Piece::Single(t) => t,
            Piece::Double(t) => t,
            Piece::DoubleEscaped(c) => if c == '"' || c == '\\' || c == '$' || c == '`' {
                seq![c]
            } else {
                seq!['\\', c]
            },
        }
    }
}

proof fn lemma_quoted_run(
    fam: Family,
    s: Seq<char>,
    i: int,
    q: char,
    t: Seq<char>,
    start: int,
    value: Seq<char>,
)
    requires
        0 <= i,
        i + t.len() <= s.len(),
        forall|k: int| 0 <= k < t.len() ==> s[i + k] == #[trigger] t[k],
        q == '\'' || q == '"',
        !t.contains(q),
        q == '"' && like_bash(fam) ==> !t.contains('\\'),
    ensures
        lexer::words_from(fam, s, i, Some(q), Some((start, value))) == lexer::words_from(
            fam,
            s,
            i + t.len(),
            Some(q),
            Some((start, value + t)),
        ),
    decreases t.len(),
{
    if t.len() == 0 {
        assert(value + t =~= value);
    } else {
        let r = t.drop_first();
        assert(t.contains(t[0]));
        assert(s[i + 0] == t[0]);
        assert forall|k: int| 0 <= k < r.len() implies s[(i + 1) + k] == #[trigger] r[k] by {
            assert(s[i + (k + 1)] == t[k + 1]);
        }
        if r.contains(q) {
            let k = choose|k: int| 0 <= k < r.len() && r[k] == q;
            assert(t[k + 1] == q);
        }
        if r.contains('\\') {
            let k = choose|k: int| 0 <= k < r.len() && r[k] == '\\';
            assert(t[k + 1] == '\\');
        }
        lemma_quoted_run(fam, s, i + 1, q, r, start, value.push(t[0]));
        assert(value.push(t[0]) + r =~= value + t);
        assert((i + 1) + r.len() == i + t.len());
    }
}

/// Where a word that is read at `i` starts, and what it stands for so far.
pub open spec fn so_far(i: int, cur: Option<(int, Seq<char>)>) -> (int, Seq<char>) {
    match cur {
        Some(p) => p,
        None => (i, Seq::empty()),
    }
}

/// A piece that stands at `i`, outside quotes, adds what it stands for to the
/// word that is being read, or starts one. In PowerShell a text in single
/// quotes ends only where no other quote follows: two of them are one quote.
pub proof fn a_piece_adds_to_its_word(
    fam: Family,
    s: Seq<char>,
    i: int,
    cur: Option<(int, Seq<char>)>,
    p: Piece,
)
    requires
        p.known(fam),
        0 <= i,
        i + p.written().len() <= s.len(),
        s.subrange(i, i + p.written().len()) == p.written(),
        fam is Pwsh && p is Single && i + p.written().len() < s.len() ==> s[i + p.written().len()]
            != '\'',
    ensures
        lexer::words_from(fam, s, i, None, cur) == lexer::words_from(
            fam,
            s,
            i + p.written().len(),
            None,
            Some((so_far(i, cur).0, so_far(i, cur).1 + p.meaning())),
        ),
{
    let w = p.written();
    let (start, value) = so_far(i, cur);
    let at = s.subrange(i, i + w.len());
    assert(at[0] == s[i]);
    match p {
        Piece::Plain(c) => {
            assert(value + seq![c] =~= value.push(c));
        },
        Piece::Escaped(c) => {
            assert(at[1] == s[i + 1]);
            assert(value + seq![c] =~= value.push(c));
        },
        Piece::Single(t) => {
            assert forall|k: int| 0 <= k < t.len() implies s[i + 1 + k] == #[trigger] t[k] by {
                assert(at[k + 1] == w[k + 1]);
            }
            assert(at[w.len() - 1] == '\'');
            lemma_quoted_run(fam, s, i + 1, '\'', t, start, value);
        },
        Piece::Double(t) => {
            assert forall|k: int| 0 <= k < t.len() implies s[i + 1 + k] == #[trigger] t[k] by {
                assert(at[k + 1] == w[k + 1]);
            }
            assert(at[w.len() - 1] == '"');
            lemma_quoted_run(fam, s, i + 1, '"', t, start, value);
        },
        Piece::DoubleEscaped(c) => {
            assert(at[1] == s[i + 1] && at[2] == s[i + 2] && at[3] == s[i + 3]);
            assert(value + seq![c] =~= value.push(c));
            assert(value + seq!['\\', c] =~= value.push('\\').push(c));
            let one = value.push(c);
            let two = value.push('\\').push(c);
            if lexer::escapable(c) {
                assert(lexer::words_from(fam, s, i + 1, Some('"'), Some((start, value)))
                    == lexer::words_from(fam, s, i + 3, Some('"'), Some((start, one))));
                assert(lexer::words_from(fam, s, i + 3, Some('"'), Some((start, one)))
                    == lexer::words_from(fam, s, i + 4, None, Some((start, one))));
            } else {
                assert(lexer::words_from(fam, s, i + 1, Some('"'), Some((start, value)))
                    == lexer::words_from(
                    fam,
                    s,
                    i + 2,
                    Some('"'),
                    Some((start, value.push('\\'))),
                ));
                assert(lexer::words_from(fam, s, i + 2, Some('"'), Some((start, value.push('\\'))))
                    == lexer::words_from(fam, s, i + 3, Some('"'), Some((start, two))));
                assert(lexer::words_from(fam, s, i + 3, Some('"'), Some((start, two)))
                    == lexer::words_from(fam, s, i + 4, None, Some((start, two))));
            }
        },
    }
}

/// White space outside quotes ends a word, and the end of the line does;
/// between words it means nothing. A quote that is never closed runs to the
/// end of the line, and belongs to the word that it stands in.
pub proof fn white_space_ends_a_word(
    fam: Family,
    s: Seq<char>,
    i: int,
    start: int,
    value: Seq<char>,
    q: char,
)
    requires
        0 <= i,
    ensures
        i < s.len() && text::white(s[i]) ==> lexer::words_from(
            fam,
            s,
            i,
            None,
            Some((start, value)),
        ) == seq![Span { start, end: i, value }] + lexer::words_from(fam, s, i + 1, None, None),
        i < s.len() && text::white(s[i]) ==> lexer::words_from(fam, s, i, None, None)
            == lexer::words_from(fam, s, i + 1, None, None),
        i == s.len() ==> lexer::words_from(fam, s, i, None, Some((start, value))) == seq![
            Span { start, end: i, value },
        ],
        i == s.len() ==> lexer::words_from(fam, s, i, None, None).len() == 0,
        lexer::words(fam, s) == lexer::words_from(fam, s, 0, None, None),
        i <= s.len() && (q == '\'' || q == '"') && !s.skip(i).contains(q) && (q == '"' && like_bash(
            fam,
        ) ==> !s.skip(i).contains('\\')) ==> lexer::words_from(
            fam,
            s,
            i,
            Some(q),
            Some((start, value)),
        ) == seq![Span { start, end: s.len() as int, value: value + s.skip(i) }],
{
    if i <= s.len() && (q == '\'' || q == '"') && !s.skip(i).contains(q) && (q == '"' && like_bash(
        fam,
    ) ==> !s.skip(i).contains('\\')) {
        lemma_quoted_run(fam, s, i, q, s.skip(i), start, value);
    }
}

/// What opens quotes: the double quote everywhere, the single one in
/// PowerShell and where the shell reads as bash does, and there a backslash
/// escapes.
pub proof fn quotes_of_the_families(fam: Family, c: char)
    ensures
        lexer::quotes(fam, c) <==> c == '"' || (c == '\'' && !(fam is Cmd) && !(fam is Other)),
        lexer::escapes(fam) <==> like_bash(fam),
{
}

// Quoting.

/// What a family quotes for, besides white space.
pub open spec fn reserved(fam: Family) -> Seq<char> {
    match fam {
        Family::Pwsh => "'\"`$&;,(){}[]|<>@#"@,
        Family::Cmd => "&()[]{}^=;!'+,`~"@,
        Family::Other => ""@,
        _ => "'\"`$&|;()<>*?[]{}!#~\\"@,
    }
}

proof fn lemma_reserved(fam: Family, c: char)
    ensures
        quote::special(fam, c) <==> text::white(c) || reserved(fam).contains(c),
{
    reveal_strlit("'\"`$&;,(){}[]|<>@#");
    reveal_strlit("&()[]{}^=;!'+,`~");
    reveal_strlit("");
    reveal_strlit("'\"`$&|;()<>*?[]{}!#~\\");
    let p = "'\"`$&;,(){}[]|<>@#"@;
    let m = "&()[]{}^=;!'+,`~"@;
    let b = "'\"`$&|;()<>*?[]{}!#~\\"@;
    assert(p =~= seq![
        '\'', '"', '`', '$', '&', ';', ',', '(', ')', '{', '}', '[', ']', '|', '<', '>', '@', '#',
    ]);
    assert(m =~= seq![
        '&', '(', ')', '[', ']', '{', '}', '^', '=', ';', '!', '\'', '+', ',', '`', '~',
    ]);
    assert(b =~= seq![
        '\'', '"', '`', '$', '&', '|', ';', '(', ')', '<', '>', '*', '?', '[', ']', '{', '}', '!',
        '#', '~', '\\',
    ]);
    let r = reserved(fam);
    if r.contains(c) {
        let k = choose|k: int| 0 <= k < r.len() && r[k] == c;
        assert(quote::special(fam, r[k]));
    }
    if quote::special(fam, c) && !text::white(c) {
        assert(p[0] == '\'' && p[1] == '"' && p[2] == '`' && p[3] == '$' && p[4] == '&' && p[5]
            == ';' && p[6] == ',' && p[7] == '(' && p[8] == ')' && p[9] == '{' && p[10] == '}'
            && p[11] == '[' && p[12] == ']' && p[13] == '|' && p[14] == '<' && p[15] == '>' && p[16]
            == '@' && p[17] == '#');
        assert(m[0] == '&' && m[1] == '(' && m[2] == ')' && m[3] == '[' && m[4] == ']' && m[5]
            == '{' && m[6] == '}' && m[7] == '^' && m[8] == '=' && m[9] == ';' && m[10] == '!'
            && m[11] == '\'' && m[12] == '+' && m[13] == ',' && m[14] == '`' && m[15] == '~');
        assert(b[0] == '\'' && b[1] == '"' && b[2] == '`' && b[3] == '$' && b[4] == '&' && b[5]
            == '|' && b[6] == ';' && b[7] == '(' && b[8] == ')' && b[9] == '<' && b[10] == '>'
            && b[11] == '*' && b[12] == '?' && b[13] == '[' && b[14] == ']' && b[15] == '{' && b[16]
            == '}' && b[17] == '!' && b[18] == '#' && b[19] == '~' && b[20] == '\\');
    }
}

/// A word is written as it is exactly where it holds neither white space nor a
/// character that its family reserves. Otherwise it stands in quotes, double
/// ones where the family knows no single ones.
pub proof fn only_reserved_characters_are_quoted(fam: Family, t: Seq<char>)
    ensures
        (forall|k: int|
            0 <= k < t.len() ==> !text::white(#[trigger] t[k]) && !reserved(fam).contains(t[k]))
            ==> quote::quoted(fam, t) == t,
        (exists|k: int|
            0 <= k < t.len() && (text::white(#[trigger] t[k]) || reserved(fam).contains(t[k])))
            ==> {
            let w = quote::quoted(fam, t);
            let q = if fam is Cmd || fam is Other {
                '"'
            } else {
                '\''
            };
            &&& w.len() >= t.len() + 2
            &&& w[0] == q && w.last() == q
            &&& !t.contains('\'') || fam is Cmd || fam is Other ==> w == seq![q] + t + seq![q]
        },
{
    assert forall|k: int| 0 <= k < t.len() implies quote::special(fam, #[trigger] t[k]) == (
    text::white(t[k]) || reserved(fam).contains(t[k])) by {
        lemma_reserved(fam, t[k]);
    }
    lemma_doubling(t);
    if quote::needs_quotes(fam, t) {
        let k = choose|k: int| 0 <= k < t.len() && quote::special(fam, #[trigger] t[k]);
        assert(text::white(t[k]) || reserved(fam).contains(t[k]));
    }
    if exists|k: int|
        0 <= k < t.len() && (text::white(#[trigger] t[k]) || reserved(fam).contains(t[k])) {
        let k = choose|k: int|
            0 <= k < t.len() && (text::white(#[trigger] t[k]) || reserved(fam).contains(t[k]));
        assert(quote::special(fam, t[k]));
        assert(quote::needs_quotes(fam, t));
    }
}

proof fn lemma_doubling(t: Seq<char>)
    ensures
        quote::doubled(t).len() >= t.len(),
        quote::stepped_out(t).len() >= t.len(),
        !t.contains('\'') ==> quote::doubled(t) == t && quote::stepped_out(t) == t,
    decreases t.len(),
{
    if t.len() > 0 {
        let r = t.drop_first();
        lemma_doubling(r);
        if !t.contains('\'') {
            assert(t[0] != '\'');
            if r.contains('\'') {
                let k = choose|k: int| 0 <= k < r.len() && r[k] == '\'';
                assert(t[k + 1] == '\'');
            }
            assert(seq![t[0]] + r =~= t);
        }
    }
}

/// Inside single quotes every single quote is written twice for PowerShell,
/// and outside the quotes, behind a backslash, for bash; the rest is as it is.
pub proof fn inner_quotes_are_carried(a: Seq<char>, b: Seq<char>)
    ensures
        quote::doubled(a + seq!['\''] + b) == quote::doubled(a) + seq!['\'', '\'']
            + quote::doubled(b),
        quote::stepped_out(a + seq!['\''] + b) == quote::stepped_out(a) + seq![
            '\'', '\\', '\'', '\'',
        ] + quote::stepped_out(b),
        !a.contains('\'') ==> quote::doubled(a) == a && quote::stepped_out(a) == a,
    decreases a.len(),
{
    lemma_doubling(a);
    let s = a + seq!['\''] + b;
    if a.len() == 0 {
        assert(s.drop_first() =~= b);
        assert(quote::doubled(s) =~= quote::doubled(a) + seq!['\'', '\''] + quote::doubled(b));
        assert(quote::stepped_out(s) =~= quote::stepped_out(a) + seq!['\'', '\\', '\'', '\'']
            + quote::stepped_out(b));
    } else {
        inner_quotes_are_carried(a.drop_first(), b);
        assert(s.drop_first() =~= a.drop_first() + seq!['\''] + b);
        assert(quote::doubled(s) =~= quote::doubled(a) + seq!['\'', '\''] + quote::doubled(b));
        assert(quote::stepped_out(s) =~= quote::stepped_out(a) + seq!['\'', '\\', '\'', '\'']
            + quote::stepped_out(b));
    }
}

// Where the names come from.

/// A letter of a drive.
pub open spec fn letter(c: char) -> bool {
    'a' <= c <= 'z' || 'A' <= c <= 'Z'
}

/// A slash or a backslash.
pub open spec fn slash(c: char) -> bool {
    c == '/' || c == '\\'
}

/// The path starts with a drive and its colon.
pub open spec fn drive_first(s: Seq<char>) -> bool {
    s.len() >= 2 && letter(s[0]) && s[1] == ':'
}

/// `t` is `s` with every `a` as `b`.
pub open spec fn swapped(s: Seq<char>, a: char, b: char, t: Seq<char>) -> bool {
    &&& t.len() == s.len()
    &&& forall|k: int|
        0 <= k < s.len() ==> #[trigger] t[k] == if s[k] == a {
            b
        } else {
            s[k]
        }
}

proof fn lemma_swapped(s: Seq<char>, a: char, b: char)
    ensures
        swapped(s, a, b, paths::replaced(s, a, b)),
{
}

/// A word's directory part: it is empty or ends in a separator, and no
/// separator stands in the name behind it.
pub open spec fn parts_win(parent: Seq<char>, name: Seq<char>) -> bool {
    &&& parent.len() > 0 ==> slash(parent.last())
    &&& forall|k: int| 0 <= k < name.len() ==> !slash(#[trigger] name[k])
}

proof fn lemma_name_start(parent: Seq<char>, name: Seq<char>)
    requires
        parts_win(parent, name),
    ensures
        paths::name_start(parent + name) == parent.len(),
        (parent + name).take(parent.len() as int) == parent,
        (parent + name).skip(parent.len() as int) == name,
{
    let v = parent + name;
    assert(v.take(parent.len() as int) =~= parent);
    assert(v.skip(parent.len() as int) =~= name);
    text::lemma_last_index(v, '/');
    text::lemma_last_index(v, '\\');
    let a = text::last_index(v, '/');
    let b = text::last_index(v, '\\');
    if a >= parent.len() {
        assert(v[a] == name[a - parent.len()]);
    }
    if b >= parent.len() {
        assert(v[b] == name[b - parent.len()]);
    }
    if parent.len() > 0 {
        assert(v[parent.len() - 1] == parent.last());
    }
}

/// The separator that completions of a word are written with: the slash
/// exactly where the word has a slash and no backslash.
pub proof fn words_keep_their_separator(value: Seq<char>)
    ensures
        paths::word_sep(value) == if (exists|k: int| 0 <= k < value.len() && #[trigger] value[k] == '/')
            && (forall|k: int| 0 <= k < value.len() ==> #[trigger] value[k] != '\\') {
            '/'
        } else {
            '\\'
        },
{
    if exists|k: int| 0 <= k < value.len() && #[trigger] value[k] == '/' {
        let k = choose|k: int| 0 <= k < value.len() && #[trigger] value[k] == '/';
        assert(value.contains(value[k]));
    }
    if value.contains('\\') {
        let k = choose|k: int| 0 <= k < value.len() && value[k] == '\\';
        assert(value[k] == '\\');
    } else {
        assert forall|k: int| 0 <= k < value.len() implies #[trigger] value[k] != '\\' by {
            assert(value.contains(value[k]));
        }
    }
}

/// The directory that a Windows shell stands in, where it is on a drive.
pub open spec fn cwd_on_drive(cwd: Option<Seq<char>>) -> bool {
    cwd matches Some(c) && drive_first(c)
}

/// The plan lists the directory.
pub open spec fn lists(l: Option<Listing>, dir: Seq<char>) -> bool {
    l matches Some(p) && p.fs_dir == dir
}

/// In the Windows namespace a word completes to names of the directory that it
/// names, behind what was typed of it. What must be matched is all that stands
/// behind the last separator, in any case; no name is hidden. A tilde with a
/// separator is the home directory, which cmd gets spelled out; a drive or a
/// share stands for itself; a root is that of the current drive; every other
/// word is relative to the current directory.
pub proof fn windows_words_name_their_directory(
    fam: Family,
    cwd: Option<Seq<char>>,
    home: Option<Seq<char>>,
    parent: Seq<char>,
    name: Seq<char>,
)
    requires
        fam is Pwsh || fam is Cmd || fam is Other,
        parts_win(parent, name),
        parent.len() + name.len() != 2 || !drive_first(parent + name),
    ensures
        ({
            let tilde = parent.len() >= 2 && parent[0] == '~' && slash(parent[1]);
            let share = parent.len() >= 2 && parent[0] == '\\' && parent[1] == '\\';
            let own_drive = parent.len() + name.len() >= 3 && drive_first(parent + name) && !slash(
                (parent + name)[2],
            );
            let bare_tilde = parent.len() == 0 && name == seq!['~'];
            let l = paths::listing(fam, cwd, home, parent + name);
            &&& own_drive || bare_tilde ==> l is None
            &&& !own_drive && !bare_tilde && (tilde && home is None || !tilde && !drive_first(
                parent,
            ) && !share && !cwd_on_drive(cwd)) ==> l is None
            &&& l matches Some(p) ==> {
                &&& p.prefix == name
                &&& p.sep == paths::word_sep(parent + name)
                &&& p.ci && !p.posix_hidden
                &&& p.render_parent == (if tilde && fam is Cmd {
                    home->0 + parent.skip(1)
                } else {
                    parent
                })
            }
            &&& !own_drive && !bare_tilde ==> {
                &&& tilde && home is Some ==> lists(l, home->0 + parent.skip(1))
                &&& drive_first(parent) || share ==> lists(l, parent)
                &&& cwd_on_drive(cwd) && parent.len() == 0 ==> lists(l, cwd->0)
                &&& cwd_on_drive(cwd) && parent.len() > 0 && slash(parent[0]) && !share ==> lists(
                    l,
                    (cwd->0).take(2) + parent,
                )
                &&& cwd_on_drive(cwd) && parent.len() > 0 && !tilde && !drive_first(parent)
                    && !slash(parent[0]) ==> lists(
                    l,
                    if (cwd->0).len() == 2 || slash((cwd->0).last()) {
                        cwd->0 + parent
                    } else {
                        cwd->0 + seq!['\\'] + parent
                    },
                )
            }
        }),
{
    lemma_name_start(parent, name);
    let v = parent + name;
    reveal_strlit("\\\\");
    lemma_starts(parent, "\\\\"@);
    assert("\\\\"@ =~= seq!['\\', '\\']);
    if parent.len() == 0 {
        assert(v =~= name);
    } else {
        assert(v[0] == parent[0]);
        if v == seq!['~'] {
            assert(parent.last() == v[parent.len() - 1]);
        }
    }
    if parent.len() >= 2 && parent[0] == '\\' && parent[1] == '\\' {
        assert(starts(parent, "\\\\"@));
    }
    if let Some(c) = cwd {
        assert(c + seq!['\\'] + parent =~= c.push('\\') + parent);
    }
}

/// A bare drive lists its root, and its names are written behind the drive and
/// a backslash.
pub proof fn a_bare_drive_lists_its_root(
    fam: Family,
    cwd: Option<Seq<char>>,
    home: Option<Seq<char>>,
    d: char,
)
    requires
        fam is Pwsh || fam is Cmd || fam is Other,
        letter(d),
    ensures
        paths::listing(fam, cwd, home, seq![d, ':']) matches Some(p) && p.fs_dir == seq![d, ':', '\\']
            && p.render_parent == seq![d, ':', '\\'] && p.prefix.len() == 0 && p.sep == '\\' && p.ci
            && !p.posix_hidden,
{
    let v = seq![d, ':'];
    assert(v[0] == d && v[1] == ':');
    assert(v.push('\\') =~= seq![d, ':', '\\']);
    words_keep_their_separator(v);
    assert(v != seq!['~']) by {
        assert(v.len() == 2);
    }
}

/// In the namespace of a Windows subsystem what stands behind the last slash
/// must be matched, letter by letter, and names that start with a dot are
/// hidden. A word with a tilde in front completes to nothing. The directory is
/// the word's own where it is absolute, else the one that it names from the
/// current directory, as far as a Windows process can list it.
pub proof fn posix_words_name_their_directory(
    distro: Option<String>,
    cwd: Option<Seq<char>>,
    home: Option<Seq<char>>,
    parent: Seq<char>,
    name: Seq<char>,
)
    requires
        parent.len() > 0 ==> parent.last() == '/',
        forall|k: int| 0 <= k < name.len() ==> #[trigger] name[k] != '/',
    ensures
        ({
            let v = parent + name;
            let d = crate::complete::opt_text(distro);
            let l = paths::listing(Family::Wsl { distro }, cwd, home, v);
            &&& v.len() > 0 && v[0] == '~' ==> l is None
            &&& l matches Some(p) ==> p.prefix == name && p.render_parent == parent && p.sep == '/'
                && !p.ci && p.posix_hidden
            &&& !(v.len() > 0 && v[0] == '~') ==> {
                &&& parent.len() > 0 && parent[0] == '/' ==> match paths::local_path(parent, d) {
                    Some(dir) => lists(l, dir),
                    None => l is None,
                }
                &&& !(parent.len() > 0 && parent[0] == '/') ==> match paths::posix_parent(
                    cwd,
                    parent,
                ) {
                    Some(at) => match paths::local_path(at, d) {
                        Some(dir) => lists(l, dir),
                        None => l is None,
                    },
                    None => l is None,
                }
            }
        }),
{
    let v = parent + name;
    text::lemma_last_index(v, '/');
    let k = text::last_index(v, '/');
    if k >= parent.len() {
        assert(v[k] == name[k - parent.len()]);
    }
    if parent.len() > 0 {
        assert(v[parent.len() - 1] == parent.last());
    }
    assert(v.take(parent.len() as int) =~= parent);
    assert(v.skip(parent.len() as int) =~= name);
}

proof fn lemma_trailing(s: Seq<char>, c: char, n: int)
    requires
        0 <= n <= s.len(),
        forall|k: int| n <= k < s.len() ==> #[trigger] s[k] == c,
        n > 0 ==> s[n - 1] != c,
    ensures
        paths::without_trailing(s, c) == s.take(n),
    decreases s.len(),
{
    if n < s.len() {
        assert(s[s.len() - 1] == c);
        let r = s.drop_last();
        assert forall|k: int| n <= k < r.len() implies #[trigger] r[k] == c by {
            assert(r[k] == s[k]);
        }
        lemma_trailing(r, c, n);
        assert(r.take(n) =~= s.take(n));
    } else {
        assert(s.take(n) =~= s);
    }
}

/// A relative word of a subsystem's shell is behind its current directory with
/// one slash between: the posix directory that it stands in, or where the
/// drive that it stands on is mounted.
pub proof fn relative_posix_words_follow_the_directory(
    cwd: Seq<char>,
    parent: Seq<char>,
    base: Seq<char>,
    n: int,
)
    requires
        parent.len() > 0 ==> parent[0] != '/',
        drive_first(cwd) ==> paths::mounted_path(cwd) == Some(base),
        !drive_first(cwd) ==> cwd.len() > 0 && cwd[0] == '/' && base == cwd,
        0 <= n <= base.len(),
        forall|k: int| n <= k < base.len() ==> #[trigger] base[k] == '/',
        n > 0 ==> base[n - 1] != '/',
    ensures
        paths::posix_parent(Some(cwd), parent) == Some(base.take(n) + seq!['/'] + parent),
        paths::posix_parent(None, parent) is None,
{
    lemma_trailing(base, '/', n);
    assert(base.take(n).push('/') + parent =~= base.take(n) + seq!['/'] + parent);
}

/// A drive is mounted under `/mnt` by its small letter, and what follows the
/// drive follows it there, its backslashes as slashes. A path relative to a
/// drive's own directory, and one without a drive, is nowhere there.
pub proof fn drives_are_mounted(c: Seq<char>, rest: Seq<char>)
    ensures
        !drive_first(c) ==> paths::mounted_path(c) is None,
        drive_first(c) && c.len() > 2 && !slash(c[2]) ==> paths::mounted_path(c) is None,
        drive_first(c) && (c.len() == 2 || slash(c[2])) && swapped(c.skip(2), '\\', '/', rest)
            ==> paths::mounted_path(c) == Some(
            seq!['/', 'm', 'n', 't', '/', text::ascii_lower(c[0])] + rest,
        ),
{
    reveal_strlit("/mnt/");
    assert("/mnt/"@ =~= seq!['/', 'm', 'n', 't', '/']);
    if drive_first(c) {
        let low = text::ascii_lower(c[0]);
        let m = seq!['/', 'm', 'n', 't', '/', low];
        assert("/mnt/"@.push(low) =~= m);
        lemma_swapped(c.skip(2), '\\', '/');
        if swapped(c.skip(2), '\\', '/', rest) {
            assert(rest =~= paths::replaced(c.skip(2), '\\', '/'));
            if c.len() == 2 {
                assert(m + rest =~= m);
            }
        }
    }
}

/// What a Windows process lists for a posix path. A mounted drive is the drive,
/// by its capital, with what follows it as backslashed path; another absolute
/// path is the named distribution's share; without a distribution, and for a
/// path that is not absolute, there is nothing to list.
pub proof fn posix_paths_as_windows_lists_them(
    p: Seq<char>,
    d: char,
    rest: Seq<char>,
    distro: Option<Seq<char>>,
    flipped: Seq<char>,
)
    ensures
        letter(d) && p == seq!['/', 'm', 'n', 't', '/', d, '/'] + rest && swapped(
            rest,
            '/',
            '\\',
            flipped,
        ) ==> paths::local_path(p, distro) == Some(
            seq![paths::ascii_upper(d), ':', '\\'] + flipped,
        ),
        letter(d) && p == seq!['/', 'm', 'n', 't', '/', d] ==> paths::local_path(p, distro) == Some(
            seq![paths::ascii_upper(d), ':', '\\'],
        ),
        !paths::mounted(p) && p == seq!['/'] + rest && swapped(rest, '/', '\\', flipped)
            ==> paths::local_path(p, distro) == (match distro {
            Some(name) => Some("\\\\wsl.localhost\\"@ + name + seq!['\\'] + flipped),
            None => None,
        }),
        p.len() == 0 || p[0] != '/' ==> paths::local_path(p, distro) is None,
{
    reveal_strlit("/mnt/");
    let mnt = "/mnt/"@;
    assert(mnt =~= seq!['/', 'm', 'n', 't', '/']);
    lemma_starts(p, mnt);
    lemma_swapped(rest, '/', '\\');
    if swapped(rest, '/', '\\', flipped) {
        assert(flipped =~= paths::replaced(rest, '/', '\\'));
    }
    let long = seq!['/', 'm', 'n', 't', '/', d, '/'] + rest;
    if letter(d) && p == long {
        assert(starts(p, mnt));
        assert(p[5] == d && p[6] == '/');
        if p.len() > 7 {
            assert(p.skip(7) =~= rest);
        } else {
            assert(rest =~= Seq::<char>::empty());
        }
    }
    let short = seq!['/', 'm', 'n', 't', '/', d];
    if letter(d) && p == short {
        assert(starts(p, mnt));
        assert(p[5] == d);
        let none = Seq::<char>::empty();
        assert(paths::replaced(none, '/', '\\') =~= none);
        assert(seq![paths::ascii_upper(d), ':', '\\'] + none =~= seq![
            paths::ascii_upper(d),
            ':',
            '\\',
        ]);
    }
    if p == seq!['/'] + rest {
        assert(p.skip(1) =~= rest);
        assert(p[0] == '/');
    }
    if p.len() == 0 || p[0] != '/' {
        if starts(p, mnt) {
            assert(p[0] == mnt[0]);
        }
    }
}

/// A path is on a mounted drive exactly where it is `/mnt/`, one letter, and
/// nothing or a slash behind it.
pub proof fn mounted_paths(p: Seq<char>)
    ensures
        paths::mounted(p) <==> p.len() >= 6 && p[0] == '/' && p[1] == 'm' && p[2] == 'n' && p[3]
            == 't' && p[4] == '/' && letter(p[5]) && (p.len() == 6 || p[6] == '/'),
{
    reveal_strlit("/mnt/");
    let mnt = "/mnt/"@;
    assert(mnt =~= seq!['/', 'm', 'n', 't', '/']);
    lemma_starts(p, mnt);
    if starts(p, mnt) {
        assert(p[0] == mnt[0] && p[1] == mnt[1] && p[2] == mnt[2] && p[3] == mnt[3] && p[4]
            == mnt[4]);
    }
    if p.len() >= 6 && p[0] == '/' && p[1] == 'm' && p[2] == 'n' && p[3] == 't' && p[4] == '/' {
        assert(starts(p, mnt));
    }
}

/// Letters change their case by ASCII's distance, and nothing else changes.
pub proof fn letters_change_case(c: char)
    ensures
        'a' <= c <= 'z' ==> paths::ascii_upper(c) as u32 + 32 == c as u32 && text::ascii_lower(c)
            == c,
        'A' <= c <= 'Z' ==> text::ascii_lower(c) as u32 == c as u32 + 32 && paths::ascii_upper(c)
            == c,
        !letter(c) ==> paths::ascii_upper(c) == c && text::ascii_lower(c) == c,
{
}

// What Tab comes to.

/// Names a press of Tab finds: those of the directory that the prefix asks
/// for.
pub open spec fn asked(p: Listing, names: Seq<Name>) -> Seq<Name> {
    names.filter(|n: Name| asked_for(n, p.prefix, p.ci, p.posix_hidden))
}

/// Tab changes nothing but the word: whatever it comes to, the draft before
/// the word and behind it stays, and the caret goes behind what was put in.
pub proof fn tab_changes_the_word_alone(
    fam: Family,
    p: Listing,
    draft: Seq<char>,
    at: Span,
    cap: int,
    dir: Found,
)
    requires
        0 <= at.start <= at.end <= draft.len(),
    ensures
        match tab::complete_word(fam, p, draft, at, cap, dir) {
            Outcome::Nothing => true,
            Outcome::Edit { draft: d, caret } => {
                &&& d != draft
                &&& at.start <= caret <= d.len()
                &&& d.take(at.start) == draft.take(at.start)
                &&& d.skip(caret) == draft.skip(at.end)
            },
            Outcome::Cycle(c) => {
                &&& c.head == draft.take(at.start)
                &&& c.tail == draft.skip(at.end)
                &&& c.original == draft.subrange(at.start, at.end)
                &&& c.pos is None
                &&& c.cands.len() >= 2
            },
        },
{
    let hits = candidates::completing(dir.names, p.prefix, p.ci, p.posix_hidden);
    lemma_ranked_len(hits);
    match tab::complete_word(fam, p, draft, at, cap, dir) {
        Outcome::Edit { draft: d, caret } => {
            let ordered = candidates::ranked(hits);
            let w = if dir.total > cap {
                quote::quoted(
                    fam,
                    candidates::rendered(
                        p,
                        ordered[0].name.take(candidates::shared(ordered, p.ci) as int),
                        false,
                    ),
                )
            } else {
                tab::candidate(fam, p, ordered[0])
            };
            assert(d == draft.take(at.start) + w + draft.skip(at.end));
            assert(d.take(at.start) =~= draft.take(at.start));
            assert(d.skip(caret) =~= draft.skip(at.end));
        },
        _ => {},
    }
}

proof fn lemma_ranked_len(s: Seq<Name>)
    ensures
        candidates::ranked(s).len() == s.len(),
{
    broadcast use vstd::seq_lib::group_to_multiset_ensures;

    candidates::candidates_are_ordered(s);
    assert(candidates::ranked(s).to_multiset().len() == s.to_multiset().len());
}

/// Tab offers every name that is asked for and no other, in rank order, where
/// the directory is not too large: one name at once, several as a cycle. Where
/// the directory is too large, the names' shared start is put in if it is more
/// than what was typed. With no name, or more than 2048, nothing happens.
pub proof fn tab_offers_what_is_asked_for(
    fam: Family,
    p: Listing,
    draft: Seq<char>,
    at: Span,
    cap: int,
    dir: Found,
)
    ensures
        ({
            let hits = asked(p, dir.names);
            let ordered = candidates::ranked(hits);
            let o = tab::complete_word(fam, p, draft, at, cap, dir);
            let before = draft.take(at.start);
            let behind = draft.skip(at.end);
            &&& hits.len() == 0 || hits.len() > 2048 ==> o is Nothing
            &&& 1 <= hits.len() <= 2048 && dir.total <= cap ==> {
                &&& hits.len() == 1 ==> {
                    let w = quote::quoted(
                        fam,
                        candidates::rendered(p, hits[0].name, hits[0].dir),
                    );
                    &&& before + w + behind == draft ==> o is Nothing
                    &&& before + w + behind != draft ==> o == (Outcome::Edit {
                        draft: before + w + behind,
                        caret: at.start + w.len(),
                    })
                }
                &&& hits.len() > 1 ==> (o matches Outcome::Cycle(c) && c.cands.len() == hits.len()
                    && forall|i: int|
                    0 <= i < hits.len() ==> #[trigger] c.cands[i] == quote::quoted(
                        fam,
                        candidates::rendered(p, ordered[i].name, ordered[i].dir),
                    ))
            }
            &&& 1 <= hits.len() <= 2048 && dir.total > cap ==> {
                let n = candidates::shared(ordered, p.ci) as int;
                let w = quote::quoted(fam, p.render_parent + ordered[0].name.take(n));
                &&& n <= p.prefix.len() ==> o is Nothing
                &&& n > p.prefix.len() && before + w + behind == draft ==> o is Nothing
                &&& n > p.prefix.len() && before + w + behind != draft ==> o == (Outcome::Edit {
                    draft: before + w + behind,
                    caret: at.start + w.len(),
                })
            }
        }),
{
    every_name_asked_for_completes(dir.names, p.prefix, p.ci, p.posix_hidden);
    let hits = asked(p, dir.names);
    lemma_ranked_len(hits);
    if hits.len() == 1 {
        assert(hits.drop_last() =~= Seq::<Name>::empty());
        assert(candidates::ranked(hits.drop_last()) =~= Seq::<Name>::empty());
        assert(candidates::ranked(hits)[0] == hits[0]);
    }
}

/// Where case counts, every word that Tab offers goes on from the word as it
/// was typed.
pub proof fn offered_words_go_on_from_what_was_typed(
    distro: Option<String>,
    cwd: Option<Seq<char>>,
    home: Option<Seq<char>>,
    parent: Seq<char>,
    name: Seq<char>,
    n: Name,
)
    requires
        parent.len() > 0 ==> parent.last() == '/',
        forall|k: int| 0 <= k < name.len() ==> #[trigger] name[k] != '/',
    ensures
        ({
            let v = parent + name;
            paths::listing(Family::Wsl { distro }, cwd, home, v) matches Some(p) ==> (
            candidates::completes(n, p.prefix, p.ci, p.posix_hidden) ==> starts(
                candidates::rendered(p, n.name, n.dir),
                v,
            ))
        }),
{
    posix_words_name_their_directory(distro, cwd, home, parent, name);
    let v = parent + name;
    if let Some(p) = paths::listing(Family::Wsl { distro }, cwd, home, v) {
        names_start_with_what_was_typed(n, p.prefix, p.ci, p.posix_hidden);
        if candidates::completes(n, p.prefix, p.ci, p.posix_hidden) {
            let r = candidates::rendered(p, n.name, n.dir);
            assert forall|k: int| 0 <= k < v.len() implies #[trigger] r[k] == v[k] by {
                if k >= parent.len() {
                    assert(n.name[k - parent.len()] == name[k - parent.len()]);
                }
            }
        }
    }
}

/// A word that cannot be planned, or whose directory cannot be listed, is left
/// alone; every other goes by its plan and what its directory holds.
pub proof fn tab_goes_by_the_plan(
    fam: Family,
    cwd: Option<Seq<char>>,
    home: Option<Seq<char>>,
    draft: Seq<char>,
    k: int,
    cap: int,
    dir: Option<Found>,
)
    ensures
        ({
            let at = tab::word_at(lexer::words(fam, draft), k);
            let o = tab::started(fam, cwd, home, draft, k, cap, dir);
            match paths::listing(fam, cwd, home, at.value) {
                Some(p) if dir is Some => o == tab::complete_word(fam, p, draft, at, cap, dir->0),
                _ => o is Nothing,
            }
        }),
{
}

/// The first press shows the first candidate, the first press backward the
/// last. From there each press goes to the next, and around at the ends.
pub proof fn presses_go_around(c: TabCycle, p: int)
    requires
        c.wf(),
        0 <= p < c.cands@.len(),
    ensures
        c.pos is None ==> c.next_pos(1) == 0 && c.next_pos(-1) == c.cands@.len() - 1,
        c.pos matches Some(q) && q == p ==> c.next_pos(1) == if p + 1 < c.cands@.len() {
            p + 1
        } else {
            0
        },
        c.pos matches Some(q) && q == p ==> c.next_pos(-1) == if p > 0 {
            p - 1
        } else {
            c.cands@.len() - 1
        },
        c.draft_at(p) == c.head@ + c.cands@[p]@ + c.tail@,
        c.restored() == c.head@ + c.original@ + c.tail@,
{
    let n = c.cands@.len() as int;
    lemma_mod_bound(p + 1, n);
    lemma_mod_bound(p - 1, n);
    lemma_small_mod(0, n as nat);
    lemma_mod_bound(-1, n);
    lemma_mod_multiples_vanish(1, -1, n);
    lemma_small_mod((n - 1) as nat, n as nat);
    assert(n * 1 + -1 == n - 1) by (nonlinear_arith);
    if p + 1 < n {
        lemma_small_mod((p + 1) as nat, n as nat);
    } else {
        lemma_mod_self_0(n);
    }
    if p > 0 {
        lemma_small_mod((p - 1) as nat, n as nat);
    }
}

/// Tab does nothing exactly in a search, where its presses cancel out, in a
/// remote shell, and in a draft of white space alone. A cycle is live as long
/// as the draft is what it last made it.
pub proof fn tab_has_its_moments(c: Composer, delta: int)
    ensures
        c.tab_idle(delta) <==> c.search is Some || delta == 0 || c.fam is Ssh || white_from(
            c.draft,
            0,
        ),
        c.tab is None ==> !c.cycling(),
        c.tab matches Some(t) ==> (c.cycling() <==> t.expect@ == c.draft),
{
}

/// A step of a live cycle puts the next candidate between what stood before
/// and behind the word, the caret behind it; the cycle stays live, a walk is
/// over, and nothing else changes.
pub proof fn a_step_shows_its_candidate(
    s: Composer,
    t: Composer,
    delta: int,
    caret: Option<usize>,
    c: TabCycle,
)
    requires
        s.tab == Some(c),
        tab::stepped(s, t, delta, caret),
    ensures
        ({
            let p = c.next_pos(delta);
            &&& t.draft == c.head@ + c.cands@[p]@ + c.tail@
            &&& t.recall is None
            &&& t.tab matches Some(d) && d.expect@ == t.draft && d.head@ == c.head@ && d.tail@
                == c.tail@ && d.original@ == c.original@ && (d.pos matches Some(q) && q == p)
            &&& caret == Some((c.head@.len() + c.cands@[p]@.len()) as usize)
            &&& t == (Composer { draft: t.draft, tab: t.tab, recall: None, ..s })
        }),
{
    let d = t.tab->0;
    assert(tab::cycle_view(d).head == c.head@);
    assert(tab::cycle_view(d).pos == Some(c.next_pos(delta)));
}

/// What a fresh press comes to is done: nothing but the end of an old cycle,
/// the one edit with its caret, or a cycle that shows its first candidate, or
/// its last where the presses went backward by one.
pub proof fn a_fresh_press_is_done(
    s: Composer,
    t: Composer,
    next: Outcome,
    delta: int,
    caret: Option<usize>,
)
    requires
        tab::applied(s, t, next, delta, caret),
        next matches Outcome::Cycle(c) ==> c.cands.len() > 0,
    ensures
        next is Nothing ==> caret is None && t == (Composer { tab: None, ..s }),
        next matches Outcome::Edit { draft, caret: at } ==> t == (Composer {
            draft,
            tab: None,
            recall: None,
            ..s
        }) && caret == Some(at as usize),
        next matches Outcome::Cycle(c) ==> {
            let n = c.cands.len() as int;
            let p = if delta == 1 {
                0
            } else {
                n - 1
            };
            &&& t.recall is None
            &&& t.tab matches Some(d) && d.expect@ == t.draft
            &&& t == (Composer { draft: t.draft, tab: t.tab, recall: None, ..s })
            &&& delta == 1 || delta == -1 ==> t.draft == c.head + c.cands[p] + c.tail && caret
                == Some((c.head.len() + c.cands[p].len()) as usize)
        },
{
    if let Outcome::Cycle(c) = next {
        let n = c.cands.len() as int;
        lemma_small_mod(0, n as nat);
        lemma_mod_multiples_vanish(1, -1, n);
        lemma_small_mod((n - 1) as nat, n as nat);
        assert(n * 1 + -1 == n - 1) by (nonlinear_arith);
    }
}

} // verus!
