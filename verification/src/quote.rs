//! Quoting a word for a shell family.

use vstd::prelude::*;
use vstd::string::*;

use crate::complete::Family;
use crate::lexer;
use crate::lexer::Span;
use crate::text;

verus! {

/// `s` with every single quote doubled.
pub open spec fn doubled(s: Seq<char>) -> Seq<char>
    decreases s.len(),
{
    if s.len() == 0 {
        s
    } else if s[0] == '\'' {
        seq!['\'', '\''] + doubled(s.drop_first())
    } else {
        seq![s[0]] + doubled(s.drop_first())
    }
}

/// `s` with every single quote taken out of the quotes: closed, escaped and
/// opened again.
pub open spec fn stepped_out(s: Seq<char>) -> Seq<char>
    decreases s.len(),
{
    if s.len() == 0 {
        s
    } else if s[0] == '\'' {
        seq!['\'', '\\', '\'', '\''] + stepped_out(s.drop_first())
    } else {
        seq![s[0]] + stepped_out(s.drop_first())
    }
}

/// What PowerShell would not take as it is.
pub open spec fn pwsh_special(c: char) -> bool {
    text::white(c) || c == '\'' || c == '"' || c == '`' || c == '$' || c == '&' || c == ';' || c
        == ',' || c == '(' || c == ')' || c == '{' || c == '}' || c == '[' || c == ']' || c == '|'
        || c == '<' || c == '>' || c == '@' || c == '#'
}

/// What bash would not take as it is.
pub open spec fn bash_special(c: char) -> bool {
    text::white(c) || c == '\'' || c == '"' || c == '`' || c == '$' || c == '&' || c == '|' || c
        == ';' || c == '(' || c == ')' || c == '<' || c == '>' || c == '*' || c == '?' || c == '['
        || c == ']' || c == '{' || c == '}' || c == '!' || c == '#' || c == '~' || c == '\\'
}

/// What cmd would not take as it is: white space and what its own completion
/// quotes for.
pub open spec fn cmd_special(c: char) -> bool {
    text::white(c) || c == '&' || c == '(' || c == ')' || c == '[' || c == ']' || c == '{' || c
        == '}' || c == '^' || c == '=' || c == ';' || c == '!' || c == '\'' || c == '+' || c == ','
        || c == '`' || c == '~'
}

/// What the word of a family must be quoted for.
pub open spec fn special(fam: Family, c: char) -> bool {
    match fam {
        Family::Pwsh => pwsh_special(c),
        Family::Cmd => cmd_special(c),
        Family::Wsl { .. } => bash_special(c),
        Family::Ssh => bash_special(c),
        Family::Other => text::white(c),
    }
}

pub open spec fn needs_quotes(fam: Family, t: Seq<char>) -> bool {
    exists|i: int| 0 <= i < t.len() && special(fam, #[trigger] t[i])
}

/// The word in the family's quotes.
pub open spec fn in_quotes(fam: Family, t: Seq<char>) -> Seq<char> {
    match fam {
        Family::Pwsh => seq!['\''] + doubled(t) + seq!['\''],
        Family::Wsl { .. } => seq!['\''] + stepped_out(t) + seq!['\''],
        Family::Ssh => seq!['\''] + stepped_out(t) + seq!['\''],
        _ => seq!['"'] + t + seq!['"'],
    }
}

/// The word as it is, or in quotes where it must be.
pub open spec fn quoted(fam: Family, t: Seq<char>) -> Seq<char> {
    if needs_quotes(fam, t) {
        in_quotes(fam, t)
    } else {
        t
    }
}

fn is_special(fam: &Family, c: char) -> (r: bool)
    ensures
        r == special(*fam, c),
{
    match fam {
        Family::Pwsh => text::is_white(c) || c == '\'' || c == '"' || c == '`' || c == '$' || c
            == '&' || c == ';' || c == ',' || c == '(' || c == ')' || c == '{' || c == '}' || c
            == '[' || c == ']' || c == '|' || c == '<' || c == '>' || c == '@' || c == '#',
        Family::Cmd => text::is_white(c) || c == '&' || c == '(' || c == ')' || c == '[' || c == ']'
            || c == '{' || c == '}' || c == '^' || c == '=' || c == ';' || c == '!' || c == '\''
            || c == '+' || c == ',' || c == '`' || c == '~',
        Family::Other => text::is_white(c),
        _ => text::is_white(c) || c == '\'' || c == '"' || c == '`' || c == '$' || c == '&' || c
            == '|' || c == ';' || c == '(' || c == ')' || c == '<' || c == '>' || c == '*' || c
            == '?' || c == '[' || c == ']' || c == '{' || c == '}' || c == '!' || c == '#' || c
            == '~' || c == '\\',
    }
}

fn any_special(fam: &Family, v: &Vec<char>) -> (r: bool)
    ensures
        r == needs_quotes(*fam, v@),
{
    let mut i: usize = 0;
    while i < v.len()
        invariant
            i <= v@.len(),
            forall|k: int| 0 <= k < i ==> !special(*fam, #[trigger] v@[k]),
        decreases v@.len() - i,
    {
        if is_special(fam, v[i]) {
            assert(special(*fam, v@[i as int]));
            return true;
        }
        i = i + 1;
    }
    false
}

/// `v` in single quotes. A single quote in it is doubled, or, for bash, written
/// outside them.
fn single_quoted(v: &Vec<char>, bash: bool) -> (r: String)
    ensures
        !bash ==> r@ == seq!['\''] + doubled(v@) + seq!['\''],
        bash ==> r@ == seq!['\''] + stepped_out(v@) + seq!['\''],
{
    let mut out = String::new();
    out.push('\'');
    let mut i: usize = 0;
    assert(v@.skip(0) =~= v@);
    assert(out@ + doubled(v@) =~= seq!['\''] + doubled(v@));
    assert(out@ + stepped_out(v@) =~= seq!['\''] + stepped_out(v@));
    while i < v.len()
        invariant
            i <= v@.len(),
            !bash ==> out@ + doubled(v@.skip(i as int)) == seq!['\''] + doubled(v@),
            bash ==> out@ + stepped_out(v@.skip(i as int)) == seq!['\''] + stepped_out(v@),
        decreases v@.len() - i,
    {
        let c = v[i];
        let ghost rest = v@.skip(i as int);
        let ghost before = out@;
        proof {
            assert(rest[0] == c);
            assert(rest.drop_first() =~= v@.skip(i + 1));
        }
        if c == '\'' {
            if bash {
                out.push('\'');
                out.push('\\');
                out.push('\'');
                out.push('\'');
                assert(before + (seq!['\'', '\\', '\'', '\''] + stepped_out(rest.drop_first()))
                    =~= out@ + stepped_out(rest.drop_first()));
            } else {
                out.push('\'');
                out.push('\'');
                assert(before + (seq!['\'', '\''] + doubled(rest.drop_first())) =~= out@ + doubled(
                    rest.drop_first(),
                ));
            }
        } else {
            out.push(c);
            assert(before + (seq![c] + doubled(rest.drop_first())) =~= out@ + doubled(
                rest.drop_first(),
            ));
            assert(before + (seq![c] + stepped_out(rest.drop_first())) =~= out@ + stepped_out(
                rest.drop_first(),
            ));
        }
        i = i + 1;
    }
    assert(v@.skip(v@.len() as int) =~= Seq::<char>::empty());
    assert(out@ + Seq::<char>::empty() =~= out@);
    out.push('\'');
    assert(!bash ==> out@ =~= seq!['\''] + doubled(v@) + seq!['\'']);
    assert(bash ==> out@ =~= seq!['\''] + stepped_out(v@) + seq!['\'']);
    out
}

/// The word quoted for its family, where it must be.
pub fn quote_token(fam: &Family, t: &str) -> (r: String)
    ensures
        r@ == quoted(*fam, t@),
{
    let v = text::chars_of(t);
    if !any_special(fam, &v) {
        return t.to_owned();
    }
    match fam {
        Family::Pwsh => single_quoted(&v, false),
        Family::Wsl { .. } => single_quoted(&v, true),
        Family::Ssh => single_quoted(&v, true),
        _ => {
            let mut out = "\"".to_owned();
            out.append(t);
            out.push('"');
            proof {
                reveal_strlit("\"");
            }
            assert(out@ =~= seq!['"'] + t@ + seq!['"']);
            out
        },
    }
}

proof fn lemma_plain(fam: Family, s: Seq<char>, i: int)
    requires
        0 <= i <= s.len(),
        s.len() > 0,
        !needs_quotes(fam, s),
        !s.contains('"') || fam is Pwsh || fam is Wsl || fam is Ssh,
    ensures
        lexer::words_from(
            fam,
            s,
            i,
            None,
            if i > 0 {
                Some((0int, s.take(i)))
            } else {
                None
            },
        ) == seq![Span { start: 0, end: s.len() as int, value: s }],
    decreases s.len() - i,
{
    if i == s.len() {
        assert(s.take(i) =~= s);
    } else {
        lemma_plain(fam, s, i + 1);
        assert(!special(fam, s[i]));
        assert(s[i] == '"' ==> s.contains('"'));
        assert(s.take(i + 1) =~= s.take(i).push(s[i]));
        if i == 0 {
            assert(s.take(1) =~= Seq::<char>::empty().push(s[0]));
        }
    }
}

proof fn lemma_doubled(fam: Family, s: Seq<char>, i: int, rest: Seq<char>, value: Seq<char>)
    requires
        fam is Pwsh,
        0 <= i <= s.len(),
        s.skip(i) == doubled(rest) + seq!['\''],
    ensures
        lexer::words_from(fam, s, i, Some('\''), Some((0int, value))) == seq![
            Span { start: 0, end: s.len() as int, value: value + rest },
        ],
    decreases rest.len(),
{
    let t = s.skip(i);
    assert(t.len() == s.len() - i);
    assert(t[0] == s[i]);
    if rest.len() == 0 {
        assert(value + rest =~= value);
        assert(lexer::words_from(fam, s, i + 1, None, Some((0int, value))) == seq![
            Span { start: 0, end: s.len() as int, value },
        ]);
    } else if rest[0] == '\'' {
        assert(t[1] == s[i + 1]);
        assert(s.skip(i + 2) =~= doubled(rest.drop_first()) + seq!['\'']) by {
            assert(s.skip(i + 2) =~= t.skip(2));
            assert(t.skip(2) =~= doubled(rest.drop_first()) + seq!['\'']);
        }
        lemma_doubled(fam, s, i + 2, rest.drop_first(), value.push('\''));
        assert(value.push('\'') + rest.drop_first() =~= value + rest);
    } else {
        assert(s.skip(i + 1) =~= doubled(rest.drop_first()) + seq!['\'']) by {
            assert(s.skip(i + 1) =~= t.skip(1));
            assert(t.skip(1) =~= doubled(rest.drop_first()) + seq!['\'']);
        }
        lemma_doubled(fam, s, i + 1, rest.drop_first(), value.push(rest[0]));
        assert(value.push(rest[0]) + rest.drop_first() =~= value + rest);
    }
}

proof fn lemma_stepped_out(fam: Family, s: Seq<char>, i: int, rest: Seq<char>, value: Seq<char>)
    requires
        fam is Wsl || fam is Ssh,
        0 <= i <= s.len(),
        s.skip(i) == stepped_out(rest) + seq!['\''],
    ensures
        lexer::words_from(fam, s, i, Some('\''), Some((0int, value))) == seq![
            Span { start: 0, end: s.len() as int, value: value + rest },
        ],
    decreases rest.len(),
{
    let t = s.skip(i);
    assert(t.len() == s.len() - i);
    assert(t[0] == s[i]);
    if rest.len() == 0 {
        assert(value + rest =~= value);
        assert(lexer::words_from(fam, s, i + 1, None, Some((0int, value))) == seq![
            Span { start: 0, end: s.len() as int, value },
        ]);
    } else if rest[0] == '\'' {
        assert(t[1] == s[i + 1]);
        assert(t[2] == s[i + 2]);
        assert(t[3] == s[i + 3]);
        assert(s.skip(i + 4) =~= stepped_out(rest.drop_first()) + seq!['\'']) by {
            assert(s.skip(i + 4) =~= t.skip(4));
            assert(t.skip(4) =~= stepped_out(rest.drop_first()) + seq!['\'']);
        }
        lemma_stepped_out(fam, s, i + 4, rest.drop_first(), value.push('\''));
        assert(value.push('\'') + rest.drop_first() =~= value + rest);
        let cur = Some((0int, value.push('\'')));
        assert(lexer::words_from(fam, s, i + 3, None, cur) == lexer::words_from(
            fam,
            s,
            i + 4,
            Some('\''),
            cur,
        ));
        assert(lexer::words_from(fam, s, i + 1, None, Some((0int, value))) == lexer::words_from(
            fam,
            s,
            i + 3,
            None,
            cur,
        ));
    } else {
        assert(s.skip(i + 1) =~= stepped_out(rest.drop_first()) + seq!['\'']) by {
            assert(s.skip(i + 1) =~= t.skip(1));
            assert(t.skip(1) =~= stepped_out(rest.drop_first()) + seq!['\'']);
        }
        lemma_stepped_out(fam, s, i + 1, rest.drop_first(), value.push(rest[0]));
        assert(value.push(rest[0]) + rest.drop_first() =~= value + rest);
    }
}

proof fn lemma_in_double(fam: Family, t: Seq<char>, i: int)
    requires
        fam is Cmd || fam is Other,
        !t.contains('"'),
        0 <= i <= t.len(),
    ensures
        lexer::words_from(
            fam,
            seq!['"'] + t + seq!['"'],
            i + 1,
            Some('"'),
            Some((0int, t.take(i))),
        ) == seq![Span { start: 0, end: t.len() as int + 2, value: t }],
    decreases t.len() - i,
{
    let s = seq!['"'] + t + seq!['"'];
    if i == t.len() {
        assert(t.take(i) =~= t);
        assert(lexer::words_from(fam, s, i + 2, None, Some((0int, t))) == seq![
            Span { start: 0, end: s.len() as int, value: t },
        ]);
    } else {
        lemma_in_double(fam, t, i + 1);
        assert(t[i] != '"');
        assert(s[i + 1] == t[i]);
        assert(t.take(i + 1) =~= t.take(i).push(t[i]));
    }
}

/// A quoted word reads back as the word: quoting for a family and splitting by
/// its rules gives one word, whole, with the value it was quoted from. Windows
/// names hold no double quote, which cmd's quotes could not carry.
pub proof fn quoted_word_reads_back(fam: Family, t: Seq<char>)
    requires
        t.len() > 0,
        fam is Cmd || fam is Other ==> !t.contains('"'),
    ensures
        lexer::words(fam, quoted(fam, t)) == seq![
            Span { start: 0, end: quoted(fam, t).len() as int, value: t },
        ],
{
    let q = quoted(fam, t);
    if !needs_quotes(fam, t) {
        lemma_plain(fam, t, 0);
    } else {
        let empty = Seq::<char>::empty();
        match fam {
            Family::Pwsh => {
                assert(q.skip(1) =~= doubled(t) + seq!['\'']);
                lemma_doubled(fam, q, 1, t, empty);
                assert(empty + t =~= t);
            },
            Family::Wsl { .. } => {
                assert(q.skip(1) =~= stepped_out(t) + seq!['\'']);
                lemma_stepped_out(fam, q, 1, t, empty);
                assert(empty + t =~= t);
            },
            Family::Ssh => {
                assert(q.skip(1) =~= stepped_out(t) + seq!['\'']);
                lemma_stepped_out(fam, q, 1, t, empty);
                assert(empty + t =~= t);
            },
            _ => {
                lemma_in_double(fam, t, 0);
                assert(t.take(0) =~= empty);
            },
        }
    }
}

} // verus!
