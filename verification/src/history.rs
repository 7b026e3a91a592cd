//! The recorded commands as suggestions: the ghost behind the caret and the
//! results of a search.

use vstd::prelude::*;
use vstd::string::*;

use crate::complete;
use crate::complete::Family;
use crate::fuzzy;
use crate::lexer;
use crate::lexer::{split_words, Span};
use crate::paths;
use crate::state;
use crate::term::BlockRec;
use crate::text;

verus! {

/// Results that a search shows at most.
pub const SEARCH_MAX: usize = 8;

/// What a word of a command line is.
#[derive(Clone, Copy, PartialEq, Eq, Structural, Debug)]
pub enum Class {
    /// The command: the first word, or the first behind an operator.
    Head,
    /// An operator between commands.
    Op,
    /// A word that starts with a dash.
    Flag,
    Arg,
}

pub open spec fn operator(w: Seq<char>) -> bool {
    w == "&&"@ || w == "||"@ || w == "|"@ || w == ";"@ || w == "&"@
}

pub open spec fn class_of(w: Seq<char>, first: bool) -> Class {
    if operator(w) {
        Class::Op
    } else if first {
        Class::Head
    } else if text::has_prefix(w, seq!['-']) {
        Class::Flag
    } else {
        Class::Arg
    }
}

pub open spec fn quote_mark(c: char) -> bool {
    c == '\'' || c == '"'
}

/// `w` without the quotes at its end.
pub open spec fn unquoted_end(w: Seq<char>) -> Seq<char>
    decreases w.len(),
{
    if w.len() > 0 && quote_mark(w.last()) {
        unquoted_end(w.drop_last())
    } else {
        w
    }
}

/// `w` without the quotes at its start.
pub open spec fn unquoted_start(w: Seq<char>) -> Seq<char>
    decreases w.len(),
{
    if w.len() > 0 && quote_mark(w[0]) {
        unquoted_start(w.drop_first())
    } else {
        w
    }
}

/// `w` without the quotes at either end.
pub open spec fn unquoted(w: Seq<char>) -> Seq<char> {
    unquoted_start(unquoted_end(w))
}

/// A verb that changes the directory.
pub open spec fn cd_verb(w: Seq<char>) -> bool {
    let v = text::ascii_lowered(w);
    v == "cd"@ || v == "chdir"@ || v == "pushd"@ || v == "set-location"@ || v == "sl"@
}

/// The word names a place relative to the current directory: it holds a
/// separator, and neither a drive, a share, the home directory, a URL nor,
/// where paths are posix, the root anchors it.
pub open spec fn relative(fam: Family, w: Seq<char>) -> bool {
    &&& w.contains('\\') || w.contains('/')
    &&& !(w.len() >= 3 && paths::on_drive(w) && paths::separator(w[2]))
    &&& !text::has_prefix(w, "\\\\"@)
    &&& !text::has_prefix(w, "//"@)
    &&& !text::has_prefix(w, "~/"@)
    &&& !text::has_prefix(w, "~\\"@)
    &&& fuzzy::find_from(w, "://"@, 0) < 0
    &&& !(text::has_prefix(w, seq!['/']) && (fam is Wsl || fam is Ssh))
}

/// From its `i`th word on, the command depends on the directory it runs in:
/// a command is a relative path, an argument is one, or a directory-changing
/// verb has an argument. `first`: a command starts here; `cd`: the command
/// that this belongs to changes the directory.
pub open spec fn sensitive_from(
    fam: Family,
    s: Seq<char>,
    ws: Seq<Span>,
    i: int,
    first: bool,
    cd: bool,
) -> bool
    decreases ws.len() - i,
{
    if i >= ws.len() {
        false
    } else {
        let raw = s.subrange(ws[i].start, ws[i].end);
        let w = unquoted(raw);
        match class_of(raw, first) {
            Class::Head => relative(fam, w) || sensitive_from(fam, s, ws, i + 1, false, cd_verb(w)),
            Class::Op => sensitive_from(fam, s, ws, i + 1, true, cd),
            Class::Flag => sensitive_from(fam, s, ws, i + 1, false, cd),
            Class::Arg => cd || relative(fam, w) || sensitive_from(fam, s, ws, i + 1, false, cd),
        }
    }
}

pub open spec fn sensitive(fam: Family, cmd: Seq<char>) -> bool {
    sensitive_from(fam, cmd, lexer::words(fam, cmd), 0, true, false)
}

fn is_operator(w: &str) -> (r: bool)
    ensures
        r == operator(w@),
{
    text::same(w, "&&") || text::same(w, "||") || text::same(w, "|") || text::same(w, ";")
        || text::same(w, "&")
}

/// What a word of a command line is. `first`: a command starts with it.
pub fn classify(w: &str, first: bool) -> (c: Class)
    ensures
        c == class_of(w@, first),
{
    if is_operator(w) {
        Class::Op
    } else if first {
        Class::Head
    } else {
        let v = text::chars_of(w);
        let dash: Vec<char> = vec!['-'];
        assert(dash@ =~= seq!['-']);
        if text::stands_at(&v, &dash, 0) {
            Class::Flag
        } else {
            Class::Arg
        }
    }
}

fn strip_quotes(v: &Vec<char>, from: usize, to: usize) -> (r: Vec<char>)
    requires
        from <= to <= v@.len(),
    ensures
        r@ == unquoted(v@.subrange(from as int, to as int)),
{
    let mut b: usize = to;
    while b > from && (v[b - 1] == '\'' || v[b - 1] == '"')
        invariant
            from <= b <= to <= v@.len(),
            unquoted_end(v@.subrange(from as int, b as int)) == unquoted_end(
                v@.subrange(from as int, to as int),
            ),
        decreases b,
    {
        proof {
            let s = v@.subrange(from as int, b as int);
            assert(s.drop_last() =~= v@.subrange(from as int, b - 1));
            assert(s.last() == v@[b - 1]);
        }
        b = b - 1;
    }
    proof {
        if b > from {
            assert(v@.subrange(from as int, b as int).last() == v@[b - 1]);
        }
    }
    let mut a: usize = from;
    while a < b && (v[a] == '\'' || v[a] == '"')
        invariant
            from <= a <= b <= v@.len(),
            unquoted_start(v@.subrange(a as int, b as int)) == unquoted_start(
                v@.subrange(from as int, b as int),
            ),
        decreases b - a,
    {
        proof {
            let s = v@.subrange(a as int, b as int);
            assert(s.drop_first() =~= v@.subrange(a + 1, b as int));
            assert(s[0] == v@[a as int]);
        }
        a = a + 1;
    }
    proof {
        if a < b {
            assert(v@.subrange(a as int, b as int)[0] == v@[a as int]);
        }
    }
    text::chars_of(text::string_of(v, a, b).as_str())
}

fn is_cd_verb(v: &Vec<char>) -> (r: bool)
    ensures
        r == cd_verb(v@),
{
    let low = text::lower_chars(v);
    let w = text::string_of(&low, 0, low.len());
    assert(low@.subrange(0, low@.len() as int) =~= low@);
    text::same(w.as_str(), "cd") || text::same(w.as_str(), "chdir") || text::same(
        w.as_str(),
        "pushd",
    ) || text::same(w.as_str(), "set-location") || text::same(w.as_str(), "sl")
}

fn is_posix(fam: &Family) -> (r: bool)
    ensures
        r == (fam is Wsl || fam is Ssh),
{
    match fam {
        Family::Wsl { .. } => true,
        Family::Ssh => true,
        _ => false,
    }
}

/// Whether a word names a place relative to the current directory.
pub fn relative_path_token(fam: &Family, raw: &Vec<char>) -> (r: bool)
    ensures
        r == relative(*fam, raw@),
{
    let n: usize = raw.len();
    assert(raw@.subrange(0, n as int) =~= raw@);
    if !text::holds(raw, 0, n, '\\') && !text::holds(raw, 0, n, '/') {
        return false;
    }
    if n >= 3 && paths::win_shaped(raw) && (raw[2] == '\\' || raw[2] == '/') {
        return false;
    }
    if text::starts_with(raw, "\\\\") || text::starts_with(raw, "//") {
        return false;
    }
    if text::starts_with(raw, "~/") || text::starts_with(raw, "~\\") {
        return false;
    }
    let url = text::chars_of("://");
    if fuzzy::find(raw, &url).is_some() {
        return false;
    }
    let root: Vec<char> = vec!['/'];
    assert(root@ =~= seq!['/']);
    !(text::stands_at(raw, &root, 0) && is_posix(fam))
}

/// Whether a command's meaning depends on the directory it runs in.
pub fn path_sensitive(fam: &Family, cmd: &str) -> (r: bool)
    ensures
        r == sensitive(*fam, cmd@),
{
    let v = text::chars_of(cmd);
    let ws = split_words(fam, cmd);
    let ghost spans = lexer::words(*fam, cmd@);
    let mut i: usize = 0;
    let mut first = true;
    let mut cd = false;
    while i < ws.len()
        invariant
            i <= ws@.len(),
            v@ == cmd@,
            spans == lexer::words(*fam, cmd@),
            lexer::are_spans(ws@, cmd@, spans),
            sensitive_from(*fam, cmd@, spans, i as int, first, cd) == sensitive(*fam, cmd@),
        decreases ws@.len() - i,
    {
        assert(ws@[i as int].is_span(cmd@, spans[i as int]));
        let raw = text::string_of(&v, ws[i].start, ws[i].end);
        let w = strip_quotes(&v, ws[i].start, ws[i].end);
        match classify(raw.as_str(), first) {
            Class::Head => {
                if relative_path_token(fam, &w) {
                    return true;
                }
                cd = is_cd_verb(&w);
                first = false;
            },
            Class::Op => {
                first = true;
            },
            Class::Flag => {
                first = false;
            },
            Class::Arg => {
                if cd || relative_path_token(fam, &w) {
                    return true;
                }
                first = false;
            },
        }
        i = i + 1;
    }
    false
}

/// `s` without the separators at its end.
pub open spec fn without_separators(s: Seq<char>) -> Seq<char>
    decreases s.len(),
{
    if s.len() > 0 && paths::separator(s.last()) {
        without_separators(s.drop_last())
    } else {
        s
    }
}

/// Both directories are known and the same, but for separators at the end and
/// ASCII case.
pub open spec fn same_dir(a: Option<Seq<char>>, b: Option<Seq<char>>) -> bool {
    match (a, b) {
        (Some(x), Some(y)) => text::ascii_lowered(without_separators(x)) == text::ascii_lowered(
            without_separators(y),
        ),
        _ => false,
    }
}

/// A path without the separators at its end.
pub fn separators_off(s: &str) -> (r: String)
    ensures
        r@ == without_separators(s@),
{
    let v = text::chars_of(s);
    let mut n: usize = v.len();
    assert(v@.subrange(0, n as int) =~= v@);
    while n > 0 && (v[n - 1] == '\\' || v[n - 1] == '/')
        invariant
            n <= v@.len(),
            without_separators(v@.subrange(0, n as int)) == without_separators(v@),
        decreases n,
    {
        proof {
            let t = v@.subrange(0, n as int);
            assert(t.drop_last() =~= v@.subrange(0, n - 1));
            assert(t.last() == v@[n - 1]);
        }
        n = n - 1;
    }
    proof {
        if n > 0 {
            assert(v@.subrange(0, n as int).last() == v@[n - 1]);
        }
    }
    text::string_of(&v, 0, n)
}

fn dir_key(s: &str) -> (r: String)
    ensures
        r@ == text::ascii_lowered(without_separators(s@)),
{
    let low = text::lower_chars(&text::chars_of(separators_off(s).as_str()));
    assert(low@.subrange(0, low@.len() as int) =~= low@);
    text::string_of(&low, 0, low.len())
}

pub fn same_cwd(rec: Option<&str>, cur: Option<&str>) -> (r: bool)
    ensures
        r == same_dir(state::opt_str(rec), state::opt_str(cur)),
{
    match (rec, cur) {
        (Some(a), Some(b)) => text::same(dir_key(a).as_str(), dir_key(b).as_str()),
        _ => false,
    }
}

/// The record is a longer, one-line spelling of the draft that means the same
/// in the current directory.
pub open spec fn suggests(
    rec: BlockRec,
    draft: Seq<char>,
    fam: Family,
    cwd: Option<Seq<char>>,
) -> bool {
    &&& text::has_prefix(rec.cmd@, draft)
    &&& rec.cmd@.len() > draft.len()
    &&& !rec.cmd@.skip(draft.len() as int).contains('\n')
    &&& !text::blank(rec.cmd@)
    &&& !sensitive(fam, rec.cmd@) || same_dir(complete::opt_text(rec.cwd), cwd)
}

/// The newest of the first `n` records that suggests something: the rest of it.
pub open spec fn suggestion(
    recs: Seq<BlockRec>,
    n: int,
    draft: Seq<char>,
    fam: Family,
    cwd: Option<Seq<char>>,
) -> Option<Seq<char>>
    decreases n,
{
    if n <= 0 {
        None
    } else if suggests(recs[n - 1], draft, fam, cwd) {
        Some(recs[n - 1].cmd@.skip(draft.len() as int))
    } else {
        suggestion(recs, n - 1, draft, fam, cwd)
    }
}

/// The rest of the newest command that the draft is a start of: nothing for an
/// empty draft or one of several lines.
pub open spec fn ghost_of(
    recs: Seq<BlockRec>,
    draft: Seq<char>,
    fam: Family,
    cwd: Option<Seq<char>>,
) -> Option<Seq<char>> {
    if draft.len() == 0 || draft.contains('\n') {
        None
    } else {
        suggestion(recs, recs.len() as int, draft, fam, cwd)
    }
}

fn rest_of(rec: &BlockRec, draft: &Vec<char>, fam: &Family, cwd: Option<&str>) -> (r: Option<
    String,
>)
    ensures
        r is Some == suggests(*rec, draft@, *fam, state::opt_str(cwd)),
        r matches Some(s) ==> s@ == rec.cmd@.skip(draft@.len() as int),
{
    let v = text::chars_of(rec.cmd.as_str());
    if v.len() <= draft.len() || !text::stands_at(&v, draft, 0) {
        return None;
    }
    assert(v@.subrange(draft@.len() as int, v@.len() as int) =~= v@.skip(draft@.len() as int));
    if text::holds(&v, draft.len(), v.len(), '\n') || text::is_blank(rec.cmd.as_str()) {
        return None;
    }
    let here: bool = !path_sensitive(fam, rec.cmd.as_str()) || same_cwd(
        match &rec.cwd {
            Some(c) => Some(c.as_str()),
            None => None,
        },
        cwd,
    );
    if here {
        Some(text::string_of(&v, draft.len(), v.len()))
    } else {
        None
    }
}

/// The history ghost: what the newest fitting command has behind the draft.
pub fn history_ghost(recs: &[BlockRec], draft: &str, fam: &Family, cur_cwd: Option<&str>) -> (r:
    Option<String>)
    ensures
        complete::opt_text(r) == ghost_of(recs@, draft@, *fam, state::opt_str(cur_cwd)),
{
    let d = text::chars_of(draft);
    assert(d@.subrange(0, d@.len() as int) =~= d@);
    if d.len() == 0 || text::holds(&d, 0, d.len(), '\n') {
        return None;
    }
    let mut n: usize = recs.len();
    while n > 0
        invariant
            n <= recs@.len(),
            d@ == draft@,
            suggestion(recs@, n as int, draft@, *fam, state::opt_str(cur_cwd)) == suggestion(
                recs@,
                recs@.len() as int,
                draft@,
                *fam,
                state::opt_str(cur_cwd),
            ),
            draft@.len() > 0,
            !draft@.contains('\n'),
        decreases n,
    {
        let rest = rest_of(&recs[n - 1], &d, fam, cur_cwd);
        if rest.is_some() {
            return rest;
        }
        n = n - 1;
    }
    None
}

/// A suggestion that is taken makes the draft a recorded command of the same
/// start, and one that depends on its directory only where it ran in this one.
pub proof fn suggestions_are_recorded_commands(
    recs: Seq<BlockRec>,
    n: int,
    draft: Seq<char>,
    fam: Family,
    cwd: Option<Seq<char>>,
)
    requires
        n <= recs.len(),
    ensures
        suggestion(recs, n, draft, fam, cwd) matches Some(rest) ==> rest.len() > 0 && exists|i: int|
            0 <= i < n && (#[trigger] recs[i]).cmd@ == draft + rest && (!sensitive(
                fam,
                recs[i].cmd@,
            ) || same_dir(complete::opt_text(recs[i].cwd), cwd)),
    decreases n,
{
    if n > 0 {
        let rec = recs[n - 1];
        if suggests(rec, draft, fam, cwd) {
            assert(draft + rec.cmd@.skip(draft.len() as int) =~= rec.cmd@);
        } else {
            suggestions_are_recorded_commands(recs, n - 1, draft, fam, cwd);
        }
    }
}

} // verus!
