//! Completing the word at the caret.

use vstd::arithmetic::div_mod::{
    lemma_mod_bound, lemma_mod_twice, lemma_small_mod, lemma_sub_mod_noop,
};
use vstd::prelude::*;
use vstd::string::*;

use crate::candidates;
use crate::candidates::{common_prefix, enum_dir, render_token, Entry, Name, ENUM_CAP, MATCH_BOUND};
use crate::complete::{concat3, Family, TabCycle};
use crate::lexer;
use crate::lexer::{char_width, split_words, Span};
use crate::model::Composer;
use crate::paths;
use crate::paths::{plan, Listing, Plan};
use crate::quote;
use crate::state;
use crate::state::ComposerState;
use crate::text;

verus! {

/// A word of the draft: its byte range, quotes included, and its value.
#[derive(Debug)]
pub struct Tok {
    pub start: usize,
    pub end: usize,
    pub value: String,
}

/// The word that holds byte `caret` of `s`, past its start and not past its
/// end, or an empty one at the caret: byte range and value.
pub open spec fn token(s: Seq<char>, ws: Seq<Span>, caret: int) -> (int, int, Seq<char>)
    decreases ws.len(),
{
    if ws.len() == 0 {
        (caret, caret, Seq::empty())
    } else if lexer::byte_at(s, ws[0].start) < caret && caret <= lexer::byte_at(s, ws[0].end) {
        (
            lexer::byte_at(s, ws[0].start) as int,
            lexer::byte_at(s, ws[0].end) as int,
            ws[0].value,
        )
    } else {
        token(s, ws.drop_first(), caret)
    }
}

/// The word at a caret given in bytes.
pub fn token_at(fam: &Family, s: &str, caret: usize) -> (t: Tok)
    ensures
        (t.start as int, t.end as int, t.value@) == token(
            s@,
            lexer::words(*fam, s@),
            caret as int,
        ),
{
    let ws = split_words(fam, s);
    let ghost spans = lexer::words(*fam, s@);
    let mut i: usize = 0;
    assert(spans.skip(0) =~= spans);
    while i < ws.len()
        invariant
            i <= ws@.len(),
            spans == lexer::words(*fam, s@),
            lexer::are_spans(ws@, s@, spans),
            token(s@, spans.skip(i as int), caret as int) == token(s@, spans, caret as int),
        decreases ws@.len() - i,
    {
        proof {
            assert(spans.skip(i as int)[0] == spans[i as int]);
            assert(spans.skip(i as int).drop_first() =~= spans.skip(i + 1));
            assert(ws@[i as int].is_span(s@, spans[i as int]));
        }
        if ws[i].byte_start < caret && caret <= ws[i].byte_end {
            return Tok {
                start: ws[i].byte_start,
                end: ws[i].byte_end,
                value: ws[i].value.clone(),
            };
        }
        i = i + 1;
    }
    let value = String::new();
    assert(value@ =~= Seq::<char>::empty());
    Tok { start: caret, end: caret, value }
}

/// The word around character position `k`, or an empty one there.
pub open spec fn word_at(ws: Seq<Span>, k: int) -> Span
    decreases ws.len(),
{
    if ws.len() == 0 {
        Span { start: k, end: k, value: Seq::empty() }
    } else if ws[0].start < k <= ws[0].end {
        ws[0]
    } else {
        word_at(ws.drop_first(), k)
    }
}

/// How many characters of `s` it takes to reach byte `b`.
pub open spec fn chars_to(s: Seq<char>, b: int) -> int
    decreases s.len(),
{
    if b <= 0 || s.len() == 0 {
        0
    } else {
        1 + chars_to(s.drop_first(), b - lexer::width(s[0]))
    }
}

proof fn lemma_chars_to(s: Seq<char>, b: int)
    ensures
        0 <= chars_to(s, b) <= s.len(),
        b >= lexer::byte_len(s) ==> chars_to(s, b) == s.len(),
    decreases s.len(),
{
    if b > 0 && s.len() > 0 {
        lemma_chars_to(s.drop_first(), b - lexer::width(s[0]));
    }
}

fn caret_chars(v: &Vec<char>, b: usize) -> (k: usize)
    ensures
        k == chars_to(v@, b as int),
        k <= v@.len(),
{
    proof {
        lemma_chars_to(v@, b as int);
    }
    let mut left: usize = b;
    let mut i: usize = 0;
    assert(v@.skip(0) =~= v@);
    while i < v.len() && left > 0
        invariant
            i <= v@.len(),
            i + chars_to(v@.skip(i as int), left as int) == chars_to(v@, b as int),
        decreases v@.len() - i,
    {
        proof {
            assert(v@.skip(i as int)[0] == v@[i as int]);
            assert(v@.skip(i as int).drop_first() =~= v@.skip(i + 1));
        }
        let w: usize = char_width(v[i]);
        assert(w >= left ==> chars_to(v@.skip(i + 1), left - w) == 0);
        left = if w < left {
            left - w
        } else {
            0
        };
        i = i + 1;
    }
    i
}

/// What a directory holds: the names that can be written, and how many entries
/// there are in all.
#[derive(Debug)]
pub struct DirList {
    pub entries: Vec<Entry>,
    pub total: usize,
}

/// What a directory was found to hold, or that it could not be listed.
pub struct Found {
    pub names: Seq<Name>,
    pub total: int,
}

pub open spec fn found(list: Option<&DirList>) -> Option<Found> {
    match list {
        Some(l) => Some(
            Found { names: candidates::names(l.entries@), total: l.total as int },
        ),
        None => None,
    }
}

/// A completion cycle.
pub struct Cycle {
    pub head: Seq<char>,
    pub tail: Seq<char>,
    pub original: Seq<char>,
    pub cands: Seq<Seq<char>>,
    /// The candidate shown; none before the first step.
    pub pos: Option<int>,
    /// The draft that the cycle last produced.
    pub expect: Seq<char>,
}

/// What one press of Tab comes to.
pub enum Outcome {
    Cycle(Cycle),
    Edit { draft: Seq<char>, caret: int },
    Nothing,
}

/// What one press of Tab comes to.
#[derive(Debug)]
pub enum Start {
    /// Two candidates or more: a cycle, which the caller steps at once.
    Cycle(TabCycle),
    /// One edit of the draft: the only candidate, or the common prefix.
    Edit { draft: String, caret: usize },
    /// Nothing to do.
    Nothing,
}

pub open spec fn cycle_view(c: TabCycle) -> Cycle {
    Cycle {
        head: c.head@,
        tail: c.tail@,
        original: c.original@,
        cands: state::texts(c.cands@),
        pos: match c.pos {
            Some(p) => Some(p as int),
            None => None,
        },
        expect: c.expect@,
    }
}

impl Start {
    pub open spec fn view(&self) -> Outcome {
        match *self {
            Start::Cycle(c) => Outcome::Cycle(cycle_view(c)),
            Start::Edit { draft, caret } => Outcome::Edit { draft: draft@, caret: caret as int },
            Start::Nothing => Outcome::Nothing,
        }
    }
}

/// The word that a completed name makes, quoted.
pub open spec fn candidate(fam: Family, p: Listing, n: Name) -> Seq<char> {
    quote::quoted(fam, candidates::rendered(p, n.name, n.dir))
}

/// The draft with `w` in the place of the word `at`, and the caret behind it;
/// nothing where that is the draft already.
pub open spec fn edit(draft: Seq<char>, at: Span, w: Seq<char>) -> Outcome {
    let new = draft.take(at.start) + w + draft.skip(at.end);
    if new == draft {
        Outcome::Nothing
    } else {
        Outcome::Edit { draft: new, caret: at.start + w.len() }
    }
}

/// What completing the word `at` comes to, from the plan and what its
/// directory holds: the common prefix where the directory is large, the one
/// candidate, or a cycle through them.
pub open spec fn complete_word(
    fam: Family,
    p: Listing,
    draft: Seq<char>,
    at: Span,
    cap: int,
    dir: Found,
) -> Outcome {
    let hits = candidates::completing(dir.names, p.prefix, p.ci, p.posix_hidden);
    let ordered = candidates::ranked(hits);
    if hits.len() > MATCH_BOUND || hits.len() == 0 {
        Outcome::Nothing
    } else if dir.total > cap {
        let n = candidates::shared(ordered, p.ci);
        if n <= p.prefix.len() {
            Outcome::Nothing
        } else {
            edit(
                draft,
                at,
                quote::quoted(
                    fam,
                    candidates::rendered(p, ordered[0].name.take(n as int), false),
                ),
            )
        }
    } else if ordered.len() == 1 {
        edit(draft, at, candidate(fam, p, ordered[0]))
    } else {
        Outcome::Cycle(
            Cycle {
                head: draft.take(at.start),
                tail: draft.skip(at.end),
                original: draft.subrange(at.start, at.end),
                cands: Seq::new(ordered.len(), |i: int| candidate(fam, p, ordered[i])),
                pos: None,
                expect: Seq::empty(),
            },
        )
    }
}

/// What a press of Tab at character position `k` of the draft comes to.
pub open spec fn started(
    fam: Family,
    cwd: Option<Seq<char>>,
    home: Option<Seq<char>>,
    draft: Seq<char>,
    k: int,
    cap: int,
    dir: Option<Found>,
) -> Outcome {
    let at = word_at(lexer::words(fam, draft), k);
    match (paths::listing(fam, cwd, home, at.value), dir) {
        (Some(p), Some(d)) => complete_word(fam, p, draft, at, cap, d),
        _ => Outcome::Nothing,
    }
}

/// The word around a caret, by characters.
fn word_around(fam: &Family, draft: &str, k: usize) -> (r: (usize, usize, String))
    requires
        k <= draft@.len(),
    ensures
        (Span { start: r.0 as int, end: r.1 as int, value: r.2@ }) == word_at(
            lexer::words(*fam, draft@),
            k as int,
        ),
        r.0 <= r.1 <= draft@.len(),
{
    let ws = split_words(fam, draft);
    let ghost spans = lexer::words(*fam, draft@);
    let mut i: usize = 0;
    assert(spans.skip(0) =~= spans);
    while i < ws.len()
        invariant
            i <= ws@.len(),
            k <= draft@.len(),
            spans == lexer::words(*fam, draft@),
            lexer::are_spans(ws@, draft@, spans),
            word_at(spans.skip(i as int), k as int) == word_at(spans, k as int),
        decreases ws@.len() - i,
    {
        proof {
            assert(spans.skip(i as int)[0] == spans[i as int]);
            assert(spans.skip(i as int).drop_first() =~= spans.skip(i + 1));
            assert(ws@[i as int].is_span(draft@, spans[i as int]));
        }
        if ws[i].start < k && k <= ws[i].end {
            return (ws[i].start, ws[i].end, ws[i].value.clone());
        }
        i = i + 1;
    }
    let value = String::new();
    assert(value@ =~= Seq::<char>::empty());
    (k, k, value)
}

/// The plan that a press of Tab needs a directory for.
pub fn plan_at(
    fam: &Family,
    cwd: Option<&str>,
    home: Option<&str>,
    draft: &str,
    caret: usize,
) -> (r: Option<Plan>)
    ensures
        paths::plan_view(r) == paths::listing(
            *fam,
            state::opt_str(cwd),
            state::opt_str(home),
            word_at(lexer::words(*fam, draft@), chars_to(draft@, caret as int)).value,
        ),
{
    let v = text::chars_of(draft);
    let k: usize = caret_chars(&v, caret);
    let (_, _, value) = word_around(fam, draft, k);
    plan(fam, cwd, home, value.as_str())
}

/// The edit that puts `w` in the place of `v[from..to]`.
fn edit_at(draft: &str, v: &Vec<char>, from: usize, to: usize, w: &str) -> (r: Start)
    requires
        v@ == draft@,
        from <= to <= v@.len(),
    ensures
        forall|value: Seq<char>|
            r.view() == #[trigger] edit(
                draft@,
                (Span { start: from as int, end: to as int, value }),
                w@,
            ),
{
    let head = text::string_of(v, 0, from);
    let tail = text::string_of(v, to, v.len());
    assert(v@.subrange(0, from as int) =~= v@.take(from as int));
    assert(v@.subrange(to as int, v@.len() as int) =~= v@.skip(to as int));
    let new = concat3(head.as_str(), w, tail.as_str());
    if text::same(new.as_str(), draft) {
        return Start::Nothing;
    }
    let total: usize = new.as_str().unicode_len();
    let len: usize = w.unicode_len();
    assert(from + len <= total);
    Start::Edit { draft: new, caret: from + len }
}

/// The candidates as words, in order.
fn render_all(plan: &Plan, fam: &Family, matches: &Vec<Entry>) -> (r: Vec<String>)
    ensures
        r@.len() == matches@.len(),
        state::texts(r@) == Seq::new(
            matches@.len(),
            |i: int| candidate(*fam, plan@, candidates::names(matches@)[i]),
        ),
{
    let ghost all = candidates::names(matches@);
    let mut out: Vec<String> = Vec::new();
    let mut i: usize = 0;
    while i < matches.len()
        invariant
            i <= matches@.len(),
            all == candidates::names(matches@),
            out@.len() == i,
            forall|k: int| 0 <= k < i ==> (#[trigger] out@[k])@ == candidate(*fam, plan@, all[k]),
        decreases matches@.len() - i,
    {
        let w = render_token(plan, fam, matches[i].name.as_str(), matches[i].dir);
        assert(w@ == candidate(*fam, plan@, all[i as int]));
        out.push(w);
        i = i + 1;
    }
    assert(state::texts(out@) =~= Seq::new(
        matches@.len(),
        |i: int| candidate(*fam, plan@, candidates::names(matches@)[i]),
    ));
    out
}

proof fn lemma_ranked_len(s: Seq<Name>)
    ensures
        candidates::ranked(s).len() == s.len(),
{
    broadcast use vstd::seq_lib::group_to_multiset_ensures;

    candidates::candidates_are_ordered(s);
    assert(candidates::ranked(s).to_multiset().len() == s.to_multiset().len());
}

/// What a press of Tab at byte `caret` of the draft comes to. `dir` is what
/// the directory of the plan holds, or nothing where it could not be listed.
pub fn start(
    fam: &Family,
    cwd: Option<&str>,
    home: Option<&str>,
    draft: &str,
    caret: usize,
    cap: usize,
    dir: Option<&DirList>,
) -> (r: Start)
    ensures
        r.view() == started(
            *fam,
            state::opt_str(cwd),
            state::opt_str(home),
            draft@,
            chars_to(draft@, caret as int),
            cap as int,
            found(dir),
        ),
        r matches Start::Cycle(c) ==> c.wf() && c.pos is None && c.expect@.len() == 0,
{
    let v = text::chars_of(draft);
    let k: usize = caret_chars(&v, caret);
    let (from, to, value) = word_around(fam, draft, k);
    let ghost at = Span { start: from as int, end: to as int, value: value@ };
    let p = match plan(fam, cwd, home, value.as_str()) {
        Some(p) => p,
        None => {
            return Start::Nothing;
        },
    };
    let list = match dir {
        Some(l) => l,
        None => {
            return Start::Nothing;
        },
    };
    let out = match enum_dir(
        &list.entries,
        list.total,
        p.prefix.as_str(),
        p.ci,
        p.posix_hidden,
        cap,
    ) {
        Some(o) => o,
        None => {
            return Start::Nothing;
        },
    };
    proof {
        lemma_ranked_len(
            candidates::completing(
                candidates::names(list.entries@),
                p.prefix@,
                p.ci,
                p.posix_hidden,
            ),
        );
    }
    if out.matches.len() == 0 {
        return Start::Nothing;
    }
    if out.capped {
        let lcp = common_prefix(&out.matches, p.ci);
        let n: usize = lcp.as_str().unicode_len();
        if n <= p.prefix.as_str().unicode_len() {
            return Start::Nothing;
        }
        let w = render_token(&p, fam, lcp.as_str(), false);
        return edit_at(draft, &v, from, to, w.as_str());
    }
    let cands = render_all(&p, fam, &out.matches);
    if cands.len() == 1 {
        assert(state::texts(cands@)[0] == cands@[0]@);
        return edit_at(draft, &v, from, to, cands[0].as_str());
    }
    assert(v@.subrange(0, from as int) =~= v@.take(from as int));
    assert(v@.subrange(to as int, v@.len() as int) =~= v@.skip(to as int));
    let expect = String::new();
    assert(expect@ =~= Seq::<char>::empty());
    Start::Cycle(
        TabCycle {
            head: text::string_of(&v, 0, from),
            tail: text::string_of(&v, to, v.len()),
            original: text::string_of(&v, from, to),
            cands,
            pos: None,
            expect,
        },
    )
}

impl Composer {
    /// A completion cycle is live and still the draft's author.
    pub open spec fn cycling(self) -> bool {
        self.tab matches Some(c) && c.owns(self.draft)
    }

    /// Tab does nothing: the search is open, the presses cancel out, the shell
    /// is remote, or there is nothing to complete.
    pub open spec fn tab_idle(self, delta: int) -> bool {
        self.search is Some || delta == 0 || self.fam is Ssh || text::blank(self.draft)
    }

    /// With `draft` in the editor by completion: a recall walk is over.
    pub open spec fn completed(self, draft: Seq<char>, tab: Option<TabCycle>) -> Composer {
        Composer { draft, tab, recall: None, ..self }
    }
}

/// A live cycle went `delta` candidates on: the draft shows that candidate,
/// and the caret is behind it.
pub open spec fn stepped(s: Composer, t: Composer, delta: int, caret: Option<usize>) -> bool {
    let c = s.tab->0;
    let p = c.next_pos(delta);
    &&& t == s.completed(c.draft_at(p), t.tab)
    &&& t.cycling()
    &&& cycle_view(t.tab->0) == (Cycle {
        pos: Some(p),
        expect: c.draft_at(p),
        ..cycle_view(c)
    })
    &&& caret == Some((c.head@.len() + c.cands@[p]@.len()) as usize)
}

/// What a fresh press of Tab came to was applied to `s`. A cycle shows its
/// first candidate, or its last where the presses went backward.
pub open spec fn applied(
    s: Composer,
    t: Composer,
    next: Outcome,
    delta: int,
    caret: Option<usize>,
) -> bool {
    match next {
        Outcome::Nothing => caret is None && t == (Composer { tab: None, ..s }),
        Outcome::Edit { draft, caret: at } => caret == Some(at as usize) && t == s.completed(
            draft,
            None,
        ),
        Outcome::Cycle(c) => {
            let n = c.cands.len() as int;
            let p = if delta > 0 {
                (delta - 1) % n
            } else {
                delta % n
            };
            let draft = c.head + c.cands[p] + c.tail;
            &&& t == s.completed(draft, t.tab)
            &&& t.cycling()
            &&& cycle_view(t.tab->0) == (Cycle { pos: Some(p), expect: draft, ..c })
            &&& caret == Some((c.head.len() + c.cands[p].len()) as usize)
        },
    }
}

impl ComposerState {
    /// A completion cycle is live and still the draft's author.
    pub fn tab_active(&self) -> (r: bool)
        ensures
            r == self@.cycling(),
    {
        match &self.tab {
            Some(c) => c.matches(self.draft.as_str()),
            None => false,
        }
    }

    fn put_completion(&mut self, draft: String, tab: Option<TabCycle>)
        ensures
            final(self)@ == old(self)@.completed(draft@, tab),
    {
        self.draft = draft;
        self.tab = tab;
        self.recall = None;
    }

    fn set_tab(&mut self, tab: Option<TabCycle>)
        ensures
            final(self)@ == (Composer { tab, ..old(self)@ }),
    {
        self.tab = tab;
    }

    fn is_tab_idle(&self, delta: i64) -> (r: bool)
        ensures
            r == self@.tab_idle(delta as int),
    {
        if self.search.is_some() || delta == 0 {
            return true;
        }
        let ssh: bool = match &self.fam {
            Family::Ssh => true,
            _ => false,
        };
        ssh || text::is_blank(self.draft.as_str())
    }

    /// The plan that the next press of Tab needs a directory for: none while
    /// Tab does nothing or a cycle is live.
    pub fn tab_plan(&self, cwd: Option<&str>, home: Option<&str>, caret_byte: usize, delta: i64) -> (r:
        Option<Plan>)
        ensures
            paths::plan_view(r) == if self@.tab_idle(delta as int) || self@.cycling() {
                None
            } else {
                paths::listing(
                    self@.fam,
                    state::opt_str(cwd),
                    state::opt_str(home),
                    word_at(
                        lexer::words(self@.fam, self@.draft),
                        chars_to(self@.draft, caret_byte as int),
                    ).value,
                )
            },
    {
        if self.is_tab_idle(delta) || self.tab_active() {
            return None;
        }
        plan_at(&self.fam, cwd, home, self.draft.as_str(), caret_byte)
    }

    /// Tab, pressed `delta` times over a frame, backward where negative. `dir`
    /// is what the directory of `tab_plan` holds. Returns the caret behind the
    /// completed word, in characters, where the draft changed.
    pub fn tab_press(
        &mut self,
        cwd: Option<&str>,
        home: Option<&str>,
        caret_byte: usize,
        delta: i64,
        dir: Option<&DirList>,
    ) -> (r: Option<usize>)
        requires
            old(self).tab matches Some(c) ==> c.wf(),
        ensures
            final(self).tab matches Some(c) ==> c.wf(),
            old(self)@.tab_idle(delta as int) ==> r is None && final(self)@ == old(self)@,
            !old(self)@.tab_idle(delta as int) && old(self)@.cycling() ==> stepped(
                old(self)@,
                final(self)@,
                delta as int,
                r,
            ),
            !old(self)@.tab_idle(delta as int) && !old(self)@.cycling() ==> applied(
                old(self)@,
                final(self)@,
                started(
                    old(self)@.fam,
                    state::opt_str(cwd),
                    state::opt_str(home),
                    old(self)@.draft,
                    chars_to(old(self)@.draft, caret_byte as int),
                    ENUM_CAP as int,
                    found(dir),
                ),
                delta as int,
                r,
            ),
    {
        if self.is_tab_idle(delta) {
            return None;
        }
        if self.tab_active() {
            return Some(self.step_cycle(delta));
        }
        let next = start(&self.fam, cwd, home, self.draft.as_str(), caret_byte, ENUM_CAP, dir);
        self.apply_start(next, delta)
    }

    /// Apply what a press of Tab came to.
    pub fn apply_start(&mut self, next: Start, delta: i64) -> (r: Option<usize>)
        requires
            next matches Start::Cycle(c) ==> c.wf() && c.pos is None,
        ensures
            final(self).tab matches Some(c) ==> c.wf(),
            applied(old(self)@, final(self)@, next.view(), delta as int, r),
    {
        match next {
            Start::Nothing => {
                self.set_tab(None);
                None
            },
            Start::Edit { draft, caret } => {
                self.put_completion(draft, None);
                Some(caret)
            },
            Start::Cycle(c) => Some(self.enter_cycle(c, delta)),
        }
    }

    fn step_cycle(&mut self, delta: i64) -> (caret: usize)
        requires
            old(self).tab matches Some(c) && c.wf(),
        ensures
            final(self).tab matches Some(c) && c.wf(),
            stepped(old(self)@, final(self)@, delta as int, Some(caret)),
    {
        let mut c = self.tab.take().unwrap();
        let (draft, caret) = c.step(delta);
        self.put_completion(draft, Some(c));
        caret
    }

    fn enter_cycle(&mut self, c: TabCycle, delta: i64) -> (caret: usize)
        requires
            c.wf(),
            c.pos is None,
        ensures
            final(self).tab matches Some(d) && d.wf(),
            applied(
                old(self)@,
                final(self)@,
                Outcome::Cycle(cycle_view(c)),
                delta as int,
                Some(caret),
            ),
    {
        let mut d = c;
        let (draft, caret) = d.step(delta);
        proof {
            let p = c.next_pos(delta as int);
            assert(state::texts(c.cands@).len() == c.cands@.len());
            assert(state::texts(c.cands@)[p] == c.cands@[p]@);
        }
        self.put_completion(draft, Some(d));
        caret
    }

    /// Escape while a cycle is live: the original word is back and the cycle
    /// is over.
    pub fn tab_escape(&mut self) -> (r: Option<usize>)
        ensures
            old(self)@.cycling() ==> {
                let c = old(self).tab->0;
                &&& final(self)@ == (Composer { draft: c.restored(), tab: None, ..old(self)@ })
                &&& r == Some((c.head@.len() + c.original@.len()) as usize)
            },
            !old(self)@.cycling() ==> r is None && final(self)@ == (Composer {
                tab: None,
                ..old(self)@
            }),
    {
        if !self.tab_active() {
            self.set_tab(None);
            return None;
        }
        match self.tab.take() {
            None => None,
            Some(c) => {
                let (draft, caret) = c.restore();
                self.draft = draft;
                Some(caret)
            },
        }
    }
}

proof fn lemma_word_at(ws: Seq<Span>, k: int, lo: int, hi: int)
    requires
        lexer::in_line(ws, lo, hi),
        lo <= k <= hi,
    ensures
        lo <= word_at(ws, k).start <= word_at(ws, k).end <= hi,
    decreases ws.len(),
{
    if ws.len() > 0 {
        assert forall|j: int| 0 <= j < ws.drop_first().len() implies lo <= (
        #[trigger] ws.drop_first()[j]).start < ws.drop_first()[j].end <= hi by {
            assert(ws.drop_first()[j] == ws[j + 1]);
        }
        assert forall|i: int, j: int| 0 <= i < j < ws.drop_first().len() implies (
        #[trigger] ws.drop_first()[i]).end <= (#[trigger] ws.drop_first()[j]).start by {
            assert(ws.drop_first()[i] == ws[i + 1]);
            assert(ws.drop_first()[j] == ws[j + 1]);
        }
        lemma_word_at(ws.drop_first(), k, lo, hi);
        assert(ws[0].start < k <= ws[0].end ==> lo <= ws[0].start < ws[0].end <= hi);
    }
}

/// Escape gives back what Tab was pressed in: with its original word in
/// place, a cycle is the draft that it started from.
pub proof fn a_cycle_restores_its_draft(
    fam: Family,
    cwd: Option<Seq<char>>,
    home: Option<Seq<char>>,
    draft: Seq<char>,
    k: int,
    cap: int,
    dir: Option<Found>,
)
    requires
        0 <= k <= draft.len(),
    ensures
        started(fam, cwd, home, draft, k, cap, dir) matches Outcome::Cycle(c) ==> c.head
            + c.original + c.tail == draft,
{
    let ws = lexer::words(fam, draft);
    lexer::words_lie_in_the_line(fam, draft);
    lemma_word_at(ws, k, 0, draft.len() as int);
    let at = word_at(ws, k);
    assert(draft.take(at.start) + draft.subrange(at.start, at.end) + draft.skip(at.end) =~= draft);
}

/// As many presses back as there were presses on lead back to the candidate
/// that was shown.
pub proof fn a_cycle_steps_there_and_back(before: TabCycle, after: TabCycle, delta: int)
    requires
        before.wf(),
        before.pos is Some,
        after.cands == before.cands,
        after.pos == Some(before.next_pos(delta) as usize),
    ensures
        after.next_pos(-delta) == before.pos->0,
{
    let n = before.cands.len() as int;
    let p = before.pos->0 as int;
    lemma_mod_bound(p + delta, n);
    lemma_sub_mod_noop(p + delta, delta, n);
    lemma_sub_mod_noop((p + delta) % n, delta, n);
    lemma_mod_twice(p + delta, n);
    lemma_small_mod(p as nat, n as nat);
}

} // verus!
