//! Walking the recorded commands from the draft.

use vstd::prelude::*;
use vstd::string::*;

use crate::model::{Composer, RecallSrc};
use crate::state::ComposerState;
use crate::term::BlockRec;
use crate::text;

verus! {

/// A recorded command that a walk stops at: one that is not blank and differs
/// from what is shown.
pub open spec fn stops(rec: BlockRec, shown: Seq<char>) -> bool {
    !text::blank(rec.cmd@) && rec.cmd@ != shown
}

/// The last record before `from` that a walk stops at, or -1.
pub open spec fn older(recs: Seq<BlockRec>, from: int, shown: Seq<char>) -> int
    decreases from,
{
    if from <= 0 {
        -1
    } else if stops(recs[from - 1], shown) {
        from - 1
    } else {
        older(recs, from - 1, shown)
    }
}

/// The first record after `from` that a walk stops at, or the length.
pub open spec fn newer(recs: Seq<BlockRec>, from: int, shown: Seq<char>) -> int
    decreases recs.len() - from,
{
    if from + 1 >= recs.len() {
        recs.len() as int
    } else if stops(recs[from + 1], shown) {
        from + 1
    } else {
        newer(recs, from + 1, shown)
    }
}

impl Composer {
    /// A walk stands at a record that there is, or just past them.
    pub open spec fn walk_in(self, recs: Seq<BlockRec>) -> bool {
        self.recall matches Some((RecallSrc::Recs(i), _)) ==> i <= recs.len()
    }

    /// Where a walk back starts, the draft that it sets aside, and what is
    /// shown as it starts.
    pub open spec fn walk_start(self, recs: Seq<BlockRec>) -> (int, Seq<char>, Seq<char>) {
        match self.recall {
            Some((RecallSrc::Recs(i), saved)) => (
                i as int,
                saved,
                if i < recs.len() {
                    recs[i as int].cmd@
                } else {
                    saved
                },
            ),
            Some((RecallSrc::History, saved)) => (recs.len() as int, saved, self.draft),
            None => (recs.len() as int, self.draft, self.draft),
        }
    }

    /// One step back. At the oldest entry the walk stays; a walk that finds
    /// nothing leaves the draft as it was.
    pub open spec fn recalled_prev(self, recs: Seq<BlockRec>) -> Composer {
        let (start, saved, shown) = self.walk_start(recs);
        let found = older(recs, start, shown);
        if found >= 0 {
            self.recalled(recs, found, saved)
        } else if start < recs.len() {
            self.recalled(recs, start, saved)
        } else if self.recall matches Some((RecallSrc::History, _)) {
            self
        } else {
            Composer { draft: saved, recall: None, ..self }
        }
    }

    /// With the record at `i` shown.
    pub open spec fn recalled(self, recs: Seq<BlockRec>, i: int, saved: Seq<char>) -> Composer {
        Composer {
            draft: recs[i].cmd@,
            recall: Some((RecallSrc::Recs(i as usize), saved)),
            ..self
        }
    }

    /// One step forward. Past the newest entry the draft that was set aside is
    /// back, and the walk is over.
    pub open spec fn recalled_next(self, recs: Seq<BlockRec>) -> Composer {
        match self.recall {
            None => self,
            Some((RecallSrc::History, saved)) => Composer {
                draft: saved,
                recall: None,
                caret_to_end: true,
                ..self
            },
            Some((RecallSrc::Recs(i), saved)) => {
                let shown = if i < recs.len() {
                    recs[i as int].cmd@
                } else {
                    Seq::empty()
                };
                let found = newer(recs, i as int, shown);
                if found < recs.len() {
                    self.recalled(recs, found, saved)
                } else {
                    Composer { draft: saved, recall: None, ..self }
                }
            },
        }
    }
}

fn find_older(recs: &[BlockRec], from: usize, shown: &str) -> (r: Option<usize>)
    requires
        from <= recs@.len(),
    ensures
        r matches Some(i) ==> i == older(recs@, from as int, shown@) && i < recs@.len(),
        r is None ==> older(recs@, from as int, shown@) < 0,
{
    let mut i: usize = from;
    while i > 0
        invariant
            i <= from <= recs@.len(),
            older(recs@, i as int, shown@) == older(recs@, from as int, shown@),
        decreases i,
    {
        i = i - 1;
        let cmd = recs[i].cmd.as_str();
        if !text::is_blank(cmd) && !text::same(cmd, shown) {
            return Some(i);
        }
    }
    None
}

fn find_newer(recs: &[BlockRec], from: usize, shown: &str) -> (r: Option<usize>)
    ensures
        r matches Some(i) ==> i == newer(recs@, from as int, shown@) && i < recs@.len(),
        r is None ==> newer(recs@, from as int, shown@) >= recs@.len(),
{
    let n: usize = recs.len();
    if from >= n {
        return None;
    }
    let mut i: usize = from;
    while i < n - 1
        invariant
            from <= i < n,
            n == recs@.len(),
            newer(recs@, i as int, shown@) == newer(recs@, from as int, shown@),
        decreases n - i,
    {
        i = i + 1;
        let cmd = recs[i].cmd.as_str();
        if !text::is_blank(cmd) && !text::same(cmd, shown) {
            return Some(i);
        }
    }
    None
}

impl ComposerState {
    fn show_record(&mut self, recs: &[BlockRec], i: usize, saved: String)
        requires
            i < recs@.len(),
        ensures
            final(self)@ == old(self)@.recalled(recs@, i as int, saved@),
    {
        self.draft = recs[i].cmd.clone();
        self.recall = Some((RecallSrc::Recs(i), saved));
    }

    fn end_walk(&mut self, saved: String)
        ensures
            final(self)@ == (Composer { draft: saved@, recall: None, ..old(self)@ }),
    {
        self.draft = saved;
        self.recall = None;
    }

    fn restore_stash(&mut self, saved: String)
        ensures
            final(self)@ == (Composer {
                draft: saved@,
                recall: None,
                caret_to_end: true,
                ..old(self)@
            }),
    {
        self.draft = saved;
        self.recall = None;
        self.caret_to_end = true;
    }

    /// Where a walk back starts: the record, the draft set aside, what is
    /// shown, and whether a command inserted from the history is.
    fn walk(&self, recs: &[BlockRec]) -> (r: (usize, String, String, bool))
        ensures
            (r.0 as int, r.1@, r.2@) == self@.walk_start(recs@),
            r.3 == (self@.recall matches Some((RecallSrc::History, _))),
    {
        match &self.recall {
            Some((RecallSrc::Recs(i), saved)) => {
                let shown = if *i < recs.len() {
                    recs[*i].cmd.clone()
                } else {
                    saved.clone()
                };
                (*i, saved.clone(), shown, false)
            },
            Some((RecallSrc::History, saved)) => (
                recs.len(),
                saved.clone(),
                self.draft.clone(),
                true,
            ),
            None => (recs.len(), self.draft.clone(), self.draft.clone(), false),
        }
    }

    /// Arrow up on the first line: one step back through the records. The
    /// first step sets the draft aside.
    pub fn recall_prev(&mut self, recs: &[BlockRec])
        requires
            old(self)@.walk_in(recs@),
        ensures
            final(self)@ == old(self)@.recalled_prev(recs@),
    {
        let (start, saved, shown, from_history) = self.walk(recs);
        match find_older(recs, start, shown.as_str()) {
            Some(i) => self.show_record(recs, i, saved),
            None => if start < recs.len() {
                self.show_record(recs, start, saved);
            } else if !from_history {
                self.end_walk(saved);
            },
        }
    }

    /// Arrow down on the last line: one step forward.
    pub fn recall_next(&mut self, recs: &[BlockRec])
        ensures
            final(self)@ == old(self)@.recalled_next(recs@),
    {
        let (src, saved) = match &self.recall {
            Some((src, saved)) => (*src, saved.clone()),
            None => {
                return;
            },
        };
        match src {
            RecallSrc::History => self.restore_stash(saved),
            RecallSrc::Recs(i) => {
                let shown = if i < recs.len() {
                    recs[i].cmd.clone()
                } else {
                    String::new()
                };
                assert(i >= recs@.len() ==> shown@ =~= Seq::<char>::empty());
                match find_newer(recs, i, shown.as_str()) {
                    Some(k) => self.show_record(recs, k, saved),
                    None => self.end_walk(saved),
                }
            },
        }
    }
}

proof fn lemma_step_back(s: Composer, recs: Seq<BlockRec>)
    requires
        s.recall is None,
    ensures
        ({
            let found = older(recs, recs.len() as int, s.draft);
            let back = s.recalled_prev(recs);
            if found >= 0 {
                back.recall == Some((RecallSrc::Recs(found as usize), s.draft))
            } else {
                back.recall is None && back.draft == s.draft
            }
        }),
{
}

proof fn lemma_step_on(s: Composer, recs: Seq<BlockRec>, i: usize, saved: Seq<char>)
    requires
        s.recall == Some((RecallSrc::Recs(i), saved)),
        i < recs.len(),
    ensures
        ({
            let found = newer(recs, i as int, recs[i as int].cmd@);
            s.recalled_next(recs).draft == if found < recs.len() {
                recs[found].cmd@
            } else {
                saved
            }
        }),
{
}

impl Composer {
    /// After `n` steps back.
    pub open spec fn walked_back(self, recs: Seq<BlockRec>, n: nat) -> Composer
        decreases n,
    {
        if n == 0 {
            self
        } else {
            self.walked_back(recs, (n - 1) as nat).recalled_prev(recs)
        }
    }

    /// After `n` steps forward.
    pub open spec fn walked_on(self, recs: Seq<BlockRec>, n: nat) -> Composer
        decreases n,
    {
        if n == 0 {
            self
        } else {
            self.recalled_next(recs).walked_on(recs, (n - 1) as nat)
        }
    }
}

/// A walk from the draft `d`: it stands at a record with `d` set aside, or is
/// over with `d` shown.
spec fn walks_from(s: Composer, recs: Seq<BlockRec>, d: Seq<char>) -> bool {
    match s.recall {
        Some((RecallSrc::Recs(i), saved)) => i < recs.len() && saved == d,
        Some((RecallSrc::History, _)) => false,
        None => s.draft == d,
    }
}

proof fn lemma_back_stays(s: Composer, recs: Seq<BlockRec>, d: Seq<char>)
    requires
        walks_from(s, recs, d),
        recs.len() <= usize::MAX,
    ensures
        walks_from(s.recalled_prev(recs), recs, d),
{
    let (start, saved, shown) = s.walk_start(recs);
    lemma_older(recs, start, shown);
}

proof fn lemma_walked_back(s: Composer, recs: Seq<BlockRec>, n: nat)
    requires
        s.recall is None,
        recs.len() <= usize::MAX,
    ensures
        walks_from(s.walked_back(recs, n), recs, s.draft),
    decreases n,
{
    if n > 0 {
        lemma_walked_back(s, recs, (n - 1) as nat);
        lemma_back_stays(s.walked_back(recs, (n - 1) as nat), recs, s.draft);
    }
}

/// How far a walk is from its end.
spec fn steps_left(s: Composer, recs: Seq<BlockRec>) -> int {
    match s.recall {
        Some((RecallSrc::Recs(i), _)) => recs.len() - i,
        _ => 0,
    }
}

proof fn lemma_on_nears(s: Composer, recs: Seq<BlockRec>, d: Seq<char>)
    requires
        walks_from(s, recs, d),
        recs.len() <= usize::MAX,
    ensures
        walks_from(s.recalled_next(recs), recs, d),
        s.recall is Some ==> steps_left(s.recalled_next(recs), recs) < steps_left(s, recs),
        s.recall is None ==> s.recalled_next(recs) == s,
{
    if let Some((RecallSrc::Recs(i), _)) = s.recall {
        lemma_newer(recs, i as int, recs[i as int].cmd@);
    }
}

proof fn lemma_walked_on(s: Composer, recs: Seq<BlockRec>, d: Seq<char>, n: nat)
    requires
        walks_from(s, recs, d),
        recs.len() <= usize::MAX,
        n >= steps_left(s, recs),
    ensures
        s.walked_on(recs, n).draft == d,
        s.walked_on(recs, n).recall is None,
    decreases n,
{
    if n > 0 {
        lemma_on_nears(s, recs, d);
        lemma_walked_on(s.recalled_next(recs), recs, d, (n - 1) as nat);
    }
}

/// However far a walk went back, going forward past the newest record gives
/// the draft back that the walk started from, and ends the walk.
pub proof fn a_walk_ends_at_its_draft(s: Composer, recs: Seq<BlockRec>, back: nat, on: nat)
    requires
        s.recall is None,
        recs.len() <= usize::MAX,
        on >= recs.len(),
    ensures
        s.walked_back(recs, back).walked_on(recs, on).draft == s.draft,
        s.walked_back(recs, back).walked_on(recs, on).recall is None,
{
    lemma_walked_back(s, recs, back);
    lemma_walked_on(s.walked_back(recs, back), recs, s.draft, on);
}

/// A step back from a draft and a step forward give the draft back.
pub proof fn recall_back_and_forth_restores(s: Composer, recs: Seq<BlockRec>)
    requires
        s.recall is None,
        recs.len() <= usize::MAX,
    ensures
        s.recalled_prev(recs).recalled_next(recs).draft == s.draft,
{
    let found = older(recs, recs.len() as int, s.draft);
    let back = s.recalled_prev(recs);
    lemma_older(recs, recs.len() as int, s.draft);
    lemma_step_back(s, recs);
    if found >= 0 {
        let next = newer(recs, found, recs[found].cmd@);
        lemma_newer(recs, found, recs[found].cmd@);
        lemma_step_on(back, recs, found as usize, s.draft);
        if next < recs.len() {
            assert(!stops(recs[next], s.draft));
        }
    }
}

/// A command inserted from the history over a draft gives way to it again.
pub proof fn insert_then_next_restores(s: Composer, cmd: Seq<char>, recs: Seq<BlockRec>)
    requires
        s.search is None,
        s.draft.len() > 0,
        s.draft != cmd,
    ensures
        s.inserted(cmd).recalled_next(recs).draft == s.draft,
        s.inserted(cmd).recalled_next(recs).recall is None,
{
}

proof fn lemma_older(recs: Seq<BlockRec>, from: int, shown: Seq<char>)
    requires
        from <= recs.len(),
    ensures
        -1 <= older(recs, from, shown) < from || from < 0,
        older(recs, from, shown) >= 0 ==> stops(recs[older(recs, from, shown)], shown),
        forall|k: int|
            older(recs, from, shown) < k < from && 0 <= k ==> !stops(#[trigger] recs[k], shown),
    decreases from,
{
    if from > 0 && !stops(recs[from - 1], shown) {
        lemma_older(recs, from - 1, shown);
    }
}

proof fn lemma_newer(recs: Seq<BlockRec>, from: int, shown: Seq<char>)
    requires
        0 <= from < recs.len(),
    ensures
        from < newer(recs, from, shown) <= recs.len(),
        newer(recs, from, shown) < recs.len() ==> stops(recs[newer(recs, from, shown)], shown),
    decreases recs.len() - from,
{
    if from + 1 < recs.len() && !stops(recs[from + 1], shown) {
        lemma_newer(recs, from + 1, shown);
    }
}

} // verus!
