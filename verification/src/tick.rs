//! One frame of the terminal that is shown.

use std::collections::VecDeque;

use vstd::prelude::*;
use vstd::string::*;

use crate::clock::{wake_by, Instant};
use crate::complete::copied;
use crate::gate::{gate, ComposerMode, GateInputs, GateVerdict, RawReason};
use crate::model::{
    Composer, DEMOTE, HEUR_FLUSH, POST_SUBMIT_FLUSH, SETTLE, SUBMIT_HOLD_MAX,
};
use crate::prompt::inline_interactive_prompt;
use crate::state;
use crate::state::{
    append_bytes, first_line, is_one_line, queue_keystrokes, ComposerState, SubmitHold,
};
use crate::term::{any_open, BlockRec, TermBackend};

verus! {

impl SubmitHold {
    /// The permanent cover that the hold leaves, where its row shows its text.
    fn conversion(&self, backend: &TermBackend) -> (r: Option<
        (i32, usize, Option<String>, String),
    >)
        ensures
            state::cover_view(r) == Composer::converts(self@, *backend),
    {
        match self.hold_row(backend) {
            None => None,
            Some(row) => {
                let first = first_line(self.shown.as_str());
                if is_one_line(self.shown.as_str()) && !first.as_str().is_empty()
                    && backend.row_has_text_at(row, self.col, first.as_str()) {
                    Some((row, self.col, copied(&self.cwd), first))
                } else {
                    None
                }
            },
        }
    }
}

impl ComposerState {
    fn set_term_focused(&mut self, focused: bool)
        ensures
            final(self)@ == (Composer { term_focused: focused, ..old(self)@ }),
    {
        self.term_focused = focused;
    }

    /// Drop an inferred prompt that no longer stands, and end an episode of
    /// them once no command runs.
    fn check_heur(&mut self, backend: &TermBackend, recs: &[BlockRec])
        ensures
            final(self)@ == old(self)@.heur_checked(*backend, recs@),
    {
        let over: bool = self.heur_episode && !any_open(recs);
        let heur = if over || !self.heur_live(backend) {
            None
        } else {
            self.heur
        };
        let episode: bool = self.heur_episode && !over;
        self.heur = heur;
        self.heur_episode = episode;
    }

    /// Keep the clock of the alternate screen.
    fn clock_alt(&mut self, alt: bool, now: Instant)
        ensures
            final(self)@ == old(self)@.alt_clocked(alt, now),
    {
        let since = if !alt {
            None
        } else if self.alt_since.is_none() {
            Some(now)
        } else {
            self.alt_since
        };
        self.alt_since = since;
    }

    fn drop_hold(&mut self, now: Instant)
        ensures
            final(self)@ == (Composer {
                submit_hold: None,
                last_activity: Some(now),
                ..old(self)@
            }),
    {
        self.submit_hold = None;
        self.last_activity = Some(now);
    }

    fn convert_hold(&mut self, cover: (i32, usize, Option<String>, String), now: Instant)
        ensures
            final(self)@ == (Composer {
                pending_history_cover: state::cover_view(Some(cover)),
                submit_hold: None,
                last_activity: Some(now),
                ..old(self)@
            }),
    {
        self.pending_history_cover = Some(cover);
        self.submit_hold = None;
        self.last_activity = Some(now);
    }

    fn is_hold_over(&self, backend: &TermBackend, now: Instant) -> (r: bool)
        ensures
            r == self@.hold_over(*backend, now),
    {
        match &self.submit_hold {
            None => false,
            Some(h) => backend.is_alt() || !h.hold_active(now) || h.echo_landed(backend),
        }
    }

    fn cover_of_hold(&self, backend: &TermBackend) -> (r: Option<
        (i32, usize, Option<String>, String),
    >)
        ensures
            state::cover_view(r) == self@.hold_cover(*backend),
    {
        match &self.submit_hold {
            None => None,
            Some(h) => if backend.is_alt() {
                None
            } else {
                h.conversion(backend)
            },
        }
    }

    /// Release a hold that is over.
    fn check_hold(&mut self, backend: &TermBackend, now: Instant)
        ensures
            final(self)@ == old(self)@.hold_checked(*backend, now),
    {
        if self.is_hold_over(backend, now) {
            match self.cover_of_hold(backend) {
                Some(cover) => self.convert_hold(cover, now),
                None => self.drop_hold(now),
            }
        }
    }

    fn set_broken(&mut self, since: Option<Instant>)
        ensures
            final(self)@ == (Composer { compose_broken_since: since, ..old(self)@ }),
    {
        self.compose_broken_since = since;
    }

    fn set_activity(&mut self, now: Instant)
        ensures
            final(self)@ == (Composer { last_activity: Some(now), ..old(self)@ }),
    {
        self.last_activity = Some(now);
    }

    fn set_raw(&mut self, reason: RawReason)
        ensures
            final(self)@ == (Composer { mode: ComposerMode::Raw(reason), ..old(self)@ }),
    {
        self.mode = ComposerMode::Raw(reason);
    }

    fn arm(&mut self, focus: bool)
        ensures
            final(self)@ == (Composer {
                mode: ComposerMode::Compose,
                want_focus: old(self)@.want_focus || focus,
                ..old(self)@
            }),
    {
        let want: bool = self.want_focus || focus;
        self.mode = ComposerMode::Compose;
        self.want_focus = want;
    }

    /// The editor yields, and the queue goes back into the draft.
    fn yield_to(&mut self, reason: RawReason)
        ensures
            final(self)@ == old(self)@.yielded(reason),
    {
        self.fold_pending_into_draft();
        self.mode = ComposerMode::Raw(reason);
        self.want_focus = false;
        self.has_focus = false;
    }

    /// The editor steps down for want of certainty.
    fn demote(&mut self, now: Instant)
        ensures
            final(self)@ == old(self)@.demoted(now),
    {
        let bytes = queue_keystrokes(&self.pending, false);
        self.pending_clear = append_bytes(&self.pending_clear, bytes);
        self.pending = VecDeque::new();
        self.post_submit = None;
        self.mode = ComposerMode::Raw(RawReason::NoPrompt);
        self.want_focus = false;
        self.has_focus = false;
        self.compose_broken_since = None;
        self.last_activity = Some(now);
        assert(state::texts(self.pending@) =~= Seq::<Seq<char>>::empty());
    }

    fn is_healthy(&self, i: &GateInputs) -> (r: bool)
        ensures
            r == self@.healthy(*i),
    {
        self.submit_hold.is_some() || self.post_submit.is_some() || (i.at_prompt && i.cursor_clean)
            || i.open_block || self.busy_since.is_some()
    }

    /// Keep the clock of lost certainty.
    fn check_certainty(&mut self, i: &GateInputs, now: Instant)
        ensures
            final(self)@ == old(self)@.certainty_checked(*i, now),
    {
        if self.is_healthy(i) {
            self.set_broken(None);
        } else {
            let since = match self.compose_broken_since {
                Some(t) => t,
                None => now,
            };
            if now.nanos_since(since) >= DEMOTE {
                self.demote(now);
            } else {
                self.set_broken(Some(since));
            }
        }
    }

    fn is_asked(&self, backend: &TermBackend, i: &GateInputs) -> (r: bool)
        ensures
            r == self@.asked(*backend, *i),
    {
        !i.at_prompt && (i.open_block || self.busy_since.is_some()) && inline_interactive_prompt(
            backend.cursor_row_text().as_str(),
        )
    }

    /// A frame of the active editor.
    fn compose_frame(&mut self, backend: &TermBackend, i: &GateInputs, running: bool, now: Instant)
        ensures
            final(self)@ == old(self)@.composed(*backend, *i, running, now),
    {
        self.resolve_post_submit(backend, now);
        if self.mode != ComposerMode::Compose {
            return;
        }
        if i.alt {
            self.yield_to(RawReason::AltScreen);
        } else if i.asleep {
            self.yield_to(RawReason::Asleep);
        } else if !running {
            self.yield_to(RawReason::Dead);
        } else if self.is_asked(backend, i) {
            self.yield_to(RawReason::Busy);
            self.set_activity(now);
        } else {
            self.check_certainty(i, now);
        }
    }

    /// A frame without the editor.
    fn gate_frame(&mut self, i: &GateInputs, grid_focused: bool)
        ensures
            final(self)@ == old(self)@.gated(*i, grid_focused),
    {
        match gate(i) {
            GateVerdict::AutoArm => self.arm(grid_focused),
            GateVerdict::ManualOnly => {},
            GateVerdict::Blocked(r) => self.set_raw(r),
        }
    }

    /// Bring the state up to what this frame shows, before the arming gate reads it.
    fn observe(
        &mut self,
        backend: &TermBackend,
        recs: &[BlockRec],
        running: bool,
        grid_focused: bool,
        now: Instant,
    ) -> (wake: Option<Instant>)
        ensures
            final(self)@ == old(self)@.observed(*backend, recs@, running, grid_focused, now),
            wake == old(self)@.shown_draft().heur_checked(*backend, recs@).quiet_until(
                *backend,
                recs@,
                running,
                now,
            ),
    {
        self.set_term_focused(grid_focused);
        if self.mode != ComposerMode::Compose {
            self.search_close_quiet();
        }
        self.check_heur(backend, recs);
        let wake = self.maybe_mint_heur(backend, recs, running, now);
        self.maintain_heur_cover(backend, running);
        wake
    }

    /// When the state itself asks to be looked at again.
    fn next_wakeup(&self, now: Instant) -> (wake: Option<Instant>)
        ensures
            wake == self@.wakeup(now),
    {
        let mut wake: Option<Instant> = None;
        if let Some(t) = self.at_prompt_since {
            wake = wake_by(wake, t.after(SETTLE), now);
        }
        if let Some(h) = &self.submit_hold {
            wake = wake_by(wake, h.since.after(SUBMIT_HOLD_MAX), now);
        }
        if let Some(w) = &self.post_submit {
            let d: u64 = if w.heur {
                HEUR_FLUSH
            } else {
                POST_SUBMIT_FLUSH
            };
            wake = wake_by(wake, w.since.after(d), now);
        }
        if self.mode == ComposerMode::Compose {
            if let Some(t) = self.compose_broken_since {
                wake = wake_by(wake, t.after(DEMOTE), now);
            }
        }
        wake
    }

    /// One frame of the terminal that is shown. `grid_focused`: the grid had
    /// the keyboard, so arming may take it. Returns when to look again even if
    /// nothing happens.
    pub fn tick(
        &mut self,
        backend: &TermBackend,
        recs: &[BlockRec],
        running: bool,
        grid_focused: bool,
        now: Instant,
    ) -> (wake: Option<Instant>)
        ensures
            final(self)@ == old(self)@.ticked(*backend, recs@, running, grid_focused, now),
            wake == old(self)@.tick_wake(*backend, recs@, running, grid_focused, now),
    {
        let heur_wake = self.observe(backend, recs, running, grid_focused, now);
        let i = self.gate_inputs(backend, recs, running, now);
        self.clock_alt(i.alt, now);
        self.check_hold(backend, now);
        if self.mode == ComposerMode::Compose {
            self.compose_frame(backend, &i, running, now);
        } else {
            self.set_broken(None);
            self.gate_frame(&i, grid_focused);
        }
        let wake = self.next_wakeup(now);
        match heur_wake {
            Some(d) => wake_by(wake, d, now),
            None => wake,
        }
    }
}

} // verus!
