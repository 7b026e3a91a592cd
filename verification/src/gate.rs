//! The arming gate: whether the composer may take the keyboard, from what is known
//! of the terminal this frame.

use vstd::prelude::*;

verus! {

/// Why the composer leaves the keys to the terminal. Drives the strip's label.
#[derive(Clone, Copy, PartialEq, Eq, Structural, Debug)]
pub enum RawReason {
    /// Open block (command or full-screen program running).
    Busy,
    /// A full-screen program owns the screen.
    AltScreen,
    /// Hooked, but no prompt latch yet (fresh spawn, cold attach).
    NoPrompt,
    /// The user typed raw or clicked the grid at an armed prompt.
    UserRaw,
    /// The session exited.
    Dead,
    /// The user shelved this terminal; its draft is kept for the return.
    Asleep,
}

/// Per-terminal composer mode. Raw is the default and the fallback.
#[derive(Clone, Copy, PartialEq, Eq, Structural, Debug)]
pub enum ComposerMode {
    /// Editor shown; while it has focus, keys land in the draft only.
    Compose,
    /// All keys go to the terminal.
    Raw(RawReason),
}

/// Everything the arming gate looks at.
pub struct GateInputs {
    pub hooked: bool,
    pub running: bool,
    pub alt: bool,
    pub mouse: bool,
    pub open_block: bool,
    pub at_prompt: bool,
    pub settled: bool,
    pub cursor_clean: bool,
    pub episode_used: bool,
    /// The persisted asleep flag. It covers the drain transient too, where
    /// `running` is still true for a moment.
    pub asleep: bool,
}

#[derive(Clone, Copy, PartialEq, Eq, Structural, Debug)]
pub enum GateVerdict {
    /// All conditions hold: take focus, show the editor.
    AutoArm,
    /// The core passes but the cursor is dirty or the episode is used: show
    /// the Compose button only.
    ManualOnly,
    Blocked(RawReason),
}

/// The reason that keeps the composer out, the first that holds in order of
/// precedence, or `None` where nothing does.
pub open spec fn block_reason(i: GateInputs) -> Option<RawReason> {
    if !i.hooked {
        Some(RawReason::NoPrompt)
    } else if i.asleep {
        Some(RawReason::Asleep)
    } else if !i.running {
        Some(RawReason::Dead)
    } else if i.alt {
        Some(RawReason::AltScreen)
    } else if i.open_block || i.mouse {
        Some(RawReason::Busy)
    } else if !i.at_prompt || !i.settled {
        Some(RawReason::NoPrompt)
    } else {
        None
    }
}

/// What it rules: blocked by the first reason that holds, else armed exactly at
/// a clean prompt whose episode is unspent.
pub open spec fn verdict(i: GateInputs) -> GateVerdict {
    match block_reason(i) {
        Some(r) => GateVerdict::Blocked(r),
        None => if i.cursor_clean && !i.episode_used {
            GateVerdict::AutoArm
        } else {
            GateVerdict::ManualOnly
        },
    }
}

/// The arming gate. The asleep flag wins over `running`: it never arms into a
/// session being torn down, and it keeps a sleeping terminal's mode from
/// turning into Dead once the exit lands.
pub fn gate(i: &GateInputs) -> (v: GateVerdict)
    ensures
        v == verdict(*i),
{
    if !i.hooked {
        return GateVerdict::Blocked(RawReason::NoPrompt);
    }
    if i.asleep {
        return GateVerdict::Blocked(RawReason::Asleep);
    }
    if !i.running {
        return GateVerdict::Blocked(RawReason::Dead);
    }
    if i.alt {
        return GateVerdict::Blocked(RawReason::AltScreen);
    }
    if i.open_block || i.mouse {
        return GateVerdict::Blocked(RawReason::Busy);
    }
    if !i.at_prompt || !i.settled {
        return GateVerdict::Blocked(RawReason::NoPrompt);
    }
    if i.cursor_clean && !i.episode_used {
        GateVerdict::AutoArm
    } else {
        GateVerdict::ManualOnly
    }
}

/// A hooked terminal whose current lifetime has produced no hook event yet
/// and whose prompt latch is not live talks to something that is not the
/// shell: ssh authentication, a slow login chain, a dead bootstrap.
pub open spec fn before_shell(
    running: bool,
    alt: bool,
    pre_seen: u64,
    exec_seen: u64,
    latched: bool,
) -> bool {
    running && !alt && pre_seen == 0 && exec_seen == 0 && !latched
}

pub fn pre_shell(
    running: bool,
    alt: bool,
    pre_seen: u64,
    exec_seen: u64,
    at_prompt_latched: bool,
) -> (r: bool)
    ensures
        r == before_shell(running, alt, pre_seen, exec_seen, at_prompt_latched),
{
    running && !alt && pre_seen == 0 && exec_seen == 0 && !at_prompt_latched
}

/// The arming gate never arms, nor offers to, over a terminal that is not hooked,
/// not running, asleep, under a full-screen or mouse-driven program, busy, or
/// away from a settled prompt; everywhere else it does one of the two.
pub proof fn gate_arms_only_at_a_settled_prompt(i: GateInputs)
    ensures
        verdict(i) !is Blocked <==> i.hooked && !i.asleep && i.running && !i.alt && !i.open_block
            && !i.mouse && i.at_prompt && i.settled,
{
}

/// Arming needs no more than what the manual offer needs, a clean cursor and
/// an unspent episode.
pub proof fn auto_arm_is_a_clean_unspent_prompt(i: GateInputs)
    ensures
        verdict(i) == GateVerdict::AutoArm <==> verdict(i) !is Blocked && i.cursor_clean
            && !i.episode_used,
{
}

/// A sleeping terminal is reported asleep whether or not it still runs.
pub proof fn asleep_wins_over_running(i: GateInputs, running: bool)
    requires
        i.hooked,
        i.asleep,
    ensures
        verdict(GateInputs { running, ..i }) == GateVerdict::Blocked(RawReason::Asleep),
{
}

} // verus!
