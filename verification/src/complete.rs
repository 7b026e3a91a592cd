//! Completion families and the cycle through completion candidates.

use vstd::arithmetic::div_mod::*;
use vstd::prelude::*;
use vstd::string::*;

use crate::text;

verus! {

/// A shell's family, from the program that a terminal runs.
#[derive(Clone, Debug)]
pub enum ShellFamily {
    Pwsh,
    Cmd,
    WslShell { distro: Option<String> },
    Ssh { host: String },
    Other,
}

/// The completion family: path namespace and quoting rules.
#[derive(Clone, Debug)]
pub enum Family {
    Pwsh,
    Cmd,
    /// `distro`: the named distribution; without one only paths on a mounted
    /// drive complete.
    Wsl { distro: Option<String> },
    /// No local view of the remote file system: nothing completes.
    Ssh,
    /// Windows namespace, bare or `"..."` quoting.
    Other,
}

pub open spec fn opt_text(o: Option<String>) -> Option<Seq<char>> {
    match o {
        Some(s) => Some(s@),
        None => None,
    }
}

/// A copy of an optional text.
pub fn copied(o: &Option<String>) -> (r: Option<String>)
    ensures
        opt_text(r) == opt_text(*o),
        r == *o,
{
    match o {
        Some(s) => Some(s.clone()),
        None => None,
    }
}

pub fn family_for(f: &ShellFamily) -> (r: Family)
    ensures
        r is Pwsh <==> f is Pwsh,
        r is Cmd <==> f is Cmd,
        r is Wsl <==> f is WslShell,
        r matches Family::Wsl { distro: d } ==> (*f matches ShellFamily::WslShell {
            distro,
        } && opt_text(d) == opt_text(distro)),
        r is Ssh <==> f is Ssh,
        r is Other <==> f is Other,
{
    match f {
        ShellFamily::Pwsh => Family::Pwsh,
        ShellFamily::Cmd => Family::Cmd,
        ShellFamily::WslShell { distro } => Family::Wsl { distro: copied(distro) },
        ShellFamily::Ssh { .. } => Family::Ssh,
        ShellFamily::Other => Family::Other,
    }
}

/// A live completion cycle. The draft is the head, a candidate and the tail.
#[derive(Clone, Debug)]
pub struct TabCycle {
    pub head: String,
    pub tail: String,
    /// The token as it was typed.
    pub original: String,
    pub cands: Vec<String>,
    /// The candidate shown; `None` before the first step.
    pub pos: Option<usize>,
    /// The draft that this cycle last produced.
    pub expect: String,
}

/// `s` with `t` and `u` behind it, as a new string.
pub fn concat3(s: &str, t: &str, u: &str) -> (r: String)
    ensures
        r@ == s@ + t@ + u@,
{
    let mut r = s.to_owned();
    r.append(t);
    r.append(u);
    r
}

/// The step from candidate `p` by `delta`, wrapping over `n` candidates.
fn wrap(p: usize, delta: i64, n: usize) -> (r: usize)
    requires
        p < n,
    ensures
        r == (p + delta) % (n as int),
{
    let m: u128 = n as u128;
    let back: bool = delta < 0;
    let size: u128 = if back {
        (-(delta as i128)) as u128
    } else {
        delta as u128
    };
    let k: u128 = size % m;
    let d: u128 = if back && k > 0 {
        m - k
    } else {
        k
    };
    let r: u128 = (p as u128 + d) % m;
    proof {
        let q = size as int / (n as int);
        let nn = n as int;
        lemma_fundamental_div_mod(size as int, nn);
        assert(size == nn * q + k);
        if back {
            if k > 0 {
                assert(p + delta == nn * (-q - 1) + (p + d)) by (nonlinear_arith)
                    requires
                        delta == -size,
                        size == nn * q + k,
                        d == nn - k,
                ;
                lemma_mod_multiples_vanish(-q - 1, p + d, nn);
            } else {
                assert(p + delta == nn * (-q) + (p + d)) by (nonlinear_arith)
                    requires
                        delta == -size,
                        size == nn * q + k,
                        d == k,
                        k == 0,
                ;
                lemma_mod_multiples_vanish(-q, p + d, nn);
            }
        } else {
            assert(p + delta == nn * q + (p + d)) by (nonlinear_arith)
                requires
                    delta == size,
                    size == nn * q + k,
                    d == k,
            ;
            lemma_mod_multiples_vanish(q, p + d, nn);
        }
    }
    r as usize
}

impl TabCycle {
    /// There is something to cycle through, and the position is in it.
    pub open spec fn wf(self) -> bool {
        self.cands@.len() > 0 && (self.pos matches Some(p) ==> p < self.cands@.len())
    }

    /// The candidate that `delta` presses lead to: from the original token
    /// forward to the first and backward to the last, else around.
    pub open spec fn next_pos(self, delta: int) -> int {
        let n = self.cands@.len() as int;
        match self.pos {
            Some(p) => (p + delta) % n,
            None => if delta > 0 {
                (delta - 1) % n
            } else {
                delta % n
            },
        }
    }

    /// The draft with the candidate at `p` in the token's place.
    pub open spec fn draft_at(self, p: int) -> Seq<char> {
        self.head@ + self.cands@[p]@ + self.tail@
    }

    pub open spec fn restored(self) -> Seq<char> {
        self.head@ + self.original@ + self.tail@
    }

    /// The cycle is still the draft's author.
    pub open spec fn owns(self, draft: Seq<char>) -> bool {
        self.expect@ == draft
    }

    /// Advance by `delta` presses, backward where negative. Returns the draft
    /// and the caret, in characters, at the end of the completed token.
    pub fn step(&mut self, delta: i64) -> (r: (String, usize))
        requires
            old(self).wf(),
        ensures
            final(self).wf(),
            final(self).head == old(self).head,
            final(self).tail == old(self).tail,
            final(self).original == old(self).original,
            final(self).cands == old(self).cands,
            final(self).pos matches Some(p) && p == old(self).next_pos(delta as int),
            0 <= old(self).next_pos(delta as int) < old(self).cands@.len(),
            r.0@ == old(self).draft_at(old(self).next_pos(delta as int)),
            r.1 == old(self).head@.len() + old(self).cands@[old(self).next_pos(
                delta as int,
            )]@.len(),
            final(self).owns(r.0@),
    {
        let n: usize = self.cands.len();
        let p: usize = match self.pos {
            Some(p) => wrap(p, delta, n),
            None => if delta > 0 {
                wrap(0, delta - 1, n)
            } else {
                wrap(0, delta, n)
            },
        };
        proof {
            lemma_mod_bound(delta as int, n as int);
        }
        let draft = concat3(self.head.as_str(), self.cands[p].as_str(), self.tail.as_str());
        let total: usize = draft.as_str().unicode_len();
        let head: usize = self.head.as_str().unicode_len();
        let cand: usize = self.cands[p].as_str().unicode_len();
        assert(head + cand <= total);
        let ghost before = *self;
        self.pos = Some(p);
        self.expect = draft.clone();
        assert(draft@ == before.draft_at(p as int));
        (draft, head + cand)
    }

    /// The draft with the original token back, and the caret at its end.
    pub fn restore(&self) -> (r: (String, usize))
        ensures
            r.0@ == self.restored(),
            r.1 == self.head@.len() + self.original@.len(),
    {
        let draft = concat3(self.head.as_str(), self.original.as_str(), self.tail.as_str());
        let total: usize = draft.as_str().unicode_len();
        let head: usize = self.head.as_str().unicode_len();
        let orig: usize = self.original.as_str().unicode_len();
        assert(head + orig <= total);
        (draft, head + orig)
    }

    pub fn matches(&self, draft: &str) -> (r: bool)
        ensures
            r == self.owns(draft@),
    {
        text::same(self.expect.as_str(), draft)
    }
}

} // verus!
