//! Consent to install session trackers: which terminal to ask about, which to
//! install for, and what to say of the result.

use std::collections::HashSet;

use vstd::prelude::*;
use vstd::string::*;

use crate::complete;
use crate::complete::ShellFamily;
use crate::paths;
use crate::text;

verus! {

/// The place that a codex tracker covers.
#[derive(Debug)]
pub enum CodexLane {
    /// The native Windows home.
    LocalWindows,
    /// The home of a distribution.
    LocalWsl { distro: String },
    /// A remote host.
    Ssh { host: String },
}

impl CodexLane {
    /// The lane's identity.
    pub open spec fn key_text(self) -> Seq<char> {
        match self {
            CodexLane::LocalWindows => "local:windows"@,
            CodexLane::LocalWsl { distro } => "local:wsl:"@ + distro@,
            CodexLane::Ssh { host } => "ssh:"@ + host@,
        }
    }

    pub fn key(&self) -> (r: String)
        ensures
            r@ == self.key_text(),
    {
        match self {
            CodexLane::LocalWindows => "local:windows".to_owned(),
            CodexLane::LocalWsl { distro } => "local:wsl:".to_owned().concat(distro.as_str()),
            CodexLane::Ssh { host } => "ssh:".to_owned().concat(host.as_str()),
        }
    }

    pub fn is_local(&self) -> (r: bool)
        ensures
            r == !(self is Ssh),
    {
        match self {
            CodexLane::Ssh { .. } => false,
            _ => true,
        }
    }
}

/// A lane's name for people, from its identity.
pub open spec fn key_label(key: Seq<char>) -> Seq<char> {
    if key == "local:windows"@ {
        "this PC"@
    } else if text::has_prefix(key, "local:wsl:"@) {
        "WSL "@ + key.skip("local:wsl:"@.len() as int)
    } else if text::has_prefix(key, "ssh:"@) {
        key.skip("ssh:"@.len() as int)
    } else {
        key
    }
}

pub fn codex_key_label(key: &str) -> (r: String)
    ensures
        r@ == key_label(key@),
{
    if text::same(key, "local:windows") {
        return "this PC".to_owned();
    }
    let v = text::chars_of(key);
    let n: usize = v.len();
    if text::starts_with(&v, "local:wsl:") {
        let k: usize = "local:wsl:".unicode_len();
        assert(v@.subrange(k as int, n as int) =~= v@.skip(k as int));
        return "WSL ".to_owned().concat(text::string_of(&v, k, n).as_str());
    }
    if text::starts_with(&v, "ssh:") {
        let k: usize = "ssh:".unicode_len();
        assert(v@.subrange(k as int, n as int) =~= v@.skip(k as int));
        return text::string_of(&v, k, n);
    }
    key.to_owned()
}

/// The home directory that a distribution reported: white space off, and only
/// an absolute path.
pub fn wsl_home_from(output: &str) -> (r: Option<String>)
    ensures
        complete::opt_text(r) == if text::has_prefix(text::trimmed(output@), "/"@) {
            Some(text::trimmed(output@))
        } else {
            None
        },
{
    let home = text::trim(output);
    if text::starts_with(&text::chars_of(home.as_str()), "/") {
        Some(home)
    } else {
        None
    }
}

/// A posix path of a distribution as a Windows share.
pub open spec fn share_path(distro: Seq<char>, posix: Seq<char>) -> Seq<char> {
    "\\\\wsl$\\"@ + distro + paths::replaced(posix, '/', '\\')
}

/// Where a tracker is installed in a distribution.
#[derive(Debug)]
pub struct WslTarget {
    /// The codex home, as Windows reaches it.
    pub access_home: String,
    /// The hooks file, as codex names it.
    pub codex_hooks_path: String,
    /// The hook script, as Windows reaches it.
    pub script: String,
}

fn share_of(distro: &str, posix: &str) -> (r: String)
    ensures
        r@ == share_path(distro@, posix@),
{
    let mut out = "\\\\wsl$\\".to_owned();
    out.append(distro);
    paths::push_replaced(&mut out, &text::chars_of(posix), 0, '/', '\\');
    assert(posix@.skip(0) =~= posix@);
    out
}

/// Where a tracker is installed in a distribution whose home is `home`.
pub fn wsl_target(distro: &str, home: &str) -> (r: WslTarget)
    ensures
        r.access_home@ == share_path(distro@, home@ + "/.codex"@),
        r.codex_hooks_path@ == home@ + "/.codex/hooks.json"@,
        r.script@ == share_path(distro@, home@ + "/.tc/codex-hook.sh"@),
{
    let codex = home.to_owned().concat("/.codex");
    let script = home.to_owned().concat("/.tc/codex-hook.sh");
    WslTarget {
        access_home: share_of(distro, codex.as_str()),
        codex_hooks_path: home.to_owned().concat("/.codex/hooks.json"),
        script: share_of(distro, script.as_str()),
    }
}

/// What a scan reads of a terminal.
#[derive(Debug)]
pub struct TermInfo {
    pub id: u128,
    /// The assistant that runs in it, by its adapter.
    pub adapter: Option<String>,
    pub family: ShellFamily,
    /// The distribution that its shell resolves to.
    pub wsl_distro: Option<String>,
}

/// Recorded answers: by name, and for all others.
#[derive(Debug)]
pub struct Verdicts {
    pub named: Vec<(String, bool)>,
    pub all: Option<bool>,
}

/// The recorded answer for a name: its own, else the one for all.
pub open spec fn verdict_from(named: Seq<(String, bool)>, all: Option<bool>, name: Seq<char>) -> Option<
    bool,
>
    decreases named.len(),
{
    if named.len() == 0 {
        all
    } else if named[0].0@ == name {
        Some(named[0].1)
    } else {
        verdict_from(named.drop_first(), all, name)
    }
}

impl Verdicts {
    pub open spec fn answer(self, name: Seq<char>) -> Option<bool> {
        verdict_from(self.named@, self.all, name)
    }

    pub fn get(&self, name: &str) -> (r: Option<bool>)
        ensures
            r == self.answer(name@),
    {
        let mut i: usize = 0;
        assert(self.named@.skip(0) =~= self.named@);
        while i < self.named.len()
            invariant
                i <= self.named@.len(),
                verdict_from(self.named@.skip(i as int), self.all, name@) == self.answer(name@),
            decreases self.named@.len() - i,
        {
            proof {
                assert(self.named@.skip(i as int)[0] == self.named@[i as int]);
                assert(self.named@.skip(i as int).drop_first() =~= self.named@.skip(i + 1));
            }
            if text::same(self.named[i].0.as_str(), name) {
                return Some(self.named[i].1);
            }
            i = i + 1;
        }
        self.all
    }
}

/// A terminal that a tracker concerns: the identity of what it would cover,
/// and the recorded answer.
pub struct Concern {
    pub key: Seq<char>,
    pub verdict: Option<bool>,
}

/// What a tracker of the assistant with `adapter` would cover: the host of an
/// ssh terminal that runs it.
pub open spec fn host_concern(t: TermInfo, adapter: Seq<char>, hosts: Verdicts) -> Option<Concern> {
    match (t.adapter, t.family) {
        (Some(a), ShellFamily::Ssh { host }) if a@ == adapter => Some(
            Concern { key: host@, verdict: hosts.answer(host@) },
        ),
        _ => None,
    }
}

/// The recorded answers on codex trackers, for each class of lane.
#[derive(Debug)]
pub struct CodexVerdicts {
    pub local: Option<bool>,
    pub wsl: Verdicts,
    pub hosts: Verdicts,
}

/// The lane of a terminal that runs codex.
pub open spec fn codex_lane(t: TermInfo) -> Option<CodexLane> {
    match t.adapter {
        Some(a) if a@ == "codex"@ => match t.family {
            ShellFamily::Ssh { host } => Some(CodexLane::Ssh { host }),
            ShellFamily::WslShell { .. } => match t.wsl_distro {
                Some(distro) => Some(CodexLane::LocalWsl { distro }),
                None => None,
            },
            _ => Some(CodexLane::LocalWindows),
        },
        _ => None,
    }
}

/// What a codex tracker would cover, with the answer of its class.
pub open spec fn codex_concern(t: TermInfo, v: CodexVerdicts) -> Option<Concern> {
    match codex_lane(t) {
        None => None,
        Some(lane) => Some(
            Concern {
                key: lane.key_text(),
                verdict: match lane {
                    CodexLane::LocalWindows => v.local,
                    CodexLane::LocalWsl { distro } => v.wsl.answer(distro@),
                    CodexLane::Ssh { host } => v.hosts.answer(host@),
                },
            },
        ),
    }
}

/// A terminal with what a tracker would cover in it.
#[derive(Debug)]
pub struct Lane {
    pub id: u128,
    pub key: String,
    pub verdict: Option<bool>,
}

pub open spec fn is_lane(l: Option<Lane>, id: u128, c: Option<Concern>) -> bool {
    match (l, c) {
        (Some(x), Some(y)) => x.id == id && x.key@ == y.key && x.verdict == y.verdict,
        (None, None) => true,
        _ => false,
    }
}

pub fn host_lane_of(t: &TermInfo, adapter: &str, hosts: &Verdicts) -> (r: Option<Lane>)
    ensures
        is_lane(r, t.id, host_concern(*t, adapter@, *hosts)),
{
    match &t.adapter {
        Some(a) => if text::same(a.as_str(), adapter) {
            match &t.family {
                ShellFamily::Ssh { host } => Some(
                    Lane { id: t.id, key: host.clone(), verdict: hosts.get(host.as_str()) },
                ),
                _ => None,
            }
        } else {
            None
        },
        None => None,
    }
}

/// The lane of a terminal that runs codex.
pub fn codex_lane_for(t: &TermInfo) -> (r: Option<CodexLane>)
    ensures
        r is Some == codex_lane(*t) is Some,
        r matches Some(l) ==> Some(l) == codex_lane(*t),
{
    match &t.adapter {
        Some(a) => if text::same(a.as_str(), "codex") {
            match &t.family {
                ShellFamily::Ssh { host } => Some(CodexLane::Ssh { host: host.clone() }),
                ShellFamily::WslShell { .. } => match &t.wsl_distro {
                    Some(d) => Some(CodexLane::LocalWsl { distro: d.clone() }),
                    None => None,
                },
                _ => Some(CodexLane::LocalWindows),
            }
        } else {
            None
        },
        None => None,
    }
}

pub fn codex_lane_of(t: &TermInfo, v: &CodexVerdicts) -> (r: Option<Lane>)
    ensures
        is_lane(r, t.id, codex_concern(*t, *v)),
{
    match codex_lane_for(t) {
        None => None,
        Some(lane) => {
            let verdict = match &lane {
                CodexLane::LocalWindows => v.local,
                CodexLane::LocalWsl { distro } => v.wsl.get(distro.as_str()),
                CodexLane::Ssh { host } => v.hosts.get(host.as_str()),
            };
            Some(Lane { id: t.id, key: lane.key(), verdict })
        },
    }
}

/// What is known of a tracker's lanes in this run.
#[derive(Debug)]
pub struct Consents {
    /// Not to be asked about again.
    pub dismissed: Vec<String>,
    /// Installed, or being installed.
    pub done: Vec<String>,
    /// Terminals that need no further look.
    pub settled: HashSet<u128>,
}

/// What is known of a tracker's lanes in this run.
pub struct Known {
    pub dismissed: Set<Seq<char>>,
    pub done: Set<Seq<char>>,
    pub settled: Set<u128>,
}

pub open spec fn name_set(v: Seq<String>) -> Set<Seq<char>> {
    Set::new(|s: Seq<char>| exists|i: int| 0 <= i < v.len() && (#[trigger] v[i])@ == s)
}

pub open spec fn id_set(v: Seq<u128>) -> Set<u128> {
    Set::new(|x: u128| v.contains(x))
}

impl View for Consents {
    type V = Known;

    open spec fn view(&self) -> Known {
        Known {
            dismissed: name_set(self.dismissed@),
            done: name_set(self.done@),
            settled: self.settled@,
        }
    }
}

/// What a scan comes to: nothing, an install for the terminal at a position,
/// or a question about it.
#[derive(Clone, Copy, PartialEq, Eq, Structural, Debug)]
pub enum Scan {
    Nothing,
    Install(usize),
    Ask(usize),
}

/// A terminal as a scan sees it.
pub struct Seen {
    pub id: u128,
    pub concern: Option<Concern>,
}

/// One terminal's part in a scan: what becomes of it, and what is known after.
pub open spec fn look(k: Known, settled: Set<u128>, t: Seen) -> (Option<bool>, Known) {
    match t.concern {
        Some(c) if !settled.contains(t.id) => if k.dismissed.contains(c.key) || k.done.contains(
            c.key,
        ) {
            (None, Known { settled: k.settled.insert(t.id), ..k })
        } else {
            match c.verdict {
                Some(true) => (Some(true), k),
                Some(false) => (
                    None,
                    Known {
                        dismissed: k.dismissed.insert(c.key),
                        settled: k.settled.insert(t.id),
                        ..k
                    },
                ),
                None => (Some(false), k),
            }
        },
        _ => (None, k),
    }
}

/// A scan from the `i`th terminal on: the first that has a yes is installed
/// for, the first without an answer is asked about. A no, and what was
/// dismissed or done before, settles its terminal. `settled` are those that
/// were settled when the scan began.
pub open spec fn scan_from(k: Known, settled: Set<u128>, ts: Seq<Seen>, i: int) -> (Scan, Known)
    decreases ts.len() - i,
{
    if i >= ts.len() {
        (Scan::Nothing, k)
    } else {
        let (stop, next) = look(k, settled, ts[i]);
        match stop {
            Some(true) => (Scan::Install(i as usize), next),
            Some(false) => (Scan::Ask(i as usize), next),
            None => scan_from(next, settled, ts, i + 1),
        }
    }
}

fn has_name(v: &Vec<String>, s: &str) -> (r: bool)
    ensures
        r == name_set(v@).contains(s@),
{
    let mut i: usize = 0;
    while i < v.len()
        invariant
            i <= v@.len(),
            forall|k: int| 0 <= k < i ==> (#[trigger] v@[k])@ != s@,
        decreases v@.len() - i,
    {
        if text::same(v[i].as_str(), s) {
            assert(v@[i as int]@ == s@);
            return true;
        }
        i = i + 1;
    }
    false
}

fn add_name(v: &mut Vec<String>, s: &str)
    ensures
        name_set(final(v)@) == name_set(old(v)@).insert(s@),
{
    let ghost before = v@;
    v.push(s.to_owned());
    proof {
        assert forall|x: Seq<char>| name_set(v@).contains(x) == name_set(before).insert(
            s@,
        ).contains(x) by {
            if name_set(before).contains(x) {
                let i = choose|i: int| 0 <= i < before.len() && (#[trigger] before[i])@ == x;
                assert(v@[i]@ == x);
            }
            if x == s@ {
                assert(v@[before.len() as int]@ == x);
            }
            if name_set(v@).contains(x) {
                let i = choose|i: int| 0 <= i < v@.len() && (#[trigger] v@[i])@ == x;
                if i < before.len() {
                    assert(before[i]@ == x);
                }
            }
        }
        assert(name_set(v@) =~= name_set(before).insert(s@));
    }
}

fn remove_name(v: &Vec<String>, s: &str) -> (r: Vec<String>)
    ensures
        name_set(r@) == name_set(v@).remove(s@),
{
    let mut r: Vec<String> = Vec::new();
    let mut i: usize = 0;
    assert(name_set(r@) =~= name_set(v@.take(0)).remove(s@));
    while i < v.len()
        invariant
            i <= v@.len(),
            name_set(r@) == name_set(v@.take(i as int)).remove(s@),
        decreases v@.len() - i,
    {
        let ghost part = v@.take(i as int);
        let ghost next = v@.take(i + 1);
        proof {
            assert(next =~= part.push(v@[i as int]));
            assert forall|x: Seq<char>| name_set(next).contains(x) == name_set(part).insert(
                v@[i as int]@,
            ).contains(x) by {
                if name_set(part).contains(x) {
                    let k = choose|k: int| 0 <= k < part.len() && (#[trigger] part[k])@ == x;
                    assert(next[k]@ == x);
                }
                if x == v@[i as int]@ {
                    assert(next[i as int]@ == x);
                }
                if name_set(next).contains(x) {
                    let k = choose|k: int| 0 <= k < next.len() && (#[trigger] next[k])@ == x;
                    if k < i {
                        assert(part[k]@ == x);
                    }
                }
            }
            assert(name_set(next) =~= name_set(part).insert(v@[i as int]@));
        }
        if !text::same(v[i].as_str(), s) {
            add_name(&mut r, v[i].as_str());
            assert(name_set(part).remove(s@).insert(v@[i as int]@) =~= name_set(part).insert(
                v@[i as int]@,
            ).remove(s@));
        } else {
            assert(name_set(part).remove(s@) =~= name_set(part).insert(v@[i as int]@).remove(s@));
        }
        i = i + 1;
    }
    assert(v@.take(v@.len() as int) =~= v@);
    r
}

fn has_id(v: &HashSet<u128>, x: u128) -> (r: bool)
    ensures
        r == v@.contains(x),
{
    broadcast use vstd::std_specs::hash::group_hash_axioms;

    v.contains(&x)
}

fn settle_id(v: &mut HashSet<u128>, x: u128)
    ensures
        final(v)@ == old(v)@.insert(x),
{
    broadcast use vstd::std_specs::hash::group_hash_axioms;

    v.insert(x);
}

fn add_id(v: &mut Vec<u128>, x: u128)
    ensures
        id_set(final(v)@) == id_set(old(v)@).insert(x),
{
    let ghost before = v@;
    v.push(x);
    proof {
        assert forall|y: u128| id_set(v@).contains(y) == id_set(before).insert(x).contains(y) by {
            if before.contains(y) {
                let i = choose|i: int| 0 <= i < before.len() && before[i] == y;
                assert(v@[i] == y);
            }
            if y == x {
                assert(v@[before.len() as int] == y);
            }
            if v@.contains(y) {
                let i = choose|i: int| 0 <= i < v@.len() && v@[i] == y;
                if i < before.len() {
                    assert(before[i] == y);
                }
            }
        }
        assert(id_set(v@) =~= id_set(before).insert(x));
    }
}

pub open spec fn seen(lanes: Seq<(u128, Option<Lane>)>) -> Seq<Seen> {
    Seq::new(
        lanes.len(),
        |i: int|
            Seen {
                id: lanes[i].0,
                concern: match lanes[i].1 {
                    Some(l) => Some(Concern { key: l.key@, verdict: l.verdict }),
                    None => None,
                },
            },
    )
}

impl Consents {
    /// Look for a terminal to ask about or to install for. `blocked`: a dialog
    /// is open, so nothing is looked for. Each terminal comes with its id and
    /// with what a tracker would cover in it.
    pub fn scan(&mut self, blocked: bool, lanes: &Vec<(u128, Option<Lane>)>) -> (r: Scan)
        ensures
            blocked ==> r == Scan::Nothing && final(self)@ == old(self)@,
            !blocked ==> (r, final(self)@) == scan_from(
                old(self)@,
                old(self)@.settled,
                seen(lanes@),
                0,
            ),
            r matches Scan::Install(i) ==> i < lanes@.len(),
            r matches Scan::Ask(i) ==> i < lanes@.len(),
    {
        if blocked {
            return Scan::Nothing;
        }
        let ghost ts = seen(lanes@);
        let ghost before = self@.settled;
        let mut settle: Vec<u128> = Vec::new();
        let mut i: usize = 0;
        let ghost mut k = self@;
        assert(self@.settled.union(id_set(settle@)) =~= self@.settled);
        let mut r = Scan::Nothing;
        while i < lanes.len()
            invariant_except_break
                r == Scan::Nothing,
            invariant
                i <= lanes@.len(),
                ts == seen(lanes@),
                before == old(self)@.settled,
                self.settled == old(self).settled,
                self@.settled == before,
                k == (Known { settled: before.union(id_set(settle@)), ..self@ }),
                scan_from(k, before, ts, i as int) == scan_from(old(self)@, before, ts, 0),
            ensures
                (r, k) == scan_from(old(self)@, before, ts, 0),
                k == (Known { settled: before.union(id_set(settle@)), ..self@ }),
                self.settled == old(self).settled,
                r matches Scan::Install(i) ==> i < lanes@.len(),
                r matches Scan::Ask(i) ==> i < lanes@.len(),
            decreases lanes@.len() - i,
        {
            let id: u128 = lanes[i].0;
            if !has_id(&self.settled, id) {
                if let Some(lane) = &lanes[i].1 {
                    let key = lane.key.as_str();
                    if has_name(&self.dismissed, key) || has_name(&self.done, key) {
                        add_id(&mut settle, id);
                        proof {
                            assert(before.union(id_set(settle@)) =~= k.settled.insert(id));
                            k = Known { settled: k.settled.insert(id), ..k };
                        }
                    } else {
                        match lane.verdict {
                            Some(true) => {
                                r = Scan::Install(i);
                                break;
                            },
                            Some(false) => {
                                add_name(&mut self.dismissed, key);
                                add_id(&mut settle, id);
                                proof {
                                    assert(before.union(id_set(settle@)) =~= k.settled.insert(id));
                                    k = Known {
                                        dismissed: k.dismissed.insert(key@),
                                        settled: k.settled.insert(id),
                                        ..k
                                    };
                                }
                            },
                            None => {
                                r = Scan::Ask(i);
                                break;
                            },
                        }
                    }
                }
            }
            i = i + 1;
        }
        self.settle_all(&settle);
        r
    }

    fn settle_all(&mut self, ids: &Vec<u128>)
        ensures
            final(self)@ == (Known {
                settled: old(self)@.settled.union(id_set(ids@)),
                ..old(self)@
            }),
    {
        let mut i: usize = 0;
        assert(self@.settled.union(id_set(ids@.take(0))) =~= self@.settled);
        while i < ids.len()
            invariant
                i <= ids@.len(),
                self.dismissed == old(self).dismissed,
                self.done == old(self).done,
                self@.settled == old(self)@.settled.union(id_set(ids@.take(i as int))),
            decreases ids@.len() - i,
        {
            let ghost part = ids@.take(i as int);
            let ghost next = ids@.take(i + 1);
            settle_id(&mut self.settled, ids[i]);
            proof {
                assert(next =~= part.push(ids@[i as int]));
                assert forall|x: u128| id_set(next).contains(x) == id_set(part).insert(
                    ids@[i as int],
                ).contains(x) by {
                    if part.contains(x) {
                        let j = choose|j: int| 0 <= j < part.len() && part[j] == x;
                        assert(next[j] == x);
                    }
                    if x == ids@[i as int] {
                        assert(next[i as int] == x);
                    }
                    if next.contains(x) {
                        let j = choose|j: int| 0 <= j < next.len() && next[j] == x;
                        if j < i {
                            assert(part[j] == x);
                        }
                    }
                }
                assert(old(self)@.settled.union(id_set(part)).insert(ids@[i as int]) =~= old(
                    self,
                )@.settled.union(id_set(next)));
            }
            i = i + 1;
        }
        assert(ids@.take(ids@.len() as int) =~= ids@);
    }

    /// An install for `key` begins.
    pub fn begin(&mut self, key: &str)
        ensures
            final(self)@ == (Known { done: old(self)@.done.insert(key@), ..old(self)@ }),
    {
        add_name(&mut self.done, key);
    }

    /// An install for `key` failed: it is not done, it is not to be asked about
    /// or tried again in this run, and every terminal is open to another look.
    pub fn fail(&mut self, key: &str)
        ensures
            final(self)@ == (Known {
                done: old(self)@.done.remove(key@),
                dismissed: old(self)@.dismissed.insert(key@),
                settled: Set::empty(),
            }),
    {
        self.done = remove_name(&self.done, key);
        add_name(&mut self.dismissed, key);
        self.settled = HashSet::new();
    }
}

#[derive(Clone, Copy, PartialEq, Eq, Structural, Debug)]
pub enum ToastKind {
    Info,
    Error,
}

/// A passing notice.
#[derive(Debug)]
pub struct Toast {
    pub kind: ToastKind,
    pub title: String,
    pub detail: String,
    /// Seconds that it stays.
    pub ttl_s: u32,
}

/// What an install came to.
#[derive(Debug)]
pub enum Installed {
    New,
    Already,
    Failed(String),
}

/// The notice of an install on `host` of the tracker of the assistant called
/// `name`: none where it was there already.
pub open spec fn host_notice(
    t: Option<Toast>,
    name: Seq<char>,
    host: Seq<char>,
    result: Installed,
) -> bool {
    match result {
        Installed::New => t matches Some(n) && n.kind == ToastKind::Info && n.ttl_s == 6
            && n.title@ == name + " session tracker added to "@ + host && n.detail@
            == "exact conversation restore is on for this host"@,
        Installed::Already => t is None,
        Installed::Failed(e) => t matches Some(n) && n.kind == ToastKind::Error && n.ttl_s == 8
            && n.title@ == name + " session tracker install on "@ + host + " failed"@
            && n.detail@ == e@,
    }
}

/// The notice of a codex tracker's install for a lane.
pub open spec fn codex_notice(t: Option<Toast>, key: Seq<char>, result: Installed) -> bool {
    match result {
        Installed::New => t matches Some(n) && n.kind == ToastKind::Info && n.ttl_s == 6
            && n.title@ == "Codex session tracker added ("@ + key_label(key) + ")"@ && n.detail@
            == "exact session restore is on for codex here"@,
        Installed::Already => t is None,
        Installed::Failed(e) => t matches Some(n) && n.kind == ToastKind::Error && n.ttl_s == 8
            && n.title@ == "Codex session tracker install failed ("@ + key_label(key) + ")"@
            && n.detail@ == e@,
    }
}

impl Consents {
    pub open spec fn after_install(k: Known, key: Seq<char>, result: Installed) -> Known {
        if result is Failed {
            Known {
                done: k.done.remove(key),
                dismissed: k.dismissed.insert(key),
                settled: Set::empty(),
            }
        } else {
            k
        }
    }

    /// Take in the result of an install on `host` of the tracker of the
    /// assistant called `name`.
    pub fn drain_claude_hooks(&mut self, name: &str, host: &str, result: &Installed) -> (t: Option<
        Toast,
    >)
        ensures
            host_notice(t, name@, host@, *result),
            final(self)@ == Consents::after_install(old(self)@, host@, *result),
    {
        match result {
            Installed::New => Some(
                Toast {
                    kind: ToastKind::Info,
                    title: complete::concat3(name, " session tracker added to ", host),
                    detail: "exact conversation restore is on for this host".to_owned(),
                    ttl_s: 6,
                },
            ),
            Installed::Already => None,
            Installed::Failed(e) => {
                self.fail(host);
                Some(
                    Toast {
                        kind: ToastKind::Error,
                        title: complete::concat3(name, " session tracker install on ", host).concat(
                            " failed",
                        ),
                        detail: e.clone(),
                        ttl_s: 8,
                    },
                )
            },
        }
    }

    /// Take in the result of a codex tracker's install for the lane of `key`.
    pub fn drain_codex_hooks(&mut self, key: &str, result: &Installed) -> (t: Option<Toast>)
        ensures
            codex_notice(t, key@, *result),
            final(self)@ == Consents::after_install(old(self)@, key@, *result),
    {
        let label = codex_key_label(key);
        match result {
            Installed::New => Some(
                Toast {
                    kind: ToastKind::Info,
                    title: complete::concat3("Codex session tracker added (", label.as_str(), ")"),
                    detail: "exact session restore is on for codex here".to_owned(),
                    ttl_s: 6,
                },
            ),
            Installed::Already => None,
            Installed::Failed(e) => {
                self.fail(key);
                Some(
                    Toast {
                        kind: ToastKind::Error,
                        title: complete::concat3(
                            "Codex session tracker install failed (",
                            label.as_str(),
                            ")",
                        ),
                        detail: e.clone(),
                        ttl_s: 8,
                    },
                )
            },
        }
    }
}

/// The terminals as a scan for the trackers of one assistant on ssh hosts sees
/// them.
pub open spec fn hosts_seen(ts: Seq<TermInfo>, adapter: Seq<char>, hosts: Verdicts) -> Seq<Seen> {
    Seq::new(
        ts.len(),
        |i: int| Seen { id: ts[i].id, concern: host_concern(ts[i], adapter, hosts) },
    )
}

/// The terminals as a scan for codex trackers sees them.
pub open spec fn codex_seen(ts: Seq<TermInfo>, v: CodexVerdicts) -> Seq<Seen> {
    Seq::new(ts.len(), |i: int| Seen { id: ts[i].id, concern: codex_concern(ts[i], v) })
}

impl Consents {
    /// Look for an ssh terminal whose first use of the assistant with `adapter`
    /// calls for the question, or whose host has a yes.
    pub fn scan_claude_hook_consent(
        &mut self,
        blocked: bool,
        terminals: &Vec<TermInfo>,
        adapter: &str,
        hosts: &Verdicts,
    ) -> (r: Scan)
        ensures
            blocked ==> r == Scan::Nothing && final(self)@ == old(self)@,
            !blocked ==> (r, final(self)@) == scan_from(
                old(self)@,
                old(self)@.settled,
                hosts_seen(terminals@, adapter@, *hosts),
                0,
            ),
            r matches Scan::Install(i) ==> i < terminals@.len(),
            r matches Scan::Ask(i) ==> i < terminals@.len(),
    {
        let mut lanes: Vec<(u128, Option<Lane>)> = Vec::new();
        let mut i: usize = 0;
        while i < terminals.len()
            invariant
                i <= terminals@.len(),
                lanes@.len() == i,
                forall|k: int|
                    0 <= k < i ==> (#[trigger] lanes@[k]).0 == terminals@[k].id && is_lane(
                        lanes@[k].1,
                        terminals@[k].id,
                        host_concern(terminals@[k], adapter@, *hosts),
                    ),
            decreases terminals@.len() - i,
        {
            lanes.push((terminals[i].id, host_lane_of(&terminals[i], adapter, hosts)));
            i = i + 1;
        }
        assert(seen(lanes@) =~= hosts_seen(terminals@, adapter@, *hosts));
        self.scan(blocked, &lanes)
    }

    /// Look for a terminal whose first use of codex calls for the question, or
    /// whose lane has a yes.
    pub fn scan_codex_hook_consent(
        &mut self,
        blocked: bool,
        terminals: &Vec<TermInfo>,
        verdicts: &CodexVerdicts,
    ) -> (r: Scan)
        ensures
            blocked ==> r == Scan::Nothing && final(self)@ == old(self)@,
            !blocked ==> (r, final(self)@) == scan_from(
                old(self)@,
                old(self)@.settled,
                codex_seen(terminals@, *verdicts),
                0,
            ),
            r matches Scan::Install(i) ==> i < terminals@.len(),
            r matches Scan::Ask(i) ==> i < terminals@.len(),
    {
        let mut lanes: Vec<(u128, Option<Lane>)> = Vec::new();
        let mut i: usize = 0;
        while i < terminals.len()
            invariant
                i <= terminals@.len(),
                lanes@.len() == i,
                forall|k: int|
                    0 <= k < i ==> (#[trigger] lanes@[k]).0 == terminals@[k].id && is_lane(
                        lanes@[k].1,
                        terminals@[k].id,
                        codex_concern(terminals@[k], *verdicts),
                    ),
            decreases terminals@.len() - i,
        {
            lanes.push((terminals[i].id, codex_lane_of(&terminals[i], verdicts)));
            i = i + 1;
        }
        assert(seen(lanes@) =~= codex_seen(terminals@, *verdicts));
        self.scan(blocked, &lanes)
    }
}

/// A scan installs only on a yes, asks only where there is no answer, and does
/// neither about what was dismissed or done, nor about a settled terminal. It
/// forgets nothing.
pub proof fn scan_respects_answers(k: Known, settled: Set<u128>, ts: Seq<Seen>, i: int)
    requires
        0 <= i <= ts.len() <= usize::MAX,
    ensures
        ({
            let (r, after) = scan_from(k, settled, ts, i);
            &&& r matches Scan::Install(j) ==> j < ts.len() && chosen(k, settled, ts[j as int])
                && (ts[j as int].concern->0).verdict == Some(true)
            &&& r matches Scan::Ask(j) ==> j < ts.len() && chosen(k, settled, ts[j as int])
                && (ts[j as int].concern->0).verdict is None
            &&& k.dismissed.subset_of(after.dismissed)
            &&& k.settled.subset_of(after.settled)
            &&& after.done == k.done
        }),
    decreases ts.len() - i,
{
    if i < ts.len() {
        let (stop, next) = look(k, settled, ts[i]);
        if stop is None {
            scan_respects_answers(next, settled, ts, i + 1);
        }
    }
}

/// A terminal that is neither settled nor about something dismissed or done.
pub open spec fn chosen(k: Known, settled: Set<u128>, t: Seen) -> bool {
    &&& t.concern is Some
    &&& !settled.contains(t.id)
    &&& !k.dismissed.contains((t.concern->0).key)
    &&& !k.done.contains((t.concern->0).key)
}

/// What an install failed for is left alone for the rest of the run: no later
/// scan installs for it or asks about it, whatever was answered.
pub proof fn a_failed_install_is_not_tried_again(
    k: Known,
    key: Seq<char>,
    result: Installed,
    ts: Seq<Seen>,
)
    requires
        result is Failed,
        ts.len() <= usize::MAX,
    ensures
        ({
            let after = Consents::after_install(k, key, result);
            let (r, _) = scan_from(after, after.settled, ts, 0);
            &&& r matches Scan::Install(i) ==> (ts[i as int].concern->0).key != key
            &&& r matches Scan::Ask(i) ==> (ts[i as int].concern->0).key != key
        }),
{
    let after = Consents::after_install(k, key, result);
    scan_respects_answers(after, after.settled, ts, 0);
}

/// Lanes have different identities: no two of them share their answers.
pub proof fn lane_keys_are_distinct(a: CodexLane, b: CodexLane)
    requires
        a.key_text() == b.key_text(),
    ensures
        match (a, b) {
            (CodexLane::LocalWindows, CodexLane::LocalWindows) => true,
            (CodexLane::LocalWsl { distro: x }, CodexLane::LocalWsl { distro: y }) => x@ == y@,
            (CodexLane::Ssh { host: x }, CodexLane::Ssh { host: y }) => x@ == y@,
            _ => false,
        },
{
    reveal_strlit("local:windows");
    reveal_strlit("local:wsl:");
    reveal_strlit("ssh:");
    let k = a.key_text();
    match (a, b) {
        (CodexLane::LocalWindows, CodexLane::LocalWindows) => {},
        (CodexLane::LocalWsl { distro: x }, CodexLane::LocalWsl { distro: y }) => {
            assert(k.skip(10) =~= x@);
            assert(b.key_text().skip(10) =~= y@);
        },
        (CodexLane::Ssh { host: x }, CodexLane::Ssh { host: y }) => {
            assert(k.skip(4) =~= x@);
            assert(b.key_text().skip(4) =~= y@);
        },
        (CodexLane::LocalWindows, CodexLane::LocalWsl { distro: y }) => {
            assert(k[7] == 'i');
            assert(b.key_text()[7] == 's');
        },
        (CodexLane::LocalWsl { distro: y }, CodexLane::LocalWindows) => {
            assert(k[7] == 's');
            assert(b.key_text()[7] == 'i');
        },
        (CodexLane::Ssh { .. }, _) => {
            assert(k[0] == 's');
            assert(b.key_text()[0] == 'l');
        },
        (_, CodexLane::Ssh { .. }) => {
            assert(k[0] == 'l');
            assert(b.key_text()[0] == 's');
        },
    }
}

} // verus!
