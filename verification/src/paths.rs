//! Which directory a word's completions come from, and how they are written
//! back.

use vstd::prelude::*;
use vstd::string::*;

use crate::complete;
use crate::complete::Family;
use crate::state;
use crate::text;

verus! {

pub open spec fn alphabetic(c: char) -> bool {
    'a' <= c <= 'z' || 'A' <= c <= 'Z'
}

pub open spec fn ascii_upper(c: char) -> char {
    if 'a' <= c <= 'z' {
        ((c as u8) - 32) as char
    } else {
        c
    }
}

pub open spec fn separator(c: char) -> bool {
    c == '/' || c == '\\'
}

/// `s` with every `a` as `b`.
pub open spec fn replaced(s: Seq<char>, a: char, b: char) -> Seq<char> {
    s.map_values(
        |c: char|
            if c == a {
                b
            } else {
                c
            },
    )
}

/// `s` without the `c` at its end.
pub open spec fn without_trailing(s: Seq<char>, c: char) -> Seq<char>
    decreases s.len(),
{
    if s.len() > 0 && s.last() == c {
        without_trailing(s.drop_last(), c)
    } else {
        s
    }
}

/// The path starts with a drive.
pub open spec fn on_drive(s: Seq<char>) -> bool {
    s.len() >= 2 && alphabetic(s[0]) && s[1] == ':'
}

/// The path is `/mnt/`, a drive letter, and nothing or a slash behind.
pub open spec fn mounted(p: Seq<char>) -> bool {
    text::has_prefix(p, "/mnt/"@) && p.len() >= 6 && alphabetic(p[5]) && (p.len() == 6 || p[6]
        == '/')
}

/// What a Windows process can list of a posix path: `/mnt/<drive>` is the
/// drive, any other absolute path is the named distribution's.
pub open spec fn local_path(p: Seq<char>, distro: Option<Seq<char>>) -> Option<Seq<char>> {
    if mounted(p) {
        let rest = if p.len() > 7 {
            p.skip(7)
        } else {
            Seq::empty()
        };
        Some(seq![ascii_upper(p[5]), ':', '\\'] + replaced(rest, '/', '\\'))
    } else if p.len() > 0 && p[0] == '/' {
        match distro {
            Some(d) => Some(
                "\\\\wsl.localhost\\"@ + d + seq!['\\'] + replaced(p.skip(1), '/', '\\'),
            ),
            None => None,
        }
    } else {
        None
    }
}

/// Where a shell of the subsystem sees a Windows path on a drive: under
/// `/mnt`. A path relative to a drive has no such place.
pub open spec fn mounted_path(c: Seq<char>) -> Option<Seq<char>> {
    if !on_drive(c) {
        None
    } else if c.len() == 2 {
        Some("/mnt/"@.push(text::ascii_lower(c[0])))
    } else if separator(c[2]) {
        Some("/mnt/"@.push(text::ascii_lower(c[0])) + replaced(c.skip(2), '\\', '/'))
    } else {
        None
    }
}

/// What is needed to list and write back a word's completions.
pub struct Listing {
    pub fs_dir: Seq<char>,
    pub prefix: Seq<char>,
    pub render_parent: Seq<char>,
    pub sep: char,
    pub ci: bool,
    pub posix_hidden: bool,
}

/// The plan of one completion.
#[derive(Debug)]
pub struct Plan {
    /// The local directory to list.
    pub fs_dir: String,
    /// What the names must start with.
    pub prefix: String,
    /// What precedes the name in the word, as it was typed.
    pub render_parent: String,
    /// What is written behind a directory.
    pub sep: char,
    /// Case is ignored.
    pub ci: bool,
    /// Names that start with a dot are hidden unless asked for.
    pub posix_hidden: bool,
}

impl View for Plan {
    type V = Listing;

    open spec fn view(&self) -> Listing {
        Listing {
            fs_dir: self.fs_dir@,
            prefix: self.prefix@,
            render_parent: self.render_parent@,
            sep: self.sep,
            ci: self.ci,
            posix_hidden: self.posix_hidden,
        }
    }
}

pub open spec fn plan_view(p: Option<Plan>) -> Option<Listing> {
    match p {
        Some(x) => Some(x@),
        None => None,
    }
}

/// The position behind the last separator of a word.
pub open spec fn name_start(value: Seq<char>) -> int {
    let a = text::last_index(value, '/');
    let b = text::last_index(value, '\\');
    if a > b {
        a + 1
    } else {
        b + 1
    }
}

/// The separator of a word: the one that it uses, else the backslash.
pub open spec fn word_sep(value: Seq<char>) -> char {
    if value.contains('/') && !value.contains('\\') {
        '/'
    } else {
        '\\'
    }
}

/// The directory, where it is on a drive.
pub open spec fn drive_dir(cwd: Option<Seq<char>>) -> Option<Seq<char>> {
    match cwd {
        Some(c) if on_drive(c) => Some(c),
        _ => None,
    }
}

/// A relative path behind a directory on a drive.
pub open spec fn joined_path(dir: Seq<char>, rel: Seq<char>) -> Seq<char> {
    if dir.len() == 2 || separator(dir.last()) {
        dir + rel
    } else {
        dir.push('\\') + rel
    }
}

/// Where the names behind `parent` are listed, and how `parent` is written
/// back. A tilde is the home directory; cmd, which has none, gets it spelled
/// out. A path from the root is on the current drive.
pub open spec fn win_parent(
    is_cmd: bool,
    cwd: Option<Seq<char>>,
    home: Option<Seq<char>>,
    parent: Seq<char>,
) -> Option<(Seq<char>, Seq<char>)> {
    if parent.len() == 0 {
        match drive_dir(cwd) {
            Some(c) => Some((c, parent)),
            None => None,
        }
    } else if parent.len() > 1 && parent[0] == '~' && separator(parent[1]) {
        match home {
            Some(h) => Some(
                (
                    h + parent.skip(1),
                    if is_cmd {
                        h + parent.skip(1)
                    } else {
                        parent
                    },
                ),
            ),
            None => None,
        }
    } else if on_drive(parent) || text::has_prefix(parent, "\\\\"@) {
        Some((parent, parent))
    } else if separator(parent[0]) {
        match drive_dir(cwd) {
            Some(c) => Some((c.take(2) + parent, parent)),
            None => None,
        }
    } else {
        match drive_dir(cwd) {
            Some(c) => Some((joined_path(c, parent), parent)),
            None => None,
        }
    }
}

/// A word that is relative to the directory of a drive, wherever that is: a
/// drive, and no separator behind it.
pub open spec fn drive_relative(value: Seq<char>) -> bool {
    value.len() > 2 && on_drive(value) && !separator(value[2])
}

/// The plan in the Windows namespace. A bare drive lists its root. A bare
/// tilde and a word relative to a drive's own directory have none.
pub open spec fn win_listing(
    is_cmd: bool,
    cwd: Option<Seq<char>>,
    home: Option<Seq<char>>,
    value: Seq<char>,
) -> Option<Listing> {
    let sep = word_sep(value);
    if value == seq!['~'] || drive_relative(value) {
        None
    } else if value.len() == 2 && on_drive(value) {
        Some(
            Listing {
                fs_dir: value.push('\\'),
                prefix: Seq::empty(),
                render_parent: value.push(sep),
                sep,
                ci: true,
                posix_hidden: false,
            },
        )
    } else {
        match win_parent(is_cmd, cwd, home, value.take(name_start(value))) {
            Some((fs_dir, render_parent)) => Some(
                Listing {
                    fs_dir,
                    prefix: value.skip(name_start(value)),
                    render_parent,
                    sep,
                    ci: true,
                    posix_hidden: false,
                },
            ),
            None => None,
        }
    }
}

/// The posix directory of `parent`: itself where it is absolute, else behind
/// the current one.
pub open spec fn posix_parent(cwd: Option<Seq<char>>, parent: Seq<char>) -> Option<Seq<char>> {
    if parent.len() > 0 && parent[0] == '/' {
        Some(parent)
    } else {
        match cwd {
            None => None,
            Some(c) => {
                let base = if on_drive(c) {
                    mounted_path(c)
                } else if c.len() > 0 && c[0] == '/' {
                    Some(c)
                } else {
                    None
                };
                match base {
                    Some(b) => Some(without_trailing(b, '/').push('/') + parent),
                    None => None,
                }
            },
        }
    }
}

/// The plan in the posix namespace of a Windows subsystem.
pub open spec fn wsl_listing(
    cwd: Option<Seq<char>>,
    distro: Option<Seq<char>>,
    value: Seq<char>,
) -> Option<Listing> {
    let k = text::last_index(value, '/') + 1;
    if value.len() > 0 && value[0] == '~' {
        None
    } else {
        match posix_parent(cwd, value.take(k)) {
            None => None,
            Some(dir) => match local_path(dir, distro) {
                None => None,
                Some(fs_dir) => Some(
                    Listing {
                        fs_dir,
                        prefix: value.skip(k),
                        render_parent: value.take(k),
                        sep: '/',
                        ci: false,
                        posix_hidden: true,
                    },
                ),
            },
        }
    }
}

/// The plan that completes the word `value`, if it can be completed.
pub open spec fn listing(
    fam: Family,
    cwd: Option<Seq<char>>,
    home: Option<Seq<char>>,
    value: Seq<char>,
) -> Option<Listing> {
    match fam {
        Family::Ssh => None,
        Family::Wsl { distro } => wsl_listing(cwd, complete::opt_text(distro), value),
        _ => win_listing(fam is Cmd, cwd, home, value),
    }
}

fn is_alphabetic(c: char) -> (r: bool)
    ensures
        r == alphabetic(c),
{
    ('a' <= c && c <= 'z') || ('A' <= c && c <= 'Z')
}

fn to_upper(c: char) -> (r: char)
    ensures
        r == ascii_upper(c),
{
    if 'a' <= c && c <= 'z' {
        ((c as u8) - 32) as char
    } else {
        c
    }
}

fn is_separator(c: char) -> (r: bool)
    ensures
        r == separator(c),
{
    c == '/' || c == '\\'
}

/// Whether the path starts with a drive.
pub fn win_shaped(v: &Vec<char>) -> (r: bool)
    ensures
        r == on_drive(v@),
{
    v.len() >= 2 && is_alphabetic(v[0]) && v[1] == ':'
}

/// `out` with `v[from..]` behind it, every `a` in it as `b`.
pub(crate) fn push_replaced(out: &mut String, v: &Vec<char>, from: usize, a: char, b: char)
    requires
        from <= v@.len(),
    ensures
        final(out)@ == old(out)@ + replaced(v@.skip(from as int), a, b),
{
    let mut i: usize = from;
    assert(out@ =~= old(out)@ + replaced(v@.subrange(from as int, from as int), a, b));
    while i < v.len()
        invariant
            from <= i <= v@.len(),
            out@ == old(out)@ + replaced(v@.subrange(from as int, i as int), a, b),
        decreases v@.len() - i,
    {
        let c = v[i];
        out.push(
            if c == a {
                b
            } else {
                c
            },
        );
        i = i + 1;
        assert(out@ =~= old(out)@ + replaced(v@.subrange(from as int, i as int), a, b));
    }
    assert(v@.subrange(from as int, v@.len() as int) =~= v@.skip(from as int));
}

/// What a Windows process can list of a posix path.
pub fn posix_to_local(p: &str, distro: Option<&str>) -> (r: Option<String>)
    ensures
        complete::opt_text(r) == local_path(p@, state::opt_str(distro)),
{
    let v = text::chars_of(p);
    if text::starts_with(&v, "/mnt/") && v.len() >= 6 && is_alphabetic(v[5]) && (v.len() == 6
        || v[6] == '/') {
        let mut out = String::new();
        out.push(to_upper(v[5]));
        out.push(':');
        out.push('\\');
        let from: usize = if v.len() > 7 {
            7
        } else {
            v.len()
        };
        assert(out@ =~= seq![ascii_upper(v@[5]), ':', '\\']);
        push_replaced(&mut out, &v, from, '/', '\\');
        proof {
            if v@.len() <= 7 {
                assert(v@.skip(from as int) =~= Seq::<char>::empty());
            }
        }
        return Some(out);
    }
    if v.len() > 0 && v[0] == '/' {
        if let Some(d) = distro {
            let mut out = "\\\\wsl.localhost\\".to_owned();
            out.append(d);
            out.push('\\');
            assert(out@ =~= "\\\\wsl.localhost\\"@ + d@ + seq!['\\']);
            push_replaced(&mut out, &v, 1, '/', '\\');
            return Some(out);
        }
    }
    None
}

/// Where a shell of the subsystem sees a Windows path.
pub fn translate_wsl(c: &str) -> (r: Option<String>)
    ensures
        complete::opt_text(r) == mounted_path(c@),
{
    let v = text::chars_of(c);
    if !win_shaped(&v) {
        return None;
    }
    if v.len() > 2 && !is_separator(v[2]) {
        return None;
    }
    let mut out = "/mnt/".to_owned();
    out.push(text::to_ascii_lower(v[0]));
    if v.len() > 2 {
        push_replaced(&mut out, &v, 2, '\\', '/');
    }
    Some(out)
}

/// The directory as characters, where it is on a drive.
fn drive_cwd(cwd: Option<&str>) -> (r: Option<Vec<char>>)
    ensures
        r is Some == drive_dir(state::opt_str(cwd)) is Some,
        r matches Some(v) ==> drive_dir(state::opt_str(cwd)) == Some(v@),
{
    match cwd {
        None => None,
        Some(c) => {
            let v = text::chars_of(c);
            if win_shaped(&v) {
                Some(v)
            } else {
                None
            }
        },
    }
}

fn win_parent_of(
    is_cmd: bool,
    cwd: Option<&str>,
    home: Option<&str>,
    parent: &Vec<char>,
) -> (r: Option<(String, String)>)
    ensures
        r is Some == win_parent(is_cmd, state::opt_str(cwd), state::opt_str(home), parent@) is Some,
        r matches Some((a, b)) ==> win_parent(
            is_cmd,
            state::opt_str(cwd),
            state::opt_str(home),
            parent@,
        ) == Some((a@, b@)),
{
    let n: usize = parent.len();
    let spelled = text::string_of(parent, 0, n);
    assert(parent@.subrange(0, n as int) =~= parent@);
    if n == 0 {
        return match drive_cwd(cwd) {
            Some(c) => {
                assert(c@.subrange(0, c@.len() as int) =~= c@);
                Some((text::string_of(&c, 0, c.len()), spelled))
            },
            None => None,
        };
    }
    if n > 1 && parent[0] == '~' && is_separator(parent[1]) {
        return match home {
            Some(h) => {
                let rest = text::string_of(parent, 1, n);
                assert(parent@.subrange(1, n as int) =~= parent@.skip(1));
                let fs = h.to_owned().concat(rest.as_str());
                let render = if is_cmd {
                    fs.clone()
                } else {
                    spelled
                };
                Some((fs, render))
            },
            None => None,
        };
    }
    if win_shaped(parent) || text::starts_with(parent, "\\\\") {
        return Some((spelled.clone(), spelled));
    }
    match drive_cwd(cwd) {
        None => None,
        Some(c) => {
            let fs = if is_separator(parent[0]) {
                let drive = text::string_of(&c, 0, 2);
                assert(c@.subrange(0, 2) =~= c@.take(2));
                drive.concat(spelled.as_str())
            } else {
                let mut dir = text::string_of(&c, 0, c.len());
                assert(c@.subrange(0, c@.len() as int) =~= c@);
                if !(c.len() == 2 || is_separator(c[c.len() - 1])) {
                    dir.push('\\');
                }
                dir.concat(spelled.as_str())
            };
            Some((fs, spelled))
        },
    }
}

fn plan_win(is_cmd: bool, cwd: Option<&str>, home: Option<&str>, value: &str) -> (r: Option<Plan>)
    ensures
        plan_view(r) == win_listing(is_cmd, state::opt_str(cwd), state::opt_str(home), value@),
{
    let v = text::chars_of(value);
    let n: usize = v.len();
    assert(v@.subrange(0, n as int) =~= v@);
    let sep: char = if text::holds(&v, 0, n, '/') && !text::holds(&v, 0, n, '\\') {
        '/'
    } else {
        '\\'
    };
    if n == 1 && v[0] == '~' {
        assert(value@ =~= seq!['~']);
        return None;
    }
    if n > 2 && win_shaped(&v) && !is_separator(v[2]) {
        return None;
    }
    if n == 2 && win_shaped(&v) {
        let mut fs_dir = value.to_owned();
        fs_dir.push('\\');
        let mut render_parent = value.to_owned();
        render_parent.push(sep);
        let prefix = String::new();
        assert(prefix@ =~= Seq::<char>::empty());
        return Some(Plan { fs_dir, prefix, render_parent, sep, ci: true, posix_hidden: false });
    }
    let a: usize = text::after_last(&v, 0, n, '/');
    let b: usize = text::after_last(&v, 0, n, '\\');
    let k: usize = if a > b {
        a
    } else {
        b
    };
    let parent = text::chars_of(text::string_of(&v, 0, k).as_str());
    assert(v@.subrange(0, k as int) =~= v@.take(k as int));
    assert(v@.subrange(k as int, n as int) =~= v@.skip(k as int));
    match win_parent_of(is_cmd, cwd, home, &parent) {
        None => None,
        Some((fs_dir, render_parent)) => Some(
            Plan {
                fs_dir,
                prefix: text::string_of(&v, k, n),
                render_parent,
                sep,
                ci: true,
                posix_hidden: false,
            },
        ),
    }
}

/// `v` without the slashes at its end.
fn trailing_off(v: &Vec<char>, c: char) -> (n: usize)
    ensures
        n <= v@.len(),
        v@.take(n as int) == without_trailing(v@, c),
{
    let mut n: usize = v.len();
    assert(v@.take(n as int) =~= v@);
    while n > 0 && v[n - 1] == c
        invariant
            n <= v@.len(),
            without_trailing(v@.take(n as int), c) == without_trailing(v@, c),
        decreases n,
    {
        proof {
            assert(v@.take(n as int).drop_last() =~= v@.take(n - 1));
            assert(v@.take(n as int).last() == v@[n - 1]);
        }
        n = n - 1;
    }
    proof {
        if n > 0 {
            assert(v@.take(n as int).last() == v@[n - 1]);
        }
    }
    n
}

fn posix_dir(cwd: Option<&str>, parent: &str) -> (r: Option<String>)
    ensures
        complete::opt_text(r) == posix_parent(state::opt_str(cwd), parent@),
{
    let p = text::chars_of(parent);
    if p.len() > 0 && p[0] == '/' {
        return Some(parent.to_owned());
    }
    let c = match cwd {
        Some(c) => c,
        None => {
            return None;
        },
    };
    let v = text::chars_of(c);
    let base = if win_shaped(&v) {
        translate_wsl(c)
    } else if v.len() > 0 && v[0] == '/' {
        Some(c.to_owned())
    } else {
        None
    };
    match base {
        None => None,
        Some(b) => {
            let w = text::chars_of(b.as_str());
            let n: usize = trailing_off(&w, '/');
            let mut dir = text::string_of(&w, 0, n);
            assert(w@.subrange(0, n as int) =~= w@.take(n as int));
            dir.push('/');
            dir.append(parent);
            Some(dir)
        },
    }
}

fn plan_wsl(cwd: Option<&str>, distro: Option<&str>, value: &str) -> (r: Option<Plan>)
    ensures
        plan_view(r) == wsl_listing(state::opt_str(cwd), state::opt_str(distro), value@),
{
    let v = text::chars_of(value);
    let n: usize = v.len();
    assert(v@.subrange(0, n as int) =~= v@);
    if n > 0 && v[0] == '~' {
        return None;
    }
    let k: usize = text::after_last(&v, 0, n, '/');
    let parent = text::string_of(&v, 0, k);
    assert(v@.subrange(0, k as int) =~= v@.take(k as int));
    assert(v@.subrange(k as int, n as int) =~= v@.skip(k as int));
    let dir = match posix_dir(cwd, parent.as_str()) {
        Some(d) => d,
        None => {
            return None;
        },
    };
    match posix_to_local(dir.as_str(), distro) {
        None => None,
        Some(fs_dir) => Some(
            Plan {
                fs_dir,
                prefix: text::string_of(&v, k, n),
                render_parent: parent,
                sep: '/',
                ci: false,
                posix_hidden: true,
            },
        ),
    }
}

/// The plan that completes the word `value`.
pub fn plan(fam: &Family, cwd: Option<&str>, home: Option<&str>, value: &str) -> (r: Option<Plan>)
    ensures
        plan_view(r) == listing(*fam, state::opt_str(cwd), state::opt_str(home), value@),
{
    match fam {
        Family::Ssh => None,
        Family::Wsl { distro } => match distro {
            Some(d) => plan_wsl(cwd, Some(d.as_str()), value),
            None => plan_wsl(cwd, None, value),
        },
        Family::Cmd => plan_win(true, cwd, home, value),
        _ => plan_win(false, cwd, home, value),
    }
}

/// A bare tilde is never completed, nor is a word relative to the directory of
/// a drive: neither names a place that can be listed for certain.
pub proof fn uncertain_words_are_left_alone(
    fam: Family,
    cwd: Option<Seq<char>>,
    home: Option<Seq<char>>,
    value: Seq<char>,
)
    requires
        value == seq!['~'] || !(fam is Wsl) && drive_relative(value),
    ensures
        listing(fam, cwd, home, value) is None,
{
}

} // verus!
