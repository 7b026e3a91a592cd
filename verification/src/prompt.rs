//! What a grid row at the cursor says: a secret being asked for, a question
//! to be answered, a shell prompt.

use vstd::prelude::*;

use crate::text;

verus! {

/// What the conversation before the shell is asking, read from the text of
/// the cursor's row.
#[derive(Clone, Copy, PartialEq, Eq, Structural, Debug)]
pub enum AuthPrompt {
    /// `...password:` or `Enter passphrase for key '...':`. Echo is off.
    Password,
    /// `...(yes/no/[fingerprint])?`, the host-key confirmation.
    HostKey,
    Neither,
}

/// `kw` stands in `s` with no colon behind it.
pub open spec fn trails(s: Seq<char>, kw: Seq<char>) -> bool {
    exists|i: int| #[trigger] text::occurs_at(s, kw, i) && !s.skip(i + kw.len()).contains(':')
}

/// A secret is named behind the last colon of `s`.
pub open spec fn names_secret(s: Seq<char>) -> bool {
    trails(s, "password"@) || trails(s, "passphrase"@) || trails(s, "passcode"@)
}

/// The row, but for trailing white space, ends as a host-key question does;
/// or it ends in a colon, and what precedes it names a secret in lower case.
pub open spec fn auth_prompt(row: Seq<char>) -> AuthPrompt {
    let t = text::trimmed_end(row);
    if text::has_suffix(t, "(yes/no)?"@) || text::has_suffix(t, "(yes/no/[fingerprint])?"@) {
        AuthPrompt::HostKey
    } else if t.len() > 0 && t.last() == ':' && names_secret(text::lowercase(t.drop_last())) {
        AuthPrompt::Password
    } else {
        AuthPrompt::Neither
    }
}

fn keyword_trails(v: &Vec<char>, kw: &str) -> (r: bool)
    requires
        !kw@.contains(':'),
    ensures
        r == trails(v@, kw@),
{
    let key = text::chars_of(kw);
    let from: usize = text::after_last(v, 0, v.len(), ':');
    proof {
        assert(v@.subrange(0, v@.len() as int) =~= v@);
        text::lemma_last_index(v@, ':');
    }
    let mut i: usize = from;
    while i < v.len()
        invariant
            from <= i <= v@.len(),
            key@ == kw@,
            from == text::last_index(v@, ':') + 1,
            forall|k: int| from <= k < i ==> !#[trigger] text::occurs_at(v@, kw@, k),
        decreases v@.len() - i,
    {
        if text::stands_at(v, &key, i) {
            proof {
                text::lemma_last_index(v@, ':');
                let rest = v@.skip(i + kw@.len());
                assert forall|k: int| 0 <= k < rest.len() implies #[trigger] rest[k] != ':' by {
                    assert(rest[k] == v@[i + kw@.len() + k]);
                }
            }
            return true;
        }
        i = i + 1;
    }
    if text::stands_at(v, &key, v.len()) {
        proof {
            assert(!v@.skip(v@.len() + kw@.len() as int).contains(':'));
        }
        return true;
    }
    proof {
        assert forall|k: int| #[trigger] text::occurs_at(v@, kw@, k) implies v@.skip(
            k + kw@.len(),
        ).contains(':') by {
            text::lemma_last_index(v@, ':');
            let last = text::last_index(v@, ':');
            if k < from {
                if last < k + kw@.len() {
                    assert(v@.subrange(k, k + kw@.len())[last - k] == ':');
                    assert(kw@[last - k] == ':');
                    assert(kw@.contains(':'));
                } else {
                    assert(v@.skip(k + kw@.len())[last - k - kw@.len()] == ':');
                }
            }
        }
    }
    false
}

/// Whether a secret is named behind the last colon of `lower`.
pub fn secret_named(lower: &str) -> (r: bool)
    ensures
        r == names_secret(lower@),
{
    proof {
        reveal_strlit("password");
        reveal_strlit("passphrase");
        reveal_strlit("passcode");
        assert(!"password"@.contains(':'));
        assert(!"passphrase"@.contains(':'));
        assert(!"passcode"@.contains(':'));
    }
    let v = text::chars_of(lower);
    keyword_trails(&v, "password") || keyword_trails(&v, "passphrase") || keyword_trails(
        &v,
        "passcode",
    )
}

pub fn detect_auth_prompt(row: &str) -> (r: AuthPrompt)
    ensures
        r == auth_prompt(row@),
{
    let v = text::chars_of(text::trim_end(row).as_str());
    if text::ends_with(&v, "(yes/no)?") || text::ends_with(&v, "(yes/no/[fingerprint])?") {
        return AuthPrompt::HostKey;
    }
    if v.len() > 0 && v[v.len() - 1] == ':' {
        let body = text::string_of(&v, 0, v.len() - 1);
        assert(v@.subrange(0, v@.len() - 1) =~= v@.drop_last());
        let lower = body.as_str().to_lowercase();
        if secret_named(lower.as_str()) {
            return AuthPrompt::Password;
        }
    }
    AuthPrompt::Neither
}

/// Which line the lane of a nested raw shell shows.
#[derive(Clone, Copy, PartialEq, Eq, Structural, Debug)]
pub enum NestedShellLine {
    /// A password is being asked for at the cursor. Echo is off.
    Password,
    /// The generic statement: no integration here, typing is raw.
    Generic,
}

pub open spec fn nested_line(row: Seq<char>) -> NestedShellLine {
    if auth_prompt(row) == AuthPrompt::Password {
        NestedShellLine::Password
    } else {
        NestedShellLine::Generic
    }
}

pub fn nested_shell_line(cursor_row: &str) -> (r: NestedShellLine)
    ensures
        r == nested_line(cursor_row@),
{
    if detect_auth_prompt(cursor_row) == AuthPrompt::Password {
        NestedShellLine::Password
    } else {
        NestedShellLine::Generic
    }
}

/// The row ends as a yes-or-no confirmation does, capitals or not.
pub open spec fn confirms(row: Seq<char>) -> bool {
    let t = text::ascii_lowered(text::trimmed_end(row));
    ||| text::has_suffix(t, "(y/n)?"@)
    ||| text::has_suffix(t, "(y/n)"@)
    ||| text::has_suffix(t, "(y/n):"@)
    ||| text::has_suffix(t, "[y/n]"@)
    ||| text::has_suffix(t, "[y/n]?"@)
    ||| text::has_suffix(t, "[y/n]:"@)
}

/// A running command is asking something on this row.
pub open spec fn asks(row: Seq<char>) -> bool {
    auth_prompt(row) != AuthPrompt::Neither || confirms(row)
}

pub fn inline_interactive_prompt(cursor_row: &str) -> (r: bool)
    ensures
        r == asks(cursor_row@),
{
    if detect_auth_prompt(cursor_row) != AuthPrompt::Neither {
        return true;
    }
    let t = text::lower_chars(&text::chars_of(text::trim_end(cursor_row).as_str()));
    text::ends_with(&t, "(y/n)?") || text::ends_with(&t, "(y/n)") || text::ends_with(&t, "(y/n):")
        || text::ends_with(&t, "[y/n]") || text::ends_with(&t, "[y/n]?") || text::ends_with(
        &t,
        "[y/n]:",
    )
}

/// The cells left of the cursor read as a shell prompt, with the cursor on
/// or just past their end. A leading prompt glyph is enough; else the last
/// character decides: a sigil, but never a percentage, a bare continuation
/// `>` or a `>>` redirect.
pub open spec fn prompt_shaped(prefix: Seq<char>, col_gap: int) -> bool {
    let t = text::trimmed_end(prefix);
    let n = t.len();
    &&& n > 0
    &&& col_gap <= 2
    &&& {
        ||| t[0] == '\u{279c}'
        ||| t[0] == '\u{276f}'
        ||| t[n - 1] == '$'
        ||| t[n - 1] == '#'
        ||| t[n - 1] == '\u{276f}'
        ||| t[n - 1] == '\u{3009}'
        ||| t[n - 1] == '%' && !(n > 1 && '0' <= t[n - 2] <= '9')
        ||| t[n - 1] == '>' && n > 1 && t[n - 2] != '>'
    }
}

pub fn looks_like_shell_prompt(prefix: &str, col_gap: usize) -> (r: bool)
    ensures
        r == prompt_shaped(prefix@, col_gap as int),
{
    let t = text::chars_of(text::trim_end(prefix).as_str());
    let n: usize = t.len();
    if n == 0 || col_gap > 2 {
        return false;
    }
    if t[0] == '\u{279c}' || t[0] == '\u{276f}' {
        return true;
    }
    let last = t[n - 1];
    if last == '$' || last == '#' || last == '\u{276f}' || last == '\u{3009}' {
        return true;
    }
    if last == '%' {
        return !(n > 1 && '0' <= t[n - 2] && t[n - 2] <= '9');
    }
    last == '>' && n > 1 && t[n - 2] != '>'
}

pub open spec fn sigil(c: char) -> bool {
    c == '$' || c == '#' || c == '%' || c == '>' || c == '\u{276f}' || c == '\u{3009}'
}

pub open spec fn some_text(s: Seq<char>) -> Option<Seq<char>> {
    if s.len() > 0 {
        Some(s)
    } else {
        None
    }
}

/// The directory that a prompt's own text names: the last word inside the
/// bracket of `[user@host dir]#`, or what follows the last colon of
/// `user@host:path$` where the first `@` comes before it.
pub open spec fn prompt_dir(prefix: Seq<char>) -> Option<Seq<char>> {
    let t0 = text::trimmed_end(prefix);
    if t0.len() == 0 || !sigil(t0.last()) {
        None
    } else {
        let t = text::trimmed_end(t0.drop_last());
        if t.len() > 0 && t.last() == ']' {
            let body = t.drop_last();
            let inner = body.skip(text::last_index(body, '[') + 1);
            some_text(text::trimmed(inner.skip(text::last_index(inner, ' ') + 1)))
        } else {
            let at = text::first_index(t, '@');
            let colon = text::last_index(t, ':');
            if at < t.len() && colon > at {
                some_text(text::trimmed(t.skip(colon + 1)))
            } else {
                None
            }
        }
    }
}

fn trimmed_part(v: &Vec<char>, from: usize, to: usize) -> (r: Option<String>)
    requires
        from <= to <= v@.len(),
    ensures
        r is Some == some_text(text::trimmed(v@.subrange(from as int, to as int))) is Some,
        r matches Some(s) ==> Some(s@) == some_text(
            text::trimmed(v@.subrange(from as int, to as int)),
        ),
{
    let n: usize = text::trim_end_at(v, from, to);
    let m: usize = text::trim_start_at(v, from, n);
    if m < n {
        Some(text::string_of(v, m, n))
    } else {
        None
    }
}

/// Best-effort working directory from the prompt text itself, for display.
pub fn heur_prompt_cwd(prefix: &str) -> (r: Option<String>)
    ensures
        r is Some == prompt_dir(prefix@) is Some,
        r matches Some(s) ==> Some(s@) == prompt_dir(prefix@),
{
    let v = text::chars_of(prefix);
    assert(v@.subrange(0, v@.len() as int) =~= v@);
    let n0: usize = text::trim_end_at(&v, 0, v.len());
    if n0 == 0 {
        return None;
    }
    let ghost t0 = v@.subrange(0, n0 as int);
    let last = v[n0 - 1];
    assert(t0.last() == last);
    if !(last == '$' || last == '#' || last == '%' || last == '>' || last == '\u{276f}' || last
        == '\u{3009}') {
        return None;
    }
    assert(t0.drop_last() =~= v@.subrange(0, n0 - 1));
    let n: usize = text::trim_end_at(&v, 0, n0 - 1);
    let ghost t = v@.subrange(0, n as int);
    if n > 0 && v[n - 1] == ']' {
        assert(t.last() == v@[n - 1]);
        let ghost body = t.drop_last();
        assert(body =~= v@.subrange(0, n - 1));
        let a: usize = text::after_last(&v, 0, n - 1, '[');
        let ghost inner = body.skip(text::last_index(body, '[') + 1);
        assert(inner =~= v@.subrange(a as int, n - 1));
        let b: usize = text::after_last(&v, a, n - 1, ' ');
        assert(inner.skip(text::last_index(inner, ' ') + 1) =~= v@.subrange(b as int, n - 1));
        return trimmed_part(&v, b, n - 1);
    }
    let at: usize = text::first_at(&v, 0, n, '@');
    let after: usize = text::after_last(&v, 0, n, ':');
    if at < n && after > at + 1 {
        assert(t.skip(text::last_index(t, ':') + 1) =~= v@.subrange(after as int, n as int));
        trimmed_part(&v, after, n)
    } else {
        None
    }
}

} // verus!
