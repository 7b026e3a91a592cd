//! Text to bytes and back: what a submission writes to the terminal, what a
//! paste leaves in the draft, and how an Enter is recognised among raw bytes.

use vstd::prelude::*;
use vstd::string::*;
use vstd::utf8::*;

use crate::term::TermBackend;
use crate::text;

verus! {

/// A control character other than tab, line feed and carriage return.
pub open spec fn stripped(c: char) -> bool {
    (c < ' ' || '\u{7f}' <= c <= '\u{9f}') && c != '\t' && c != '\n' && c != '\r'
}

/// `s` without its control characters, but for tabs and line ends.
pub open spec fn sanitized(s: Seq<char>) -> Seq<char>
    decreases s.len(),
{
    if s.len() == 0 {
        s
    } else if stripped(s[0]) {
        sanitized(s.drop_first())
    } else {
        seq![s[0]] + sanitized(s.drop_first())
    }
}

/// `s` with every line end, CRLF or LF, as one CR.
pub open spec fn with_cr(s: Seq<char>) -> Seq<char>
    decreases s.len(),
{
    if s.len() == 0 {
        s
    } else if s.len() > 1 && s[0] == '\r' && s[1] == '\n' {
        seq!['\r'] + with_cr(s.skip(2))
    } else if s[0] == '\n' {
        seq!['\r'] + with_cr(s.drop_first())
    } else {
        seq![s[0]] + with_cr(s.drop_first())
    }
}

/// `s` with every line end, CRLF or CR, as one LF.
pub open spec fn with_lf(s: Seq<char>) -> Seq<char>
    decreases s.len(),
{
    if s.len() == 0 {
        s
    } else if s.len() > 1 && s[0] == '\r' && s[1] == '\n' {
        seq!['\n'] + with_lf(s.skip(2))
    } else if s[0] == '\r' {
        seq!['\n'] + with_lf(s.drop_first())
    } else {
        seq![s[0]] + with_lf(s.drop_first())
    }
}

/// `s` without the line feeds at its end.
pub open spec fn without_final_lf(s: Seq<char>) -> Seq<char>
    decreases s.len(),
{
    if s.len() > 0 && s.last() == '\n' {
        without_final_lf(s.drop_last())
    } else {
        s
    }
}

fn sanitize(s: &str) -> (r: String)
    ensures
        r@ == sanitized(s@),
{
    let v = text::chars_of(s);
    let mut r = String::new();
    let mut i: usize = 0;
    assert(v@.skip(0) =~= v@);
    while i < v.len()
        invariant
            i <= v@.len(),
            v@ == s@,
            r@ + sanitized(v@.skip(i as int)) == sanitized(s@),
        decreases v@.len() - i,
    {
        let c = v[i];
        proof {
            let rest = v@.skip(i as int);
            assert(rest[0] == c);
            assert(rest.drop_first() =~= v@.skip(i + 1));
            assert(r@ + (seq![c] + sanitized(rest.drop_first())) =~= r@.push(c) + sanitized(
                rest.drop_first(),
            ));
        }
        if !((c < ' ' || ('\u{7f}' <= c && c <= '\u{9f}')) && c != '\t' && c != '\n' && c != '\r') {
            r.push(c);
        }
        i = i + 1;
    }
    assert(v@.skip(v@.len() as int) =~= Seq::<char>::empty());
    assert(r@ + Seq::<char>::empty() =~= r@);
    r
}

/// The text with every line end as one `to`, where `lone` is the character
/// that ends a line without its partner.
fn line_ends(s: &str, lone: char, to: char) -> (r: String)
    requires
        lone == '\n' && to == '\r' || lone == '\r' && to == '\n',
    ensures
        lone == '\n' ==> r@ == with_cr(s@),
        lone == '\r' ==> r@ == with_lf(s@),
{
    let v = text::chars_of(s);
    let mut r = String::new();
    let mut i: usize = 0;
    assert(v@.skip(0) =~= v@);
    while i < v.len()
        invariant
            i <= v@.len(),
            v@ == s@,
            lone == '\n' && to == '\r' || lone == '\r' && to == '\n',
            lone == '\n' ==> r@ + with_cr(v@.skip(i as int)) == with_cr(s@),
            lone == '\r' ==> r@ + with_lf(v@.skip(i as int)) == with_lf(s@),
        decreases v@.len() - i,
    {
        let c = v[i];
        let ghost rest = v@.skip(i as int);
        assert(rest[0] == c);
        if c == '\r' && v.len() - i > 1 && v[i + 1] == '\n' {
            proof {
                assert(rest[1] == '\n');
                assert(rest.skip(2) =~= v@.skip(i + 2));
                assert(r@ + (seq![to] + with_cr(rest.skip(2))) =~= r@.push(to) + with_cr(
                    rest.skip(2),
                ));
                assert(r@ + (seq![to] + with_lf(rest.skip(2))) =~= r@.push(to) + with_lf(
                    rest.skip(2),
                ));
            }
            r.push(to);
            i = i + 2;
        } else {
            let d = if c == lone {
                to
            } else {
                c
            };
            proof {
                if rest.len() > 1 {
                    assert(rest[1] == v@[i + 1]);
                }
                assert(rest.drop_first() =~= v@.skip(i + 1));
                assert(r@ + (seq![d] + with_cr(rest.drop_first())) =~= r@.push(d) + with_cr(
                    rest.drop_first(),
                ));
                assert(r@ + (seq![d] + with_lf(rest.drop_first())) =~= r@.push(d) + with_lf(
                    rest.drop_first(),
                ));
            }
            r.push(d);
            i = i + 1;
        }
    }
    assert(v@.skip(v@.len() as int) =~= Seq::<char>::empty());
    assert(r@ + Seq::<char>::empty() =~= r@);
    r
}

/// Buffered text as the keystrokes it stands for: every line end is an Enter.
pub fn keystroke_bytes(s: &str) -> (r: String)
    ensures
        r@ == with_cr(s@),
{
    line_ends(s, '\n', '\r')
}

/// What a submission makes of a draft: trailing white space off, control
/// characters off, line ends as Enter.
pub open spec fn submission_text(draft: Seq<char>) -> Seq<char> {
    with_cr(sanitized(text::trimmed_end(draft)))
}

/// `ESC [ 200 ~` and `ESC [ 201 ~`.
pub open spec fn paste_start() -> Seq<u8> {
    seq![0x1b, 0x5b, 0x32, 0x30, 0x30, 0x7e]
}

pub open spec fn paste_end() -> Seq<u8> {
    seq![0x1b, 0x5b, 0x32, 0x30, 0x31, 0x7e]
}

/// The bytes of a submission: the text, in paste brackets where the terminal
/// asked for them and there is any, then the accepting Enter outside them.
pub open spec fn submission(bracketed: bool, draft: Seq<char>) -> Seq<u8> {
    let body = encode_utf8(submission_text(draft));
    if bracketed && submission_text(draft).len() > 0 {
        paste_start() + body + paste_end() + seq![0x0d]
    } else {
        body + seq![0x0d]
    }
}

/// The submission's bytes: those of a paste of the draft and an Enter.
pub fn submission_bytes(backend: &TermBackend, draft: &str) -> (out: Vec<u8>)
    ensures
        out@ == submission(backend.bracketed(), draft@),
{
    let trimmed = text::trim_end(draft);
    let clean = sanitize(trimmed.as_str());
    let body_text = line_ends(clean.as_str(), '\n', '\r');
    let mut body = body_text.as_str().as_bytes_vec();
    let mut out: Vec<u8> = Vec::new();
    if !body_text.as_str().is_empty() && backend.is_bracketed() {
        let mut open: Vec<u8> = vec![0x1b, 0x5b, 0x32, 0x30, 0x30, 0x7e];
        let mut close: Vec<u8> = vec![0x1b, 0x5b, 0x32, 0x30, 0x31, 0x7e];
        assert(open@ =~= paste_start());
        assert(close@ =~= paste_end());
        out.append(&mut open);
        out.append(&mut body);
        out.append(&mut close);
        assert(out@ =~= paste_start() + encode_utf8(body_text@) + paste_end());
    } else {
        out.append(&mut body);
        assert(out@ =~= encode_utf8(body_text@));
    }
    out.push(0x0d);
    assert(out@ =~= submission(backend.bracketed(), draft@));
    out
}

/// What clipboard text becomes in a draft.
pub open spec fn normalized(s: Seq<char>) -> Seq<char> {
    without_final_lf(with_lf(sanitized(s)))
}

/// Clipboard text for the draft: control characters strip, line ends become
/// LF, and those at the end trim. Line ends inside are kept.
pub fn normalize_paste_text(s: &str) -> (r: String)
    ensures
        r@ == normalized(s@),
{
    let clean = sanitize(s);
    let lf = line_ends(clean.as_str(), '\r', '\n');
    let v = text::chars_of(lf.as_str());
    let n: usize = final_lf(&v);
    text::string_of(&v, 0, n)
}

/// Where `v` ends once the line feeds at its end are off.
fn final_lf(v: &Vec<char>) -> (n: usize)
    ensures
        n <= v@.len(),
        v@.subrange(0, n as int) == without_final_lf(v@),
{
    let mut n: usize = v.len();
    assert(v@.subrange(0, n as int) =~= v@);
    while n > 0 && v[n - 1] == '\n'
        invariant
            n <= v@.len(),
            without_final_lf(v@.subrange(0, n as int)) == without_final_lf(v@),
        decreases n,
    {
        proof {
            let s = v@.subrange(0, n as int);
            assert(s.drop_last() =~= v@.subrange(0, n - 1));
            assert(s.last() == v@[n - 1]);
        }
        n = n - 1;
    }
    proof {
        if n > 0 {
            assert(v@.subrange(0, n as int).last() == v@[n - 1]);
        }
    }
    n
}

/// How many of `s` are `c`.
pub open spec fn count(s: Seq<char>, c: char) -> nat
    decreases s.len(),
{
    if s.len() == 0 {
        0
    } else {
        count(s.drop_last(), c) + if s.last() == c {
            1nat
        } else {
            0nat
        }
    }
}

/// Rows that the draft editor needs: one more than the line feeds of the
/// draft that are not at its end.
pub fn editor_rows(draft: &str) -> (rows: usize)
    ensures
        rows == count(without_final_lf(draft@), '\n') + 1,
{
    let v = text::chars_of(draft);
    let n: usize = final_lf(&v);
    let mut k: usize = 0;
    let mut i: usize = 0;
    while i < n
        invariant
            i <= n <= v.len(),
            k <= i,
            k == count(v@.subrange(0, i as int), '\n'),
        decreases n - i,
    {
        proof {
            assert(v@.subrange(0, i + 1).drop_last() =~= v@.subrange(0, i as int));
            assert(v@.subrange(0, i + 1).last() == v@[i as int]);
        }
        if v[i] == '\n' {
            k = k + 1;
        }
        i = i + 1;
    }
    proof {
        if n == v@.len() && n > 0 {
            assert(v@.subrange(0, n as int).last() != '\n') by {
                lemma_final_lf(v@);
            }
        }
        lemma_count(v@.subrange(0, n as int), '\n');
    }
    k + 1
}

proof fn lemma_final_lf(s: Seq<char>)
    ensures
        without_final_lf(s).len() > 0 ==> without_final_lf(s).last() != '\n',
        without_final_lf(s).len() <= s.len(),
        without_final_lf(s) == s.take(without_final_lf(s).len() as int),
    decreases s.len(),
{
    if s.len() > 0 && s.last() == '\n' {
        lemma_final_lf(s.drop_last());
        let n = without_final_lf(s).len() as int;
        assert(s.drop_last().take(n) =~= s.take(n));
    } else {
        assert(s.take(s.len() as int) =~= s);
    }
}

proof fn lemma_count(s: Seq<char>, c: char)
    ensures
        count(s, c) <= s.len(),
        s.len() > 0 && s.last() != c ==> count(s, c) < s.len(),
    decreases s.len(),
{
    if s.len() > 0 {
        lemma_count(s.drop_last(), c);
    }
}

/// What a plain Enter in the editor does.
#[derive(Clone, Copy, PartialEq, Eq, Structural, Debug)]
pub enum EnterAction {
    Submit,
    /// The draft becomes a queued submission, or a queued spacer when empty.
    Queue,
    InsertNewline,
    Swallow,
}

/// Submit when armable; queue while the typeahead buffer is engaged; break
/// the line when there is a draft to break; else swallow the key.
pub fn enter_action(can_submit: bool, has_draft: bool, buffering: bool) -> (a: EnterAction)
    ensures
        a == EnterAction::Submit <==> can_submit,
        a == EnterAction::Queue <==> !can_submit && buffering,
        a == EnterAction::InsertNewline <==> !can_submit && !buffering && has_draft,
        a == EnterAction::Swallow <==> !can_submit && !buffering && !has_draft,
{
    if can_submit {
        EnterAction::Submit
    } else if buffering {
        EnterAction::Queue
    } else if has_draft {
        EnterAction::InsertNewline
    } else {
        EnterAction::Swallow
    }
}

/// Ctrl+C: the interrupt, and the line-clear of every shell but cmd.
pub open spec fn interrupt_chord(backend: TermBackend) -> Seq<u8> {
    match backend.win32_ctrl_c {
        Some(record) if backend.win32_input => record@,
        _ => seq![0x03],
    }
}

/// The chord that clears the prompt line: Escape for cmd, Ctrl+C elsewhere.
pub open spec fn line_clear(backend: TermBackend, is_cmd: bool) -> Seq<u8> {
    if !is_cmd {
        interrupt_chord(backend)
    } else {
        match backend.win32_escape {
            Some(record) if backend.win32_input => record@,
            _ => seq![0x1b],
        }
    }
}

/// A copy of the bytes.
pub fn bytes_of(v: &Vec<u8>) -> (r: Vec<u8>)
    ensures
        r@ == v@,
{
    let mut r: Vec<u8> = Vec::new();
    r.extend_from_slice(v.as_slice());
    assert(r@ =~= v@);
    r
}

pub fn clear_chord(backend: &TermBackend) -> (r: Vec<u8>)
    ensures
        r@ == interrupt_chord(*backend),
{
    if backend.win32_input {
        if let Some(record) = &backend.win32_ctrl_c {
            return bytes_of(record);
        }
    }
    let r: Vec<u8> = vec![0x03];
    assert(r@ =~= seq![0x03u8]);
    r
}

pub fn line_clear_chord(backend: &TermBackend, is_cmd: bool) -> (r: Vec<u8>)
    ensures
        r@ == line_clear(*backend, is_cmd),
{
    if !is_cmd {
        return clear_chord(backend);
    }
    if backend.win32_input {
        if let Some(record) = &backend.win32_escape {
            return bytes_of(record);
        }
    }
    let r: Vec<u8> = vec![0x1b];
    assert(r@ =~= seq![0x1bu8]);
    r
}

} // verus!
