//! Splitting a command line into its words, by the quoting rules of a shell
//! family.

use vstd::prelude::*;
use vstd::string::*;
use vstd::utf8::*;

use crate::complete::Family;
use crate::text;

verus! {

/// Bytes of a character in UTF-8.
pub open spec fn width(c: char) -> nat {
    if c <= '\u{7f}' {
        1
    } else if c <= '\u{7ff}' {
        2
    } else if c <= '\u{ffff}' {
        3
    } else {
        4
    }
}

/// Bytes of a text in UTF-8.
pub open spec fn byte_len(s: Seq<char>) -> nat
    decreases s.len(),
{
    if s.len() == 0 {
        0
    } else {
        width(s[0]) + byte_len(s.drop_first())
    }
}

/// The byte offset of the character at `i`.
pub open spec fn byte_at(s: Seq<char>, i: int) -> nat {
    byte_len(s.take(i))
}

proof fn lemma_width(c: char)
    ensures
        encode_scalar(c as u32).len() == width(c),
{
}

/// The length in bytes is that of the encoding.
pub proof fn byte_len_is_encoded_len(s: Seq<char>)
    ensures
        byte_len(s) == encode_utf8(s).len(),
    decreases s.len(),
{
    if s.len() > 0 {
        byte_len_is_encoded_len(s.drop_first());
        lemma_width(s[0]);
    }
}

pub proof fn lemma_byte_len_add(s: Seq<char>, t: Seq<char>)
    ensures
        byte_len(s + t) == byte_len(s) + byte_len(t),
    decreases s.len(),
{
    if s.len() == 0 {
        assert(s + t =~= t);
    } else {
        lemma_byte_len_add(s.drop_first(), t);
        assert((s + t).drop_first() =~= s.drop_first() + t);
    }
}

/// Offsets grow with the characters.
pub proof fn lemma_byte_at(s: Seq<char>, i: int, j: int)
    requires
        0 <= i <= j <= s.len(),
    ensures
        byte_at(s, i) + (j - i) <= byte_at(s, j),
        byte_at(s, j) <= byte_len(s),
        j == i + 1 ==> byte_at(s, j) == byte_at(s, i) + width(s[i]),
    decreases j - i,
{
    assert(s.take(j) + s.skip(j) =~= s);
    lemma_byte_len_add(s.take(j), s.skip(j));
    if i < j {
        lemma_byte_at(s, i, j - 1);
        assert(s.take(j) =~= s.take(j - 1) + seq![s[j - 1]]);
        lemma_byte_len_add(s.take(j - 1), seq![s[j - 1]]);
        assert(seq![s[j - 1]].drop_first() =~= Seq::<char>::empty());
        assert(byte_len(seq![s[j - 1]]) == width(s[j - 1])) by {
            assert(byte_len(Seq::<char>::empty()) == 0);
        }
    }
}

pub fn char_width(c: char) -> (w: usize)
    ensures
        w == width(c),
{
    if c <= '\u{7f}' {
        1
    } else if c <= '\u{7ff}' {
        2
    } else if c <= '\u{ffff}' {
        3
    } else {
        4
    }
}

/// A word: where it starts and ends, quotes included, and what it stands for.
pub struct Span {
    pub start: int,
    pub end: int,
    pub value: Seq<char>,
}

/// The characters that quote. PowerShell and bash know both quotes, cmd only
/// the double one.
pub open spec fn quotes(fam: Family, c: char) -> bool {
    c == '"' || c == '\'' && (fam is Pwsh || fam is Wsl || fam is Ssh)
}

/// A backslash escapes, as in bash.
pub open spec fn escapes(fam: Family) -> bool {
    fam is Wsl || fam is Ssh
}

/// What a backslash escapes inside double quotes.
pub open spec fn escapable(c: char) -> bool {
    c == '"' || c == '\\' || c == '$' || c == '`'
}

/// The words of `s` from position `i` on, inside the quote `quote`, if any,
/// and behind the start and value `cur` of an unfinished word, if any. White
/// space outside quotes separates words; a quote left open runs to the end.
pub open spec fn words_from(
    fam: Family,
    s: Seq<char>,
    i: int,
    quote: Option<char>,
    cur: Option<(int, Seq<char>)>,
) -> Seq<Span>
    decreases s.len() - i,
{
    if i >= s.len() {
        match cur {
            Some((start, value)) => seq![Span { start, end: s.len() as int, value }],
            None => Seq::empty(),
        }
    } else {
        let c = s[i];
        let (start, value) = match cur {
            Some(p) => p,
            None => (i, Seq::empty()),
        };
        match quote {
            Some(q) => if c == q {
                if q == '\'' && fam is Pwsh && i + 1 < s.len() && s[i + 1] == '\'' {
                    words_from(fam, s, i + 2, quote, Some((start, value.push('\''))))
                } else {
                    words_from(fam, s, i + 1, None, Some((start, value)))
                }
            } else if q == '"' && c == '\\' && escapes(fam) && i + 1 < s.len() && escapable(
                s[i + 1],
            ) {
                words_from(fam, s, i + 2, quote, Some((start, value.push(s[i + 1]))))
            } else {
                words_from(fam, s, i + 1, quote, Some((start, value.push(c))))
            },
            None => if text::white(c) {
                let rest = words_from(fam, s, i + 1, None, None);
                match cur {
                    Some(_) => seq![Span { start, end: i, value }] + rest,
                    None => rest,
                }
            } else if quotes(fam, c) {
                words_from(fam, s, i + 1, Some(c), Some((start, value)))
            } else if c == '\\' && escapes(fam) {
                if i + 1 < s.len() {
                    words_from(fam, s, i + 2, None, Some((start, value.push(s[i + 1]))))
                } else {
                    words_from(fam, s, i + 1, None, Some((start, value.push('\\'))))
                }
            } else {
                words_from(fam, s, i + 1, None, Some((start, value.push(c))))
            },
        }
    }
}

/// The words of a command line.
pub open spec fn words(fam: Family, s: Seq<char>) -> Seq<Span> {
    words_from(fam, s, 0, None, None)
}

/// Every span of `ws` lies between `lo` and `hi`, and each ends before the
/// next starts.
pub open spec fn in_line(ws: Seq<Span>, lo: int, hi: int) -> bool {
    &&& forall|k: int| 0 <= k < ws.len() ==> lo <= (#[trigger] ws[k]).start < ws[k].end <= hi
    &&& forall|j: int, k: int|
        0 <= j < k < ws.len() ==> (#[trigger] ws[j]).end <= (#[trigger] ws[k]).start
}

proof fn lemma_words_from(
    fam: Family,
    s: Seq<char>,
    i: int,
    quote: Option<char>,
    cur: Option<(int, Seq<char>)>,
)
    requires
        0 <= i,
        cur matches Some(p) ==> 0 <= p.0 < i && p.0 < s.len(),
    ensures
        in_line(
            words_from(fam, s, i, quote, cur),
            match cur {
                Some(p) => p.0,
                None => i,
            },
            s.len() as int,
        ),
    decreases s.len() - i,
{
    if i < s.len() {
        let c = s[i];
        let (start, value) = match cur {
            Some(p) => p,
            None => (i, Seq::empty()),
        };
        match quote {
            Some(q) => if c == q {
                if q == '\'' && fam is Pwsh && i + 1 < s.len() && s[i + 1] == '\'' {
                    lemma_words_from(fam, s, i + 2, quote, Some((start, value.push('\''))));
                } else {
                    lemma_words_from(fam, s, i + 1, None, Some((start, value)));
                }
            } else if q == '"' && c == '\\' && escapes(fam) && i + 1 < s.len() && escapable(
                s[i + 1],
            ) {
                lemma_words_from(fam, s, i + 2, quote, Some((start, value.push(s[i + 1]))));
            } else {
                lemma_words_from(fam, s, i + 1, quote, Some((start, value.push(c))));
            },
            None => if text::white(c) {
                lemma_words_from(fam, s, i + 1, None, None);
            } else if quotes(fam, c) {
                lemma_words_from(fam, s, i + 1, Some(c), Some((start, value)));
            } else if c == '\\' && escapes(fam) && i + 1 < s.len() {
                lemma_words_from(fam, s, i + 2, None, Some((start, value.push(s[i + 1]))));
            } else {
                lemma_words_from(fam, s, i + 1, None, Some((start, value.push(c))));
            },
        }
    }
}

/// The words of a line lie in it, one behind the other.
pub proof fn words_lie_in_the_line(fam: Family, s: Seq<char>)
    ensures
        in_line(words(fam, s), 0, s.len() as int),
{
    lemma_words_from(fam, s, 0, None, None);
}

/// A word of a command line: positions in characters and in bytes.
#[derive(Debug)]
pub struct Word {
    pub start: usize,
    pub end: usize,
    pub byte_start: usize,
    pub byte_end: usize,
    pub value: String,
}

impl Word {
    pub open spec fn is_span(self, s: Seq<char>, w: Span) -> bool {
        &&& self.start == w.start
        &&& self.end == w.end
        &&& self.value@ == w.value
        &&& self.byte_start == byte_at(s, w.start)
        &&& self.byte_end == byte_at(s, w.end)
        &&& 0 <= w.start < w.end <= s.len()
    }
}

pub open spec fn are_spans(v: Seq<Word>, s: Seq<char>, spans: Seq<Span>) -> bool {
    v.len() == spans.len() && forall|k: int|
        0 <= k < v.len() ==> (#[trigger] v[k]).is_span(s, spans[k])
}

pub fn is_quote(fam: &Family, c: char) -> (r: bool)
    ensures
        r == quotes(*fam, c),
{
    c == '"' || (c == '\'' && match fam {
        Family::Pwsh => true,
        Family::Wsl { .. } => true,
        Family::Ssh => true,
        _ => false,
    })
}

pub fn bs_escapes(fam: &Family) -> (r: bool)
    ensures
        r == escapes(*fam),
{
    match fam {
        Family::Wsl { .. } => true,
        Family::Ssh => true,
        _ => false,
    }
}

fn is_pwsh(fam: &Family) -> (r: bool)
    ensures
        r == fam is Pwsh,
{
    match fam {
        Family::Pwsh => true,
        _ => false,
    }
}

/// The words of a command line, in order.
pub fn split_words(fam: &Family, line: &str) -> (out: Vec<Word>)
    ensures
        are_spans(out@, line@, words(*fam, line@)),
{
    let s = text::chars_of(line);
    let n: usize = s.len();
    let total: usize = line.as_bytes().len();
    proof {
        byte_len_is_encoded_len(line@);
    }
    let mut out: Vec<Word> = Vec::new();
    let mut i: usize = 0;
    let mut byte: usize = 0;
    let mut quote: Option<char> = None;
    let mut open = false;
    let mut start: usize = 0;
    let mut byte_start: usize = 0;
    let mut value = String::new();
    let ghost mut done: Seq<Span> = Seq::empty();
    assert(s@.take(0) =~= Seq::<char>::empty());
    assert(done + words(*fam, s@) =~= words(*fam, s@));
    while i < n
        invariant
            n == s@.len(),
            s@ == line@,
            i <= n,
            total == byte_len(s@),
            byte == byte_at(s@, i as int),
            quote is Some ==> open,
            open ==> start < i && byte_start == byte_at(s@, start as int),
            are_spans(out@, s@, done),
            done + words_from(
                *fam,
                s@,
                i as int,
                quote,
                if open {
                    Some((start as int, value@))
                } else {
                    None
                },
            ) == words(*fam, s@),
        decreases n - i,
    {
        let c = s[i];
        let ghost before = words_from(
            *fam,
            s@,
            i as int,
            quote,
            if open {
                Some((start as int, value@))
            } else {
                None
            },
        );
        proof {
            lemma_byte_at(s@, i as int, i + 1);
            if i + 1 < n {
                lemma_byte_at(s@, i + 1, i + 2);
            }
        }
        let w: usize = char_width(c);
        let next: usize = byte + w;
        let has_next: bool = n - i > 1;
        if quote.is_none() && text::is_white(c) {
            if open {
                let done_value = value;
                value = String::new();
                proof {
                    let span = Span { start: start as int, end: i as int, value: done_value@ };
                    let rest = words_from(*fam, s@, i + 1, None, None);
                    assert(before == seq![span] + rest);
                    assert(done + (seq![span] + rest) =~= done.push(span) + rest);
                    done = done.push(span);
                }
                out.push(
                    Word { start, end: i, byte_start, byte_end: byte, value: done_value },
                );
                open = false;
            }
            i = i + 1;
            byte = next;
            continue;
        }
        if !open {
            open = true;
            start = i;
            byte_start = byte;
            value = String::new();
            assert(value@ =~= Seq::<char>::empty());
        }
        if let Some(q) = quote {
            if c == q {
                if q == '\'' && is_pwsh(fam) && has_next && s[i + 1] == '\'' {
                    value.push('\'');
                    byte = next + char_width(s[i + 1]);
                    i = i + 2;
                } else {
                    quote = None;
                    i = i + 1;
                    byte = next;
                }
            } else if q == '"' && c == '\\' && bs_escapes(fam) && has_next && (s[i + 1] == '"'
                || s[i + 1] == '\\' || s[i + 1] == '$' || s[i + 1] == '`') {
                value.push(s[i + 1]);
                byte = next + char_width(s[i + 1]);
                i = i + 2;
            } else {
                value.push(c);
                i = i + 1;
                byte = next;
            }
        } else if is_quote(fam, c) {
            quote = Some(c);
            i = i + 1;
            byte = next;
        } else if c == '\\' && bs_escapes(fam) {
            if has_next {
                value.push(s[i + 1]);
                byte = next + char_width(s[i + 1]);
                i = i + 2;
            } else {
                value.push('\\');
                i = i + 1;
                byte = next;
            }
        } else {
            value.push(c);
            i = i + 1;
            byte = next;
        }
    }
    if open {
        proof {
            let span = Span { start: start as int, end: n as int, value: value@ };
            assert(done + seq![span] =~= done.push(span));
            done = done.push(span);
        }
        out.push(Word { start, end: n, byte_start, byte_end: byte, value });
    }
    assert(done + Seq::<Span>::empty() =~= done);
    out
}

} // verus!
