//! Text over sequences of characters: the handful of string operations the
//! composer needs, each with its meaning as a spec function.

use vstd::prelude::*;

verus! {

/// `String::push`: the character is appended and nothing else changes.
pub assume_specification[ String::push ](s: &mut String, c: char)
    ensures
        final(s)@ == old(s)@.push(c),
;

/// The characters of a string, in order.
pub fn chars_of(s: &str) -> (v: Vec<char>)
    ensures
        v@ == s@,
{
    let mut v: Vec<char> = Vec::new();
    for c in it: s.chars()
        invariant
            it.seq() == s@,
            v@ == s@.take(it.index() as int),
    {
        proof {
            assert(s@.take(it.index() + 1) =~= s@.take(it.index() as int).push(s@[it.index() as int]));
        }
        v.push(c);
    }
    assert(s@.take(s@.len() as int) =~= s@);
    v
}

/// The string made of the characters of `v` from `from` up to `to`.
pub fn string_of(v: &Vec<char>, from: usize, to: usize) -> (s: String)
    requires
        from <= to <= v@.len(),
    ensures
        s@ == v@.subrange(from as int, to as int),
{
    let mut s = String::new();
    let mut i: usize = from;
    while i < to
        invariant
            from <= i <= to <= v@.len(),
            s@ == v@.subrange(from as int, i as int),
        decreases to - i,
    {
        proof {
            assert(v@.subrange(from as int, i + 1) =~= v@.subrange(from as int, i as int).push(v@[i as int]));
        }
        s.push(v[i]);
        i = i + 1;
    }
    s
}


/// White space as Unicode's `White_Space` property has it: what
/// `char::is_whitespace` and the `trim` family of `str` go by.
pub open spec fn white(c: char) -> bool {
    ||| '\u{9}' <= c <= '\u{d}'
    ||| c == ' '
    ||| c == '\u{85}'
    ||| c == '\u{a0}'
    ||| c == '\u{1680}'
    ||| '\u{2000}' <= c <= '\u{200a}'
    ||| c == '\u{2028}'
    ||| c == '\u{2029}'
    ||| c == '\u{202f}'
    ||| c == '\u{205f}'
    ||| c == '\u{3000}'
}

pub fn is_white(c: char) -> (r: bool)
    ensures
        r == white(c),
{
    ('\u{9}' <= c && c <= '\u{d}') || c == ' ' || c == '\u{85}' || c == '\u{a0}' || c == '\u{1680}'
        || ('\u{2000}' <= c && c <= '\u{200a}') || c == '\u{2028}' || c == '\u{2029}' || c == '\u{202f}'
        || c == '\u{205f}' || c == '\u{3000}'
}

/// `s` without the white space at its end.
pub open spec fn trimmed_end(s: Seq<char>) -> Seq<char>
    decreases s.len(),
{
    if s.len() > 0 && white(s.last()) {
        trimmed_end(s.drop_last())
    } else {
        s
    }
}

/// `s` without the white space at its start.
pub open spec fn trimmed_start(s: Seq<char>) -> Seq<char>
    decreases s.len(),
{
    if s.len() > 0 && white(s[0]) {
        trimmed_start(s.drop_first())
    } else {
        s
    }
}

/// `s` without the white space at either end.
pub open spec fn trimmed(s: Seq<char>) -> Seq<char> {
    trimmed_start(trimmed_end(s))
}

/// Nothing but white space.
pub open spec fn blank(s: Seq<char>) -> bool {
    forall|i: int| 0 <= i < s.len() ==> white(#[trigger] s[i])
}

/// What `trim_end` leaves is a prefix that does not end in white space, and
/// what it takes is white.
pub proof fn lemma_trimmed_end(s: Seq<char>)
    ensures
        trimmed_end(s).len() <= s.len(),
        trimmed_end(s) == s.take(trimmed_end(s).len() as int),
        blank(s.skip(trimmed_end(s).len() as int)),
        trimmed_end(s).len() > 0 ==> !white(trimmed_end(s).last()),
        trimmed_end(s).len() == 0 <==> blank(s),
    decreases s.len(),
{
    if s.len() > 0 && white(s.last()) {
        lemma_trimmed_end(s.drop_last());
        let n = trimmed_end(s).len() as int;
        assert(s.drop_last().take(n) =~= s.take(n));
        assert forall|i: int| 0 <= i < s.skip(n).len() implies white(#[trigger] s.skip(n)[i]) by {
            if i + n < s.len() - 1 {
                assert(s.drop_last().skip(n)[i] == s.skip(n)[i]);
            }
        }
        if n == 0 {
            assert(s.skip(0) =~= s);
        } else {
            assert(!white(s[n - 1]));
        }
    } else {
        assert(s.take(s.len() as int) =~= s);
        if s.len() > 0 {
            assert(!white(s[s.len() - 1]));
        }
    }
}

pub proof fn lemma_trimmed_start(s: Seq<char>)
    ensures
        trimmed_start(s).len() <= s.len(),
        trimmed_start(s) == s.skip(s.len() - trimmed_start(s).len()),
        trimmed_start(s).len() > 0 ==> !white(trimmed_start(s)[0]),
        trimmed_start(s).len() == 0 <==> blank(s),
    decreases s.len(),
{
    if s.len() > 0 && white(s[0]) {
        lemma_trimmed_start(s.drop_first());
        let n = trimmed_start(s).len() as int;
        assert(s.drop_first().skip(s.len() - 1 - n) =~= s.skip(s.len() - n));
        if blank(s.drop_first()) {
            assert forall|i: int| 0 <= i < s.len() implies white(#[trigger] s[i]) by {
                if i > 0 {
                    assert(s.drop_first()[i - 1] == s[i]);
                }
            }
        }
        if blank(s) {
            assert forall|i: int| 0 <= i < s.drop_first().len() implies white(
                #[trigger] s.drop_first()[i],
            ) by {
                assert(s[i + 1] == s.drop_first()[i]);
            }
        }
    } else {
        assert(s.skip(0) =~= s);
        if s.len() > 0 {
            assert(!white(s[0]));
        }
    }
}

/// Where the text of `v[from..to]` ends once trailing white space is off.
pub fn trim_end_at(v: &Vec<char>, from: usize, to: usize) -> (n: usize)
    requires
        from <= to <= v@.len(),
    ensures
        from <= n <= to,
        v@.subrange(from as int, n as int) == trimmed_end(v@.subrange(from as int, to as int)),
{
    let mut n: usize = to;
    while n > from && is_white(v[n - 1])
        invariant
            from <= n <= to <= v@.len(),
            trimmed_end(v@.subrange(from as int, n as int)) == trimmed_end(
                v@.subrange(from as int, to as int),
            ),
        decreases n,
    {
        proof {
            let s = v@.subrange(from as int, n as int);
            assert(s.drop_last() =~= v@.subrange(from as int, n - 1));
            assert(s.last() == v@[n - 1]);
        }
        n = n - 1;
    }
    proof {
        let s = v@.subrange(from as int, n as int);
        if n > from {
            assert(s.last() == v@[n - 1]);
        }
    }
    n
}

/// Where the text of `v[from..to]` starts once leading white space is off.
pub fn trim_start_at(v: &Vec<char>, from: usize, to: usize) -> (n: usize)
    requires
        from <= to <= v@.len(),
    ensures
        from <= n <= to,
        v@.subrange(n as int, to as int) == trimmed_start(v@.subrange(from as int, to as int)),
{
    let mut n: usize = from;
    while n < to && is_white(v[n])
        invariant
            from <= n <= to <= v@.len(),
            trimmed_start(v@.subrange(n as int, to as int)) == trimmed_start(
                v@.subrange(from as int, to as int),
            ),
        decreases to - n,
    {
        proof {
            let s = v@.subrange(n as int, to as int);
            assert(s.drop_first() =~= v@.subrange(n + 1, to as int));
            assert(s[0] == v@[n as int]);
        }
        n = n + 1;
    }
    proof {
        let s = v@.subrange(n as int, to as int);
        if n < to {
            assert(s[0] == v@[n as int]);
        }
    }
    n
}

/// `str::trim_end`, as a new string.
pub fn trim_end(s: &str) -> (r: String)
    ensures
        r@ == trimmed_end(s@),
{
    let v = chars_of(s);
    let n: usize = trim_end_at(&v, 0, v.len());
    assert(v@.subrange(0, v@.len() as int) =~= s@);
    string_of(&v, 0, n)
}

/// `str::trim`, as a new string.
pub fn trim(s: &str) -> (r: String)
    ensures
        r@ == trimmed(s@),
{
    let v = chars_of(s);
    let n: usize = trim_end_at(&v, 0, v.len());
    assert(v@.subrange(0, v@.len() as int) =~= s@);
    let m: usize = trim_start_at(&v, 0, n);
    string_of(&v, m, n)
}

/// Whether a text is nothing but white space.
pub fn is_blank(s: &str) -> (r: bool)
    ensures
        r == blank(s@),
{
    let v = chars_of(s);
    let mut i: usize = 0;
    while i < v.len()
        invariant
            i <= v@.len(),
            v@ == s@,
            forall|k: int| 0 <= k < i ==> white(#[trigger] s@[k]),
        decreases v.len() - i,
    {
        if !is_white(v[i]) {
            assert(!white(s@[i as int]));
            return false;
        }
        i = i + 1;
    }
    true
}

/// Equality of texts.
pub fn same(a: &str, b: &str) -> (r: bool)
    ensures
        r == (a@ == b@),
{
    a.to_owned() == b.to_owned()
}

/// `t` stands in `s` at position `i`.
pub open spec fn occurs_at(s: Seq<char>, t: Seq<char>, i: int) -> bool {
    0 <= i && i + t.len() <= s.len() && s.subrange(i, i + t.len()) == t
}

pub open spec fn has_suffix(s: Seq<char>, t: Seq<char>) -> bool {
    occurs_at(s, t, s.len() - t.len())
}

pub open spec fn has_prefix(s: Seq<char>, t: Seq<char>) -> bool {
    occurs_at(s, t, 0)
}

/// Whether `t` stands in `v` at position `i`.
pub fn stands_at(v: &Vec<char>, t: &Vec<char>, i: usize) -> (r: bool)
    ensures
        r == occurs_at(v@, t@, i as int),
{
    if i > v.len() || t.len() > v.len() - i {
        return false;
    }
    let mut k: usize = 0;
    while k < t.len()
        invariant
            i + t.len() <= v.len(),
            k <= t.len(),
            forall|j: int| 0 <= j < k ==> v@[i + j] == #[trigger] t@[j],
        decreases t.len() - k,
    {
        if v[i + k] != t[k] {
            assert(v@.subrange(i as int, i + t@.len())[k as int] != t@[k as int]);
            return false;
        }
        k = k + 1;
    }
    assert(v@.subrange(i as int, i + t@.len()) =~= t@);
    true
}

pub fn ends_with(v: &Vec<char>, t: &str) -> (r: bool)
    ensures
        r == has_suffix(v@, t@),
{
    let t = chars_of(t);
    if t.len() > v.len() {
        return false;
    }
    stands_at(v, &t, v.len() - t.len())
}

pub fn starts_with(v: &Vec<char>, t: &str) -> (r: bool)
    ensures
        r == has_prefix(v@, t@),
{
    let t = chars_of(t);
    stands_at(v, &t, 0)
}

/// The last position of `c` in `s`, or -1 where there is none.
pub open spec fn last_index(s: Seq<char>, c: char) -> int
    decreases s.len(),
{
    if s.len() == 0 {
        -1
    } else if s.last() == c {
        s.len() - 1
    } else {
        last_index(s.drop_last(), c)
    }
}

pub proof fn lemma_last_index(s: Seq<char>, c: char)
    ensures
        -1 <= last_index(s, c) < s.len(),
        last_index(s, c) >= 0 ==> s[last_index(s, c)] == c,
        forall|i: int| last_index(s, c) < i < s.len() ==> #[trigger] s[i] != c,
    decreases s.len(),
{
    if s.len() > 0 && s.last() != c {
        lemma_last_index(s.drop_last(), c);
        assert forall|i: int| last_index(s, c) < i < s.len() implies #[trigger] s[i] != c by {
            if i < s.len() - 1 {
                assert(s.drop_last()[i] == s[i]);
            }
        }
    }
}

/// The first position of `c` in `s`, or the length where there is none.
pub open spec fn first_index(s: Seq<char>, c: char) -> int
    decreases s.len(),
{
    if s.len() == 0 || s[0] == c {
        0
    } else {
        1 + first_index(s.drop_first(), c)
    }
}

pub proof fn lemma_first_index(s: Seq<char>, c: char)
    ensures
        0 <= first_index(s, c) <= s.len(),
        first_index(s, c) < s.len() ==> s[first_index(s, c)] == c,
        forall|i: int| 0 <= i < first_index(s, c) ==> #[trigger] s[i] != c,
    decreases s.len(),
{
    if s.len() > 0 && s[0] != c {
        lemma_first_index(s.drop_first(), c);
        assert forall|i: int| 0 <= i < first_index(s, c) implies #[trigger] s[i] != c by {
            if i > 0 {
                assert(s.drop_first()[i - 1] == s[i]);
            }
        }
    }
}

/// The position after the last `c` in `v[from..to]`, or `from`.
pub fn after_last(v: &Vec<char>, from: usize, to: usize, c: char) -> (n: usize)
    requires
        from <= to <= v@.len(),
    ensures
        n == from + last_index(v@.subrange(from as int, to as int), c) + 1,
        from <= n <= to,
{
    let mut n: usize = to;
    while n > from && v[n - 1] != c
        invariant
            from <= n <= to <= v@.len(),
            last_index(v@.subrange(from as int, n as int), c) == last_index(
                v@.subrange(from as int, to as int),
                c,
            ),
        decreases n,
    {
        proof {
            let s = v@.subrange(from as int, n as int);
            assert(s.drop_last() =~= v@.subrange(from as int, n - 1));
            assert(s.last() == v@[n - 1]);
        }
        n = n - 1;
    }
    proof {
        let s = v@.subrange(from as int, n as int);
        if n > from {
            assert(s.last() == v@[n - 1]);
        }
    }
    n
}

/// The position of the first `c` in `v[from..to]`, or `to`.
pub fn first_at(v: &Vec<char>, from: usize, to: usize, c: char) -> (n: usize)
    requires
        from <= to <= v@.len(),
    ensures
        n == from + first_index(v@.subrange(from as int, to as int), c),
        from <= n <= to,
{
    let mut n: usize = from;
    while n < to && v[n] != c
        invariant
            from <= n <= to <= v@.len(),
            n - from + first_index(v@.subrange(n as int, to as int), c) == first_index(
                v@.subrange(from as int, to as int),
                c,
            ),
        decreases to - n,
    {
        proof {
            let s = v@.subrange(n as int, to as int);
            assert(s.drop_first() =~= v@.subrange(n + 1, to as int));
            assert(s[0] == v@[n as int]);
        }
        n = n + 1;
    }
    proof {
        let s = v@.subrange(n as int, to as int);
        if n < to {
            assert(s[0] == v@[n as int]);
        }
    }
    n
}

/// Whether `c` is among `v[from..to]`.
pub fn holds(v: &Vec<char>, from: usize, to: usize, c: char) -> (r: bool)
    requires
        from <= to <= v@.len(),
    ensures
        r == v@.subrange(from as int, to as int).contains(c),
{
    let n: usize = first_at(v, from, to, c);
    proof {
        let s = v@.subrange(from as int, to as int);
        lemma_first_index(s, c);
        if n < to {
            assert(s[n - from] == c);
        }
    }
    n < to
}

/// Whether a text holds the character `c`.
pub fn has_char(s: &str, c: char) -> (r: bool)
    ensures
        r == s@.contains(c),
{
    let v = chars_of(s);
    assert(v@.subrange(0, v@.len() as int) =~= s@);
    holds(&v, 0, v.len(), c)
}

/// ASCII capitals in lower case, every other character as it is.
pub open spec fn ascii_lower(c: char) -> char {
    if 'A' <= c <= 'Z' {
        ((c as u8) + 32) as char
    } else {
        c
    }
}

pub open spec fn ascii_lowered(s: Seq<char>) -> Seq<char> {
    s.map_values(|c: char| ascii_lower(c))
}

pub fn to_ascii_lower(c: char) -> (r: char)
    ensures
        r == ascii_lower(c),
{
    if 'A' <= c && c <= 'Z' {
        ((c as u8) + 32) as char
    } else {
        c
    }
}

/// The characters of `v` with the ASCII capitals in lower case.
pub fn lower_chars(v: &Vec<char>) -> (r: Vec<char>)
    ensures
        r@ == ascii_lowered(v@),
{
    let mut r: Vec<char> = Vec::new();
    let mut i: usize = 0;
    while i < v.len()
        invariant
            i <= v@.len(),
            r@ == ascii_lowered(v@.take(i as int)),
        decreases v@.len() - i,
    {
        r.push(to_ascii_lower(v[i]));
        i = i + 1;
        assert(r@ =~= ascii_lowered(v@.take(i as int)));
    }
    assert(v@.take(v@.len() as int) =~= v@);
    r
}

/// Every character is ASCII.
pub open spec fn all_ascii(s: Seq<char>) -> bool {
    forall|i: int| 0 <= i < s.len() ==> (#[trigger] s[i]) < '\u{80}'
}

/// What `str::to_lowercase` makes of a text.
pub uninterp spec fn lowercase(s: Seq<char>) -> Seq<char>;

/// `str::to_lowercase`: Unicode's lower case of the text, of an ASCII text
/// the ASCII letters in lower case.
pub assume_specification[ str::to_lowercase ](s: &str) -> (r: String)
    ensures
        r@ == lowercase(s@),
        all_ascii(s@) ==> r@ == ascii_lowered(s@),
;

/// What `char::to_lowercase` makes of a character.
pub uninterp spec fn char_lowercase(c: char) -> Seq<char>;

/// `char::to_lowercase`: Unicode's lower case of the character, of an ASCII
/// character the letter in lower case.
#[verifier::external_body]
pub(crate) fn lower_of(c: char) -> (r: Vec<char>)
    ensures
        r@ == char_lowercase(c),
        c < '\u{80}' ==> r@ == seq![ascii_lower(c)],
{
    c.to_lowercase().collect()
}

} // verus!
