//! Recognising an Enter among the raw bytes on their way to a terminal.

use vstd::prelude::*;
use vstd::utf8::*;

verus! {

/// The first position of `b` in `s`, or the length where there is none.
pub open spec fn find_byte(s: Seq<u8>, b: u8) -> int
    decreases s.len(),
{
    if s.len() == 0 || s[0] == b {
        0
    } else {
        1 + find_byte(s.drop_first(), b)
    }
}

pub proof fn lemma_find_byte(s: Seq<u8>, b: u8)
    ensures
        0 <= find_byte(s, b) <= s.len(),
        find_byte(s, b) < s.len() ==> s[find_byte(s, b)] == b,
        forall|i: int| 0 <= i < find_byte(s, b) ==> #[trigger] s[i] != b,
        find_byte(s, b) < s.len() <==> s.contains(b),
    decreases s.len(),
{
    if s.len() > 0 && s[0] != b {
        lemma_find_byte(s.drop_first(), b);
        assert forall|i: int| 0 <= i < find_byte(s, b) implies #[trigger] s[i] != b by {
            if i > 0 {
                assert(s.drop_first()[i - 1] == s[i]);
            }
        }
        if s.contains(b) {
            let k = choose|k: int| 0 <= k < s.len() && s[k] == b;
            assert(s.drop_first()[k - 1] == b);
        }
    }
}

/// The `k`th field of `s`, where semicolons separate the fields.
pub open spec fn field(s: Seq<u8>, k: nat) -> Option<Seq<u8>>
    decreases k,
{
    let j = find_byte(s, 0x3b);
    if k == 0 {
        Some(s.take(j))
    } else if j < s.len() {
        field(s.skip(j + 1), (k - 1) as nat)
    } else {
        None
    }
}

pub open spec fn digit(b: u8) -> bool {
    0x30 <= b <= 0x39
}

/// The value of decimal digits.
pub open spec fn value(s: Seq<u8>) -> nat
    decreases s.len(),
{
    if s.len() == 0 {
        0
    } else {
        value(s.drop_last()) * 10 + (s.last() - 0x30) as nat
    }
}

/// The digits of a number: what follows its plus sign, if it has one.
pub open spec fn digits(s: Seq<u8>) -> Seq<u8> {
    if s.len() > 1 && s[0] == 0x2b {
        s.drop_first()
    } else {
        s
    }
}

/// The number that a field holds, where it holds one of 32 bits.
pub open spec fn number(s: Seq<u8>) -> Option<nat> {
    let d = digits(s);
    if d.len() > 0 && (forall|i: int| 0 <= i < d.len() ==> digit(#[trigger] d[i])) && value(d)
        <= u32::MAX {
        Some(value(d))
    } else {
        None
    }
}

/// The body of a key record is that of Enter going down: the first field, the
/// virtual key, is 13 and the fourth, the key state, is 1.
pub open spec fn enter_down(body: Seq<u8>) -> bool {
    &&& valid_utf8(body)
    &&& field(body, 0) matches Some(vk) && number(vk) == Some(13nat)
    &&& field(body, 3) matches Some(kd) && number(kd) == Some(1nat)
}

/// Somewhere in `s` there is a key record (`ESC [`, a body, and the first
/// underscore behind) of Enter going down. Whatever other sequence an escape
/// starts, the next escape may start a record.
pub open spec fn holds_enter_record(s: Seq<u8>) -> bool
    decreases s.len(),
    via holds_enter_record_decreases
{
    let e = find_byte(s, 0x1b);
    if e >= s.len() {
        false
    } else {
        let rest = s.skip(e);
        let u = find_byte(rest, 0x5f);
        (rest.len() > 2 && rest[1] == 0x5b && u < rest.len() && enter_down(rest.subrange(2, u)))
            || holds_enter_record(rest.skip(1))
    }
}

#[via_fn]
proof fn holds_enter_record_decreases(s: Seq<u8>) {
    lemma_find_byte(s, 0x1b);
}

/// `std::str::from_utf8`: it succeeds exactly on UTF-8.
#[verifier::external_body]
fn is_utf8(v: &[u8]) -> (r: bool)
    ensures
        r == valid_utf8(v@),
{
    std::str::from_utf8(v).is_ok()
}

/// The position of the first `b` in `v[from..to]`, or `to`.
fn position(v: &[u8], from: usize, to: usize, b: u8) -> (n: usize)
    requires
        from <= to <= v@.len(),
    ensures
        from <= n <= to,
        n == from + find_byte(v@.subrange(from as int, to as int), b),
{
    let mut n: usize = from;
    while n < to && v[n] != b
        invariant
            from <= n <= to <= v@.len(),
            n - from + find_byte(v@.subrange(n as int, to as int), b) == find_byte(
                v@.subrange(from as int, to as int),
                b,
            ),
        decreases to - n,
    {
        proof {
            let s = v@.subrange(n as int, to as int);
            assert(s.drop_first() =~= v@.subrange(n + 1, to as int));
            assert(s[0] == v@[n as int]);
        }
        n = n + 1;
    }
    proof {
        if n < to {
            assert(v@.subrange(n as int, to as int)[0] == v@[n as int]);
        }
    }
    n
}

/// Whether the field `v[from..to]` holds the number `n`.
fn is_number(v: &[u8], from: usize, to: usize, n: u32) -> (r: bool)
    requires
        from <= to <= v@.len(),
    ensures
        r == (number(v@.subrange(from as int, to as int)) == Some(n as nat)),
{
    let ghost f = v@.subrange(from as int, to as int);
    let start: usize = if to - from > 1 && v[from] == 0x2b {
        from + 1
    } else {
        from
    };
    let ghost d = digits(f);
    assert(d =~= v@.subrange(start as int, to as int));
    if start == to {
        return false;
    }
    let mut acc: u64 = 0;
    let mut i: usize = start;
    let mut large = false;
    while i < to
        invariant
            start <= i <= to <= v@.len(),
            d == v@.subrange(start as int, to as int),
            d == digits(f),
            f == v@.subrange(from as int, to as int),
            forall|k: int| 0 <= k < i - start ==> digit(#[trigger] d[k]),
            !large ==> acc == value(d.take(i - start)) && acc <= u32::MAX,
            large ==> value(d.take(i - start)) > u32::MAX,
        decreases to - i,
    {
        let b = v[i];
        assert(d[i - start] == b);
        if b < 0x30 || b > 0x39 {
            return false;
        }
        proof {
            assert(d.take(i - start + 1).drop_last() =~= d.take(i - start));
            assert(d.take(i - start + 1).last() == b);
        }
        if !large {
            acc = acc * 10 + (b - 0x30) as u64;
            large = acc > u32::MAX as u64;
        }
        i = i + 1;
    }
    assert(d.take(to - start) =~= d);
    !large && acc == n as u64
}

/// Whether the key record body `v[from..to]` is that of Enter going down.
fn is_enter_down(v: &[u8], from: usize, to: usize) -> (r: bool)
    requires
        from <= to <= v@.len(),
    ensures
        r == enter_down(v@.subrange(from as int, to as int)),
{
    let ghost body = v@.subrange(from as int, to as int);
    if !is_utf8(vstd::slice::slice_subrange(v, from, to)) {
        return false;
    }
    let a: usize = position(v, from, to, 0x3b);
    assert(body.take(a - from) =~= v@.subrange(from as int, a as int));
    if !is_number(v, from, a, 13) {
        return false;
    }
    let mut start: usize = from;
    let mut k: usize = 0;
    while k < 3
        invariant
            k <= 3,
            from <= start <= to <= v@.len(),
            field(v@.subrange(start as int, to as int), (3 - k) as nat) == field(body, 3),
            body == v@.subrange(from as int, to as int),
        decreases 3 - k,
    {
        let j: usize = position(v, start, to, 0x3b);
        let ghost s = v@.subrange(start as int, to as int);
        if j == to {
            assert(field(s, (3 - k) as nat) is None);
            return false;
        }
        assert(s.skip(j - start + 1) =~= v@.subrange(j + 1, to as int));
        start = j + 1;
        k = k + 1;
    }
    let j: usize = position(v, start, to, 0x3b);
    assert(v@.subrange(start as int, to as int).take(j - start) =~= v@.subrange(
        start as int,
        j as int,
    ));
    is_number(v, start, j, 1)
}

/// The bytes carry an Enter: a carriage return, or, for a terminal that takes
/// key records, a record of Enter going down.
pub open spec fn carries_enter(bytes: Seq<u8>, win32: bool) -> bool {
    bytes.contains(0x0d) || win32 && holds_enter_record(bytes)
}

/// Whether raw bytes on their way to the terminal carry an Enter press.
pub fn bytes_contain_enter(bytes: &[u8], win32: bool) -> (r: bool)
    ensures
        r == carries_enter(bytes@, win32),
{
    let n: usize = bytes.len();
    assert(bytes@.subrange(0, n as int) =~= bytes@);
    proof {
        lemma_find_byte(bytes@, 0x0d);
    }
    if position(bytes, 0, n, 0x0d) < n {
        return true;
    }
    if !win32 {
        return false;
    }
    let mut i: usize = 0;
    assert(bytes@.skip(0) =~= bytes@);
    while i < n
        invariant
            i <= n,
            n == bytes@.len(),
            win32,
            !bytes@.contains(0x0d),
            holds_enter_record(bytes@.skip(i as int)) == holds_enter_record(bytes@),
        decreases n - i,
    {
        let ghost s = bytes@.skip(i as int);
        assert(s =~= bytes@.subrange(i as int, n as int));
        let start: usize = position(bytes, i, n, 0x1b);
        if start == n {
            return false;
        }
        let ghost rest = s.skip(find_byte(s, 0x1b));
        assert(rest =~= bytes@.subrange(start as int, n as int));
        let end: usize = position(bytes, start, n, 0x5f);
        if n - start > 2 && bytes[start + 1] == 0x5b && end < n {
            proof {
                lemma_find_byte(rest, 0x5f);
                assert(rest[0] == bytes@[start as int]);
                assert(rest[1] == 0x5b);
                lemma_find_byte(s, 0x1b);
                assert(rest.subrange(2, end - start) =~= bytes@.subrange(start + 2, end as int));
            }
            if is_enter_down(bytes, start + 2, end) {
                return true;
            }
        }
        proof {
            if n - start > 2 {
                assert(rest[1] == bytes@[start + 1]);
            }
            assert(rest.skip(1) =~= bytes@.skip(start + 1));
        }
        i = start + 1;
    }
    assert(bytes@.skip(n as int) =~= Seq::<u8>::empty());
    false
}

/// A record of Enter going down is found wherever it stands, whatever comes
/// before and behind it.
pub proof fn an_enter_record_is_found_anywhere(before: Seq<u8>, body: Seq<u8>, behind: Seq<u8>)
    requires
        enter_down(body),
        !body.contains(0x5f),
    ensures
        holds_enter_record(before + (seq![0x1bu8, 0x5b] + body + seq![0x5fu8] + behind)),
    decreases before.len(),
{
    let record = seq![0x1bu8, 0x5b] + body + seq![0x5fu8] + behind;
    let s = before + record;
    let e = find_byte(s, 0x1b);
    let rest = s.skip(e);
    let u = find_byte(rest, 0x5f);
    lemma_find_byte(s, 0x1b);
    lemma_find_byte(rest, 0x5f);
    assert(s[before.len() as int] == record[0]);
    if e < before.len() {
        an_enter_record_is_found_anywhere(before.skip(e + 1), body, behind);
        assert(rest.skip(1) =~= before.skip(e + 1) + record);
    } else {
        assert(rest =~= record);
        assert(record[1] == 0x5b);
        let end = 2 + body.len();
        assert(record[end as int] == 0x5f);
        if u < end {
            assert(u >= 2);
            assert(body[u - 2] == record[u]);
        }
        assert(rest.subrange(2, u) =~= body);
    }
}

} // verus!
