//! Choosing and ordering the names that complete a word.

use vstd::prelude::*;
use vstd::string::*;

use crate::complete::Family;
use crate::paths::{Listing, Plan};
use crate::quote;
use crate::quote::quote_token;
use crate::text;

verus! {

/// A directory of more entries than this completes to the common prefix only.
pub const ENUM_CAP: usize = 500;

/// With more matches than this nothing completes.
pub const MATCH_BOUND: usize = 2048;

/// A name in a directory.
#[derive(Debug)]
pub struct Entry {
    pub name: String,
    pub dir: bool,
}

/// A name and whether it is a directory.
pub struct Name {
    pub name: Seq<char>,
    pub dir: bool,
}

impl View for Entry {
    type V = Name;

    open spec fn view(&self) -> Name {
        Name { name: self.name@, dir: self.dir }
    }
}

impl Entry {
    fn copy(&self) -> (r: Entry)
        ensures
            r@ == self@,
    {
        Entry { name: self.name.clone(), dir: self.dir }
    }
}

pub open spec fn names(v: Seq<Entry>) -> Seq<Name> {
    Seq::new(v.len(), |i: int| v[i]@)
}

/// The name completes the prefix.
pub open spec fn completes(n: Name, prefix: Seq<char>, ci: bool, posix_hidden: bool) -> bool {
    let hidden = posix_hidden && text::has_prefix(n.name, seq!['.']) && !text::has_prefix(
        prefix,
        seq!['.'],
    );
    !hidden && if ci {
        text::has_prefix(text::lowercase(n.name), text::lowercase(prefix))
    } else {
        text::has_prefix(n.name, prefix)
    }
}

/// The names that complete the prefix, in the order of the directory.
pub open spec fn completing(s: Seq<Name>, prefix: Seq<char>, ci: bool, posix_hidden: bool) -> Seq<
    Name,
>
    decreases s.len(),
{
    if s.len() == 0 {
        s
    } else {
        let rest = completing(s.drop_last(), prefix, ci, posix_hidden);
        if completes(s.last(), prefix, ci, posix_hidden) {
            rest.push(s.last())
        } else {
            rest
        }
    }
}

/// Dictionary order by code point.
pub open spec fn lex_le(a: Seq<char>, b: Seq<char>) -> bool
    decreases a.len(),
{
    if a.len() == 0 {
        true
    } else if b.len() == 0 {
        false
    } else if a[0] != b[0] {
        a[0] < b[0]
    } else {
        lex_le(a.drop_first(), b.drop_first())
    }
}

/// Directories come first, then the names in dictionary order of their lower
/// case.
pub open spec fn ranks_le(a: Name, b: Name) -> bool {
    if a.dir != b.dir {
        a.dir
    } else {
        lex_le(text::lowercase(a.name), text::lowercase(b.name))
    }
}

/// `s` with `n` behind the last name that does not rank after it.
pub open spec fn insert_ranked(s: Seq<Name>, n: Name) -> Seq<Name>
    decreases s.len(),
{
    if s.len() == 0 || ranks_le(s.last(), n) {
        s.push(n)
    } else {
        insert_ranked(s.drop_last(), n).push(s.last())
    }
}

/// The names by rank, those of one rank in the order they had.
pub open spec fn ranked(s: Seq<Name>) -> Seq<Name>
    decreases s.len(),
{
    if s.len() == 0 {
        s
    } else {
        insert_ranked(ranked(s.drop_last()), s.last())
    }
}

fn lex_le_at(a: &Vec<char>, b: &Vec<char>) -> (r: bool)
    ensures
        r == lex_le(a@, b@),
{
    let mut i: usize = 0;
    assert(a@.skip(0) =~= a@);
    assert(b@.skip(0) =~= b@);
    while i < a.len()
        invariant
            i <= a@.len(),
            i <= b@.len(),
            lex_le(a@.skip(i as int), b@.skip(i as int)) == lex_le(a@, b@),
        decreases a@.len() - i,
    {
        proof {
            let x = a@.skip(i as int);
            let y = b@.skip(i as int);
            assert(x.drop_first() =~= a@.skip(i + 1));
            assert(x[0] == a@[i as int]);
            if i < b@.len() {
                assert(y.drop_first() =~= b@.skip(i + 1));
                assert(y[0] == b@[i as int]);
            }
        }
        if i >= b.len() {
            return false;
        }
        if a[i] != b[i] {
            return a[i] < b[i];
        }
        i = i + 1;
    }
    true
}

/// An entry with the key it is ordered by.
struct Ranked {
    entry: Entry,
    key: Vec<char>,
}

impl Ranked {
    spec fn wf(self) -> bool {
        self.key@ == text::lowercase(self.entry@.name)
    }
}

spec fn ranked_names(v: Seq<Ranked>) -> Seq<Name> {
    Seq::new(v.len(), |i: int| v[i].entry@)
}

fn ranks_before(a: &Ranked, b: &Ranked) -> (r: bool)
    requires
        a.wf(),
        b.wf(),
    ensures
        r == ranks_le(a.entry@, b.entry@),
{
    if a.entry.dir != b.entry.dir {
        a.entry.dir
    } else {
        lex_le_at(&a.key, &b.key)
    }
}

fn put_ranked(v: &mut Vec<Ranked>, e: Ranked)
    requires
        e.wf(),
        forall|k: int| 0 <= k < old(v)@.len() ==> (#[trigger] old(v)@[k]).wf(),
    ensures
        forall|k: int| 0 <= k < final(v)@.len() ==> (#[trigger] final(v)@[k]).wf(),
        ranked_names(final(v)@) == insert_ranked(ranked_names(old(v)@), e.entry@),
{
    let ghost s = ranked_names(v@);
    let mut p: usize = v.len();
    assert(s.take(s.len() as int) =~= s);
    assert(s.skip(s.len() as int) =~= Seq::<Name>::empty());
    assert(insert_ranked(s, e.entry@) + Seq::<Name>::empty() =~= insert_ranked(s, e.entry@));
    while p > 0 && !ranks_before(&v[p - 1], &e)
        invariant
            v@ == old(v)@,
            s == ranked_names(v@),
            p <= v@.len(),
            e.wf(),
            forall|k: int| 0 <= k < v@.len() ==> (#[trigger] v@[k]).wf(),
            insert_ranked(s.take(p as int), e.entry@) + s.skip(p as int) == insert_ranked(
                s,
                e.entry@,
            ),
        decreases p,
    {
        proof {
            let t = s.take(p as int);
            assert(t.drop_last() =~= s.take(p - 1));
            assert(t.last() == v@[p - 1].entry@);
            assert(insert_ranked(s.take(p - 1), e.entry@).push(t.last()) + s.skip(p as int)
                =~= insert_ranked(s.take(p - 1), e.entry@) + s.skip(p - 1));
        }
        p = p - 1;
    }
    proof {
        let t = s.take(p as int);
        if p > 0 {
            assert(t.last() == v@[p - 1].entry@);
        }
        assert(insert_ranked(t, e.entry@) == t.push(e.entry@));
    }
    let ghost n = e.entry@;
    v.insert(p, e);
    proof {
        assert(ranked_names(v@) =~= s.take(p as int).push(n) + s.skip(p as int));
        assert forall|k: int| 0 <= k < v@.len() implies (#[trigger] v@[k]).wf() by {
            if k < p {
                assert(v@[k] == old(v)@[k]);
            } else if k > p {
                assert(v@[k] == old(v)@[k - 1]);
            }
        }
    }
}

/// The entries that complete a prefix, in order, and whether the directory
/// holds too many to cycle through.
#[derive(Debug)]
pub struct EnumOut {
    pub matches: Vec<Entry>,
    pub capped: bool,
}

fn is_completing(e: &Entry, prefix: &Vec<char>, lower: &Vec<char>, ci: bool, posix_hidden: bool) -> (r:
    bool)
    requires
        lower@ == text::lowercase(prefix@),
    ensures
        r == completes(e@, prefix@, ci, posix_hidden),
{
    let v = text::chars_of(e.name.as_str());
    let dot: Vec<char> = vec!['.'];
    assert(dot@ =~= seq!['.']);
    if posix_hidden && text::stands_at(&v, &dot, 0) && !text::stands_at(prefix, &dot, 0) {
        return false;
    }
    if ci {
        let low = text::chars_of(e.name.as_str().to_lowercase().as_str());
        text::stands_at(&low, lower, 0)
    } else {
        text::stands_at(&v, prefix, 0)
    }
}

/// The entries of a directory that complete `prefix`, in order. `total` counts
/// what the directory holds, names that cannot be written included. Too many
/// matches give none.
pub fn enum_dir(
    entries: &Vec<Entry>,
    total: usize,
    prefix: &str,
    ci: bool,
    posix_hidden: bool,
    cap: usize,
) -> (r: Option<EnumOut>)
    ensures
        r is Some == (completing(names(entries@), prefix@, ci, posix_hidden).len() <= MATCH_BOUND),
        r matches Some(out) ==> names(out.matches@) == ranked(
            completing(names(entries@), prefix@, ci, posix_hidden),
        ) && out.capped == (total > cap),
{
    let pre = text::chars_of(prefix);
    let lower = text::chars_of(prefix.to_lowercase().as_str());
    let ghost all = names(entries@);
    let mut sorted: Vec<Ranked> = Vec::new();
    let mut i: usize = 0;
    assert(all.take(0) =~= Seq::<Name>::empty());
    assert(ranked_names(sorted@) =~= Seq::<Name>::empty());
    while i < entries.len()
        invariant
            i <= entries@.len(),
            all == names(entries@),
            pre@ == prefix@,
            lower@ == text::lowercase(pre@),
            forall|k: int| 0 <= k < sorted@.len() ==> (#[trigger] sorted@[k]).wf(),
            ranked_names(sorted@) == ranked(
                completing(all.take(i as int), pre@, ci, posix_hidden),
            ),
            sorted@.len() == completing(all.take(i as int), pre@, ci, posix_hidden).len(),
        decreases entries@.len() - i,
    {
        let ghost so_far = completing(all.take(i as int), pre@, ci, posix_hidden);
        proof {
            assert(all.take(i + 1).drop_last() =~= all.take(i as int));
            assert(all.take(i + 1).last() == entries@[i as int]@);
        }
        if is_completing(&entries[i], &pre, &lower, ci, posix_hidden) {
            let entry = entries[i].copy();
            let key = text::chars_of(entry.name.as_str().to_lowercase().as_str());
            proof {
                assert(so_far.push(entry@).drop_last() =~= so_far);
            }
            put_ranked(&mut sorted, Ranked { entry, key });
            proof {
                lemma_insert_len(ranked(so_far), entries@[i as int]@);
            }
        }
        i = i + 1;
    }
    assert(all.take(all.len() as int) =~= all);
    if sorted.len() > MATCH_BOUND {
        return None;
    }
    let mut matches: Vec<Entry> = Vec::new();
    let mut k: usize = 0;
    while k < sorted.len()
        invariant
            k <= sorted@.len(),
            names(matches@) == ranked_names(sorted@).take(k as int),
        decreases sorted@.len() - k,
    {
        let ghost before = names(matches@);
        let e = sorted[k].entry.copy();
        let ghost n = e@;
        matches.push(e);
        assert(names(matches@) =~= before.push(n));
        assert(before.push(n) =~= ranked_names(sorted@).take(k + 1));
        k = k + 1;
    }
    assert(ranked_names(sorted@).take(sorted@.len() as int) =~= ranked_names(sorted@));
    Some(EnumOut { matches, capped: total > cap })
}

proof fn lemma_insert_len(s: Seq<Name>, n: Name)
    ensures
        insert_ranked(s, n).len() == s.len() + 1,
    decreases s.len(),
{
    if s.len() > 0 && !ranks_le(s.last(), n) {
        lemma_insert_len(s.drop_last(), n);
    }
}

/// Two characters agree, in lower case where case is ignored.
pub open spec fn agree(a: char, b: char, ci: bool) -> bool {
    if ci {
        text::char_lowercase(a) == text::char_lowercase(b)
    } else {
        a == b
    }
}

/// How many characters at their starts agree.
pub open spec fn agreeing(a: Seq<char>, b: Seq<char>, ci: bool) -> nat
    decreases a.len(),
{
    if a.len() > 0 && b.len() > 0 && agree(a[0], b[0], ci) {
        1 + agreeing(a.drop_first(), b.drop_first(), ci)
    } else {
        0
    }
}

/// How many characters at the start of the first name all names share.
pub open spec fn shared(s: Seq<Name>, ci: bool) -> nat
    decreases s.len(),
{
    if s.len() <= 1 {
        s[0].name.len()
    } else {
        let rest = shared(s.drop_last(), ci);
        let last = agreeing(s[0].name, s.last().name, ci);
        if last < rest {
            last
        } else {
            rest
        }
    }
}

fn same_char(a: char, b: char, ci: bool) -> (r: bool)
    ensures
        r == agree(a, b, ci),
{
    if !ci {
        return a == b;
    }
    let x = text::lower_of(a);
    let y = text::lower_of(b);
    if x.len() != y.len() {
        return false;
    }
    assert(x@.subrange(0, y@.len() as int) =~= x@);
    text::stands_at(&x, &y, 0)
}

fn agreeing_len(a: &Vec<char>, b: &Vec<char>, ci: bool) -> (n: usize)
    ensures
        n == agreeing(a@, b@, ci),
        n <= a@.len(),
{
    let mut i: usize = 0;
    assert(a@.skip(0) =~= a@);
    assert(b@.skip(0) =~= b@);
    while i < a.len() && i < b.len() && same_char(a[i], b[i], ci)
        invariant
            i <= a@.len(),
            i <= b@.len(),
            i + agreeing(a@.skip(i as int), b@.skip(i as int), ci) == agreeing(a@, b@, ci),
        decreases a@.len() - i,
    {
        proof {
            let x = a@.skip(i as int);
            let y = b@.skip(i as int);
            assert(x.drop_first() =~= a@.skip(i + 1));
            assert(y.drop_first() =~= b@.skip(i + 1));
            assert(x[0] == a@[i as int]);
            assert(y[0] == b@[i as int]);
        }
        i = i + 1;
    }
    proof {
        if i < a@.len() && i < b@.len() {
            assert(a@.skip(i as int)[0] == a@[i as int]);
            assert(b@.skip(i as int)[0] == b@[i as int]);
        }
    }
    i
}

/// The longest start that the names share, in the first name's spelling.
pub fn common_prefix(matches: &Vec<Entry>, ci: bool) -> (r: String)
    requires
        matches@.len() > 0,
    ensures
        r@ == names(matches@)[0].name.take(shared(names(matches@), ci) as int),
        shared(names(matches@), ci) <= names(matches@)[0].name.len(),
{
    let ghost all = names(matches@);
    let first = text::chars_of(matches[0].name.as_str());
    let mut len: usize = first.len();
    let mut i: usize = 1;
    assert(all.take(1)[0] == all[0]);
    while i < matches.len()
        invariant
            1 <= i <= matches@.len(),
            all == names(matches@),
            first@ == all[0].name,
            len <= first@.len(),
            len == shared(all.take(i as int), ci),
        decreases matches@.len() - i,
    {
        let other = text::chars_of(matches[i].name.as_str());
        let l: usize = agreeing_len(&first, &other, ci);
        proof {
            assert(all.take(i + 1).drop_last() =~= all.take(i as int));
            assert(all.take(i + 1).last() == all[i as int]);
            assert(all.take(i + 1)[0] == all[0]);
        }
        if l < len {
            len = l;
        }
        i = i + 1;
    }
    assert(all.take(all.len() as int) =~= all);
    assert(first@.subrange(0, len as int) =~= first@.take(len as int));
    text::string_of(&first, 0, len)
}

/// The word that a completed name makes, before quoting.
pub open spec fn rendered(p: Listing, name: Seq<char>, is_dir: bool) -> Seq<char> {
    if is_dir {
        (p.render_parent + name).push(p.sep)
    } else {
        p.render_parent + name
    }
}

/// The word that a completed name makes, quoted for the family.
pub fn render_token(plan: &Plan, fam: &Family, name: &str, is_dir: bool) -> (r: String)
    ensures
        r@ == quote::quoted(*fam, rendered(plan@, name@, is_dir)),
{
    let mut t = plan.render_parent.clone();
    t.append(name);
    if is_dir {
        t.push(plan.sep);
    }
    quote_token(fam, t.as_str())
}

pub proof fn lemma_lex_le_total(a: Seq<char>, b: Seq<char>)
    ensures
        lex_le(a, b) || lex_le(b, a),
    decreases a.len(),
{
    if a.len() > 0 && b.len() > 0 && a[0] == b[0] {
        lemma_lex_le_total(a.drop_first(), b.drop_first());
    }
}

pub proof fn lemma_lex_le_transitive(a: Seq<char>, b: Seq<char>, c: Seq<char>)
    requires
        lex_le(a, b),
        lex_le(b, c),
    ensures
        lex_le(a, c),
    decreases a.len(),
{
    if a.len() > 0 && b.len() > 0 && c.len() > 0 && a[0] == b[0] && b[0] == c[0] {
        lemma_lex_le_transitive(a.drop_first(), b.drop_first(), c.drop_first());
    }
}

/// No name comes before one that it ranks after.
pub open spec fn in_rank_order(s: Seq<Name>) -> bool {
    forall|i: int, j: int| 0 <= i <= j < s.len() ==> ranks_le(#[trigger] s[i], #[trigger] s[j])
}

pub proof fn lemma_ranks(a: Name, b: Name, c: Name)
    ensures
        ranks_le(a, b) || ranks_le(b, a),
        ranks_le(a, b) && ranks_le(b, c) ==> ranks_le(a, c),
{
    let x = text::lowercase(a.name);
    let y = text::lowercase(b.name);
    let z = text::lowercase(c.name);
    lemma_lex_le_total(x, y);
    if lex_le(x, y) && lex_le(y, z) {
        lemma_lex_le_transitive(x, y, z);
    }
}

proof fn lemma_insert_ordered(s: Seq<Name>, n: Name)
    requires
        in_rank_order(s),
    ensures
        in_rank_order(insert_ranked(s, n)),
        insert_ranked(s, n).to_multiset() == s.to_multiset().insert(n),
        forall|i: int|
            0 <= i < insert_ranked(s, n).len() ==> (#[trigger] insert_ranked(s, n)[i] == n
                || s.contains(insert_ranked(s, n)[i])),
    decreases s.len(),
{
    broadcast use vstd::seq_lib::group_to_multiset_ensures;

    let r = insert_ranked(s, n);
    if s.len() == 0 || ranks_le(s.last(), n) {
        assert forall|i: int, j: int| 0 <= i <= j < r.len() implies ranks_le(
            #[trigger] r[i],
            #[trigger] r[j],
        ) by {
            lemma_ranks(n, n, n);
            if j == s.len() && i < s.len() {
                assert(ranks_le(s[i], s[s.len() - 1]));
                lemma_ranks(s[i], s.last(), n);
            }
        }
        assert forall|i: int| 0 <= i < r.len() implies (#[trigger] r[i] == n || s.contains(r[i])) by {
            if i < s.len() {
                assert(s[i] == r[i]);
            }
        }
    } else {
        let t = s.drop_last();
        let q = insert_ranked(t, n);
        lemma_insert_ordered(t, n);
        lemma_ranks(s.last(), n, n);
        assert(s =~= t.push(s.last()));
        assert forall|i: int, j: int| 0 <= i <= j < r.len() implies ranks_le(
            #[trigger] r[i],
            #[trigger] r[j],
        ) by {
            if j == q.len() {
                if i < q.len() {
                    if q[i] == n {
                    } else {
                        let k = choose|k: int| 0 <= k < t.len() && t[k] == q[i];
                        assert(ranks_le(s[k], s[s.len() - 1]));
                    }
                } else {
                    lemma_ranks(s.last(), s.last(), s.last());
                }
            }
        }
        assert forall|i: int| 0 <= i < r.len() implies (#[trigger] r[i] == n || s.contains(r[i])) by {
            if i < q.len() {
                if q[i] != n {
                    let k = choose|k: int| 0 <= k < t.len() && t[k] == q[i];
                    assert(s[k] == r[i]);
                }
            } else {
                assert(s[s.len() - 1] == r[i]);
            }
        }
        assert(t.to_multiset().insert(n).insert(s.last()) =~= t.to_multiset().insert(
            s.last(),
        ).insert(n));
    }
}

/// Candidates come directories first and in dictionary order, and ordering
/// neither loses nor adds one.
pub proof fn candidates_are_ordered(s: Seq<Name>)
    ensures
        in_rank_order(ranked(s)),
        ranked(s).to_multiset() == s.to_multiset(),
    decreases s.len(),
{
    broadcast use vstd::seq_lib::group_to_multiset_ensures;

    if s.len() > 0 {
        candidates_are_ordered(s.drop_last());
        lemma_insert_ordered(ranked(s.drop_last()), s.last());
        assert(s =~= s.drop_last().push(s.last()));
    }
}

} // verus!
