//! Character sequences: conversion between strings and characters,
//! splitting on a separator, trimming white space.
use vstd::prelude::*;

verus! {

/// Relies on `String::push`: the character is appended at the end.
#[verifier::external_body]
pub(crate) fn push(s: &mut String, c: char)
    ensures
        final(s)@ == old(s)@.push(c),
{
    s.push(c)
}

/// The characters of `s`, in order.
pub fn chars_of(s: &str) -> (r: Vec<char>)
    ensures
        r@ == s@,
{
    let mut r: Vec<char> = Vec::new();
    for c in it: s.chars()
        invariant
            it.seq() == s@,
            r@ == it.seq().take(it.index() as int),
    {
        r.push(c);
    }
    r
}

/// The string made of the characters `v[from..to]`.
pub fn string_of(v: &Vec<char>, from: usize, to: usize) -> (r: String)
    requires
        from <= to <= v@.len(),
    ensures
        r@ == v@.subrange(from as int, to as int),
{
    let mut r = String::new();
    let mut i: usize = from;
    while i < to
        invariant
            from <= i <= to <= v@.len(),
            r@ == v@.subrange(from as int, i as int),
        decreases to - i,
    {
        push(&mut r, v[i]);
        i = i + 1;
    }
    r
}

/// Whether `c` has the Unicode `White_Space` property.
pub open spec fn is_space(c: char) -> bool {
    let n = c as u32;
    (0x09 <= n <= 0x0d) || n == 0x20 || n == 0x85 || n == 0xa0 || n == 0x1680 || (0x2000 <= n
        <= 0x200a) || n == 0x2028 || n == 0x2029 || n == 0x202f || n == 0x205f || n == 0x3000
}

/// Relies on `char::is_whitespace`: true exactly for the characters with the
/// Unicode `White_Space` property.
#[verifier::external_body]
fn white(c: char) -> (r: bool)
    ensures
        r == is_space(c),
{
    c.is_whitespace()
}

/// `s` without its leading white space.
pub open spec fn trim_start(s: Seq<char>) -> Seq<char>
    decreases s.len(),
{
    if s.len() > 0 && is_space(s[0]) {
        trim_start(s.drop_first())
    } else {
        s
    }
}

/// `s` without its trailing white space.
pub open spec fn trim_end(s: Seq<char>) -> Seq<char>
    decreases s.len(),
{
    if s.len() > 0 && is_space(s.last()) {
        trim_end(s.drop_last())
    } else {
        s
    }
}

/// `s` without white space at either end.
pub open spec fn trim(s: Seq<char>) -> Seq<char> {
    trim_end(trim_start(s))
}

/// Whether `sep` occurs in `s` at position `i`.
pub open spec fn occurs_at(s: Seq<char>, sep: Seq<char>, i: int) -> bool {
    0 <= i && i + sep.len() <= s.len() && s.subrange(i, i + sep.len()) == sep
}

/// The pieces of `s` from `start` on, cut at each occurrence of `sep` found
/// by scanning left to right from `i`; an occurrence ends where the next
/// scan begins, so occurrences do not overlap.
pub open spec fn split_from(s: Seq<char>, sep: Seq<char>, start: int, i: int) -> Seq<Seq<char>>
    recommends
        sep.len() > 0,
        0 <= start <= i <= s.len(),
    decreases s.len() - i,
{
    if sep.len() == 0 || i < 0 || i + sep.len() > s.len() {
        seq![s.subrange(start, s.len() as int)]
    } else if occurs_at(s, sep, i) {
        seq![s.subrange(start, i)] + split_from(s, sep, i + sep.len(), i + sep.len())
    } else {
        split_from(s, sep, start, i + 1)
    }
}

/// The pieces of `s` between the occurrences of `sep`: always at least one,
/// and one more than the number of occurrences.
pub open spec fn split_on(s: Seq<char>, sep: Seq<char>) -> Seq<Seq<char>> {
    split_from(s, sep, 0, 0)
}

proof fn lemma_split_from_nonempty(s: Seq<char>, sep: Seq<char>, start: int, i: int)
    ensures
        split_from(s, sep, start, i).len() >= 1,
    decreases s.len() - i,
{
    if sep.len() == 0 || i < 0 || i + sep.len() > s.len() {
    } else if occurs_at(s, sep, i) {
        lemma_split_from_nonempty(s, sep, i + sep.len(), i + sep.len());
    } else {
        lemma_split_from_nonempty(s, sep, start, i + 1);
    }
}

/// Splitting always gives at least one piece.
pub proof fn lemma_split_nonempty(s: Seq<char>, sep: Seq<char>)
    ensures
        split_on(s, sep).len() >= 1,
{
    lemma_split_from_nonempty(s, sep, 0, 0);
}

proof fn lemma_split_from_without(s: Seq<char>, sep: Seq<char>, start: int, i: int)
    requires
        0 <= i,
        forall|j: int| i <= j ==> !occurs_at(s, sep, j),
    ensures
        split_from(s, sep, start, i) == seq![s.subrange(start, s.len() as int)],
    decreases s.len() - i,
{
    if sep.len() == 0 || i < 0 || i + sep.len() > s.len() {
    } else {
        lemma_split_from_without(s, sep, start, i + 1);
    }
}

/// A text in which `sep` never occurs splits into one piece: itself.
pub proof fn lemma_split_without(s: Seq<char>, sep: Seq<char>)
    requires
        forall|j: int| !occurs_at(s, sep, j),
    ensures
        split_on(s, sep) == seq![s],
{
    lemma_split_from_without(s, sep, 0, 0);
    assert(s.subrange(0, s.len() as int) == s);
}

/// Each of `ps`, trimmed.
pub open spec fn trim_all(ps: Seq<Seq<char>>) -> Seq<Seq<char>> {
    ps.map_values(|p: Seq<char>| trim(p))
}

/// The character contents of each string of `v`.
pub open spec fn views(v: Seq<String>) -> Seq<Seq<char>> {
    v.map_values(|x: String| x@)
}

proof fn lemma_trim_start_skip(s: Seq<char>, a: int)
    requires
        0 <= a <= s.len(),
        forall|k: int| 0 <= k < a ==> is_space(s[k]),
    ensures
        trim_start(s) == trim_start(s.subrange(a, s.len() as int)),
    decreases a,
{
    if a > 0 {
        assert(s.drop_first() == s.subrange(1, s.len() as int));
        lemma_trim_start_skip(s.drop_first(), a - 1);
        assert(s.drop_first().subrange(a - 1, s.drop_first().len() as int) == s.subrange(
            a,
            s.len() as int,
        ));
    } else {
        assert(s.subrange(0, s.len() as int) == s);
    }
}

proof fn lemma_trim_end_cut(s: Seq<char>, b: int)
    requires
        0 <= b <= s.len(),
        forall|k: int| b <= k < s.len() ==> is_space(s[k]),
    ensures
        trim_end(s) == trim_end(s.subrange(0, b)),
    decreases s.len() - b,
{
    if b < s.len() {
        assert(s.drop_last() == s.subrange(0, s.len() - 1));
        lemma_trim_end_cut(s.drop_last(), b);
        assert(s.drop_last().subrange(0, b) == s.subrange(0, b));
    } else {
        assert(s.subrange(0, b) == s);
    }
}

/// The bounds `(a, b)` with `trim(v[from..to]) == v[a..b]`.
fn trim_bounds(v: &Vec<char>, from: usize, to: usize) -> (r: (usize, usize))
    requires
        from <= to <= v@.len(),
    ensures
        from <= r.0 <= r.1 <= to,
        v@.subrange(r.0 as int, r.1 as int) == trim(v@.subrange(from as int, to as int)),
{
    let ghost s = v@.subrange(from as int, to as int);
    let mut a: usize = from;
    while a < to && white(v[a])
        invariant
            from <= a <= to <= v@.len(),
            forall|k: int| from <= k < a ==> is_space(v@[k]),
        decreases to - a,
    {
        a = a + 1;
    }
    let ghost t = v@.subrange(a as int, to as int);
    proof {
        lemma_trim_start_skip(s, a - from);
        assert(s.subrange(a - from, s.len() as int) == t);
        if t.len() > 0 {
            assert(t[0] == v@[a as int]);
        }
    }
    assert(trim_start(s) == t);
    let mut b: usize = to;
    while b > a && white(v[b - 1])
        invariant
            from <= a <= b <= to <= v@.len(),
            forall|k: int| b <= k < to ==> is_space(v@[k]),
        decreases b - a,
    {
        b = b - 1;
    }
    proof {
        lemma_trim_end_cut(t, b - a);
        assert(t.subrange(0, b - a) == v@.subrange(a as int, b as int));
        let u = v@.subrange(a as int, b as int);
        if u.len() > 0 {
            assert(u.last() == v@[b - 1]);
        }
    }
    (a, b)
}

/// A copy of `s` without white space at either end.
pub fn trimmed(s: &String) -> (r: String)
    ensures
        r@ == trim(s@),
{
    let v = chars_of(s.as_str());
    let (a, b) = trim_bounds(&v, 0, v.len());
    assert(v@.subrange(0, v@.len() as int) == v@);
    string_of(&v, a, b)
}

/// Whether `sep` occurs in `v` at position `i`.
fn occurs(v: &Vec<char>, sep: &Vec<char>, i: usize) -> (r: bool)
    requires
        i <= v@.len(),
    ensures
        r == occurs_at(v@, sep@, i as int),
{
    if sep.len() > v.len() - i {
        return false;
    }
    let n = v.len();
    let mut k: usize = 0;
    while k < sep.len()
        invariant
            n == v@.len(),
            k <= sep@.len(),
            i + sep@.len() <= v@.len(),
            forall|j: int| 0 <= j < k ==> v@[i + j] == sep@[j],
        decreases sep@.len() - k,
    {
        if v[i + k] != sep[k] {
            assert(v@.subrange(i as int, i + sep@.len())[k as int] != sep@[k as int]);
            return false;
        }
        k = k + 1;
    }
    assert(v@.subrange(i as int, i + sep@.len()) == sep@);
    true
}

/// The pieces of `v` between the occurrences of `sep`, each trimmed when
/// `trimmed` holds.
pub fn split_chars(v: &Vec<char>, sep: &Vec<char>, trimmed: bool) -> (r: Vec<String>)
    requires
        sep@.len() > 0,
    ensures
        trimmed ==> views(r@) == trim_all(split_on(v@, sep@)),
        !trimmed ==> views(r@) == split_on(v@, sep@),
{
    let ghost s = v@;
    let ghost all = split_on(s, sep@);
    let mut r: Vec<String> = Vec::new();
    let mut start: usize = 0;
    let mut i: usize = 0;
    let ghost done: Seq<Seq<char>> = Seq::empty();
    while sep.len() <= v.len() - i
        invariant
            0 <= start <= i <= v@.len(),
            sep@.len() > 0,
            s == v@,
            all == split_on(s, sep@),
            all == done + split_from(s, sep@, start as int, i as int),
            trimmed ==> views(r@) == trim_all(done),
            !trimmed ==> views(r@) == done,
        decreases v@.len() - i,
    {
        if occurs(v, sep, i) {
            let (a, b) = if trimmed {
                trim_bounds(v, start, i)
            } else {
                (start, i)
            };
            let piece = string_of(v, a, b);
            proof {
                let p = s.subrange(start as int, i as int);
                assert(split_from(s, sep@, start as int, i as int) == seq![p] + split_from(
                    s,
                    sep@,
                    i + sep@.len(),
                    i + sep@.len(),
                ));
                assert(done + seq![p] == (done + seq![p]).drop_last().push(p));
                done = done + seq![p];
            }
            let ghost before = r@;
            r.push(piece);
            proof {
                assert(views(r@) =~= views(before).push(piece@));
                assert(trim_all(done) =~= trim_all(done.drop_last()).push(trim(done.last())));
            }
            i = i + sep.len();
            start = i;
        } else {
            i = i + 1;
        }
    }
    let (a, b) = if trimmed {
        trim_bounds(v, start, v.len())
    } else {
        (start, v.len())
    };
    let piece = string_of(v, a, b);
    proof {
        let p = s.subrange(start as int, s.len() as int);
        assert(split_from(s, sep@, start as int, i as int) == seq![p]);
        assert(done + seq![p] == (done + seq![p]).drop_last().push(p));
        done = done + seq![p];
    }
    let ghost before = r@;
    r.push(piece);
    proof {
        assert(views(r@) =~= views(before).push(piece@));
        assert(trim_all(done) =~= trim_all(done.drop_last()).push(trim(done.last())));
        assert(all == done);
    }
    r
}

} // verus!
