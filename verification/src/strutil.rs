//! Small verified helpers on strings and characters.

use vstd::prelude::*;
use vstd::string::*;

verus! {

/// Relies on `String::push` of std: it appends exactly the one character.
#[verifier::external_body]
pub(crate) fn push_char(s: &mut String, c: char)
    ensures
        final(s)@ == old(s)@.push(c),
{
    s.push(c);
}

/// Build a `String` from a vector of characters.
pub fn string_of_chars(v: &Vec<char>) -> (r: String)
    ensures
        r@ == v@,
{
    let mut r = String::new();
    let n = v.len();
    for i in it: 0..n
        invariant
            n == v.len(),
            r@ =~= v@.take(i as int),
    {
        push_char(&mut r, v[i]);
        assert(v@.take(i + 1) =~= v@.take(i as int).push(v@[i as int]));
    }
    assert(v@.take(n as int) =~= v@);
    r
}

/// A string of `n` copies of one character.
pub open spec fn char_repeat(c: char, n: int) -> Seq<char>
    decreases n,
{
    if n <= 0 {
        Seq::empty()
    } else {
        char_repeat(c, n - 1).push(c)
    }
}

pub fn repeat_char(c: char, n: usize) -> (r: String)
    ensures
        r@ == char_repeat(c, n as int),
{
    let mut r = String::new();
    for i in it: 0..n
        invariant
            r@ =~= char_repeat(c, i as int),
    {
        push_char(&mut r, c);
    }
    r
}

/// Whether `a` occurs in `s` starting at position `at`.
pub open spec fn matches_at(s: Seq<char>, at: int, a: Seq<char>) -> bool {
    0 <= at && at + a.len() <= s.len() && s.subrange(at, at + a.len()) =~= a
}

/// Decide `matches_at` on string slices.
pub fn check_matches_at(s: &str, s_len: usize, at: usize, a: &str) -> (r: bool)
    requires
        s_len == s@.len(),
        at <= s@.len(),
    ensures
        r == matches_at(s@, at as int, a@),
{
    let a_len = a.unicode_len();
    if s_len - at < a_len {
        return false;
    }
    for i in it: 0..a_len
        invariant
            at + a_len <= s_len == s@.len(),
            a_len == a@.len(),
            forall|j: int| 0 <= j < i ==> s@[at + j] == a@[j],
    {
        if s.get_char(at + i) != a.get_char(i) {
            assert(s@.subrange(at as int, at + a@.len())[i as int] != a@[i as int]);
            return false;
        }
    }
    assert(s@.subrange(at as int, at + a@.len()) =~= a@);
    true
}

/// Pieces joined with a separator between each pair.
pub open spec fn join_with(xs: Seq<Seq<char>>, sep: Seq<char>) -> Seq<char>
    decreases xs.len(),
{
    if xs.len() == 0 {
        Seq::empty()
    } else if xs.len() == 1 {
        xs[0]
    } else {
        xs[0] + sep + join_with(xs.skip(1), sep)
    }
}

pub proof fn lemma_join_with_push(xs: Seq<Seq<char>>, sep: Seq<char>, x: Seq<char>)
    ensures
        xs.len() == 0 ==> join_with(xs.push(x), sep) =~= x,
        xs.len() > 0 ==> join_with(xs.push(x), sep) =~= join_with(xs, sep) + sep + x,
    decreases xs.len(),
{
    if xs.len() == 0 {
    } else if xs.len() == 1 {
        assert(xs.push(x).skip(1) =~= seq![x]);
        assert(join_with(seq![x], sep) =~= x);
    } else {
        lemma_join_with_push(xs.skip(1), sep, x);
        assert(xs.push(x).skip(1) =~= xs.skip(1).push(x));
    }
}

/// Whether two string slices hold the same characters.
pub fn str_eq(a: &str, b: &str) -> (r: bool)
    ensures
        r == (a@ == b@),
{
    let a_len = a.unicode_len();
    let b_len = b.unicode_len();
    if a_len != b_len {
        return false;
    }
    for i in it: 0..a_len
        invariant
            a_len == a@.len() && a_len == b@.len(),
            forall|j: int| 0 <= j < i ==> a@[j] == b@[j],
    {
        if a.get_char(i) != b.get_char(i) {
            return false;
        }
    }
    proof {
        assert(a@ =~= b@);
    }
    true
}

/// Index of the first occurrence of `c` at or after `from`, or `len`.
pub open spec fn find_from(s: Seq<char>, from: int, c: char) -> int
    decreases s.len() - from,
{
    if from < 0 || from >= s.len() {
        s.len() as int
    } else if s[from] == c {
        from
    } else {
        find_from(s, from + 1, c)
    }
}

pub proof fn lemma_find_from(s: Seq<char>, from: int, c: char)
    requires
        0 <= from <= s.len(),
    ensures
        from <= find_from(s, from, c) <= s.len(),
        forall|i: int| from <= i < find_from(s, from, c) ==> s[i] != c,
        find_from(s, from, c) < s.len() ==> s[find_from(s, from, c)] == c,
    decreases s.len() - from,
{
    if from < s.len() && s[from] != c {
        lemma_find_from(s, from + 1, c);
    }
}

/// Decide `find_from` on a string slice.
pub fn find_char_from(s: &str, s_len: usize, from: usize, c: char) -> (r: usize)
    requires
        s_len == s@.len(),
        from <= s@.len(),
    ensures
        r == find_from(s@, from as int, c),
{
    proof {
        lemma_find_from(s@, from as int, c);
    }
    let mut i = from;
    while i < s_len
        invariant
            from <= i <= s_len == s@.len(),
            forall|j: int| from <= j < i ==> s@[j] != c,
            from <= find_from(s@, from as int, c) <= s@.len(),
            forall|j: int| from <= j < find_from(s@, from as int, c) ==> s@[j] != c,
            find_from(s@, from as int, c) < s@.len() ==> s@[find_from(s@, from as int, c)] == c,
        decreases s_len - i,
    {
        if s.get_char(i) == c {
            proof {
                let f = find_from(s@, from as int, c);
                if f < i {
                    assert(s@[f] != c);
                } else if f > i {
                    assert(s@[i as int] != c);
                }
            }
            return i;
        }
        i = i + 1;
    }
    proof {
        let f = find_from(s@, from as int, c);
        if f < s@.len() {
            assert(s@[f] != c);
        }
    }
    i
}

/// Decide `find_from` on the prefix of a string slice before `to`.
pub fn find_char_before(s: &str, s_len: usize, to: usize, c: char) -> (r: usize)
    requires
        s_len == s@.len(),
        to <= s_len,
    ensures
        r == find_from(s@.take(to as int), 0, c),
{
    proof {
        lemma_find_from(s@.take(to as int), 0, c);
    }
    let mut i: usize = 0;
    while i < to
        invariant
            i <= to <= s_len == s@.len(),
            forall|j: int| 0 <= j < i ==> s@[j] != c,
            0 <= find_from(s@.take(to as int), 0, c) <= to,
            forall|j: int| 0 <= j < find_from(s@.take(to as int), 0, c) ==> s@.take(to as int)[j] != c,
            find_from(s@.take(to as int), 0, c) < to ==> s@.take(to as int)[find_from(
                s@.take(to as int),
                0,
                c,
            )] == c,
        decreases to - i,
    {
        if s.get_char(i) == c {
            proof {
                let f = find_from(s@.take(to as int), 0, c);
                if f < i {
                    assert(s@.take(to as int)[f] == s@[f]);
                } else if f > i {
                    assert(s@.take(to as int)[i as int] != c);
                }
            }
            return i;
        }
        i = i + 1;
    }
    proof {
        let f = find_from(s@.take(to as int), 0, c);
        if f < to {
            assert(s@.take(to as int)[f] == s@[f]);
        }
    }
    i
}

/// Index of the last occurrence of `c` in `s`, or `-1`.
pub open spec fn last_at(s: Seq<char>, c: char) -> int
    decreases s.len(),
{
    if s.len() == 0 {
        -1
    } else if s.last() == c {
        s.len() - 1
    } else {
        last_at(s.drop_last(), c)
    }
}

pub proof fn lemma_last_at(s: Seq<char>, c: char)
    ensures
        -1 <= last_at(s, c) < s.len(),
        forall|i: int| last_at(s, c) < i < s.len() ==> s[i] != c,
        last_at(s, c) >= 0 ==> s[last_at(s, c)] == c,
    decreases s.len(),
{
    if s.len() > 0 && s.last() != c {
        lemma_last_at(s.drop_last(), c);
        assert(forall|i: int|
            last_at(s, c) < i < s.len() - 1 ==> #[trigger] s[i] == s.drop_last()[i]);
    }
}

/// Decide `last_at` on a string slice, as the last index before `bound`.
pub fn find_last_char(s: &str, s_len: usize, c: char) -> (r: Option<usize>)
    requires
        s_len == s@.len(),
    ensures
        match r {
            Some(i) => i == last_at(s@, c),
            None => last_at(s@, c) == -1,
        },
{
    proof {
        lemma_last_at(s@, c);
    }
    let mut i = s_len;
    while i > 0
        invariant
            i <= s_len == s@.len(),
            forall|j: int| i <= j < s@.len() ==> s@[j] != c,
            -1 <= last_at(s@, c) < s@.len(),
            forall|j: int| last_at(s@, c) < j < s@.len() ==> s@[j] != c,
            last_at(s@, c) >= 0 ==> s@[last_at(s@, c)] == c,
        decreases i,
    {
        i = i - 1;
        if s.get_char(i) == c {
            proof {
                let l = last_at(s@, c);
                if l < i {
                    assert(s@[i as int] != c);
                }
            }
            return Some(i);
        }
    }
    proof {
        let l = last_at(s@, c);
        if l >= 0 {
            assert(s@[l] != c);
        }
    }
    None
}

} // verus!
