//! Character-level searches over strings, with their mathematical meaning.

use vstd::prelude::*;

verus! {

/// `c` occurs nowhere in `s`.
pub open spec fn lacks(s: Seq<char>, c: char) -> bool {
    forall|i: int| 0 <= i < s.len() ==> s[i] != c
}

/// `i` is the position of the first `c` in `s`.
pub open spec fn is_first_pos(s: Seq<char>, c: char, i: int) -> bool {
    0 <= i < s.len() && s[i] == c && lacks(s.take(i), c)
}

/// `i` is the position of the last `c` in `s`.
pub open spec fn is_last_pos(s: Seq<char>, c: char, i: int) -> bool {
    0 <= i < s.len() && s[i] == c && lacks(s.skip(i + 1), c)
}

/// `s` cut around its first `c`: what stands before it and what follows it.
pub open spec fn split_first(s: Seq<char>, c: char) -> Option<(Seq<char>, Seq<char>)> {
    if lacks(s, c) {
        None
    } else {
        let i = choose|i: int| is_first_pos(s, c, i);
        Some((s.take(i), s.skip(i + 1)))
    }
}

/// `s` cut around its last `c`: what stands before it and what follows it.
pub open spec fn split_last(s: Seq<char>, c: char) -> Option<(Seq<char>, Seq<char>)> {
    if lacks(s, c) {
        None
    } else {
        let i = choose|i: int| is_last_pos(s, c, i);
        Some((s.take(i), s.skip(i + 1)))
    }
}

/// Cutting at the first occurrence of `c` is cutting at `i`.
pub proof fn lemma_split_first_at(s: Seq<char>, c: char, i: int)
    requires
        is_first_pos(s, c, i),
    ensures
        split_first(s, c) == Some((s.take(i), s.skip(i + 1))),
{
    assert(!lacks(s, c));
    let j = choose|j: int| is_first_pos(s, c, j);
    assert(is_first_pos(s, c, j));
    if j < i {
        assert(s.take(i)[j] == c);
    } else if i < j {
        assert(s.take(j)[i] == c);
    }
}

/// Cutting at the last occurrence of `c` is cutting at `i`.
pub proof fn lemma_split_last_at(s: Seq<char>, c: char, i: int)
    requires
        is_last_pos(s, c, i),
    ensures
        split_last(s, c) == Some((s.take(i), s.skip(i + 1))),
{
    assert(!lacks(s, c));
    let j = choose|j: int| is_last_pos(s, c, j);
    assert(is_last_pos(s, c, j));
    if j < i {
        assert(s.skip(j + 1)[i - j - 1] == c);
    } else if i < j {
        assert(s.skip(i + 1)[j - i - 1] == c);
    }
}

/// `a + [c] + b` is cut at the end of `a` when `a` holds no `c`.
pub proof fn lemma_split_first_joined(a: Seq<char>, c: char, b: Seq<char>)
    requires
        lacks(a, c),
    ensures
        split_first(a + seq![c] + b, c) == Some((a, b)),
{
    let s = a + seq![c] + b;
    assert(s.take(a.len() as int) =~= a);
    assert(s.skip(a.len() as int + 1) =~= b);
    assert(s[a.len() as int] == c);
    lemma_split_first_at(s, c, a.len() as int);
}

/// `a + [c] + b` is cut at the start of `b` when `b` holds no `c`.
pub proof fn lemma_split_last_joined(a: Seq<char>, c: char, b: Seq<char>)
    requires
        lacks(b, c),
    ensures
        split_last(a + seq![c] + b, c) == Some((a, b)),
{
    let s = a + seq![c] + b;
    assert(s.take(a.len() as int) =~= a);
    assert(s.skip(a.len() as int + 1) =~= b);
    assert(s[a.len() as int] == c);
    lemma_split_last_at(s, c, a.len() as int);
}

/// A sequence that holds `c` has a first `c`.
proof fn lemma_first_pos_exists(s: Seq<char>, c: char)
    requires
        !lacks(s, c),
    ensures
        exists|i: int| is_first_pos(s, c, i),
    decreases s.len(),
{
    if s[0] == c {
        assert(is_first_pos(s, c, 0));
    } else {
        let t = s.drop_first();
        assert(!lacks(t, c)) by {
            let k = choose|k: int| 0 <= k < s.len() && s[k] == c;
            assert(t[k - 1] == c);
        }
        lemma_first_pos_exists(t, c);
        let j = choose|j: int| is_first_pos(t, c, j);
        assert forall|k: int| 0 <= k < j + 1 implies #[trigger] s.take(j + 1)[k] != c by {
            if k > 0 {
                assert(s.take(j + 1)[k] == t.take(j)[k - 1]);
            }
        }
        assert(is_first_pos(s, c, j + 1));
    }
}

/// A sequence that holds `c` has a last `c`.
proof fn lemma_last_pos_exists(s: Seq<char>, c: char)
    requires
        !lacks(s, c),
    ensures
        exists|i: int| is_last_pos(s, c, i),
    decreases s.len(),
{
    let n = s.len() as int;
    if s[n - 1] == c {
        assert(s.skip(n) =~= Seq::<char>::empty());
        assert(is_last_pos(s, c, n - 1));
    } else {
        let t = s.drop_last();
        assert(!lacks(t, c)) by {
            let k = choose|k: int| 0 <= k < s.len() && s[k] == c;
            assert(t[k] == c);
        }
        lemma_last_pos_exists(t, c);
        let j = choose|j: int| is_last_pos(t, c, j);
        assert forall|k: int| 0 <= k < n - j - 1 implies #[trigger] s.skip(j + 1)[k] != c by {
            if k < n - j - 2 {
                assert(s.skip(j + 1)[k] == t.skip(j + 1)[k]);
            }
        }
        assert(is_last_pos(s, c, j));
    }
}

/// What [`split_first`] gives back joins to the whole, and its first part
/// holds no `c`.
pub proof fn lemma_split_first_parts(s: Seq<char>, c: char)
    requires
        split_first(s, c) is Some,
    ensures
        s == split_first(s, c).unwrap().0 + seq![c] + split_first(s, c).unwrap().1,
        lacks(split_first(s, c).unwrap().0, c),
{
    lemma_first_pos_exists(s, c);
    let i = choose|i: int| is_first_pos(s, c, i);
    assert(s =~= s.take(i) + seq![c] + s.skip(i + 1));
}

/// What [`split_last`] gives back joins to the whole, and its second part
/// holds no `c`.
pub proof fn lemma_split_last_parts(s: Seq<char>, c: char)
    requires
        split_last(s, c) is Some,
    ensures
        s == split_last(s, c).unwrap().0 + seq![c] + split_last(s, c).unwrap().1,
        lacks(split_last(s, c).unwrap().1, c),
{
    lemma_last_pos_exists(s, c);
    let i = choose|i: int| is_last_pos(s, c, i);
    assert(s =~= s.take(i) + seq![c] + s.skip(i + 1));
}

/// Position of the first `c` in `s`, if there is one.
pub fn find_first(s: &str, c: char) -> (r: Option<usize>)
    ensures
        match r {
            Some(i) => is_first_pos(s@, c, i as int),
            None => lacks(s@, c),
        },
{
    let n = s.unicode_len();
    let mut i: usize = 0;
    while i < n
        invariant
            n == s@.len(),
            i <= n,
            lacks(s@.take(i as int), c),
        decreases n - i,
    {
        if s.get_char(i) == c {
            return Some(i);
        }
        assert forall|j: int| 0 <= j < i + 1 implies #[trigger] s@.take(i + 1)[j] != c by {
            if j < i {
                assert(s@.take(i as int)[j] == s@[j]);
            }
        }
        i = i + 1;
    }
    assert(s@.take(n as int) =~= s@);
    None
}

/// Position of the last `c` in `s`, if there is one.
pub fn find_last(s: &str, c: char) -> (r: Option<usize>)
    ensures
        match r {
            Some(i) => is_last_pos(s@, c, i as int),
            None => lacks(s@, c),
        },
{
    let n = s.unicode_len();
    let mut i: usize = n;
    while i > 0
        invariant
            n == s@.len(),
            i <= n,
            lacks(s@.skip(i as int), c),
        decreases i,
    {
        if s.get_char(i - 1) == c {
            assert(s@.skip(i as int) =~= s@.skip(i - 1 + 1));
            return Some(i - 1);
        }
        assert forall|j: int| 0 <= j < n - i + 1 implies #[trigger] s@.skip(i - 1)[j] != c by {
            if j > 0 {
                assert(s@.skip(i - 1)[j] == s@.skip(i as int)[j - 1]);
            }
        }
        i = i - 1;
    }
    assert(s@.skip(0) =~= s@);
    None
}

} // verus!
