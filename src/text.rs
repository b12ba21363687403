//! Byte-string helpers used by the command grammar.

use vstd::prelude::*;
use vstd::string::StringSliceAdditionalSpecFns;

verus! {

/// The bytes of a string literal.
pub open spec fn lit(s: &str) -> Seq<u8> {
    s.spec_bytes()
}

pub open spec fn is_prefix(pre: Seq<u8>, s: Seq<u8>) -> bool {
    pre.len() <= s.len() && s.subrange(0, pre.len() as int) == pre
}

/// Position of the first `c` in `s`, or `s.len()` where there is none.
pub open spec fn index_of(s: Seq<u8>, c: u8) -> int
    decreases s.len(),
{
    if s.len() == 0 || s[0] == c {
        0
    } else {
        1 + index_of(s.drop_first(), c)
    }
}

/// Position of the last `c` in `s`, or -1 where there is none.
pub open spec fn rindex_of(s: Seq<u8>, c: u8) -> int
    decreases s.len(),
{
    if s.len() == 0 {
        -1
    } else if s.last() == c {
        s.len() - 1
    } else {
        rindex_of(s.drop_last(), c)
    }
}

/// `s` with every leading repetition of `pre` removed.
pub open spec fn strip_all(s: Seq<u8>, pre: Seq<u8>) -> Seq<u8>
    decreases s.len(),
{
    if pre.len() > 0 && is_prefix(pre, s) {
        strip_all(s.subrange(pre.len() as int, s.len() as int), pre)
    } else {
        s
    }
}

/// End of the comma-separated field that starts at `from`.
pub open spec fn field_end(s: Seq<u8>, from: int) -> int {
    from + index_of(s.subrange(from, s.len() as int), 44)
}

proof fn lemma_index_of(s: Seq<u8>, c: u8, r: int)
    requires
        0 <= r <= s.len(),
        forall|k: int| 0 <= k < r ==> s[k] != c,
        r < s.len() ==> s[r] == c,
    ensures
        index_of(s, c) == r,
    decreases s.len(),
{
    if s.len() > 0 && s[0] != c {
        lemma_index_of(s.drop_first(), c, r - 1);
    }
}

proof fn lemma_rindex_of(s: Seq<u8>, c: u8, r: int)
    requires
        -1 <= r < s.len(),
        forall|k: int| r < k < s.len() ==> s[k] != c,
        r >= 0 ==> s[r] == c,
    ensures
        rindex_of(s, c) == r,
    decreases s.len(),
{
    if s.len() > 0 && s.last() != c {
        lemma_rindex_of(s.drop_last(), c, r);
    }
}

pub fn starts_with(s: &[u8], pre: &[u8]) -> (r: bool)
    ensures
        r == is_prefix(pre@, s@),
{
    if pre.len() > s.len() {
        return false;
    }
    let mut i: usize = 0;
    while i < pre.len()
        invariant
            pre@.len() <= s@.len(),
            i <= pre@.len(),
            forall|k: int| 0 <= k < i ==> s@[k] == pre@[k],
        decreases pre@.len() - i,
    {
        if s[i] != pre[i] {
            assert(s@.subrange(0, pre@.len() as int)[i as int] != pre@[i as int]);
            return false;
        }
        i += 1;
    }
    assert(s@.subrange(0, pre@.len() as int) =~= pre@);
    true
}

pub fn equals(s: &[u8], t: &[u8]) -> (r: bool)
    ensures
        r == (s@ == t@),
{
    if s.len() != t.len() {
        return false;
    }
    let b = starts_with(s, t);
    proof {
        if b {
            assert(s@ =~= s@.subrange(0, t@.len() as int));
        } else {
            assert(s@.subrange(0, t@.len() as int) =~= s@);
        }
    }
    b
}

/// Position of the first `c` in `s` at or after `from`, or `s.len()`.
pub fn find_from(s: &[u8], from: usize, c: u8) -> (r: usize)
    requires
        from <= s@.len(),
    ensures
        r == from + index_of(s@.subrange(from as int, s@.len() as int), c),
        from <= r <= s@.len(),
{
    let mut i: usize = from;
    while i < s.len() && s[i] != c
        invariant
            from <= i <= s@.len(),
            forall|k: int| from <= k < i ==> s@[k] != c,
        decreases s@.len() - i,
    {
        i += 1;
    }
    proof {
        lemma_index_of(s@.subrange(from as int, s@.len() as int), c, i - from);
    }
    i
}

/// Position of the last `c` in `s`, if any.
pub fn rfind(s: &[u8], c: u8) -> (r: Option<usize>)
    ensures
        match r {
            Some(i) => rindex_of(s@, c) == i as int && i < s@.len(),
            None => rindex_of(s@, c) == -1,
        },
{
    let mut i: usize = s.len();
    while i > 0 && s[i - 1] != c
        invariant
            i <= s@.len(),
            forall|k: int| i <= k < s@.len() ==> s@[k] != c,
        decreases i,
    {
        i -= 1;
    }
    proof {
        lemma_rindex_of(s@, c, i - 1);
    }
    if i == 0 {
        None
    } else {
        Some(i - 1)
    }
}

/// Start of what is left of `s` once every leading `pre` is removed.
pub fn strip_all_start(s: &[u8], pre: &[u8]) -> (r: usize)
    ensures
        r <= s@.len(),
        s@.subrange(r as int, s@.len() as int) == strip_all(s@, pre@),
{
    let mut start: usize = 0;
    assert(s@.subrange(0, s@.len() as int) =~= s@);
    while pre.len() > 0 && starts_with(vstd::slice::slice_subrange(s, start, s.len()), pre)
        invariant
            start <= s@.len(),
            strip_all(s@.subrange(start as int, s@.len() as int), pre@) == strip_all(s@, pre@),
        decreases s@.len() - start,
    {
        let ghost rest = s@.subrange(start as int, s@.len() as int);
        assert(rest.subrange(pre@.len() as int, rest.len() as int) =~= s@.subrange(
            start + pre@.len(),
            s@.len() as int,
        ));
        start = start + pre.len();
    }
    start
}

/// A copy of `s[a..b]`.
pub fn copy_range(s: &[u8], a: usize, b: usize) -> (r: Vec<u8>)
    requires
        a <= b <= s@.len(),
    ensures
        r@ == s@.subrange(a as int, b as int),
{
    vstd::slice::slice_to_vec(vstd::slice::slice_subrange(s, a, b))
}

} // verus!
