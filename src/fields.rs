//! Comma-separated fields of one sentence.
use vstd::prelude::*;
use vstd::slice::slice_subrange;

verus! {

pub const COMMA: u8 = 44;

/// Index of the first byte `b` in `s`, or `s.len()` when there is none.
pub open spec fn first_of(s: Seq<u8>, b: u8) -> nat
    decreases s.len(),
{
    if s.len() == 0 {
        0
    } else if s[0] == b {
        0
    } else {
        1 + first_of(s.drop_first(), b)
    }
}

/// Field `n` of `s` when split on commas; a field past the last one is empty.
pub open spec fn field(s: Seq<u8>, n: nat) -> Seq<u8>
    decreases n,
{
    let c = first_of(s, COMMA);
    if n == 0 {
        s.take(c as int)
    } else if c >= s.len() {
        Seq::empty()
    } else {
        field(s.skip(c as int + 1), (n - 1) as nat)
    }
}

pub proof fn lemma_first_of_at(s: Seq<u8>, b: u8, j: int)
    requires
        0 <= j <= s.len(),
        j == s.len() || s[j] == b,
        forall|k: int| 0 <= k < j ==> s[k] != b,
    ensures
        first_of(s, b) == j,
    decreases j,
{
    if j > 0 {
        lemma_first_of_at(s.drop_first(), b, j - 1);
    }
}

/// Index of the first byte `b` in `s`, or its length when there is none.
pub fn find_byte(s: &[u8], b: u8) -> (r: usize)
    ensures
        r == first_of(s@, b),
        r <= s@.len(),
{
    let mut j: usize = 0;
    while j < s.len() && s[j] != b
        invariant
            j <= s@.len(),
            forall|i: int| 0 <= i < j ==> s@[i] != b,
        decreases s@.len() - j,
    {
        j = j + 1;
    }
    proof {
        lemma_first_of_at(s@, b, j as int);
    }
    j
}

/// Bounds `(start, end)` of field `n` of `line`: `line[start..end]` is that field.
pub fn field_bounds(line: &[u8], n: usize) -> (r: (usize, usize))
    ensures
        r.0 <= r.1 <= line@.len(),
        line@.subrange(r.0 as int, r.1 as int) == field(line@, n as nat),
{
    let mut start: usize = 0;
    let mut k: usize = n;
    assert(line@.skip(0) =~= line@);
    loop
        invariant
            start <= line@.len(),
            k <= n,
            field(line@.skip(start as int), k as nat) == field(line@, n as nat),
        decreases k,
    {
        let ghost rest = line@.skip(start as int);
        let mut j: usize = start;
        while j < line.len() && line[j] != COMMA
            invariant
                start <= j <= line@.len(),
                forall|i: int| start <= i < j ==> line@[i] != COMMA,
            decreases line@.len() - j,
        {
            j = j + 1;
        }
        proof {
            lemma_first_of_at(rest, COMMA, j - start);
        }
        if k == 0 {
            assert(line@.subrange(start as int, j as int) =~= rest.take(j - start));
            return (start, j);
        }
        if j >= line.len() {
            assert(line@.subrange(start as int, start as int) =~= Seq::<u8>::empty());
            return (start, start);
        }
        assert(rest.skip(j - start + 1) =~= line@.skip(j + 1));
        start = j + 1;
        k = k - 1;
    }
}

/// Field `n` of `line` as a slice of it.
pub fn field_at(line: &[u8], n: usize) -> (r: &[u8])
    ensures
        r@ == field(line@, n as nat),
{
    let (a, b) = field_bounds(line, n);
    slice_subrange(line, a, b)
}

} // verus!
