//! General-purpose operations on byte sequences: locating the first
//! occurrence of a byte, and copying parts of a byte vector.

use vstd::prelude::*;

verus! {

/// Index of the first occurrence of `b` in `s`, or `s.len()` if `b` does not
/// occur in `s`.
pub open spec fn first_index_of_byte(s: Seq<u8>, b: u8) -> nat
    decreases s.len(),
{
    if s.len() == 0 {
        0
    } else if s[0] == b {
        0
    } else {
        1 + first_index_of_byte(s.skip(1), b)
    }
}

/// `first_index_of_byte` is at most `s.len()`, every byte before it differs
/// from `b`, and if it lies inside `s` it points at an occurrence of `b`.
pub proof fn lemma_first_index_of_byte(s: Seq<u8>, b: u8)
    ensures
        first_index_of_byte(s, b) <= s.len(),
        forall|i: int| 0 <= i < first_index_of_byte(s, b) ==> s[i] != b,
        first_index_of_byte(s, b) < s.len() ==> s[first_index_of_byte(s, b) as int] == b,
    decreases s.len(),
{
    if s.len() > 0 && s[0] != b {
        lemma_first_index_of_byte(s.skip(1), b);
        assert forall|i: int| 0 <= i < first_index_of_byte(s, b) implies s[i] != b by {
            if i > 0 {
                assert(s.skip(1)[i - 1] != b);
            }
        }
    }
}

/// Returns `first_index_of_byte(v@, b)`: the index of the first occurrence of
/// `b` in `v`, or `v.len()` if there is none.
pub fn find_byte(v: &Vec<u8>, b: u8) -> (r: usize)
    ensures
        r == first_index_of_byte(v@, b),
        r <= v@.len(),
{
    let mut i: usize = 0;
    while i < v.len()
        invariant
            i <= v@.len(),
            forall|j: int| 0 <= j < i ==> v@[j] != b,
        decreases v@.len() - i,
    {
        if v[i] == b {
            proof {
                lemma_first_index_of_byte(v@, b);
            }
            return i;
        }
        i += 1;
    }
    proof {
        lemma_first_index_of_byte(v@, b);
    }
    i
}

/// Copies the bytes of `v` from index `from` (inclusive) to the end.
pub fn suffix_of(v: &Vec<u8>, from: usize) -> (r: Vec<u8>)
    requires
        from <= v@.len(),
    ensures
        r@ == v@.skip(from as int),
{
    let mut r: Vec<u8> = Vec::new();
    let mut i: usize = from;
    while i < v.len()
        invariant
            from <= i <= v@.len(),
            r@ == v@.subrange(from as int, i as int),
        decreases v@.len() - i,
    {
        let ghost prev = r@;
        r.push(v[i]);
        proof {
            assert(prev.push(v@[i as int]) =~= v@.subrange(from as int, i + 1));
        }
        i += 1;
    }
    proof {
        assert(v@.subrange(from as int, v@.len() as int) =~= v@.skip(from as int));
    }
    r
}

/// Copies a byte vector.
pub fn copy_bytes(v: &Vec<u8>) -> (r: Vec<u8>)
    ensures
        r@ == v@,
{
    let r = suffix_of(v, 0);
    proof {
        assert(v@.skip(0) =~= v@);
    }
    r
}

} // verus!
