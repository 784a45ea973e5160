//! Literal substring search across all lines.
//!
//! `search_keyword` returns the pairs `(line_number, line_text)` — 1-indexed,
//! in ascending order of line number — of exactly those lines that contain
//! the keyword as a contiguous byte substring.  The empty keyword matches
//! every line.

use vstd::prelude::*;

verus! {

/// `needle` occurs in `hay` as a contiguous substring.
pub open spec fn contains_sub(hay: Seq<u8>, needle: Seq<u8>) -> bool {
    exists|i: int|
        0 <= i && i + needle.len() <= hay.len() && #[trigger] hay.subrange(
            i,
            i + needle.len() as int,
        ) == needle
}

/// `needle` occurs in `hay` starting at index `at`.
fn matches_at(hay: &Vec<u8>, needle: &Vec<u8>, at: usize) -> (b: bool)
    requires
        at + needle@.len() <= hay@.len(),
    ensures
        b == (hay@.subrange(at as int, at + needle@.len()) == needle@),
{
    let ghost sub = hay@.subrange(at as int, at + needle@.len());
    let hay_len = hay.len();
    let mut j: usize = 0;
    while j < needle.len()
        invariant
            at + needle@.len() <= hay_len == hay@.len(),
            j <= needle@.len(),
            sub == hay@.subrange(at as int, at + needle@.len()),
            forall|j2: int| 0 <= j2 < j ==> hay@[at + j2] == needle@[j2],
        decreases needle@.len() - j,
    {
        if hay[at + j] != needle[j] {
            proof {
                assert(sub[j as int] == hay@[at + j]);
            }
            return false;
        }
        j += 1;
    }
    proof {
        assert(sub =~= needle@);
    }
    true
}

/// Decides substring containment.
pub fn contains_subslice(hay: &Vec<u8>, needle: &Vec<u8>) -> (b: bool)
    ensures
        b == contains_sub(hay@, needle@),
{
    if needle.len() > hay.len() {
        return false;
    }
    if needle.len() == 0 {
        proof {
            assert(hay@.subrange(0, 0 + needle@.len() as int) =~= needle@);
        }
        return true;
    }
    let mut i: usize = 0;
    while i <= hay.len() - needle.len()
        invariant
            0 < needle@.len() <= hay@.len(),
            i <= hay@.len() - needle@.len() + 1,
            forall|i2: int|
                0 <= i2 < i ==> #[trigger] hay@.subrange(i2, i2 + needle@.len() as int)
                    != needle@,
        decreases hay@.len() - needle@.len() + 1 - i,
    {
        if matches_at(hay, needle, i) {
            return true;
        }
        i += 1;
    }
    false
}

/// Maps result pairs to their mathematical form: an `int` line number and the
/// line's byte sequence.
pub open spec fn pairs_view(r: Seq<(usize, Vec<u8>)>) -> Seq<(int, Seq<u8>)> {
    r.map_values(|p: (usize, Vec<u8>)| (p.0 as int, p.1@))
}

/// `r` lists, in ascending order of line number, exactly the 1-indexed lines
/// of `lines` with number above `lo` whose text contains `needle`.
pub open spec fn search_result_from(
    lines: Seq<Seq<u8>>,
    needle: Seq<u8>,
    lo: int,
    r: Seq<(int, Seq<u8>)>,
) -> bool {
    &&& forall|j: int|
        0 <= j < r.len() ==> {
            &&& lo < (#[trigger] r[j]).0 <= lines.len()
            &&& r[j].1 == lines[r[j].0 - 1]
            &&& contains_sub(lines[r[j].0 - 1], needle)
        }
    &&& forall|idx: int|
        lo <= idx < lines.len() && contains_sub(#[trigger] lines[idx], needle) ==> exists|j: int|
            0 <= j < r.len() && (#[trigger] r[j]).0 == idx + 1
    &&& forall|j1: int, j2: int| 0 <= j1 < j2 < r.len() ==> (#[trigger] r[j1]).0 < (#[trigger] r[j2]).0
}

/// `r` is the full search result over `lines`: the pairs of exactly the lines
/// containing `needle`, in ascending order.
pub open spec fn search_result(lines: Seq<Seq<u8>>, needle: Seq<u8>, r: Seq<(int, Seq<u8>)>) -> bool {
    search_result_from(lines, needle, 0, r)
}

/// Returns the pairs `(line_number, line_text)` of exactly those lines that
/// contain `needle`, 1-indexed, in ascending order of line number.
pub fn search_keyword(lines: &Vec<Vec<u8>>, needle: &Vec<u8>) -> (r: Vec<(usize, Vec<u8>)>)
    ensures
        search_result(lines.deep_view(), needle@, pairs_view(r@)),
{
    let ghost dv = lines.deep_view();
    let mut r: Vec<(usize, Vec<u8>)> = Vec::new();
    let mut i: usize = 0;
    while i < lines.len()
        invariant
            i <= lines@.len(),
            dv == lines.deep_view(),
            dv.len() == lines@.len(),
            forall|j: int|
                0 <= j < pairs_view(r@).len() ==> {
                    &&& 0 < (#[trigger] pairs_view(r@)[j]).0 <= i
                    &&& pairs_view(r@)[j].1 == dv[pairs_view(r@)[j].0 - 1]
                    &&& contains_sub(dv[pairs_view(r@)[j].0 - 1], needle@)
                },
            forall|idx: int|
                0 <= idx < i && contains_sub(#[trigger] dv[idx], needle@) ==> exists|j: int|
                    0 <= j < pairs_view(r@).len() && (#[trigger] pairs_view(r@)[j]).0 == idx + 1,
            forall|j1: int, j2: int|
                0 <= j1 < j2 < pairs_view(r@).len() ==> (#[trigger] pairs_view(r@)[j1]).0 < (
                #[trigger] pairs_view(r@)[j2]).0,
        decreases lines@.len() - i,
    {
        proof {
            assert(dv[i as int] == lines@[i as int].deep_view());
            assert(lines@[i as int].deep_view() =~= lines@[i as int]@);
        }
        let ghost prev = pairs_view(r@);
        if contains_subslice(&lines[i], needle) {
            let line = crate::bytes::copy_bytes(&lines[i]);
            r.push((i + 1, line));
            proof {
                assert(pairs_view(r@) =~= prev.push(((i + 1) as int, lines@[i as int]@)));
            }
        }
        proof {
            assert forall|idx: int|
                0 <= idx < i + 1 && contains_sub(#[trigger] dv[idx], needle@) implies exists|j: int|
                0 <= j < pairs_view(r@).len() && (#[trigger] pairs_view(r@)[j]).0 == idx + 1 by {
                if idx == i {
                    assert(pairs_view(r@)[prev.len() as int].0 == idx + 1);
                } else {
                    let j = choose|j: int| 0 <= j < prev.len() && (#[trigger] prev[j]).0 == idx + 1;
                    assert(pairs_view(r@)[j].0 == idx + 1);
                }
            }
        }
        i += 1;
    }
    r
}

/// The search result is unique: any two pair sequences that both list exactly
/// the matching lines above `lo`, in ascending order, are equal.
pub proof fn lemma_search_result_from_unique(
    lines: Seq<Seq<u8>>,
    needle: Seq<u8>,
    lo: int,
    r1: Seq<(int, Seq<u8>)>,
    r2: Seq<(int, Seq<u8>)>,
)
    requires
        search_result_from(lines, needle, lo, r1),
        search_result_from(lines, needle, lo, r2),
    ensures
        r1 == r2,
    decreases r1.len(),
{
    if r1.len() == 0 && r2.len() == 0 {
        assert(r1 =~= r2);
    } else if r1.len() == 0 {
        let idx = r2[0].0 - 1;
        assert(contains_sub(lines[idx], needle));
        assert(exists|j: int| 0 <= j < r1.len() && r1[j].0 == idx + 1);
    } else if r2.len() == 0 {
        let idx = r1[0].0 - 1;
        assert(contains_sub(lines[idx], needle));
        assert(exists|j: int| 0 <= j < r2.len() && r2[j].0 == idx + 1);
    } else {
        let m1 = r1[0].0;
        let m2 = r2[0].0;
        assert(m2 <= m1) by {
            let idx = m1 - 1;
            assert(contains_sub(lines[idx], needle));
            let j = choose|j: int| 0 <= j < r2.len() && r2[j].0 == idx + 1;
            assert(j > 0 ==> r2[0].0 < r2[j].0);
        }
        assert(m1 <= m2) by {
            let idx = m2 - 1;
            assert(contains_sub(lines[idx], needle));
            let j = choose|j: int| 0 <= j < r1.len() && r1[j].0 == idx + 1;
            assert(j > 0 ==> r1[0].0 < r1[j].0);
        }
        let t1 = r1.skip(1);
        let t2 = r2.skip(1);
        assert(search_result_from(lines, needle, m1, t1)) by {
            assert forall|idx: int|
                m1 <= idx < lines.len() && contains_sub(#[trigger] lines[idx], needle) implies exists|j: int|
                0 <= j < t1.len() && (#[trigger] t1[j]).0 == idx + 1 by {
                let j = choose|j: int| 0 <= j < r1.len() && r1[j].0 == idx + 1;
                assert(j > 0) by {
                    if j == 0 {
                        assert(r1[0].0 == idx + 1 > m1);
                    }
                }
                assert(t1[j - 1] == r1[j]);
            }
        }
        assert(search_result_from(lines, needle, m1, t2)) by {
            assert forall|idx: int|
                m1 <= idx < lines.len() && contains_sub(#[trigger] lines[idx], needle) implies exists|j: int|
                0 <= j < t2.len() && (#[trigger] t2[j]).0 == idx + 1 by {
                let j = choose|j: int| 0 <= j < r2.len() && r2[j].0 == idx + 1;
                assert(j > 0) by {
                    if j == 0 {
                        assert(r2[0].0 == idx + 1 > m2);
                    }
                }
                assert(t2[j - 1] == r2[j]);
            }
        }
        lemma_search_result_from_unique(lines, needle, m1, t1, t2);
        assert(r1[0].1 == lines[m1 - 1]);
        assert(r2[0].1 == lines[m2 - 1]);
        assert(r1 =~= r2) by {
            assert forall|j: int| 0 <= j < r1.len() implies r1[j] == r2[j] by {
                if j > 0 {
                    assert(t1[j - 1] == t2[j - 1]);
                }
            }
        }
    }
}

/// Searching is deterministic, ascending, and idempotent: the contract of
/// `search_keyword` admits exactly one result for given lines and keyword, so
/// repeated invocations in a session return the same pairs in the same
/// ascending order.
pub proof fn lemma_search_result_unique(
    lines: Seq<Seq<u8>>,
    needle: Seq<u8>,
    r1: Seq<(int, Seq<u8>)>,
    r2: Seq<(int, Seq<u8>)>,
)
    requires
        search_result(lines, needle, r1),
        search_result(lines, needle, r2),
    ensures
        r1 == r2,
{
    lemma_search_result_from_unique(lines, needle, 0, r1, r2);
}

} // verus!
