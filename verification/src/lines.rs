//! Splitting a byte stream into its newline-delimited lines, and counting
//! them.
//!
//! A line is a maximal run of bytes terminated by a newline byte or by the
//! end of the stream; the terminating newline is not part of the line.  A
//! trailing newline does not open an extra empty line, and an empty stream
//! has no lines.

use vstd::prelude::*;
use crate::bytes::{first_index_of_byte, lemma_first_index_of_byte};

verus! {

pub const NEWLINE: u8 = 10;

/// Length of the first line of `s`: the number of bytes before the first
/// newline, or all of `s` if it has none.
pub open spec fn first_line_len(s: Seq<u8>) -> nat {
    first_index_of_byte(s, NEWLINE)
}

/// The sequence of newline-delimited lines of `s`.
pub open spec fn spec_lines(s: Seq<u8>) -> Seq<Seq<u8>>
    decreases s.len(),
        via spec_lines_decreases
{
    if s.len() == 0 {
        Seq::empty()
    } else {
        let k = first_line_len(s) as int;
        let rest = if k < s.len() {
            s.skip(k + 1)
        } else {
            s.skip(k)
        };
        seq![s.take(k)] + spec_lines(rest)
    }
}

#[via_fn]
proof fn spec_lines_decreases(s: Seq<u8>) {
    lemma_first_index_of_byte(s, NEWLINE);
}

/// Splitting at the first newline: if `a` is newline-free, the lines of
/// `a + "\n" + b` are `a` followed by the lines of `b`.
pub proof fn lemma_lines_split(a: Seq<u8>, b: Seq<u8>)
    requires
        forall|i: int| 0 <= i < a.len() ==> a[i] != NEWLINE,
    ensures
        spec_lines(a + seq![NEWLINE] + b) == seq![a] + spec_lines(b),
{
    let s = a + seq![NEWLINE] + b;
    lemma_first_index_of_byte(s, NEWLINE);
    let k = first_line_len(s) as int;
    assert(s[a.len() as int] == NEWLINE);
    assert(k <= a.len());
    assert(k >= a.len()) by {
        if k < a.len() {
            assert(s[k] == a[k]);
        }
    }
    assert(s.take(k) =~= a);
    assert(s.skip(k + 1) =~= b);
    assert(spec_lines(s) =~= seq![a] + spec_lines(b));
}

/// A newline-free non-empty sequence is a single line; an empty one has no
/// lines.
pub proof fn lemma_lines_no_newline(a: Seq<u8>)
    requires
        forall|i: int| 0 <= i < a.len() ==> a[i] != NEWLINE,
    ensures
        spec_lines(a) == if a.len() == 0 { Seq::<Seq<u8>>::empty() } else { seq![a] },
{
    if a.len() > 0 {
        lemma_first_index_of_byte(a, NEWLINE);
        let k = first_line_len(a) as int;
        assert(k == a.len()) by {
            if k < a.len() {
                assert(a[k] == NEWLINE);
            }
        }
        assert(a.take(k) =~= a);
        assert(a.skip(k) =~= Seq::<u8>::empty());
        assert(spec_lines(Seq::<u8>::empty()) == Seq::<Seq<u8>>::empty());
        assert(spec_lines(a) =~= seq![a]);
    }
}

/// Splits `content` into its newline-delimited lines.
pub fn split_lines(content: &Vec<u8>) -> (lines: Vec<Vec<u8>>)
    ensures
        lines.deep_view() == spec_lines(content@),
{
    let mut lines: Vec<Vec<u8>> = Vec::new();
    let mut cur: Vec<u8> = Vec::new();
    let mut i: usize = 0;
    proof {
        assert(cur@ + content@.skip(0) =~= content@);
    }
    while i < content.len()
        invariant
            i <= content@.len(),
            forall|j: int| 0 <= j < cur@.len() ==> cur@[j] != NEWLINE,
            spec_lines(content@) == lines.deep_view() + spec_lines(cur@ + content@.skip(i as int)),
        decreases content@.len() - i,
    {
        let b = content[i];
        let ghost rest = content@.skip(i as int);
        let ghost rest_next = content@.skip(i + 1);
        if b == NEWLINE {
            proof {
                assert(cur@ + rest =~= cur@ + seq![NEWLINE] + rest_next);
                lemma_lines_split(cur@, rest_next);
            }
            let ghost prev_lines = lines.deep_view();
            let ghost prev_cur = cur@;
            lines.push(cur);
            cur = Vec::new();
            proof {
                assert(lines.deep_view() =~~= prev_lines + seq![prev_cur]);
                assert(cur@ + rest_next =~= rest_next);
                assert(lines.deep_view() + spec_lines(rest_next)
                    =~= prev_lines + (seq![prev_cur] + spec_lines(rest_next)));
            }
        } else {
            let ghost prev_cur = cur@;
            cur.push(b);
            proof {
                assert(cur@ + rest_next =~= prev_cur + rest);
            }
        }
        i += 1;
    }
    let ghost final_cur = cur@;
    proof {
        assert(content@.skip(content@.len() as int) =~= Seq::<u8>::empty());
        assert(final_cur + content@.skip(content@.len() as int) =~= final_cur);
        lemma_lines_no_newline(final_cur);
    }
    if cur.len() > 0 {
        let ghost prev_lines = lines.deep_view();
        lines.push(cur);
        proof {
            assert(lines.deep_view() =~~= prev_lines + seq![final_cur]);
        }
    } else {
        proof {
            assert(lines.deep_view() + Seq::<Seq<u8>>::empty() =~= lines.deep_view());
        }
    }
    lines
}

/// Counts the newline-delimited lines of `content` in a single pass.
pub fn count_lines(content: &Vec<u8>) -> (n: usize)
    ensures
        n == spec_lines(content@).len(),
{
    let mut n: usize = 0;
    let ghost mut cur: Seq<u8> = Seq::empty();
    let mut i: usize = 0;
    proof {
        assert(cur + content@.skip(0) =~= content@);
    }
    while i < content.len()
        invariant
            i <= content@.len(),
            n + (if cur.len() > 0 { 1int } else { 0int }) <= i,
            forall|j: int| 0 <= j < cur.len() ==> cur[j] != NEWLINE,
            cur.len() > 0 <==> (i > 0 && content@[i - 1] != NEWLINE),
            spec_lines(content@).len() == n + spec_lines(cur + content@.skip(i as int)).len(),
        decreases content@.len() - i,
    {
        let b = content[i];
        let ghost rest = content@.skip(i as int);
        let ghost rest_next = content@.skip(i + 1);
        if b == NEWLINE {
            proof {
                assert(cur + rest =~= cur + seq![NEWLINE] + rest_next);
                lemma_lines_split(cur, rest_next);
                cur = Seq::empty();
                assert(cur + rest_next =~= rest_next);
            }
            n += 1;
        } else {
            proof {
                let prev_cur = cur;
                cur = cur.push(b);
                assert(cur + rest_next =~= prev_cur + rest);
            }
        }
        i += 1;
    }
    proof {
        assert(cur + content@.skip(content@.len() as int) =~= cur);
        lemma_lines_no_newline(cur);
    }
    if i > 0 && content[i - 1] != NEWLINE {
        n + 1
    } else {
        n
    }
}

} // verus!
