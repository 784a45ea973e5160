//! Windowed view around a 1-indexed line number.
//!
//! For a target line `n` within a file of `total` lines, the window is the
//! inclusive range of line numbers `[max(1, n - 5), min(total, n + 5)]`.  A
//! number token that does not parse, or one beyond the total, yields a
//! message outcome instead of lines.

use vstd::prelude::*;
use crate::numbers::{spec_parse_usize, parse_usize};
use crate::search::pairs_view;
use crate::bytes::copy_bytes;

verus! {

/// How many lines of context the window extends on each side of the target.
pub const WINDOW_RADIUS: usize = 5;

/// First line number of the window around `n`: `max(1, n - 5)`.
pub open spec fn window_start(n: int) -> int {
    if n - WINDOW_RADIUS > 1 {
        n - WINDOW_RADIUS
    } else {
        1
    }
}

/// Last line number of the window around `n`: `min(total, n + 5)`.
pub open spec fn window_end(n: int, total: int) -> int {
    if n + WINDOW_RADIUS < total {
        n + WINDOW_RADIUS
    } else {
        total
    }
}

/// `w` lists exactly the lines of `lines` numbered `window_start(n)` through
/// `window_end(n, lines.len())`, in ascending order, each paired with its
/// 1-indexed number.
pub open spec fn window_of(lines: Seq<Seq<u8>>, n: int, w: Seq<(int, Seq<u8>)>) -> bool {
    let s = window_start(n);
    let e = window_end(n, lines.len() as int);
    &&& w.len() == if e >= s {
        e - s + 1
    } else {
        0
    }
    &&& forall|j: int|
        0 <= j < w.len() ==> (#[trigger] w[j]).0 == s + j && w[j].1 == lines[s + j - 1]
}

/// Outcome of a windowed-view request.
#[derive(Debug, PartialEq, Eq)]
pub enum ViewOutcome {
    /// The window's lines, each paired with its 1-indexed line number.
    Lines(Vec<(usize, Vec<u8>)>),
    /// The requested line number exceeds the total number of lines.
    ExceedsTotal,
    /// The number token did not parse as a `usize`.
    InvalidNumber,
}

/// Views the window around the line number given by `token`: parses the
/// token, rejects numbers beyond the total, and otherwise returns the lines
/// numbered `max(1, n - 5)` through `min(total, n + 5)`.
pub fn view_lines(lines: &Vec<Vec<u8>>, token: &Vec<u8>) -> (out: ViewOutcome)
    ensures
        out is InvalidNumber <==> spec_parse_usize(token@) is None,
        spec_parse_usize(token@) matches Some(n) ==> {
            &&& (out is ExceedsTotal <==> n > lines@.len())
            &&& n <= lines@.len() ==> (out matches ViewOutcome::Lines(w) && window_of(
                lines.deep_view(),
                n as int,
                pairs_view(w@),
            ))
        },
{
    let ghost dv = lines.deep_view();
    let parsed = parse_usize(token);
    match parsed {
        None => ViewOutcome::InvalidNumber,
        Some(n) => {
            if n > lines.len() {
                ViewOutcome::ExceedsTotal
            } else {
                let start: usize = if n > WINDOW_RADIUS {
                    n - WINDOW_RADIUS
                } else {
                    1
                };
                let end: usize = if lines.len() - n < WINDOW_RADIUS {
                    lines.len()
                } else {
                    n + WINDOW_RADIUS
                };
                let count: usize = if end < start {
                    0
                } else {
                    end - start + 1
                };
                let mut w: Vec<(usize, Vec<u8>)> = Vec::new();
                let mut j: usize = 0;
                while j < count
                    invariant
                        dv == lines.deep_view(),
                        dv.len() == lines@.len(),
                        1 <= start,
                        start - 1 <= end <= lines@.len(),
                        count == end - start + 1 || (count == 0 && end < start),
                        j <= count,
                        start == window_start(n as int),
                        end == window_end(n as int, lines@.len() as int),
                        pairs_view(w@).len() == j,
                        forall|j2: int|
                            0 <= j2 < pairs_view(w@).len() ==> (#[trigger] pairs_view(w@)[j2]).0
                                == start + j2 && pairs_view(w@)[j2].1 == dv[start + j2 - 1],
                    decreases count - j,
                {
                    let m = start + j;
                    let line = copy_bytes(&lines[m - 1]);
                    let ghost prev = pairs_view(w@);
                    w.push((m, line));
                    proof {
                        assert(lines@[m - 1].deep_view() =~= lines@[m - 1]@);
                        assert(pairs_view(w@) =~= prev.push((m as int, lines@[m - 1]@)));
                    }
                    j += 1;
                }
                ViewOutcome::Lines(w)
            }
        },
    }
}

} // verus!
