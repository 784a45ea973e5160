//! The line navigator: the file's lines, computed once, with the windowed
//! view and substring search over them.
//!
//! The navigator is built from the file's full byte content, so every window
//! is exact under any distribution of line lengths: line boundaries are
//! found by scanning, never estimated from byte offsets.

use vstd::prelude::*;
use crate::lines::{spec_lines, split_lines};
use crate::search::{search_result, pairs_view, search_keyword};
use crate::window::{ViewOutcome, view_lines, window_of};
use crate::numbers::spec_parse_usize;

verus! {

/// A text file as the sequence of its newline-delimited lines.
pub struct LineNavigator {
    lines: Vec<Vec<u8>>,
}

impl View for LineNavigator {
    type V = Seq<Seq<u8>>;

    closed spec fn view(&self) -> Seq<Seq<u8>> {
        self.lines.deep_view()
    }
}

impl LineNavigator {
    /// Builds the navigator from the file's full byte content.
    pub fn new(content: &Vec<u8>) -> (nav: Self)
        ensures
            nav@ == spec_lines(content@),
    {
        LineNavigator { lines: split_lines(content) }
    }

    /// The total number of newline-delimited lines in the file.
    pub fn total_lines(&self) -> (n: usize)
        ensures
            n == self@.len(),
    {
        self.lines.len()
    }

    /// Views the window around the line number given by `token`.
    pub fn view_window(&self, token: &Vec<u8>) -> (out: ViewOutcome)
        ensures
            out is InvalidNumber <==> spec_parse_usize(token@) is None,
            spec_parse_usize(token@) matches Some(n) ==> {
                &&& (out is ExceedsTotal <==> n > self@.len())
                &&& n <= self@.len() ==> (out matches ViewOutcome::Lines(w) && window_of(
                    self@,
                    n as int,
                    pairs_view(w@),
                ))
            },
    {
        proof {
            assert(self.lines@.len() == self@.len());
        }
        view_lines(&self.lines, token)
    }

    /// Searches every line for `needle`.
    pub fn search(&self, needle: &Vec<u8>) -> (r: Vec<(usize, Vec<u8>)>)
        ensures
            search_result(self@, needle@, pairs_view(r@)),
    {
        search_keyword(&self.lines, needle)
    }
}

} // verus!
