//! Parsing one line of prompt input into a command.
//!
//! The input `q` quits.  Otherwise the first space splits the input into a
//! command word and its argument: `l <token>` views a window around a line
//! number, `s <keyword>` searches for a keyword (which may itself contain
//! spaces: only the first space delimits).  Anything else — no space at all,
//! or an unknown command word — is invalid.

use vstd::prelude::*;
use crate::bytes::{first_index_of_byte, find_byte, suffix_of};

verus! {

pub const SPACE: u8 = 32;
pub const QUIT_WORD: u8 = 113;
pub const VIEW_WORD: u8 = 108;
pub const SEARCH_WORD: u8 = 115;

/// One parsed prompt command.
#[derive(Debug, PartialEq, Eq)]
pub enum Command {
    /// View a window around a line number; holds the unparsed number token.
    View(Vec<u8>),
    /// Search every line for this keyword.
    Search(Vec<u8>),
    /// End the prompt loop.
    Quit,
    /// Anything that is none of the above.
    Invalid,
}

/// What `parse_command` must return for the input `s`.
pub open spec fn command_ok(s: Seq<u8>, c: Command) -> bool {
    let k = first_index_of_byte(s, SPACE) as int;
    if s == seq![QUIT_WORD] {
        c is Quit
    } else if k >= s.len() {
        c is Invalid
    } else if s.take(k) == seq![VIEW_WORD] {
        c matches Command::View(t) && t@ == s.skip(k + 1)
    } else if s.take(k) == seq![SEARCH_WORD] {
        c matches Command::Search(t) && t@ == s.skip(k + 1)
    } else {
        c is Invalid
    }
}

/// Parses one trimmed line of prompt input.
pub fn parse_command(input: &Vec<u8>) -> (c: Command)
    ensures
        command_ok(input@, c),
{
    if input.len() == 1 && input[0] == QUIT_WORD {
        proof {
            assert(input@ =~= seq![QUIT_WORD]);
        }
        return Command::Quit;
    }
    proof {
        assert(input@ != seq![QUIT_WORD]) by {
            if input@ == seq![QUIT_WORD] {
                assert(input@[0] == QUIT_WORD);
            }
        }
    }
    let k = find_byte(input, SPACE);
    if k == input.len() {
        return Command::Invalid;
    }
    let ghost head = input@.take(k as int);
    proof {
        if k == 1 {
            assert(head =~= seq![input@[0]]);
        }
        assert(head == seq![VIEW_WORD] ==> k == 1 && input@[0] == VIEW_WORD) by {
            if head == seq![VIEW_WORD] {
                assert(head.len() == seq![VIEW_WORD].len());
                assert(k == 1);
                assert(head[0] == seq![VIEW_WORD][0]);
                assert(input@.take(k as int)[0] == input@[0]);
            }
        }
        assert(head == seq![SEARCH_WORD] ==> k == 1 && input@[0] == SEARCH_WORD) by {
            if head == seq![SEARCH_WORD] {
                assert(head.len() == seq![SEARCH_WORD].len());
                assert(k == 1);
                assert(head[0] == seq![SEARCH_WORD][0]);
                assert(input@.take(k as int)[0] == input@[0]);
            }
        }
    }
    if k == 1 && input[0] == VIEW_WORD {
        let rest = suffix_of(input, 2);
        return Command::View(rest);
    }
    if k == 1 && input[0] == SEARCH_WORD {
        let rest = suffix_of(input, 2);
        return Command::Search(rest);
    }
    Command::Invalid
}

} // verus!
