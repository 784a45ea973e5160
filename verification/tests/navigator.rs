use line_navigator::command::{parse_command, Command};
use line_navigator::lines::{count_lines, split_lines};
use line_navigator::navigator::LineNavigator;
use line_navigator::numbers::parse_usize;
use line_navigator::search::{contains_subslice, search_keyword};
use line_navigator::window::{view_lines, ViewOutcome};

fn bytes(s: &str) -> Vec<u8> {
    s.as_bytes().to_vec()
}

fn pairs(r: &[(usize, Vec<u8>)]) -> Vec<(usize, String)> {
    r.iter()
        .map(|(n, l)| (*n, String::from_utf8(l.clone()).unwrap()))
        .collect()
}

#[test]
fn count_empty_file() {
    assert_eq!(count_lines(&bytes("")), 0);
}

#[test]
fn count_no_trailing_newline() {
    assert_eq!(count_lines(&bytes("alpha\nbeta\ngamma")), 3);
}

#[test]
fn count_trailing_newline() {
    assert_eq!(count_lines(&bytes("alpha\nbeta\ngamma\n")), 3);
}

#[test]
fn count_only_newlines() {
    assert_eq!(count_lines(&bytes("\n")), 1);
    assert_eq!(count_lines(&bytes("\n\n")), 2);
}

#[test]
fn count_matches_split() {
    for content in ["", "a", "a\n", "a\nb", "a\nb\n", "\na", "x\n\ny\n"] {
        let c = bytes(content);
        assert_eq!(count_lines(&c), split_lines(&c).len());
    }
}

#[test]
fn split_keeps_line_text() {
    let lines = split_lines(&bytes("alpha\n\nbeta"));
    assert_eq!(lines.len(), 3);
    assert_eq!(lines[0], bytes("alpha"));
    assert_eq!(lines[1], bytes(""));
    assert_eq!(lines[2], bytes("beta"));
}

#[test]
fn parse_usize_accepts_decimal() {
    assert_eq!(parse_usize(&bytes("0")), Some(0));
    assert_eq!(parse_usize(&bytes("12")), Some(12));
    assert_eq!(parse_usize(&bytes("007")), Some(7));
    assert_eq!(parse_usize(&bytes("+42")), Some(42));
    assert_eq!(parse_usize(&bytes("4294967295")), Some(4294967295));
}

#[test]
fn parse_usize_rejects_garbage() {
    assert_eq!(parse_usize(&bytes("")), None);
    assert_eq!(parse_usize(&bytes("+")), None);
    assert_eq!(parse_usize(&bytes("++1")), None);
    assert_eq!(parse_usize(&bytes("-1")), None);
    assert_eq!(parse_usize(&bytes("1x")), None);
    assert_eq!(parse_usize(&bytes("abc")), None);
    assert_eq!(parse_usize(&bytes("1 2")), None);
}

#[test]
fn parse_usize_matches_std() {
    for token in ["5", "+5", "007", "", "+", "-3", "12b", "18446744073709551615",
        "18446744073709551616", "99999999999999999999999999"]
    {
        assert_eq!(parse_usize(&bytes(token)), token.parse::<usize>().ok());
    }
}

#[test]
fn command_quit() {
    assert_eq!(parse_command(&bytes("q")), Command::Quit);
}

#[test]
fn command_view_and_search() {
    assert_eq!(parse_command(&bytes("l 2")), Command::View(bytes("2")));
    assert_eq!(parse_command(&bytes("s ta")), Command::Search(bytes("ta")));
    // only the first space delimits: the keyword may contain spaces
    assert_eq!(
        parse_command(&bytes("s two words")),
        Command::Search(bytes("two words"))
    );
    // an empty argument is still an argument
    assert_eq!(parse_command(&bytes("l ")), Command::View(bytes("")));
    assert_eq!(parse_command(&bytes("s ")), Command::Search(bytes("")));
}

#[test]
fn command_invalid() {
    assert_eq!(parse_command(&bytes("")), Command::Invalid);
    assert_eq!(parse_command(&bytes("l5")), Command::Invalid);
    assert_eq!(parse_command(&bytes("q ")), Command::Invalid);
    assert_eq!(parse_command(&bytes(" l 5")), Command::Invalid);
    assert_eq!(parse_command(&bytes("x 5")), Command::Invalid);
    assert_eq!(parse_command(&bytes("list 5")), Command::Invalid);
}

#[test]
fn window_in_bounds_exact() {
    // ten lines with highly irregular lengths: a byte-offset estimate would
    // miss, the window must still be exact
    let content = bytes(
        "a\nbbbbbbbbbbbbbbbbbbbbbbbbbbbbbbbbbbbbbbbb\nc\n\ne\nffffffffff\ng\nhhhhhhhhhhhhhhhhhhhhhhhhhhhhhhhhhhhhhhhhhhhhhhhhhhhhhhhhhhhhhhhhhhhh\ni\nj",
    );
    let lines = split_lines(&content);
    assert_eq!(lines.len(), 10);
    match view_lines(&lines, &bytes("7")) {
        ViewOutcome::Lines(w) => {
            let got = pairs(&w);
            assert_eq!(
                got,
                vec![
                    (2, "bbbbbbbbbbbbbbbbbbbbbbbbbbbbbbbbbbbbbbbb".to_string()),
                    (3, "c".to_string()),
                    (4, "".to_string()),
                    (5, "e".to_string()),
                    (6, "ffffffffff".to_string()),
                    (7, "g".to_string()),
                    (8, "hhhhhhhhhhhhhhhhhhhhhhhhhhhhhhhhhhhhhhhhhhhhhhhhhhhhhhhhhhhhhhhhhhhh".to_string()),
                    (9, "i".to_string()),
                    (10, "j".to_string()),
                ]
            );
        }
        other => panic!("expected lines, got {:?}", other),
    }
}

#[test]
fn window_clamps_at_both_ends() {
    let content = bytes("1\n2\n3\n4\n5\n6\n7\n8\n9\n10\n11\n12\n");
    let lines = split_lines(&content);
    match view_lines(&lines, &bytes("1")) {
        ViewOutcome::Lines(w) => {
            let nums: Vec<usize> = w.iter().map(|p| p.0).collect();
            assert_eq!(nums, vec![1, 2, 3, 4, 5, 6]);
        }
        other => panic!("expected lines, got {:?}", other),
    }
    match view_lines(&lines, &bytes("12")) {
        ViewOutcome::Lines(w) => {
            let nums: Vec<usize> = w.iter().map(|p| p.0).collect();
            assert_eq!(nums, vec![7, 8, 9, 10, 11, 12]);
        }
        other => panic!("expected lines, got {:?}", other),
    }
}

#[test]
fn window_exceeds_total() {
    let lines = split_lines(&bytes("alpha\nbeta"));
    assert_eq!(view_lines(&lines, &bytes("3")), ViewOutcome::ExceedsTotal);
    assert_eq!(view_lines(&lines, &bytes("100")), ViewOutcome::ExceedsTotal);
}

#[test]
fn window_invalid_number() {
    let lines = split_lines(&bytes("alpha\nbeta"));
    assert_eq!(view_lines(&lines, &bytes("abc")), ViewOutcome::InvalidNumber);
    assert_eq!(view_lines(&lines, &bytes("")), ViewOutcome::InvalidNumber);
    assert_eq!(view_lines(&lines, &bytes("2.5")), ViewOutcome::InvalidNumber);
}

#[test]
fn window_zero_target() {
    // 0 never exceeds the total; the window clamps to lines 1..=5
    let lines = split_lines(&bytes("1\n2\n3\n4\n5\n6\n7\n"));
    match view_lines(&lines, &bytes("0")) {
        ViewOutcome::Lines(w) => {
            let nums: Vec<usize> = w.iter().map(|p| p.0).collect();
            assert_eq!(nums, vec![1, 2, 3, 4, 5]);
        }
        other => panic!("expected lines, got {:?}", other),
    }
    let empty = split_lines(&bytes(""));
    match view_lines(&empty, &bytes("0")) {
        ViewOutcome::Lines(w) => assert!(w.is_empty()),
        other => panic!("expected empty lines, got {:?}", other),
    }
}

#[test]
fn search_finds_matching_lines_in_order() {
    let lines = split_lines(&bytes("alpha\nbeta\ngamma\ndelta"));
    let r = search_keyword(&lines, &bytes("ta"));
    assert_eq!(
        pairs(&r),
        vec![(2, "beta".to_string()), (4, "delta".to_string())]
    );
}

#[test]
fn search_empty_keyword_matches_every_line() {
    let lines = split_lines(&bytes("alpha\n\nbeta\n"));
    let r = search_keyword(&lines, &bytes(""));
    let nums: Vec<usize> = r.iter().map(|p| p.0).collect();
    assert_eq!(nums, vec![1, 2, 3]);
}

#[test]
fn search_is_case_sensitive_and_literal() {
    let lines = split_lines(&bytes("Alpha\nalpha\na.pha"));
    let r = search_keyword(&lines, &bytes("alpha"));
    assert_eq!(pairs(&r), vec![(2, "alpha".to_string())]);
}

#[test]
fn search_no_match_is_empty() {
    let lines = split_lines(&bytes("alpha\nbeta"));
    assert!(search_keyword(&lines, &bytes("zzz")).is_empty());
}

#[test]
fn search_repeated_invocations_agree() {
    let lines = split_lines(&bytes("one\ntwo\nthree\ntwenty-two"));
    let first = search_keyword(&lines, &bytes("tw"));
    let second = search_keyword(&lines, &bytes("tw"));
    assert_eq!(first, second);
    assert_eq!(pairs(&first), vec![(2, "two".to_string()), (4, "twenty-two".to_string())]);
}

#[test]
fn contains_subslice_edges() {
    assert!(contains_subslice(&bytes("beta"), &bytes("beta")));
    assert!(contains_subslice(&bytes("beta"), &bytes("")));
    assert!(!contains_subslice(&bytes(""), &bytes("b")));
    assert!(!contains_subslice(&bytes("bet"), &bytes("beta")));
    assert!(contains_subslice(&bytes("xxbetaxx"), &bytes("beta")));
}

#[test]
fn scenario_four_lines() {
    // file with lines alpha, beta, gamma, delta
    let nav = LineNavigator::new(&bytes("alpha\nbeta\ngamma\ndelta\n"));
    assert_eq!(nav.total_lines(), 4);

    // l 2: window [1, 4], all four lines in order
    match parse_command(&bytes("l 2")) {
        Command::View(token) => match nav.view_window(&token) {
            ViewOutcome::Lines(w) => {
                assert_eq!(
                    pairs(&w),
                    vec![
                        (1, "alpha".to_string()),
                        (2, "beta".to_string()),
                        (3, "gamma".to_string()),
                        (4, "delta".to_string()),
                    ]
                );
            }
            other => panic!("expected lines, got {:?}", other),
        },
        other => panic!("expected view command, got {:?}", other),
    }

    // s ta: beta and delta
    match parse_command(&bytes("s ta")) {
        Command::Search(keyword) => {
            let r = nav.search(&keyword);
            assert_eq!(pairs(&r), vec![(2, "beta".to_string()), (4, "delta".to_string())]);
        }
        other => panic!("expected search command, got {:?}", other),
    }

    // l 9: beyond the total
    match parse_command(&bytes("l 9")) {
        Command::View(token) => {
            assert_eq!(nav.view_window(&token), ViewOutcome::ExceedsTotal);
        }
        other => panic!("expected view command, got {:?}", other),
    }

    // q: quit
    assert_eq!(parse_command(&bytes("q")), Command::Quit);
}

#[test]
fn invalid_command_then_valid_still_works() {
    let nav = LineNavigator::new(&bytes("alpha\nbeta"));
    assert_eq!(parse_command(&bytes("x 5")), Command::Invalid);
    // the session goes on: a later valid command still answers
    match parse_command(&bytes("l 1")) {
        Command::View(token) => match nav.view_window(&token) {
            ViewOutcome::Lines(w) => {
                assert_eq!(pairs(&w), vec![(1, "alpha".to_string()), (2, "beta".to_string())]);
            }
            other => panic!("expected lines, got {:?}", other),
        },
        other => panic!("expected view command, got {:?}", other),
    }
}
