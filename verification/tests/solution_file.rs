use network_check::directive::{apply, parse_line, parse_solution, Directive};
use network_check::solution::{Solution, SolutionError, Variable};

fn line(text: &str) -> Result<Directive, SolutionError> {
    let chars: Vec<char> = text.chars().collect();
    parse_line(&chars)
}

#[test]
fn the_three_kinds_of_line() {
    assert_eq!(line("z 3000"), Ok(Directive::Objective { value: 3000 }));
    assert_eq!(line("x#1#2 1"), Ok(Directive::Arc { i: 1, j: 2, value: 1 }));
    assert_eq!(
        line("f#3#1#2 500"),
        Ok(Directive::Flow { k: 3, i: 1, j: 2, value: 500 })
    );
}

#[test]
fn gap_may_be_any_white_space() {
    assert_eq!(line("z\t \u{a0}7"), Ok(Directive::Objective { value: 7 }));
    assert_eq!(line("x#10#24\u{3000}0"), Ok(Directive::Arc { i: 10, j: 24, value: 0 }));
    assert_eq!(
        line("f#1#2#3   2147483647"),
        Ok(Directive::Flow { k: 1, i: 2, j: 3, value: 2147483647 })
    );
}

#[test]
fn leading_zeros_do_not_matter() {
    assert_eq!(line("z 000"), Ok(Directive::Objective { value: 0 }));
    assert_eq!(
        line("x#0001#00000000000000000000000002 01"),
        Ok(Directive::Arc { i: 1, j: 2, value: 1 })
    );
}

#[test]
fn other_lines_are_passed_over() {
    for text in [
        "",
        "# z 5",
        "z",
        "z5",
        "z 5 6",
        "z -5",
        "z +5",
        "z 5.0",
        "Z 5",
        "zz 5",
        "x#1#2",
        "x#1#2 ",
        "x#1 2",
        "x#1#2#3 4",
        "x##2 1",
        "x#1# 1",
        "x#a#2 1",
        "x #1#2 1",
        "x#1#2 1 # chosen",
        "f#1#2 3",
        "f#1#2#3",
        "f#1#2#3#4 5",
        "f#1#2#3 x",
        "y#1#2 1",
        "Objective value: 12",
        "x#\u{661}#2 1",
    ] {
        assert_eq!(line(text), Ok(Directive::Skip), "{:?}", text);
    }
}

#[test]
fn numbers_that_are_too_large() {
    assert_eq!(line("z 2147483648"), Err(SolutionError::TooLarge(Variable::Objective)));
    assert_eq!(line("x#1#2 2147483648"), Err(SolutionError::TooLarge(Variable::Arc)));
    assert_eq!(
        line("x#18446744073709551616#2 1"),
        Err(SolutionError::TooLarge(Variable::Arc))
    );
    assert_eq!(
        line("x#18446744073709551615#2 1"),
        Ok(Directive::Arc { i: 18446744073709551615, j: 2, value: 1 })
    );
    assert_eq!(
        line("f#1#2#99999999999999999999 1"),
        Err(SolutionError::TooLarge(Variable::Flow))
    );
    assert_eq!(
        line("f#1#2#3 99999999999999999999"),
        Err(SolutionError::TooLarge(Variable::Flow))
    );
}

#[test]
fn file_is_read_line_by_line() {
    let text = "# solution\n\nz 12\n  x#1#2 1  \r\nx#2#1 1\nsomething else\nf#3#1#2 500\nf#3#2#1 0\n";
    let solution = parse_solution(text, 5).ok().unwrap();
    assert_eq!(solution.objective(), 12);
    assert_eq!(solution.arc(1, 2), 1);
    assert_eq!(solution.arc(2, 1), 1);
    assert_eq!(solution.arc(1, 3), 0);
    assert_eq!(solution.flow(3, 1, 2), 500);
    assert_eq!(solution.flow(3, 2, 1), 0);
    assert_eq!(solution.flow(1, 1, 2), 0);
    assert_eq!(solution.flow(3, 1, 3), 0);
}

#[test]
fn empty_file_gives_empty_solution() {
    let solution = parse_solution("", 5).ok().unwrap();
    assert_eq!(solution.objective(), 0);
    for i in 0..=6 {
        for j in 0..=6 {
            assert_eq!(solution.arc(i, j), 0);
            for k in 0..=6 {
                assert_eq!(solution.flow(k, i, j), 0);
            }
        }
    }
}

#[test]
fn later_line_overrides_earlier_one() {
    let text = "z 1\nx#1#2 1\nf#1#2#3 10\nz 2\nx#1#2 0\nf#1#2#3 20\nx#2#1 5";
    let solution = parse_solution(text, 5).ok().unwrap();
    assert_eq!(solution.objective(), 2);
    assert_eq!(solution.arc(1, 2), 0);
    assert_eq!(solution.arc(2, 1), 5);
    assert_eq!(solution.flow(1, 2, 3), 20);
}

#[test]
fn arcs_and_flows_do_not_mix() {
    // The same numbers in another grouping name other entries.
    let text = "x#1#2 7\nx#2#1 8\nf#1#2#3 9\nf#3#2#1 10\nf#2#3#1 11\nf#1#1#2 12";
    let solution = parse_solution(text, 24).ok().unwrap();
    assert_eq!(solution.arc(1, 2), 7);
    assert_eq!(solution.arc(2, 1), 8);
    assert_eq!(solution.flow(1, 2, 3), 9);
    assert_eq!(solution.flow(3, 2, 1), 10);
    assert_eq!(solution.flow(2, 3, 1), 11);
    assert_eq!(solution.flow(1, 1, 2), 12);
    assert_eq!(solution.flow(1, 3, 2), 0);
    assert_eq!(solution.arc(2, 3), 0);
    assert_eq!(solution.arc(3, 2), 0);
}

#[test]
fn every_entry_of_the_largest_problem_is_kept_apart() {
    let mut text = String::new();
    for i in 1..=24u32 {
        for j in 1..=24u32 {
            if i != j {
                text.push_str(&format!("x#{}#{} {}\n", i, j, 100 * i + j));
                for k in 1..=24u32 {
                    text.push_str(&format!("f#{}#{}#{} {}\n", k, i, j, 10000 * k + 100 * i + j));
                }
            }
        }
    }
    let solution = parse_solution(&text, 24).ok().unwrap();
    for i in 1..=24usize {
        for j in 1..=24usize {
            let arc = if i != j { (100 * i + j) as u32 } else { 0 };
            assert_eq!(solution.arc(i, j), arc);
            for k in 1..=24usize {
                let flow = if i != j { (10000 * k + 100 * i + j) as u32 } else { 0 };
                assert_eq!(solution.flow(k, i, j), flow);
            }
        }
    }
}

#[test]
fn arc_index_errors() {
    for (text, i, j) in [
        ("x#0#1 1", 0, 1),
        ("x#1#0 1", 1, 0),
        ("x#6#1 1", 6, 1),
        ("x#1#6 1", 1, 6),
        ("x#3#3 1", 3, 3),
        ("x#4294967297#1 1", 4294967297, 1),
    ] {
        assert_eq!(
            parse_solution(text, 5).err(),
            Some(SolutionError::ArcIndex { i, j }),
            "{}",
            text
        );
    }
    assert!(parse_solution("x#6#1 1", 6).is_ok());
    assert!(parse_solution("x#5#1 1\nx#1#5 1", 5).is_ok());
}

#[test]
fn flow_index_errors() {
    for (text, k, i, j) in [
        ("f#0#1#2 1", 0, 1, 2),
        ("f#6#1#2 1", 6, 1, 2),
        ("f#1#0#2 1", 1, 0, 2),
        ("f#1#6#2 1", 1, 6, 2),
        ("f#1#2#0 1", 1, 2, 0),
        ("f#1#2#6 1", 1, 2, 6),
        ("f#1#2#2 1", 1, 2, 2),
    ] {
        assert_eq!(
            parse_solution(text, 5).err(),
            Some(SolutionError::FlowIndex { k, i, j }),
            "{}",
            text
        );
    }
    // The commodity may be one of the two ends.
    assert!(parse_solution("f#1#1#2 1\nf#2#1#2 1", 5).is_ok());
}

#[test]
fn first_error_wins_and_too_large_comes_before_index() {
    assert_eq!(
        parse_solution("x#1#2 1\nx#9#9 1\nz 99999999999", 5).err(),
        Some(SolutionError::ArcIndex { i: 9, j: 9 })
    );
    assert_eq!(
        parse_solution("x#9#9 2147483648", 5).err(),
        Some(SolutionError::TooLarge(Variable::Arc))
    );
}

#[test]
fn solution_can_be_built_by_hand() {
    let mut solution = Solution::new();
    assert_eq!(solution.set_arc(5, 1, 2, 1), Ok(()));
    assert_eq!(solution.set_arc(5, 2, 2, 1), Err(SolutionError::ArcIndex { i: 2, j: 2 }));
    assert_eq!(solution.set_arc(5, 1, 6, 1), Err(SolutionError::ArcIndex { i: 1, j: 6 }));
    assert_eq!(solution.set_flow(5, 5, 1, 2, 9), Ok(()));
    assert_eq!(
        solution.set_flow(5, 6, 1, 2, 9),
        Err(SolutionError::FlowIndex { k: 6, i: 1, j: 2 })
    );
    solution.set_objective(44);
    assert_eq!(solution.arc(1, 2), 1);
    assert_eq!(solution.arc(2, 2), 0);
    assert_eq!(solution.arc(1, 6), 0);
    assert_eq!(solution.flow(5, 1, 2), 9);
    assert_eq!(solution.flow(6, 1, 2), 0);
    assert_eq!(solution.objective(), 44);
    assert_eq!(solution.arc(40, 1), 0);
    assert_eq!(solution.flow(1, 2, 100), 0);
}

#[test]
fn directives_are_carried_out() {
    let mut solution = Solution::new();
    assert_eq!(apply(&mut solution, Directive::Skip, 5), Ok(()));
    assert_eq!(apply(&mut solution, Directive::Objective { value: 3 }, 5), Ok(()));
    assert_eq!(apply(&mut solution, Directive::Arc { i: 2, j: 1, value: 1 }, 5), Ok(()));
    assert_eq!(
        apply(&mut solution, Directive::Flow { k: 4, i: 2, j: 1, value: 8 }, 5),
        Ok(())
    );
    assert_eq!(
        apply(&mut solution, Directive::Arc { i: 2, j: 7, value: 1 }, 5),
        Err(SolutionError::ArcIndex { i: 2, j: 7 })
    );
    assert_eq!(solution.objective(), 3);
    assert_eq!(solution.arc(2, 1), 1);
    assert_eq!(solution.flow(4, 2, 1), 8);
    assert_eq!(solution.arc(2, 7), 0);
}
