use network_check::demand::{parse_demand, DemandError};
use network_check::instance::Instance;

fn rows(n: usize) -> Vec<String> {
    (1..=n)
        .map(|k| {
            let entries: Vec<String> = (1..=n).map(|i| format!("{}", 10 * k + i)).collect();
            format!("|{}  | {}|", k, entries.join(", "))
        })
        .collect()
}

fn expect_plain(instance: &Instance, n: usize) {
    assert_eq!(instance.node_count(), n);
    for k in 0..=n {
        for i in 0..=n {
            let expected = if k == 0 || i == 0 { 0 } else { (10 * k + i) as u32 };
            assert_eq!(instance.demand(k, i), expected);
        }
    }
}

#[test]
fn plain_table_is_read() {
    let text = rows(5).join("\n");
    let instance = parse_demand(&text, 5).unwrap();
    expect_plain(&instance, 5);
    assert_eq!(instance.demand(2, 3), 23);
    assert_eq!(instance.demand(6, 1), 0);
    assert_eq!(instance.demand(1, 6), 0);
}

#[test]
fn header_blank_lines_and_line_endings_do_not_matter() {
    let text = format!(
        "\n|   |  1,  2,  3,  4,  5\r\n\r\n  {}  \r\n\t{}\r\n{}\n\n{}\n{}",
        rows(5)[0],
        rows(5)[1],
        rows(5)[2],
        rows(5)[3],
        rows(5)[4]
    );
    expect_plain(&parse_demand(&text, 5).unwrap(), 5);
}

#[test]
fn rows_may_come_in_any_order() {
    let mut lines = rows(5);
    lines.reverse();
    expect_plain(&parse_demand(&lines.join("\n"), 5).unwrap(), 5);
}

#[test]
fn larger_table_is_cut_down() {
    let text = rows(8).join("\n");
    let instance = parse_demand(&text, 5).unwrap();
    expect_plain(&instance, 5);
}

#[test]
fn entries_beyond_the_first_n_are_not_read() {
    let mut lines = rows(5);
    lines[2] = String::from("|3|31,32,33,34,35,oops,-7,|");
    expect_plain(&parse_demand(&lines.join("\n"), 5).unwrap(), 5);
}

#[test]
fn closing_bar_is_optional_and_may_be_repeated() {
    let mut lines = rows(5);
    lines[0] = String::from("|1|11,12,13,14,15");
    lines[1] = String::from("|2 |21,22,23,24,25|||");
    lines[2] = String::from("|3\u{a0}| 31 ,\t32,33 , 34,35 ||");
    expect_plain(&parse_demand(&lines.join("\n"), 5).unwrap(), 5);
}

#[test]
fn signs_and_leading_zeros() {
    let mut lines = rows(5);
    lines[0] = String::from("|1|+11,012,0013,14,15");
    lines[3] = String::from("|04|41,42,43,44,45");
    expect_plain(&parse_demand(&lines.join("\n"), 5).unwrap(), 5);
    lines[1] = String::from("|2|-0,+0,0,2147483647,1");
    let instance = parse_demand(&lines.join("\n"), 5).unwrap();
    assert_eq!(instance.demand(2, 1), 0);
    assert_eq!(instance.demand(2, 2), 0);
    assert_eq!(instance.demand(2, 4), 2147483647);
    assert_eq!(instance.demand(2, 5), 1);
}

#[test]
fn lines_of_another_shape_are_passed_over() {
    let mut lines = rows(5);
    lines.insert(0, String::from("demand of commodity k at node i"));
    lines.insert(1, String::from("| 1 | 9, 9, 9, 9, 9"));
    lines.insert(2, String::from("k|1|9,9,9,9,9"));
    lines.insert(3, String::from("|1a|9,9,9,9,9"));
    lines.insert(4, String::from("|1 9,9,9,9,9"));
    lines.insert(5, String::from("|+1|9,9,9,9,9"));
    lines.insert(6, String::from("|"));
    lines.insert(7, String::from("|1"));
    expect_plain(&parse_demand(&lines.join("\n"), 5).unwrap(), 5);
}

#[test]
fn rows_for_other_nodes_are_passed_over_unread() {
    let mut lines = rows(5);
    lines.push(String::from("|0|oops"));
    lines.push(String::from("|6|oops"));
    lines.push(String::from("|99999999999999999999999999|oops"));
    expect_plain(&parse_demand(&lines.join("\n"), 5).unwrap(), 5);
}

#[test]
fn bad_entry_is_named() {
    let mut lines = rows(5);
    lines[2] = String::from("|3|31,32,x,34,35");
    assert_eq!(
        parse_demand(&lines.join("\n"), 5).err(),
        Some(DemandError::Field { row: 3, column: 3 })
    );
    lines[2] = String::from("|3|31,32,33,34,");
    assert_eq!(
        parse_demand(&lines.join("\n"), 5).err(),
        Some(DemandError::Field { row: 3, column: 5 })
    );
    lines[2] = String::from("|3|");
    assert_eq!(
        parse_demand(&lines.join("\n"), 5).err(),
        Some(DemandError::Field { row: 3, column: 1 })
    );
    lines[2] = String::from("|3|31,3 2,33,34,35");
    assert_eq!(
        parse_demand(&lines.join("\n"), 5).err(),
        Some(DemandError::Field { row: 3, column: 2 })
    );
    lines[2] = String::from("|3|31,32,33,34|,35");
    assert_eq!(
        parse_demand(&lines.join("\n"), 5).err(),
        Some(DemandError::Field { row: 3, column: 4 })
    );
}

#[test]
fn negative_and_oversized_entries_are_refused() {
    let mut lines = rows(5);
    lines[0] = String::from("|1|11,-12,13,14,15");
    assert_eq!(
        parse_demand(&lines.join("\n"), 5).err(),
        Some(DemandError::Field { row: 1, column: 2 })
    );
    lines[0] = String::from("|1|11,12,13,2147483648,15");
    assert_eq!(
        parse_demand(&lines.join("\n"), 5).err(),
        Some(DemandError::Field { row: 1, column: 4 })
    );
    lines[0] = String::from("|1|+,12,13,14,15");
    assert_eq!(
        parse_demand(&lines.join("\n"), 5).err(),
        Some(DemandError::Field { row: 1, column: 1 })
    );
    lines[0] = String::from("|1|1.5,12,13,14,15");
    assert_eq!(
        parse_demand(&lines.join("\n"), 5).err(),
        Some(DemandError::Field { row: 1, column: 1 })
    );
}

#[test]
fn short_row_is_named() {
    let mut lines = rows(5);
    lines[4] = String::from("|5|51,52,53,54");
    assert_eq!(
        parse_demand(&lines.join("\n"), 5).err(),
        Some(DemandError::ColumnCount { row: 5, found: 4 })
    );
    // A bad entry is reported before the missing ones.
    lines[4] = String::from("|5|51,no,53");
    assert_eq!(
        parse_demand(&lines.join("\n"), 5).err(),
        Some(DemandError::Field { row: 5, column: 2 })
    );
}

#[test]
fn first_bad_row_wins() {
    let mut lines = rows(5);
    lines[1] = String::from("|2|21,22");
    lines[3] = String::from("|4|x");
    assert_eq!(
        parse_demand(&lines.join("\n"), 5).err(),
        Some(DemandError::ColumnCount { row: 2, found: 2 })
    );
}

#[test]
fn wrong_number_of_rows() {
    assert_eq!(parse_demand("", 5).err(), Some(DemandError::RowCount { found: 0 }));
    let mut lines = rows(5);
    lines.pop();
    assert_eq!(
        parse_demand(&lines.join("\n"), 5).err(),
        Some(DemandError::RowCount { found: 4 })
    );
    let mut lines = rows(5);
    lines.push(lines[0].clone());
    assert_eq!(
        parse_demand(&lines.join("\n"), 5).err(),
        Some(DemandError::RowCount { found: 6 })
    );
    let text = rows(5).join("\n");
    assert_eq!(
        parse_demand(&text, 6).err(),
        Some(DemandError::ColumnCount { row: 1, found: 5 })
    );
}

#[test]
fn repeated_row_leaves_another_missing() {
    let mut lines = rows(5);
    lines[3] = lines[1].clone();
    assert_eq!(
        parse_demand(&lines.join("\n"), 5).err(),
        Some(DemandError::MissingRow { row: 4 })
    );
    lines[0] = lines[1].clone();
    assert_eq!(
        parse_demand(&lines.join("\n"), 5).err(),
        Some(DemandError::MissingRow { row: 1 })
    );
}

#[test]
fn instance_can_be_built_by_hand() {
    assert!(Instance::new(4).is_none());
    assert!(Instance::new(25).is_none());
    let mut instance = Instance::new(5).unwrap();
    assert_eq!(instance.node_count(), 5);
    assert_eq!(instance.demand(2, 3), 0);
    assert!(instance.set_demand(2, 3, 7));
    assert_eq!(instance.demand(2, 3), 7);
    assert_eq!(instance.demand(3, 2), 0);
    assert!(!instance.set_demand(0, 3, 7));
    assert!(!instance.set_demand(2, 6, 7));
    assert!(instance.set_row(4, &vec![1, 2, 3, 4, 5]));
    assert_eq!(instance.demand(4, 1), 1);
    assert_eq!(instance.demand(4, 5), 5);
    assert_eq!(instance.demand(4, 0), 0);
    assert!(!instance.set_row(4, &vec![1, 2, 3, 4]));
    assert!(!instance.set_row(6, &vec![1, 2, 3, 4, 5]));
    assert_eq!(instance.demand(2, 3), 7);
    assert!(Instance::new(24).is_some());
}
