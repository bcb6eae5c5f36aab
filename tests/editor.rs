use ned::address::{parse_address, resolve_range};
use ned::buffer::Buffer;
use ned::command::{parse_command, Command, Op};
use ned::content::{join_lines, split_lines};
use ned::session::{Action, Session};

fn lines(v: &[&str]) -> Vec<String> {
    v.iter().map(|s| s.to_string()).collect()
}

fn numbered(v: &[(usize, &str)]) -> Vec<(usize, String)> {
    v.iter().map(|(i, s)| (*i, s.to_string())).collect()
}

#[test]
fn address_dollar_is_last_line() {
    assert_eq!(parse_address("$", 5), 5);
    assert_eq!(parse_address("$", 0), 0);
}

#[test]
fn address_number_is_itself() {
    for n in 1..=5usize {
        assert_eq!(parse_address(&n.to_string(), 5), n);
    }
    assert_eq!(parse_address("42", 5), 42);
    assert_eq!(parse_address("+7", 5), 7);
    assert_eq!(parse_address("0", 5), 0);
    assert_eq!(parse_address("18446744073709551615", 5), usize::MAX);
}

#[test]
fn address_malformed_is_line_one() {
    assert_eq!(parse_address("abc", 5), 1);
    assert_eq!(parse_address("", 5), 1);
    assert_eq!(parse_address("+", 5), 1);
    assert_eq!(parse_address("-3", 5), 1);
    assert_eq!(parse_address(" 3", 5), 1);
    assert_eq!(parse_address("3x", 5), 1);
    assert_eq!(parse_address("18446744073709551616", 5), 1);
}

#[test]
fn range_forms() {
    assert_eq!(resolve_range("2,3", 5), (2, 3));
    assert_eq!(resolve_range("3,2", 5), (3, 2));
    assert_eq!(resolve_range("1,$", 5), (1, 5));
    assert_eq!(resolve_range(",4", 5), (1, 4));
    assert_eq!(resolve_range("$", 5), (5, 5));
    assert_eq!(resolve_range("4", 5), (4, 4));
    assert_eq!(resolve_range("", 5), (1, 5));
    assert_eq!(resolve_range("1,2,3", 5), (1, 1));
}

#[test]
fn command_parsing() {
    assert_eq!(parse_command("", 3), Command::Blank);
    assert_eq!(parse_command("   ", 3), Command::Blank);
    assert_eq!(parse_command("q", 3), Command::Quit);
    assert_eq!(parse_command("  w  ", 3), Command::Write);
    assert_eq!(parse_command("2,3d", 3), Command::Edit { op: Op::Delete, start: 2, end: 3 });
    assert_eq!(parse_command("$p", 3), Command::Edit { op: Op::Print, start: 3, end: 3 });
    assert_eq!(parse_command(" 2 a", 3), Command::Edit { op: Op::Append, start: 2, end: 2 });
    assert_eq!(parse_command("i", 3), Command::Edit { op: Op::Insert, start: 1, end: 3 });
    assert_eq!(parse_command("1,2c", 3), Command::Edit { op: Op::Change, start: 1, end: 2 });
    assert_eq!(parse_command("2x", 3), Command::Unknown('x'));
    assert_eq!(parse_command("wq", 3), Command::Unknown('w'));
    assert_eq!(parse_command("5", 3), Command::Unknown('5'));
    assert_eq!(parse_command("1,2", 3), Command::Unknown('1'));
}

#[test]
fn print_skips_missing_lines() {
    let b = Buffer::from_lines(lines(&["L1", "L2", "L3"]));
    assert_eq!(b.print(0, 5), numbered(&[(1, "L1"), (2, "L2"), (3, "L3")]));
    assert_eq!(b.print(2, 2), numbered(&[(2, "L2")]));
    assert_eq!(b.print(3, 2), numbered(&[]));
    assert_eq!(b.print(4, usize::MAX), numbered(&[]));
}

#[test]
fn delete_valid_range() {
    let mut b = Buffer::from_lines(lines(&["A", "B", "C", "D", "E"]));
    b.delete(2, 3);
    assert_eq!(b.lines(), &lines(&["A", "D", "E"]));
    assert_eq!(b.len(), 2 + 1);
}

#[test]
fn delete_invalid_range_is_no_op() {
    let start = lines(&["A", "B", "C"]);
    for (s, e) in [(3, 2), (0, 1), (2, 4), (4, 4)] {
        let mut b = Buffer::from_lines(start.clone());
        b.delete(s, e);
        assert_eq!(b.lines(), &start);
        b.change(s, e, lines(&["X"]));
        assert_eq!(b.lines(), &start);
    }
}

#[test]
fn change_replaces_range() {
    let mut b = Buffer::from_lines(lines(&["A", "B", "C", "D", "E"]));
    b.change(2, 3, lines(&["X", "Y"]));
    assert_eq!(b.lines(), &lines(&["A", "X", "Y", "D", "E"]));
}

#[test]
fn append_after_anchor() {
    let mut b = Buffer::from_lines(lines(&["A", "B", "C"]));
    b.append(1, lines(&["X", "Y"]));
    assert_eq!(b.lines(), &lines(&["A", "X", "Y", "B", "C"]));
    assert_eq!(b.print(2, 3), numbered(&[(2, "X"), (3, "Y")]));
    let mut c = Buffer::from_lines(lines(&["A"]));
    c.append(9, lines(&["Z"]));
    assert_eq!(c.lines(), &lines(&["A", "Z"]));
}

#[test]
fn insert_before_anchor() {
    let mut b = Buffer::from_lines(lines(&["A", "B", "C"]));
    b.insert(2, lines(&["X"]));
    assert_eq!(b.lines(), &lines(&["A", "X", "B", "C"]));
    let mut c = Buffer::from_lines(lines(&["A", "B"]));
    c.insert(1, lines(&["X", "Y"]));
    assert_eq!(c.lines(), &lines(&["X", "Y", "A", "B"]));
    let mut d = Buffer::from_lines(lines(&["A", "B"]));
    d.insert(7, lines(&["Z"]));
    assert_eq!(d.lines(), &lines(&["Z", "A", "B"]));
}

#[test]
fn join_and_split() {
    assert_eq!(join_lines(&lines(&["a", "b", "c"])), "a\nb\nc");
    assert_eq!(join_lines(&lines(&[])), "");
    assert_eq!(split_lines("a\nb\r\nc\n"), lines(&["a", "b", "c"]));
    assert_eq!(split_lines(""), lines(&[]));
    assert_eq!(split_lines("\n\nx"), lines(&["", "", "x"]));
    assert_eq!(split_lines("é\nü"), lines(&["é", "ü"]));
}

#[test]
fn write_then_reload() {
    let original = lines(&["first", "", "third line", "ünïcode"]);
    let text = join_lines(&original);
    assert_eq!(split_lines(&text), original);
}

#[test]
fn empty_file_session() {
    let mut s = Session::load("");
    assert_eq!(s.buffer().len(), 0);
    assert_eq!(s.step("1p"), Action::Show { lines: vec![] });
    assert_eq!(s.step("a"), Action::Nothing);
    assert!(s.is_reading_block());
    assert_eq!(s.step("hello"), Action::Nothing);
    assert_eq!(s.step("."), Action::Nothing);
    assert!(!s.is_reading_block());
    assert_eq!(s.buffer().lines(), &lines(&["hello"]));
    assert_eq!(s.step("w"), Action::Save { text: "hello".to_string(), count: 1 });
}

#[test]
fn session_delete_range() {
    let mut s = Session::load("L1\nL2\nL3");
    assert_eq!(s.step("2,3d"), Action::Nothing);
    assert_eq!(s.buffer().lines(), &lines(&["L1"]));
}

#[test]
fn session_print_last() {
    let mut s = Session::load("L1\nL2\nL3");
    assert_eq!(s.step("$p"), Action::Show { lines: numbered(&[(3, "L3")]) });
}

#[test]
fn session_change_block() {
    let mut s = Session::new(lines(&["A", "B", "C", "D", "E"]));
    s.step("2,3c");
    s.step("X");
    s.step("Y");
    s.step(".");
    assert_eq!(s.buffer().lines(), &lines(&["A", "X", "Y", "D", "E"]));
}

#[test]
fn session_change_invalid_reads_no_block() {
    let mut s = Session::new(lines(&["A", "B"]));
    assert_eq!(s.step("3,1c"), Action::Nothing);
    assert!(!s.is_reading_block());
    assert_eq!(s.step("1p"), Action::Show { lines: numbered(&[(1, "A")]) });
}

#[test]
fn session_block_lines_kept_verbatim() {
    let mut s = Session::new(lines(&["A"]));
    s.step("i");
    s.step("  q  ");
    s.step(" . ");
    s.step(".");
    assert_eq!(s.buffer().lines(), &lines(&["  q  ", " . ", "A"]));
}

#[test]
fn session_end_of_input_commits_block() {
    let mut s = Session::new(lines(&["A", "B"]));
    s.step("1a");
    s.step("X");
    s.step("Y");
    s.finish();
    assert!(!s.is_reading_block());
    assert_eq!(s.buffer().lines(), &lines(&["A", "X", "Y", "B"]));
}

#[test]
fn session_quit_and_unknown() {
    let mut s = Session::new(lines(&["A"]));
    assert_eq!(s.step("z"), Action::Unknown { code: 'z' });
    assert_eq!(s.step("   "), Action::Nothing);
    assert_eq!(s.step(" q "), Action::Quit);
    assert_eq!(s.buffer().lines(), &lines(&["A"]));
}
