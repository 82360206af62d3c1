use todo_tui::codec::{load_state, parse_item, save_state, LoadError};
use todo_tui::model::Status;

fn b(s: &str) -> Vec<u8> {
    s.as_bytes().to_vec()
}

#[test]
fn parse_item_todo_line() {
    let r = parse_item(&b("TODO: write spec"));
    assert_eq!(r, Some((Status::Todo, b("write spec"))));
}

#[test]
fn parse_item_done_line() {
    let r = parse_item(&b("DONE: eat lunch"));
    assert_eq!(r, Some((Status::Done, b("eat lunch"))));
}

#[test]
fn parse_item_empty_text() {
    assert_eq!(parse_item(&b("TODO: ")), Some((Status::Todo, b(""))));
    assert_eq!(parse_item(&b("DONE: ")), Some((Status::Done, b(""))));
}

#[test]
fn parse_item_rejects_other_prefix() {
    assert_eq!(parse_item(&b("NOTE: buy milk")), None);
}

#[test]
fn parse_item_rejects_prefix_without_space() {
    assert_eq!(parse_item(&b("TODO:")), None);
    assert_eq!(parse_item(&b("TODO:x")), None);
}

#[test]
fn parse_item_rejects_empty_line() {
    assert_eq!(parse_item(&b("")), None);
}

#[test]
fn load_empty_file_gives_empty_lists() {
    let r = load_state(&b(""));
    assert_eq!(r, Ok((Vec::new(), Vec::new())));
}

#[test]
fn load_reads_both_lists_in_file_order() {
    let r = load_state(&b("TODO: a\nDONE: b\nTODO: c\nDONE: d\n"));
    let (todos, dones) = r.unwrap();
    assert_eq!(todos, vec![b("a"), b("c")]);
    assert_eq!(dones, vec![b("b"), b("d")]);
}

#[test]
fn load_accepts_missing_final_terminator() {
    let r = load_state(&b("TODO: a\nDONE: b"));
    let (todos, dones) = r.unwrap();
    assert_eq!(todos, vec![b("a")]);
    assert_eq!(dones, vec![b("b")]);
}

#[test]
fn load_rejects_ill_formed_line_with_its_number() {
    let r = load_state(&b("NOTE: buy milk\n"));
    assert_eq!(r, Err(LoadError { line: 1 }));
}

#[test]
fn load_reports_first_bad_line() {
    let r = load_state(&b("TODO: a\nwhat\nDONE: b\nalso bad\n"));
    assert_eq!(r, Err(LoadError { line: 2 }));
}

#[test]
fn load_rejects_blank_line() {
    let r = load_state(&b("TODO: a\n\nTODO: b\n"));
    assert_eq!(r, Err(LoadError { line: 2 }));
}

#[test]
fn save_writes_todos_then_dones() {
    let todos = vec![b("write spec"), b("verify it")];
    let dones = vec![b("eat lunch")];
    let out = save_state(&todos, &dones);
    assert_eq!(out, b("TODO: write spec\nTODO: verify it\nDONE: eat lunch\n"));
}

#[test]
fn save_empty_lists_gives_empty_file() {
    let out = save_state(&Vec::new(), &Vec::new());
    assert_eq!(out, b(""));
}

#[test]
fn save_keeps_empty_item_text() {
    let out = save_state(&vec![b("")], &Vec::new());
    assert_eq!(out, b("TODO: \n"));
}

#[test]
fn save_then_load_round_trips() {
    let todos = vec![b("one"), b(""), b("three: with colon"), b("DONE: looks like a line")];
    let dones = vec![b("four"), b("five")];
    let out = save_state(&todos, &dones);
    let r = load_state(&out);
    assert_eq!(r, Ok((todos, dones)));
}
