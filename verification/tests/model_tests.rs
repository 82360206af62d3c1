use todo_tui::codec::{load_state, save_state};
use todo_tui::model::{handle_key, list_down, list_transfer, list_up, Session, Status};

fn b(s: &str) -> Vec<u8> {
    s.as_bytes().to_vec()
}

#[test]
fn toggle_flips_both_ways() {
    assert_eq!(Status::Todo.toggle(), Status::Done);
    assert_eq!(Status::Done.toggle(), Status::Todo);
}

#[test]
fn move_up_at_top_stays_at_top() {
    let mut cur: usize = 0;
    list_up(&mut cur);
    assert_eq!(cur, 0);
}

#[test]
fn move_up_steps_one_toward_top() {
    let mut cur: usize = 2;
    list_up(&mut cur);
    assert_eq!(cur, 1);
}

#[test]
fn move_down_at_bottom_stays_at_bottom() {
    let list = vec![b("a"), b("b")];
    let mut cur: usize = 1;
    list_down(&list, &mut cur);
    assert_eq!(cur, 1);
}

#[test]
fn move_down_steps_one_toward_bottom() {
    let list = vec![b("a"), b("b"), b("c")];
    let mut cur: usize = 0;
    list_down(&list, &mut cur);
    assert_eq!(cur, 1);
}

#[test]
fn moves_are_no_ops_on_empty_list() {
    let list: Vec<Vec<u8>> = Vec::new();
    let mut cur: usize = 0;
    list_up(&mut cur);
    assert_eq!(cur, 0);
    list_down(&list, &mut cur);
    assert_eq!(cur, 0);
}

#[test]
fn transfer_moves_selected_item_to_end_of_destination() {
    let mut dst = vec![b("x")];
    let mut src = vec![b("a"), b("b"), b("c")];
    let mut cur: usize = 1;
    list_transfer(&mut dst, &mut src, &mut cur);
    assert_eq!(dst, vec![b("x"), b("b")]);
    assert_eq!(src, vec![b("a"), b("c")]);
    assert_eq!(cur, 1);
}

#[test]
fn transfer_changes_each_length_by_one() {
    let mut dst = vec![b("x")];
    let mut src = vec![b("a"), b("b")];
    let mut cur: usize = 0;
    let total = dst.len() + src.len();
    list_transfer(&mut dst, &mut src, &mut cur);
    assert_eq!(src.len(), 1);
    assert_eq!(dst.len(), 2);
    assert_eq!(dst.len() + src.len(), total);
}

#[test]
fn transfer_of_last_item_pulls_cursor_back() {
    let mut dst: Vec<Vec<u8>> = Vec::new();
    let mut src = vec![b("a"), b("b")];
    let mut cur: usize = 1;
    list_transfer(&mut dst, &mut src, &mut cur);
    assert_eq!(src, vec![b("a")]);
    assert_eq!(cur, 0);
}

#[test]
fn transfer_on_empty_source_is_a_no_op() {
    let mut dst = vec![b("x")];
    let mut src: Vec<Vec<u8>> = Vec::new();
    let mut cur: usize = 0;
    list_transfer(&mut dst, &mut src, &mut cur);
    assert_eq!(dst, vec![b("x")]);
    assert_eq!(src, Vec::<Vec<u8>>::new());
    assert_eq!(cur, 0);
}

#[test]
fn cursor_stays_clamped_over_any_key_sequence() {
    let mut s = Session::new(vec![b("a"), b("b"), b("c")], vec![b("d")]);
    let keys = [
        's', 's', 's', 's', '\n', '\n', 'w', '\t', 's', '\n', '\n', '\n', '\n', 'w', 'w', '\t',
        '\n', 's', 'x', '\n',
    ];
    for &k in keys.iter() {
        handle_key(&mut s, k);
        assert!(s.check_cursors());
        assert_eq!(s.todos.len() + s.dones.len(), 4);
    }
}

#[test]
fn keys_move_the_active_cursor_only() {
    let mut s = Session::new(vec![b("a"), b("b")], vec![b("c"), b("d")]);
    assert!(!handle_key(&mut s, 's'));
    assert_eq!(s.todo_cur, 1);
    assert_eq!(s.done_cur, 0);
    assert!(!handle_key(&mut s, '\t'));
    assert_eq!(s.tab, Status::Done);
    assert!(!handle_key(&mut s, 's'));
    assert_eq!(s.todo_cur, 1);
    assert_eq!(s.done_cur, 1);
    assert!(!handle_key(&mut s, 'w'));
    assert_eq!(s.done_cur, 0);
}

#[test]
fn tab_switch_preserves_the_inactive_cursor() {
    let mut s = Session::new(vec![b("a"), b("b"), b("c")], vec![b("d"), b("e")]);
    handle_key(&mut s, 's');
    handle_key(&mut s, 's');
    handle_key(&mut s, '\t');
    handle_key(&mut s, 's');
    handle_key(&mut s, '\t');
    assert_eq!(s.tab, Status::Todo);
    assert_eq!(s.todo_cur, 2);
    assert_eq!(s.done_cur, 1);
}

#[test]
fn unbound_keys_change_nothing() {
    let mut s = Session::new(vec![b("a"), b("b")], vec![b("c")]);
    handle_key(&mut s, 's');
    let (todos, todo_cur, dones, done_cur, tab) =
        (s.todos.clone(), s.todo_cur, s.dones.clone(), s.done_cur, s.tab);
    assert!(!handle_key(&mut s, 'z'));
    assert!(!handle_key(&mut s, ' '));
    assert_eq!(s.todos, todos);
    assert_eq!(s.todo_cur, todo_cur);
    assert_eq!(s.dones, dones);
    assert_eq!(s.done_cur, done_cur);
    assert_eq!(s.tab, tab);
}

#[test]
fn quit_key_reports_quit_and_changes_nothing() {
    let mut s = Session::new(vec![b("a")], Vec::new());
    assert!(handle_key(&mut s, 'q'));
    assert_eq!(s.todos, vec![b("a")]);
    assert_eq!(s.tab, Status::Todo);
}

#[test]
fn transfer_from_done_tab_moves_item_back_to_pending() {
    let mut s = Session::new(vec![b("a")], vec![b("b"), b("c")]);
    handle_key(&mut s, '\t');
    handle_key(&mut s, 's');
    handle_key(&mut s, '\n');
    assert_eq!(s.todos, vec![b("a"), b("c")]);
    assert_eq!(s.dones, vec![b("b")]);
    assert_eq!(s.done_cur, 0);
}

#[test]
fn end_to_end_transfer_then_quit_saves_expected_file() {
    let content = b("TODO: write spec\nDONE: eat lunch\n");
    let (todos, dones) = load_state(&content).unwrap();
    assert_eq!(todos, vec![b("write spec")]);
    assert_eq!(dones, vec![b("eat lunch")]);
    let mut s = Session::new(todos, dones);
    assert!(!handle_key(&mut s, '\n'));
    assert!(handle_key(&mut s, 'q'));
    let out = save_state(&s.todos, &s.dones);
    assert_eq!(out, b("DONE: eat lunch\nDONE: write spec\n"));
}
