use todo_tui::model::{handle_key, Session};
use todo_tui::view::{render_frame, Ui, HIGHLIGHT_PAIR, REGULAR_PAIR};

fn b(s: &str) -> Vec<u8> {
    s.as_bytes().to_vec()
}

#[test]
fn pending_frame_lists_pending_items_with_highlight_on_cursor() {
    let mut s = Session::new(vec![b("one"), b("two")], vec![b("done thing")]);
    handle_key(&mut s, 's');
    let mut ui = Ui::default();
    render_frame(&mut ui, &s);
    assert_eq!(ui.out.len(), 4);
    assert_eq!(ui.out[0].text, b("[TODO] DONE"));
    assert_eq!(ui.out[0].pair, REGULAR_PAIR);
    assert_eq!(ui.out[1].text, b("------------"));
    assert_eq!(ui.out[1].pair, REGULAR_PAIR);
    assert_eq!(ui.out[2].text, b("- [ ] one"));
    assert_eq!(ui.out[2].pair, REGULAR_PAIR);
    assert_eq!(ui.out[3].text, b("- [ ] two"));
    assert_eq!(ui.out[3].pair, HIGHLIGHT_PAIR);
    for (row, instr) in ui.out.iter().enumerate() {
        assert_eq!(instr.row, row);
        assert_eq!(instr.col, 0);
    }
}

#[test]
fn completed_frame_lists_completed_items_with_checked_boxes() {
    let mut s = Session::new(vec![b("one")], vec![b("rest"), b("sleep")]);
    handle_key(&mut s, '\t');
    let mut ui = Ui::default();
    render_frame(&mut ui, &s);
    assert_eq!(ui.out.len(), 4);
    assert_eq!(ui.out[0].text, b(" TODO [DONE]"));
    assert_eq!(ui.out[2].text, b("- [x] rest"));
    assert_eq!(ui.out[2].pair, HIGHLIGHT_PAIR);
    assert_eq!(ui.out[3].text, b("- [x] sleep"));
    assert_eq!(ui.out[3].pair, REGULAR_PAIR);
}

#[test]
fn empty_active_list_renders_header_and_separator_only() {
    let s = Session::new(Vec::new(), vec![b("done thing")]);
    let mut ui = Ui::default();
    render_frame(&mut ui, &s);
    assert_eq!(ui.out.len(), 2);
    assert_eq!(ui.out[0].text, b("[TODO] DONE"));
    assert_eq!(ui.out[1].text, b("------------"));
}

#[test]
fn rendering_twice_gives_the_same_frame() {
    let s = Session::new(vec![b("one")], Vec::new());
    let mut ui = Ui::default();
    render_frame(&mut ui, &s);
    let first: Vec<(usize, usize, Vec<u8>, i16)> =
        ui.out.iter().map(|d| (d.row, d.col, d.text.clone(), d.pair)).collect();
    render_frame(&mut ui, &s);
    let second: Vec<(usize, usize, Vec<u8>, i16)> =
        ui.out.iter().map(|d| (d.row, d.col, d.text.clone(), d.pair)).collect();
    assert_eq!(first, second);
}
