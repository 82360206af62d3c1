//! The view model: turns the active tab, its list and its cursor into an
//! ordered sequence of styled draw instructions. It knows nothing of input
//! or files, and rendering is a pure function of the session.
use crate::codec::append_all;
use crate::model::Session;
use crate::model::SessionView;
use crate::model::Status;
use vstd::prelude::*;

verus! {

/// The style of an ordinary text run.
pub const REGULAR_PAIR: i16 = 0;

/// The style of the selected item's run: foreground and background
/// inverted.
pub const HIGHLIGHT_PAIR: i16 = 1;

/// The mathematical content of one draw instruction.
#[verifier::ext_equal]
pub ghost struct InstrView {
    pub row: nat,
    pub col: nat,
    pub text: Seq<u8>,
    pub pair: i16,
}

/// One draw instruction: put this styled text run at this screen cell.
pub struct DrawInstr {
    pub row: usize,
    pub col: usize,
    pub text: Vec<u8>,
    pub pair: i16,
}

impl View for DrawInstr {
    type V = InstrView;

    open spec fn view(&self) -> InstrView {
        InstrView { row: self.row as nat, col: self.col as nat, text: self.text@, pair: self.pair }
    }
}

/// The views of a sequence of draw instructions, element by element.
pub open spec fn instr_views(s: Seq<DrawInstr>) -> Seq<InstrView> {
    s.map_values(|d: DrawInstr| d@)
}

/// The header line when the pending tab is active: `[TODO] DONE`.
pub open spec fn header_todo_text() -> Seq<u8> {
    seq![91u8, 84u8, 79u8, 68u8, 79u8, 93u8, 32u8, 68u8, 79u8, 78u8, 69u8]
}

/// The header line when the completed tab is active: ` TODO [DONE]`.
pub open spec fn header_done_text() -> Seq<u8> {
    seq![32u8, 84u8, 79u8, 68u8, 79u8, 32u8, 91u8, 68u8, 79u8, 78u8, 69u8, 93u8]
}

/// The fixed separator line under the header: `------------`.
pub open spec fn separator_text() -> Seq<u8> {
    seq![45u8, 45u8, 45u8, 45u8, 45u8, 45u8, 45u8, 45u8, 45u8, 45u8, 45u8, 45u8]
}

/// The checkbox prefix of a pending item's line: `- [ ] `.
pub open spec fn pending_box_text() -> Seq<u8> {
    seq![45u8, 32u8, 91u8, 32u8, 93u8, 32u8]
}

/// The checkbox prefix of a completed item's line: `- [x] `.
pub open spec fn done_box_text() -> Seq<u8> {
    seq![45u8, 32u8, 91u8, 120u8, 93u8, 32u8]
}

/// The header line of the pending tab as a vector.
pub fn header_todo() -> (v: Vec<u8>)
    ensures
        v@ == header_todo_text(),
{
    let mut v: Vec<u8> = Vec::new();
    v.push(91);
    v.push(84);
    v.push(79);
    v.push(68);
    v.push(79);
    v.push(93);
    v.push(32);
    v.push(68);
    v.push(79);
    v.push(78);
    v.push(69);
    proof {
        assert(v@ =~= header_todo_text());
    }
    v
}

/// The header line of the completed tab as a vector.
pub fn header_done() -> (v: Vec<u8>)
    ensures
        v@ == header_done_text(),
{
    let mut v: Vec<u8> = Vec::new();
    v.push(32);
    v.push(84);
    v.push(79);
    v.push(68);
    v.push(79);
    v.push(32);
    v.push(91);
    v.push(68);
    v.push(79);
    v.push(78);
    v.push(69);
    v.push(93);
    proof {
        assert(v@ =~= header_done_text());
    }
    v
}

/// The separator line as a vector.
pub fn separator() -> (v: Vec<u8>)
    ensures
        v@ == separator_text(),
{
    let mut v: Vec<u8> = Vec::new();
    let mut i: usize = 0;
    while i < 12
        invariant
            i <= 12,
            v@.len() == i,
            forall|j: int| 0 <= j < i ==> v@[j] == 45u8,
        decreases 12 - i,
    {
        v.push(45);
        i += 1;
    }
    proof {
        assert(v@ =~= separator_text());
    }
    v
}

/// The pending checkbox prefix as a vector.
pub fn pending_box() -> (v: Vec<u8>)
    ensures
        v@ == pending_box_text(),
{
    let mut v: Vec<u8> = Vec::new();
    v.push(45);
    v.push(32);
    v.push(91);
    v.push(32);
    v.push(93);
    v.push(32);
    proof {
        assert(v@ =~= pending_box_text());
    }
    v
}

/// The completed checkbox prefix as a vector.
pub fn done_box() -> (v: Vec<u8>)
    ensures
        v@ == done_box_text(),
{
    let mut v: Vec<u8> = Vec::new();
    v.push(45);
    v.push(32);
    v.push(91);
    v.push(120);
    v.push(93);
    v.push(32);
    proof {
        assert(v@ =~= done_box_text());
    }
    v
}

/// An immediate-mode frame builder: emits draw instructions row by row,
/// with at most one item list open at a time.
pub struct Ui {
    pub list_cur: Option<usize>,
    pub row: usize,
    pub col: usize,
    pub out: Vec<DrawInstr>,
}

impl Default for Ui {
    /// A builder with no frame begun: origin at the top left, no list
    /// open, nothing emitted.
    fn default() -> (ui: Ui)
        ensures
            ui.list_cur is None,
            ui.row == 0,
            ui.col == 0,
            ui.out@ == Seq::<DrawInstr>::empty(),
    {
        let out: Vec<DrawInstr> = Vec::new();
        proof {
            assert(out@ =~= Seq::<DrawInstr>::empty());
        }
        Ui { list_cur: None, row: 0, col: 0, out }
    }
}

impl Ui {
    /// Start a fresh frame at the given origin; runs emitted for earlier
    /// frames are dropped.
    pub fn begin(&mut self, row: usize, col: usize)
        ensures
            final(self).row == row,
            final(self).col == col,
            final(self).list_cur == old(self).list_cur,
            final(self).out@ == Seq::<DrawInstr>::empty(),
    {
        self.out.clear();
        self.row = row;
        self.col = col;
    }

    /// Finish the frame. Nothing is left to do: the emitted runs stand.
    pub fn end(&mut self)
        ensures
            *final(self) == *old(self),
    {
    }

    /// Emit one styled text run at the current row and move one row down.
    pub fn label(&mut self, label: Vec<u8>, pair: i16)
        requires
            old(self).row < usize::MAX,
        ensures
            instr_views(final(self).out@) == instr_views(old(self).out@).push(
                (InstrView {
                    row: old(self).row as nat,
                    col: old(self).col as nat,
                    text: label@,
                    pair: pair,
                }),
            ),
            final(self).row == old(self).row + 1,
            final(self).col == old(self).col,
            final(self).list_cur == old(self).list_cur,
    {
        let instr = DrawInstr { row: self.row, col: self.col, text: label, pair };
        let ghost o0 = instr_views(self.out@);
        let ghost iv = instr@;
        self.out.push(instr);
        proof {
            assert(instr_views(self.out@) =~= o0.push(iv));
        }
        self.row += 1;
    }

    /// Open the item list whose selected index is `id`. Only one list can
    /// be open at a time.
    pub fn begin_list(&mut self, id: usize)
        requires
            old(self).list_cur is None,
        ensures
            final(self).list_cur == Some(id),
            final(self).row == old(self).row,
            final(self).col == old(self).col,
            final(self).out == old(self).out,
    {
        self.list_cur = Some(id);
    }

    /// Emit one list line: highlighted when its index is the selected one
    /// of the open list, regular otherwise.
    pub fn list_element(&mut self, label: Vec<u8>, id: usize)
        requires
            old(self).list_cur is Some,
            old(self).row < usize::MAX,
        ensures
            instr_views(final(self).out@) == instr_views(old(self).out@).push(
                (InstrView {
                    row: old(self).row as nat,
                    col: old(self).col as nat,
                    text: label@,
                    pair: if id == old(self).list_cur->0 {
                        HIGHLIGHT_PAIR
                    } else {
                        REGULAR_PAIR
                    },
                }),
            ),
            final(self).row == old(self).row + 1,
            final(self).col == old(self).col,
            final(self).list_cur == old(self).list_cur,
    {
        let id_curr = self.list_cur.unwrap();
        let pair = if id_curr == id {
            HIGHLIGHT_PAIR
        } else {
            REGULAR_PAIR
        };
        self.label(label, pair);
    }

    /// Close the open item list.
    pub fn end_list(&mut self)
        ensures
            final(self).list_cur is None,
            final(self).row == old(self).row,
            final(self).col == old(self).col,
            final(self).out == old(self).out,
    {
        self.list_cur = None;
    }
}

/// The frame drawn for a session: the active tab's header, the separator,
/// then one checkbox line per item of the active list in list order, rows
/// counted from the origin, the selected item's line highlighted and all
/// others regular.
pub open spec fn spec_render(v: SessionView) -> Seq<InstrView> {
    let header = match v.tab {
        Status::Todo => header_todo_text(),
        Status::Done => header_done_text(),
    };
    let box_prefix = match v.tab {
        Status::Todo => pending_box_text(),
        Status::Done => done_box_text(),
    };
    let items = match v.tab {
        Status::Todo => v.todos,
        Status::Done => v.dones,
    };
    let cur = match v.tab {
        Status::Todo => v.todo_cur,
        Status::Done => v.done_cur,
    };
    seq![
        (InstrView { row: 0, col: 0, text: header, pair: REGULAR_PAIR }),
        (InstrView { row: 1, col: 0, text: separator_text(), pair: REGULAR_PAIR }),
    ] + Seq::new(
        items.len(),
        |i: int|
            InstrView {
                row: (2 + i) as nat,
                col: 0,
                text: box_prefix + items[i],
                pair: if i == cur as int {
                    HIGHLIGHT_PAIR
                } else {
                    REGULAR_PAIR
                },
            },
    )
}

/// Build one frame for the session, as `spec_render` describes.
pub fn render_frame(ui: &mut Ui, session: &Session)
    requires
        old(ui).list_cur is None,
        session@.wf(),
        session.todos@.len() <= usize::MAX - 2,
        session.dones@.len() <= usize::MAX - 2,
    ensures
        instr_views(final(ui).out@) == spec_render(session@),
        final(ui).list_cur is None,
{
    ui.begin(0, 0);
    proof {
        assert(instr_views(ui.out@) =~= Seq::<InstrView>::empty());
    }
    match session.tab {
        Status::Todo => {
            ui.label(header_todo(), REGULAR_PAIR);
            ui.label(separator(), REGULAR_PAIR);
            ui.begin_list(session.todo_cur);
            proof {
                assert(instr_views(ui.out@) =~= spec_render(session@).take(2));
            }
            let mut index: usize = 0;
            while index < session.todos.len()
                invariant
                    index <= session.todos@.len(),
                    session.todos@.len() <= usize::MAX - 2,
                    session.tab == Status::Todo,
                    ui.row == 2 + index,
                    ui.col == 0,
                    ui.list_cur == Some(session.todo_cur),
                    instr_views(ui.out@) == spec_render(session@).take(2 + index as int),
                decreases session.todos@.len() - index,
            {
                let mut lbl = pending_box();
                append_all(&mut lbl, &session.todos[index]);
                ui.list_element(lbl, index);
                proof {
                    assert(spec_render(session@).take(2 + index + 1) =~= spec_render(
                        session@,
                    ).take(2 + index as int).push(spec_render(session@)[2 + index as int]));
                    assert(instr_views(ui.out@) =~= spec_render(session@).take(2 + index + 1));
                }
                index += 1;
            }
            ui.end_list();
            proof {
                assert(spec_render(session@).take(2 + session.todos@.len() as int) =~= spec_render(
                    session@,
                ));
            }
        },
        Status::Done => {
            ui.label(header_done(), REGULAR_PAIR);
            ui.label(separator(), REGULAR_PAIR);
            ui.begin_list(session.done_cur);
            proof {
                assert(instr_views(ui.out@) =~= spec_render(session@).take(2));
            }
            let mut index: usize = 0;
            while index < session.dones.len()
                invariant
                    index <= session.dones@.len(),
                    session.dones@.len() <= usize::MAX - 2,
                    session.tab == Status::Done,
                    ui.row == 2 + index,
                    ui.col == 0,
                    ui.list_cur == Some(session.done_cur),
                    instr_views(ui.out@) == spec_render(session@).take(2 + index as int),
                decreases session.dones@.len() - index,
            {
                let mut lbl = done_box();
                append_all(&mut lbl, &session.dones[index]);
                ui.list_element(lbl, index);
                proof {
                    assert(spec_render(session@).take(2 + index + 1) =~= spec_render(
                        session@,
                    ).take(2 + index as int).push(spec_render(session@)[2 + index as int]));
                    assert(instr_views(ui.out@) =~= spec_render(session@).take(2 + index + 1));
                }
                index += 1;
            }
            ui.end_list();
            proof {
                assert(spec_render(session@).take(2 + session.dones@.len() as int) =~= spec_render(
                    session@,
                ));
            }
        },
    }
    ui.end();
}

} // verus!
