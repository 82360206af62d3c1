//! The list/cursor model: two ordered item lists, a selection cursor per
//! list, the active tab, and the three mutations (move up, move down,
//! transfer) that are the complete mutation surface of a session.
use vstd::prelude::*;

verus! {

/// Which of the two lists an item belongs to, and which tab is active.
#[derive(Clone, Copy, Debug, PartialEq, Eq, Structural)]
pub enum Status {
    Todo,
    Done,
}

impl Status {
    /// The other status: pending becomes completed and back.
    pub open spec fn spec_toggle(self) -> Status {
        match self {
            Status::Todo => Status::Done,
            Status::Done => Status::Todo,
        }
    }

    /// Flip between the two statuses.
    pub fn toggle(self) -> (r: Self)
        ensures
            r == self.spec_toggle(),
    {
        match self {
            Status::Done => Status::Todo,
            Status::Todo => Status::Done,
        }
    }
}

/// A cursor is valid for a list of length `len` when it indexes an item,
/// or when the list is empty and the cursor rests at zero.
pub open spec fn cursor_ok(len: nat, cur: nat) -> bool {
    if len == 0 {
        cur == 0
    } else {
        cur < len
    }
}

/// Where the cursor stands after one move up: one step toward the top,
/// stopping there.
pub open spec fn spec_up(cur: nat) -> nat {
    if cur > 0 {
        (cur - 1) as nat
    } else {
        cur
    }
}

/// Move the selection one item up; a no-op at the top.
pub fn list_up(list_cur: &mut usize)
    ensures
        *final(list_cur) as nat == spec_up(*old(list_cur) as nat),
{
    if *list_cur > 0 {
        *list_cur -= 1;
    }
}

/// Where the cursor stands after one move down in a list of length `len`:
/// one step toward the bottom, stopping at the last item.
pub open spec fn spec_down(len: nat, cur: nat) -> nat {
    if cur + 1 < len {
        cur + 1
    } else {
        cur
    }
}

/// Move the selection one item down; a no-op at the bottom and on an
/// empty list.
pub fn list_down(list: &Vec<Vec<u8>>, list_cur: &mut usize)
    ensures
        *final(list_cur) as nat == spec_down(list@.len(), *old(list_cur) as nat),
{
    if *list_cur < list.len() {
        if *list_cur + 1 < list.len() {
            *list_cur += 1;
        }
    }
}

/// The lists and cursor after one transfer: when `cur` indexes an item of
/// `src`, that item leaves `src` and is appended to `dst`, and the cursor
/// is clamped back into the shrunk list; otherwise nothing changes.
pub open spec fn spec_transfer(dst: Seq<Seq<u8>>, src: Seq<Seq<u8>>, cur: nat) -> (Seq<Seq<u8>>, Seq<
    Seq<u8>,
>, nat) {
    if cur < src.len() {
        let moved = src[cur as int];
        let rest = src.remove(cur as int);
        let new_cur = if cur >= rest.len() && rest.len() > 0 {
            (rest.len() - 1) as nat
        } else {
            cur
        };
        (dst.push(moved), rest, new_cur)
    } else {
        (dst, src, cur)
    }
}

/// Move the selected item of `list_src` to the end of `list_dst`; a no-op
/// when the cursor selects nothing (the source list is empty).
pub fn list_transfer(
    list_dst: &mut Vec<Vec<u8>>,
    list_src: &mut Vec<Vec<u8>>,
    list_src_cur: &mut usize,
)
    ensures
        ({
            let (d2, s2, c2) = spec_transfer(
                crate::views_of(old(list_dst)@),
                crate::views_of(old(list_src)@),
                *old(list_src_cur) as nat,
            );
            crate::views_of(final(list_dst)@) == d2 && crate::views_of(final(list_src)@) == s2
                && *final(list_src_cur) as nat == c2
        }),
{
    let ghost d0 = crate::views_of(list_dst@);
    let ghost s0 = crate::views_of(list_src@);
    let ghost c0 = *list_src_cur as nat;
    if *list_src_cur < list_src.len() {
        let item = list_src.remove(*list_src_cur);
        proof {
            assert(crate::views_of(list_src@) =~= s0.remove(c0 as int));
            assert(item@ == s0[c0 as int]);
        }
        list_dst.push(item);
        proof {
            assert(crate::views_of(list_dst@) =~= d0.push(s0[c0 as int]));
        }
        if *list_src_cur >= list_src.len() && list_src.len() > 0 {
            *list_src_cur = list_src.len() - 1;
        }
    }
}

/// The mathematical content of a session: the two item lists, the two
/// cursors, and the active tab.
#[verifier::ext_equal]
pub ghost struct SessionView {
    pub todos: Seq<Seq<u8>>,
    pub todo_cur: nat,
    pub dones: Seq<Seq<u8>>,
    pub done_cur: nat,
    pub tab: Status,
}

impl SessionView {
    /// Both cursors lie inside their lists (or rest at zero when the list
    /// is empty).
    pub open spec fn wf(self) -> bool {
        cursor_ok(self.todos.len(), self.todo_cur) && cursor_ok(self.dones.len(), self.done_cur)
    }

    /// How many items the session holds over both lists.
    pub open spec fn total_items(self) -> nat {
        self.todos.len() + self.dones.len()
    }
}

/// One step of the interaction state machine: the session after one key.
/// `w` moves the active cursor up, `s` down, enter transfers the selected
/// item to the other list, tab flips the active list, and every other key
/// (the quit key among them) leaves the session unchanged.
pub open spec fn spec_step(v: SessionView, key: char) -> SessionView {
    if key == 'w' {
        match v.tab {
            Status::Todo => SessionView { todo_cur: spec_up(v.todo_cur), ..v },
            Status::Done => SessionView { done_cur: spec_up(v.done_cur), ..v },
        }
    } else if key == 's' {
        match v.tab {
            Status::Todo => SessionView { todo_cur: spec_down(v.todos.len(), v.todo_cur), ..v },
            Status::Done => SessionView { done_cur: spec_down(v.dones.len(), v.done_cur), ..v },
        }
    } else if key == '\n' {
        match v.tab {
            Status::Todo => {
                let (d2, s2, c2) = spec_transfer(v.dones, v.todos, v.todo_cur);
                SessionView { todos: s2, todo_cur: c2, dones: d2, ..v }
            },
            Status::Done => {
                let (d2, s2, c2) = spec_transfer(v.todos, v.dones, v.done_cur);
                SessionView { todos: d2, dones: s2, done_cur: c2, ..v }
            },
        }
    } else if key == '\t' {
        SessionView { tab: v.tab.spec_toggle(), ..v }
    } else {
        v
    }
}

/// The entire mutable state of a run: the pending and completed lists,
/// a cursor into each, and the active tab.
pub struct Session {
    pub todos: Vec<Vec<u8>>,
    pub todo_cur: usize,
    pub dones: Vec<Vec<u8>>,
    pub done_cur: usize,
    pub tab: Status,
}

impl View for Session {
    type V = SessionView;

    open spec fn view(&self) -> SessionView {
        SessionView {
            todos: crate::views_of(self.todos@),
            todo_cur: self.todo_cur as nat,
            dones: crate::views_of(self.dones@),
            done_cur: self.done_cur as nat,
            tab: self.tab,
        }
    }
}

impl Session {
    /// A fresh session over the loaded lists: both cursors at the top and
    /// the pending tab active.
    pub fn new(todos: Vec<Vec<u8>>, dones: Vec<Vec<u8>>) -> (s: Session)
        ensures
            s@.todos == crate::views_of(todos@),
            s@.dones == crate::views_of(dones@),
            s@.todo_cur == 0,
            s@.done_cur == 0,
            s@.tab == Status::Todo,
            s@.wf(),
    {
        Session { todos, todo_cur: 0, dones, done_cur: 0, tab: Status::Todo }
    }

    /// Whether both cursors are valid for their lists, decidable at run
    /// time for callers outside the library.
    pub fn check_cursors(&self) -> (r: bool)
        ensures
            r == self@.wf(),
    {
        let todo_ok = if self.todos.len() == 0 {
            self.todo_cur == 0
        } else {
            self.todo_cur < self.todos.len()
        };
        let done_ok = if self.dones.len() == 0 {
            self.done_cur == 0
        } else {
            self.done_cur < self.dones.len()
        };
        todo_ok && done_ok
    }
}

/// A step of the state machine keeps both cursors valid.
pub proof fn lemma_step_preserves_wf(v: SessionView, key: char)
    requires
        v.wf(),
    ensures
        spec_step(v, key).wf(),
{
}

/// No key creates or destroys an item: the total count over both lists is
/// invariant under every step, transfers included.
pub proof fn lemma_step_conserves_items(v: SessionView, key: char)
    ensures
        spec_step(v, key).total_items() == v.total_items(),
{
}

/// A transfer moves exactly one item when the source cursor selects one
/// (under a valid cursor: whenever the source list is non-empty), and is
/// a no-op when the source list is empty.
pub proof fn lemma_transfer_conservation(dst: Seq<Seq<u8>>, src: Seq<Seq<u8>>, cur: nat)
    requires
        cursor_ok(src.len(), cur),
    ensures
        src.len() > 0 ==> ({
            let (d2, s2, c2) = spec_transfer(dst, src, cur);
            s2.len() == src.len() - 1 && d2.len() == dst.len() + 1
        }),
        src.len() == 0 ==> spec_transfer(dst, src, cur) == (dst, src, cur),
        ({
            let (d2, s2, c2) = spec_transfer(dst, src, cur);
            d2.len() + s2.len() == dst.len() + src.len()
        }),
{
}

/// Moving up at the top and moving down at the bottom stay put, and both
/// moves are no-ops on an empty list.
pub proof fn lemma_move_boundaries(len: nat, cur: nat)
    ensures
        spec_up(0) == 0,
        cur == len - 1 && len > 0 ==> spec_down(len, cur) == cur,
        len == 0 && cursor_ok(len, cur) ==> spec_up(cur) == cur && spec_down(len, cur) == cur,
{
}

/// The session after a whole sequence of key presses, first key first.
pub open spec fn spec_run(v: SessionView, keys: Seq<char>) -> SessionView
    decreases keys.len(),
{
    if keys.len() == 0 {
        v
    } else {
        spec_run(spec_step(v, keys[0]), keys.skip(1))
    }
}

/// After any sequence of key presses on a session with valid cursors,
/// both cursors are still valid and the total item count is unchanged.
pub proof fn lemma_run_preserves_wf_and_items(v: SessionView, keys: Seq<char>)
    requires
        v.wf(),
    ensures
        spec_run(v, keys).wf(),
        spec_run(v, keys).total_items() == v.total_items(),
    decreases keys.len(),
{
    if keys.len() > 0 {
        lemma_step_preserves_wf(v, keys[0]);
        lemma_step_conserves_items(v, keys[0]);
        lemma_run_preserves_wf_and_items(spec_step(v, keys[0]), keys.skip(1));
    }
}

/// Dispatch one key press on the session. Returns whether the quit key
/// was pressed; every key's effect on the session is `spec_step`.
pub fn handle_key(s: &mut Session, key: char) -> (quit: bool)
    requires
        old(s)@.wf(),
    ensures
        final(s)@ == spec_step(old(s)@, key),
        final(s)@.wf(),
        quit == (key == 'q'),
{
    proof {
        lemma_step_preserves_wf(old(s)@, key);
    }
    match key {
        'w' => {
            match s.tab {
                Status::Todo => list_up(&mut s.todo_cur),
                Status::Done => list_up(&mut s.done_cur),
            }
            proof {
                assert(s@ =~= spec_step(old(s)@, key));
            }
            false
        },
        's' => {
            match s.tab {
                Status::Todo => list_down(&s.todos, &mut s.todo_cur),
                Status::Done => list_down(&s.dones, &mut s.done_cur),
            }
            proof {
                assert(s@ =~= spec_step(old(s)@, key));
            }
            false
        },
        '\n' => {
            match s.tab {
                Status::Todo => list_transfer(&mut s.dones, &mut s.todos, &mut s.todo_cur),
                Status::Done => list_transfer(&mut s.todos, &mut s.dones, &mut s.done_cur),
            }
            proof {
                assert(s@ =~= spec_step(old(s)@, key));
            }
            false
        },
        '\t' => {
            s.tab = s.tab.toggle();
            proof {
                assert(s@ =~= spec_step(old(s)@, key));
            }
            false
        },
        'q' => true,
        _ => {
            proof {
                assert(s@ =~= spec_step(old(s)@, key));
            }
            false
        },
    }
}

} // verus!
