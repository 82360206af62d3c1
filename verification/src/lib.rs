//! A keyboard-driven todo list manager: two ordered lists of text items
//! ("pending" and "completed"), a selection cursor per list, an active tab,
//! and a line-oriented persisted form. The list/cursor state machine, the
//! persistence codec and the view model are verified here; terminal I/O
//! lives outside the library.
use vstd::prelude::*;

pub mod codec;
pub mod model;
pub mod view;

verus! {

/// The views of a sequence of byte vectors, element by element.
pub open spec fn views_of(vs: Seq<Vec<u8>>) -> Seq<Seq<u8>> {
    vs.map_values(|v: Vec<u8>| v@)
}

} // verus!
