//! What a store asks of the handles it keeps.

use crate::model::Held;
use vstd::prelude::*;

verus! {

/// A shared, immutable reference to one allocated text.
pub trait Handle: Sized {
    /// The text of the allocation.
    spec fn text(&self) -> Seq<char>;

    /// The number of the allocation among those of the interner that made it.
    spec fn serial(&self) -> nat;

    /// Allocates `text` anew, as the allocation numbered `serial`.
    fn allocate(text: &str, serial: Ghost<nat>) -> (made: Self)
        ensures
            made.text() == text@,
            made.serial() == serial@,
    ;

    /// Another handle to the same allocation: as a value it is this handle.
    fn share(&self) -> (shared: Self)
        ensures
            shared == *self,
    ;

    /// The text, borrowed.
    fn as_str(&self) -> (text: &str)
        ensures
            text@ == self.text(),
    ;
}

/// The allocation that `handle` aliases, as its interner counts it.
///
/// An interner numbers only its own allocations. Among the handles that one
/// interner has given out, two alias one allocation exactly when this is the
/// same for both; of handles of two interners (a clone of an interner is
/// another interner) it says nothing, and they may agree here without
/// sharing an allocation.
pub open spec fn held_by<H: Handle>(handle: H) -> Held {
    Held { content: handle.text(), serial: handle.serial() }
}

/// The allocations that `handles` alias, in their order.
pub open spec fn held_by_all<H: Handle>(handles: Seq<H>) -> Seq<Held> {
    Seq::new(handles.len(), |i: int| held_by(handles[i]))
}

/// Whether one of `handles` holds `text`.
pub open spec fn holds_text<H: Handle>(handles: Seq<H>, text: Seq<char>) -> bool {
    exists|i: int| 0 <= i < handles.len() && text_at(handles, i) == text
}

/// The text of the handle at place `i` of `handles`.
pub open spec fn text_at<H: Handle>(handles: Seq<H>, i: int) -> Seq<char> {
    handles[i].text()
}

/// Of `handles`, for each text the first handle that holds it, in the order
/// of `handles`.
pub open spec fn first_of_each<H: Handle>(handles: Seq<H>) -> Seq<H>
    decreases handles.len(),
{
    if handles.len() == 0 {
        Seq::empty()
    } else {
        let front = first_of_each(handles.drop_last());
        if holds_text(front, handles.last().text()) {
            front
        } else {
            front.push(handles.last())
        }
    }
}

} // verus!
