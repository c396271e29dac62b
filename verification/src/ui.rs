//! The browsing loop's decision core: from the current selection state
//! and one key event to the next state. The terminal drawing and the
//! event read live outside the library; they run this step function.

use vstd::prelude::*;

verus! {

/// One key event the browser reacts to.
#[derive(Debug, Clone, Copy, PartialEq, Eq, Structural)]
pub enum UiEvent {
    Down,
    Up,
    Open,
    Close,
    Quit,
    Other,
}

/// The browser's state: which listing entry is selected, which message
/// is open in the viewing pane, and whether the loop is over.
#[derive(Debug, Clone, Copy, PartialEq, Eq, Structural)]
pub struct UiState {
    pub selected: usize,
    pub viewing: Option<usize>,
    pub done: bool,
}

/// The state invariant against a listing of `len` entries: the selection
/// stays on an entry (or at zero for an empty listing), and only an
/// entry can be open.
pub open spec fn ui_state_wf(s: UiState, len: int) -> bool {
    &&& (len == 0 ==> s.selected == 0)
    &&& (len > 0 ==> (s.selected as int) < len)
    &&& (s.viewing matches Some(i) ==> (i as int) < len)
}

/// The starting state: the first entry selected, nothing open.
pub fn ui_init() -> (s: UiState)
    ensures
        s.selected == 0,
        s.viewing is None,
        !s.done,
        forall|len: int| len >= 0 ==> ui_state_wf(s, len),
{
    UiState { selected: 0, viewing: None, done: false }
}

/// One step of the browsing loop: moving the selection stops at the
/// listing's ends, opening shows the selected entry, closing clears the
/// pane, quitting ends the loop, and any other key changes nothing.
pub fn ui_step(s: &UiState, e: UiEvent, inbox_len: usize) -> (t: UiState)
    requires
        ui_state_wf(*s, inbox_len as int),
    ensures
        ui_state_wf(t, inbox_len as int),
        match e {
            UiEvent::Down => t == (UiState {
                selected: if s.selected + 1 < inbox_len {
                    (s.selected + 1) as usize
                } else {
                    s.selected
                },
                ..*s
            }),
            UiEvent::Up => t == (UiState {
                selected: if s.selected > 0 {
                    (s.selected - 1) as usize
                } else {
                    0
                },
                ..*s
            }),
            UiEvent::Open => t == (UiState {
                viewing: if s.selected < inbox_len {
                    Some(s.selected)
                } else {
                    None
                },
                ..*s
            }),
            UiEvent::Close => t == (UiState { viewing: None, ..*s }),
            UiEvent::Quit => t == (UiState { done: true, ..*s }),
            UiEvent::Other => t == *s,
        },
{
    match e {
        UiEvent::Down => {
            if s.selected + 1 < inbox_len {
                UiState { selected: s.selected + 1, ..*s }
            } else {
                *s
            }
        },
        UiEvent::Up => {
            if s.selected > 0 {
                UiState { selected: s.selected - 1, ..*s }
            } else {
                *s
            }
        },
        UiEvent::Open => {
            if s.selected < inbox_len {
                UiState { viewing: Some(s.selected), ..*s }
            } else {
                UiState { viewing: None, ..*s }
            }
        },
        UiEvent::Close => UiState { viewing: None, ..*s },
        UiEvent::Quit => UiState { done: true, ..*s },
        UiEvent::Other => *s,
    }
}

} // verus!
