//! What the manager asks of the display. The library decides; whoever owns
//! the connection to the display carries the requests out, in order.

use vstd::prelude::*;
use crate::rect::Rect;

verus! {

/// A message of the window protocol that a client may or may not take.
#[derive(Clone, Copy, Debug, PartialEq, Eq, Structural)]
pub enum Protocol {
    /// The client is asked to close its window.
    Delete,
    /// The client is told that it has the input focus.
    TakeFocus,
}

/// The state that a window is published to be in.
#[derive(Clone, Copy, Debug, PartialEq, Eq, Structural)]
pub enum WindowState {
    Withdrawn,
    Normal,
}

/// The three lists of keys of a configuration.
#[derive(Clone, Copy, Debug, PartialEq, Eq, Structural)]
pub enum KeyTable {
    Keys,
    TagKeys,
    AddKeys,
}

/// One request to the display.
#[derive(Clone, Copy, Debug, PartialEq, Eq, Structural)]
pub enum Request {
    /// Move the window, keeping its size.
    Move { window: u64, x: i32, y: i32 },
    /// Give the window this position and size, and wait until it is done.
    Configure { window: u64, rect: Rect },
    /// Put the window on top of all others.
    Raise { window: u64 },
    /// Put the window below all others.
    Lower { window: u64 },
    /// Release every button grab on the window; a window without the focus
    /// then gets the grab that turns a click into a change of focus.
    GrabButtons { window: u64, focused: bool },
    /// Show whether the window has the focus. With the focus: its border
    /// takes the focused colour, it is published as the active window, it
    /// gets the keyboard, and it is sent `Protocol::TakeFocus`. Without:
    /// its border takes the normal colour.
    Focus { window: u64, focused: bool },
    /// Put the window just above the other window if `above`, else just
    /// below it, and drop the pointer crossings that this causes.
    Stack { window: u64, sibling: u64, above: bool },
    /// Publish or clear the fullscreen state of the window.
    Fullscreen { window: u64, fullscreen: bool },
    /// Publish the state of the window.
    State { window: u64, state: WindowState },
    /// Tell the client its geometry.
    Notify { window: u64, rect: Rect, border: i32 },
    /// Send the message to the client if it takes that protocol.
    Send { window: u64, protocol: Protocol },
    /// Close the client's connection to the display.
    Kill { window: u64 },
    /// Give the keyboard to the root window.
    FocusRoot,
    /// Forget the list of managed windows.
    ClearClientList,
    /// Add the window to the published list of managed windows.
    AppendClientList { window: u64 },
    /// Give the window this border width and the normal border colour.
    Border { window: u64, width: i32 },
    /// Listen to what happens to the window.
    Listen { window: u64 },
    /// Put the window on the screen.
    MapWindow { window: u64 },
    /// Put the pointer at this place in the window.
    Warp { window: u64, x: i32, y: i32 },
    /// Publish what the manager supports, and listen to the root window.
    Announce,
    /// Carry out the action of a key that only the owner of the display
    /// can carry out: start a program, or ask the user.
    Run { table: KeyTable, index: usize },
    /// Hand a window's own request for geometry and stacking on to the
    /// display: the fields named in `mask` are applied.
    Forward { window: u64, rect: Rect, sibling: u64, stack_mode: i32, mask: u64 },
    /// Wait until the display has handled everything so far.
    Sync,
    /// Release every key grab on the root window.
    UngrabKeys,
    /// Grab the key on the root window.
    GrabKey { modifiers: u32, keysym: u32 },
    /// Tell the status bar what the manager holds now.
    Log,
    /// End the process.
    Exit,
}

} // verus!
