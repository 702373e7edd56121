//! The identifiers of the window protocol that the manager uses.

use vstd::prelude::*;
use vstd::string::*;
use crate::util::{decimal, digits};

verus! {

/// The atoms of one display, as the display has numbered them.
#[derive(Clone, Copy, Debug, PartialEq, Eq, Structural)]
pub struct AtomTable {
    pub wm_protocols: u64,
    pub wm_delete: u64,
    pub wm_state: u64,
    pub wm_take_focus: u64,
    pub net_active_window: u64,
    pub net_supported: u64,
    pub net_wm_name: u64,
    pub net_wm_state: u64,
    pub net_wm_state_above: u64,
    pub net_wm_state_fullscreen: u64,
    pub net_wm_state_modal: u64,
    pub net_wm_state_sticky: u64,
    pub net_wm_window_type: u64,
    pub net_wm_window_type_dialog: u64,
    pub net_wm_window_type_dock: u64,
    pub net_client_list: u64,
}

/// The names under which the atoms are asked for, in the order in which
/// `create_atoms` takes their numbers.
pub open spec fn atom_names() -> Seq<Seq<char>> {
    seq![
        "WM_PROTOCOLS"@,
        "WM_DELETE_WINDOW"@,
        "WM_STATE"@,
        "WM_TAKE_FOCUS"@,
        "_NET_ACTIVE_WINDOW"@,
        "_NET_SUPPORTED"@,
        "_NET_WM_NAME"@,
        "_NET_WM_STATE"@,
        "_NET_WM_STATE_ABOVE"@,
        "_NET_WM_STATE_STICKY"@,
        "_NET_WM_STATE_FULLSCREEN"@,
        "_NET_WM_WINDOW_TYPE"@,
        "_NET_WM_WINDOW_TYPE_DIALOG"@,
        "_NET_WM_WINDOW_TYPE_DOCK"@,
        "_NET_CLIENT_LIST"@,
        "_NET_WM_STATE_MODAL"@,
    ]
}

/// The names under which the atoms are asked for.
pub fn names() -> (list: Vec<&'static str>)
    ensures
        list@.len() == 16,
        list@.map_values(|n: &'static str| n@) == atom_names(),
{
    let mut list: Vec<&'static str> = Vec::new();
    list.push("WM_PROTOCOLS");
    list.push("WM_DELETE_WINDOW");
    list.push("WM_STATE");
    list.push("WM_TAKE_FOCUS");
    list.push("_NET_ACTIVE_WINDOW");
    list.push("_NET_SUPPORTED");
    list.push("_NET_WM_NAME");
    list.push("_NET_WM_STATE");
    list.push("_NET_WM_STATE_ABOVE");
    list.push("_NET_WM_STATE_STICKY");
    list.push("_NET_WM_STATE_FULLSCREEN");
    list.push("_NET_WM_WINDOW_TYPE");
    list.push("_NET_WM_WINDOW_TYPE_DIALOG");
    list.push("_NET_WM_WINDOW_TYPE_DOCK");
    list.push("_NET_CLIENT_LIST");
    list.push("_NET_WM_STATE_MODAL");
    assert(list@.map_values(|n: &'static str| n@) =~= atom_names());
    list
}

/// The table of the atoms from the numbers that the display gave for
/// `names()`, in that order. There is no table for another count of numbers.
pub fn create_atoms(interned: &Vec<u64>) -> (table: Option<AtomTable>)
    ensures
        match table {
            Some(t) => interned@.len() == 16 && t == (AtomTable {
                wm_protocols: interned@[0],
                wm_delete: interned@[1],
                wm_state: interned@[2],
                wm_take_focus: interned@[3],
                net_active_window: interned@[4],
                net_supported: interned@[5],
                net_wm_name: interned@[6],
                net_wm_state: interned@[7],
                net_wm_state_above: interned@[8],
                net_wm_state_sticky: interned@[9],
                net_wm_state_fullscreen: interned@[10],
                net_wm_window_type: interned@[11],
                net_wm_window_type_dialog: interned@[12],
                net_wm_window_type_dock: interned@[13],
                net_client_list: interned@[14],
                net_wm_state_modal: interned@[15],
            }),
            None => interned@.len() != 16,
        },
{
    if interned.len() != 16 {
        return None;
    }
    Some(
        AtomTable {
            wm_protocols: interned[0],
            wm_delete: interned[1],
            wm_state: interned[2],
            wm_take_focus: interned[3],
            net_active_window: interned[4],
            net_supported: interned[5],
            net_wm_name: interned[6],
            net_wm_state: interned[7],
            net_wm_state_above: interned[8],
            net_wm_state_sticky: interned[9],
            net_wm_state_fullscreen: interned[10],
            net_wm_window_type: interned[11],
            net_wm_window_type_dialog: interned[12],
            net_wm_window_type_dock: interned[13],
            net_client_list: interned[14],
            net_wm_state_modal: interned[15],
        },
    )
}

impl AtomTable {
    pub fn wm_protocols(&self) -> (atom: u64)
        ensures
            atom == self.wm_protocols,
    {
        self.wm_protocols
    }

    pub fn wm_delete(&self) -> (atom: u64)
        ensures
            atom == self.wm_delete,
    {
        self.wm_delete
    }

    pub fn wm_state(&self) -> (atom: u64)
        ensures
            atom == self.wm_state,
    {
        self.wm_state
    }

    pub fn wm_take_focus(&self) -> (atom: u64)
        ensures
            atom == self.wm_take_focus,
    {
        self.wm_take_focus
    }

    pub fn net_active_window(&self) -> (atom: u64)
        ensures
            atom == self.net_active_window,
    {
        self.net_active_window
    }

    pub fn net_supported(&self) -> (atom: u64)
        ensures
            atom == self.net_supported,
    {
        self.net_supported
    }

    pub fn net_wm_name(&self) -> (atom: u64)
        ensures
            atom == self.net_wm_name,
    {
        self.net_wm_name
    }

    pub fn net_wm_state(&self) -> (atom: u64)
        ensures
            atom == self.net_wm_state,
    {
        self.net_wm_state
    }

    pub fn net_wm_state_above(&self) -> (atom: u64)
        ensures
            atom == self.net_wm_state_above,
    {
        self.net_wm_state_above
    }

    pub fn net_wm_state_sticky(&self) -> (atom: u64)
        ensures
            atom == self.net_wm_state_sticky,
    {
        self.net_wm_state_sticky
    }

    pub fn net_wm_state_fullscreen(&self) -> (atom: u64)
        ensures
            atom == self.net_wm_state_fullscreen,
    {
        self.net_wm_state_fullscreen
    }

    pub fn net_wm_window_type(&self) -> (atom: u64)
        ensures
            atom == self.net_wm_window_type,
    {
        self.net_wm_window_type
    }

    pub fn net_wm_window_type_dialog(&self) -> (atom: u64)
        ensures
            atom == self.net_wm_window_type_dialog,
    {
        self.net_wm_window_type_dialog
    }

    pub fn net_wm_window_type_dock(&self) -> (atom: u64)
        ensures
            atom == self.net_wm_window_type_dock,
    {
        self.net_wm_window_type_dock
    }

    pub fn net_client_list(&self) -> (atom: u64)
        ensures
            atom == self.net_client_list,
    {
        self.net_client_list
    }

    pub fn net_wm_state_modal(&self) -> (atom: u64)
        ensures
            atom == self.net_wm_state_modal,
    {
        self.net_wm_state_modal
    }

    /// The name of the atom: that of the first entry of the table with
    /// that number, in the order of the fields; for a number that the
    /// table does not hold, a text that says so.
    pub open spec fn name_of(self, atom: u64) -> Seq<char> {
        if atom == self.wm_protocols {
            "WM_PROTOCOLS"@
        } else if atom == self.wm_delete {
            "WM_DELETE_WINDOW"@
        } else if atom == self.wm_state {
            "WM_STATE"@
        } else if atom == self.wm_take_focus {
            "WM_TAKE_FOCUS"@
        } else if atom == self.net_active_window {
            "_NET_ACTIVE_WINDOW"@
        } else if atom == self.net_supported {
            "_NET_SUPPORTED"@
        } else if atom == self.net_wm_name {
            "_NET_WM_NAME"@
        } else if atom == self.net_wm_state {
            "_NET_WM_STATE"@
        } else if atom == self.net_wm_state_above {
            "_NET_WM_STATE_ABOVE"@
        } else if atom == self.net_wm_state_sticky {
            "_NET_WM_STATE_STICKY"@
        } else if atom == self.net_wm_state_fullscreen {
            "_NET_WM_STATE_FULLSCREEN"@
        } else if atom == self.net_wm_window_type {
            "_NET_WM_WINDOW_TYPE"@
        } else if atom == self.net_wm_window_type_dialog {
            "_NET_WM_WINDOW_TYPE_DIALOG"@
        } else if atom == self.net_wm_window_type_dock {
            "_NET_WM_WINDOW_TYPE_DOCK"@
        } else if atom == self.net_client_list {
            "_NET_CLIENT_LIST"@
        } else {
            "Unknown atom: "@ + digits(atom as nat)
        }
    }

    /// The name of the atom, for messages.
    pub fn get_atom(&self, atom: u64) -> (name: String)
        ensures
            name@ == self.name_of(atom),
    {
        if atom == self.wm_protocols {
            String::from_str("WM_PROTOCOLS")
        } else if atom == self.wm_delete {
            String::from_str("WM_DELETE_WINDOW")
        } else if atom == self.wm_state {
            String::from_str("WM_STATE")
        } else if atom == self.wm_take_focus {
            String::from_str("WM_TAKE_FOCUS")
        } else if atom == self.net_active_window {
            String::from_str("_NET_ACTIVE_WINDOW")
        } else if atom == self.net_supported {
            String::from_str("_NET_SUPPORTED")
        } else if atom == self.net_wm_name {
            String::from_str("_NET_WM_NAME")
        } else if atom == self.net_wm_state {
            String::from_str("_NET_WM_STATE")
        } else if atom == self.net_wm_state_above {
            String::from_str("_NET_WM_STATE_ABOVE")
        } else if atom == self.net_wm_state_sticky {
            String::from_str("_NET_WM_STATE_STICKY")
        } else if atom == self.net_wm_state_fullscreen {
            String::from_str("_NET_WM_STATE_FULLSCREEN")
        } else if atom == self.net_wm_window_type {
            String::from_str("_NET_WM_WINDOW_TYPE")
        } else if atom == self.net_wm_window_type_dialog {
            String::from_str("_NET_WM_WINDOW_TYPE_DIALOG")
        } else if atom == self.net_wm_window_type_dock {
            String::from_str("_NET_WM_WINDOW_TYPE_DOCK")
        } else if atom == self.net_client_list {
            String::from_str("_NET_CLIENT_LIST")
        } else {
            let mut name = String::from_str("Unknown atom: ");
            let number = decimal(atom);
            name.append(number.as_str());
            name
        }
    }
}

} // verus!
