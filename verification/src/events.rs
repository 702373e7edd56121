//! What the manager does when the display reports an event.

use vstd::prelude::*;

use crate::client::ClientW;
use crate::config::{KeyBinding, WmAction, TAG_OVERVIEW};
use crate::display::{KeyTable, Protocol, Request, WindowState};
use crate::manager::WindowManager;
use crate::rect::Rect;
use crate::state::{
    changed,
    grab_requests,
    long_is,
    ConfigureRequest,
    Drag,
    DragKind,
    NewWindow,
    State,
    DRAG_INTERVAL,
    ATOM_WM_NAME,
    ATOM_WM_NORMAL_HINTS,
    BUTTON_MOVE,
    BUTTON_RESIZE,
    CONFIGURE_HEIGHT,
    CONFIGURE_WIDTH,
    CONFIGURE_X,
    CONFIGURE_Y,
    MAPPING_KEYBOARD,
};
use crate::util::{clean_mask, LOCK_MASK};
use crate::workspace::{client_of, find_client, windows};

verus! {

/// An event of the display, with what the manager has to know of it.
pub enum Event {
    ButtonPress { window: u64, button: u32, state: u32 },
    /// A message of a client, with the first three numbers that it holds.
    ClientMessage { window: u64, message_type: u64, l0: i64, l1: i64, l2: i64 },
    ConfigureRequest { request: ConfigureRequest },
    ConfigureNotify { window: u64, width: i32, height: i32 },
    DestroyNotify { window: u64 },
    EnterNotify,
    Expose,
    FocusIn { window: u64 },
    /// A key, with its symbol and the modifiers that were down.
    KeyPress { keysym: u32, state: u32 },
    MappingNotify { mapping: i32 },
    /// A window wants to be put on the screen. There is no `info` for a
    /// window that manages itself or that is gone already.
    MapRequest { info: Option<NewWindow> },
    MotionNotify,
    /// A window changed the property `atom`. The names, the state and
    /// the type are those that the window publishes now.
    PropertyNotify {
        window: u64,
        atom: u64,
        net_name: Option<String>,
        name: Option<String>,
        window_state: Option<u64>,
        window_type: Option<u64>,
    },
    /// A window left the screen; `send_event` if its client says so itself.
    UnmapNotify { window: u64, send_event: bool },
}

/// Asks for the grabs that the keys need.
fn grab(keys: &Vec<KeyBinding>, out: &mut Vec<Request>)
    ensures
        final(out)@ == old(out)@ + grab_requests(keys@),
{
    let mut i: usize = 0;
    assert(keys@.take(0) =~= Seq::<KeyBinding>::empty());
    assert(out@ + Seq::<Request>::empty() =~= out@);
    while i < keys.len()
        invariant
            i <= keys@.len(),
            out@ == old(out)@ + grab_requests(keys@.take(i as int)),
        decreases keys@.len() - i,
    {
        assert(keys@.take(i + 1).drop_last() =~= keys@.take(i as int));
        let ghost sent = grab_requests(keys@.take(i as int));
        out.push(Request::GrabKey { modifiers: keys[i].0 | 0u32, keysym: keys[i].1 });
        out.push(Request::GrabKey { modifiers: keys[i].0 | LOCK_MASK, keysym: keys[i].1 });
        assert(out@ =~= old(out)@ + (sent + seq![
            Request::GrabKey { modifiers: keys@[i as int].0 | 0u32, keysym: keys@[i as int].1 },
            Request::GrabKey { modifiers: keys@[i as int].0 | LOCK_MASK, keysym: keys@[i as int].1 },
        ]));
        i += 1;
    }
    assert(keys@.take(keys@.len() as int) =~= keys@);
}

/// Whether a number of a client message is the atom.
fn long_is_atom(value: i64, atom: u64) -> (b: bool)
    ensures
        b == long_is(value, atom),
{
    value >= 0 && value as u64 == atom
}

impl WindowManager {
    /// Grabs the keys of the configuration anew.
    pub fn grab_keys(&self, out: &mut Vec<Request>)
        ensures
            self.view(final(out)@) == self.view(old(out)@).keys_grabbed(),
    {
        out.push(Request::UngrabKeys);
        grab(&self.config.keys, out);
        grab(&self.config.tag_keys, out);
        grab(&self.config.add_keys, out);
        assert(out@ =~= self.view(old(out)@).keys_grabbed().out);
    }

    /// Does what the action of a key asks for.
    pub fn perform(&mut self, action: &WmAction, table: KeyTable, index: usize, out: &mut Vec<Request>)
        requires
            old(self).wf(),
        ensures
            final(self).wf(),
            final(self).view(final(out)@) == old(self).view(old(out)@).performed(
                *action,
                table,
                index,
            ),
    {
        match action {
            WmAction::Exit => {
                out.push(Request::Exit);
                assert(out@ =~= old(out)@ + seq![Request::Exit]);
            },
            WmAction::ShiftFocus(inc) => self.shift_focus(*inc, out),
            WmAction::KillClient => self.kill_client(out),
            WmAction::ToggleMaximize => self.toggle_maximize(out),
            WmAction::ToggleFloating => self.toggle_floating(out),
            WmAction::ShiftWindow(dx, dy) => self.shift_window(*dx, *dy, out),
            WmAction::ExpandWidth(delta) => self.expand_width(*delta, out),
            WmAction::ExpandHeight(delta) => self.expand_height(*delta, out),
            WmAction::SelectTag(tag) => self.select_tag(*tag, out),
            WmAction::AddTag(tag) => self.add_tag(*tag, out),
            WmAction::Promote => {
                if self.current_tag != TAG_OVERVIEW {
                    self.zoom(out);
                } else {
                    if let Some(client) = self.current_focused() {
                        if let Some(i) = find_client(&self.clients, client) {
                            let tag = self.clients[i].tag();
                            self.select_tag(tag, out);
                            self.set_focus(client, out);
                        }
                    }
                }
            },
            WmAction::SetFocusIndex(index) => self.set_focus_index(*index, out),
            WmAction::ToggleBack => self.toggle_back(out),
            _ => {
                out.push(Request::Run { table, index });
                assert(out@ =~= old(out)@ + seq![Request::Run { table, index }]);
            },
        }
    }

    /// Performs the action of every key of the list that is the key pressed.
    fn run_keys(
        &mut self,
        keys: &Vec<KeyBinding>,
        table: KeyTable,
        keysym: u32,
        mask: u32,
        out: &mut Vec<Request>,
    )
        requires
            old(self).wf(),
        ensures
            final(self).wf(),
            final(self).view(final(out)@) == old(self).view(old(out)@).keys_run(
                keys@,
                table,
                keysym,
                mask,
                keys@.len(),
            ),
    {
        let ghost start = self.view(out@);
        let mut i: usize = 0;
        while i < keys.len()
            invariant
                i <= keys@.len(),
                self.wf(),
                start == old(self).view(old(out)@),
                self.view(out@) == start.keys_run(keys@, table, keysym, mask, i as nat),
            decreases keys@.len() - i,
        {
            if keys[i].1 == keysym && mask == keys[i].0 {
                self.perform(&keys[i].2, table, i, out);
            }
            i += 1;
        }
    }

    pub fn on_key_press(&mut self, keysym: u32, state: u32, out: &mut Vec<Request>)
        requires
            old(self).wf(),
        ensures
            final(self).wf(),
            final(self).view(final(out)@) == old(self).view(old(out)@).key_pressed(keysym, state),
    {
        let config = self.config.clone();
        let mask = clean_mask(state);
        self.run_keys(&config.keys, KeyTable::Keys, keysym, mask, out);
        self.run_keys(&config.tag_keys, KeyTable::TagKeys, keysym, mask, out);
        self.run_keys(&config.add_keys, KeyTable::AddKeys, keysym, mask, out);
    }

    /// A button was pressed on a window. A managed client gets the
    /// focus. The result says which drag of the pointer begins, if any.
    pub fn on_button_press(&mut self, window: u64, button: u32, state: u32, out: &mut Vec<Request>) -> (drag:
        Option<DragKind>)
        requires
            old(self).wf(),
        ensures
            final(self).wf(),
            final(self).view(final(out)@) == old(self).view(old(out)@).button_pressed(window),
            drag == final(self).view(final(out)@).drag_begun(window, button, state),
    {
        if let Some(c) = self.get_client_by_window(window) {
            self.set_focus(c, out);
            self.restack(out);
        }
        if state & self.config.mod_key != 0 {
            let held = self.current_workspace().get_client_by_window(window);
            if held.is_some() {
                if button == BUTTON_MOVE {
                    return Some(DragKind::Move);
                }
                if button == BUTTON_RESIZE {
                    return Some(DragKind::Resize);
                }
            }
        }
        None
    }

    pub fn on_client_message(
        &mut self,
        window: u64,
        message_type: u64,
        l0: i64,
        l1: i64,
        l2: i64,
        out: &mut Vec<Request>,
    )
        requires
            old(self).wf(),
        ensures
            final(self).wf(),
            final(self).view(final(out)@) == old(self).view(old(out)@).client_message(
                window,
                message_type,
                l0,
                l1,
                l2,
            ),
    {
        if self.get_client_by_window(window).is_some() {
            if message_type == self.atoms.net_wm_state {
                let fullscreen_atom = self.atoms.net_wm_state_fullscreen;
                let modal_atom = self.atoms.net_wm_state_modal;
                if long_is_atom(l1, fullscreen_atom) || long_is_atom(l2, fullscreen_atom) {
                    let is_fullscreen = match find_client(&self.clients, window) {
                        Some(i) => self.clients[i].is_fullscreen(),
                        None => false,
                    };
                    let fullscreen = l0 == 1 || (l0 == 2 && !is_fullscreen);
                    self.set_fullscreen(window, fullscreen, out);
                }
                if long_is_atom(l1, modal_atom) || long_is_atom(l2, modal_atom) {
                    if let Some(i) = find_client(&self.clients, window) {
                        self.clients[i].set_floating(true);
                    }
                    self.arrange_windows(out);
                }
            }
        }
    }

    pub fn on_configure_request(&mut self, request: ConfigureRequest, out: &mut Vec<Request>)
        requires
            old(self).wf(),
        ensures
            final(self).wf(),
            final(self).view(final(out)@) == old(self).view(old(out)@).configure_requested(request),
    {
        let window = request.window;
        let ghost start = self.view(out@);
        if self.get_client_by_window(window).is_some() {
            if let Some(i) = find_client(&self.clients, window) {
                if self.current_tag == TAG_OVERVIEW {
                    let value_mask = request.value_mask & !(CONFIGURE_X | CONFIGURE_Y
                        | CONFIGURE_WIDTH | CONFIGURE_HEIGHT);
                    out.push(
                        Request::Forward {
                            window,
                            rect: Rect { x: 0, y: 0, width: 0, height: 0 },
                            sibling: request.above,
                            stack_mode: request.detail,
                            mask: value_mask,
                        },
                    );
                } else if (self.clients[i].is_sticky() || self.clients[i].tag() == self.current_tag)
                    && self.clients[i].is_floating() {
                    let mut rect = self.clients[i].get_rect();
                    if request.value_mask & CONFIGURE_X != 0 {
                        rect.x = request.rect.x;
                    }
                    if request.value_mask & CONFIGURE_Y != 0 {
                        rect.y = request.rect.y;
                    }
                    if request.value_mask & CONFIGURE_WIDTH != 0 {
                        rect.width = request.rect.width;
                    }
                    if request.value_mask & CONFIGURE_HEIGHT != 0 {
                        rect.height = request.rect.height;
                    }
                    self.clients[i].resize(rect, false, out);
                } else {
                    self.clients[i].configure(out);
                    let show = self.clients[i].tag() == self.current_tag;
                    if self.clients[i].check_show(show) {
                        self.clients[i].show(show, out);
                    }
                }
            }
        } else {
            out.push(
                Request::Forward {
                    window,
                    rect: request.rect,
                    sibling: request.above,
                    stack_mode: request.detail,
                    mask: request.value_mask,
                },
            );
        }
        out.push(Request::Sync);
        assert(out@ =~= start.configure_requested(request).out);
    }

    pub fn on_configure_notify(&mut self, window: u64, width: i32, height: i32, out: &mut Vec<Request>)
        requires
            old(self).wf(),
        ensures
            final(self).wf(),
            final(self).view(final(out)@) == old(self).view(old(out)@).configure_notified(
                window,
                width,
                height,
            ),
    {
        if window == self.root && (width != self.screen_width || height != self.screen_height) {
            self.screen_width = width;
            self.screen_height = height;
            self.arrange_windows(out);
        }
    }

    pub fn on_destroy_notify(&mut self, window: u64, out: &mut Vec<Request>)
        requires
            old(self).wf(),
        ensures
            final(self).wf(),
            final(self).view(final(out)@) == old(self).view(old(out)@).destroy_notified(window),
    {
        if let Some(c) = self.get_client_by_window(window) {
            self.unmanage(c, true, out);
        }
    }

    /// The pointer entered a window: nothing follows from that.
    pub fn on_enter_notify(&self)
    {
    }

    /// A window has to be drawn again: nothing follows from that.
    pub fn on_expose_notify(&self)
    {
    }

    /// The pointer moved: nothing follows from that.
    pub fn on_motion_notify(&self)
    {
    }

    pub fn on_focus_in(&mut self, window: u64, out: &mut Vec<Request>)
        requires
            old(self).wf(),
        ensures
            final(self).wf(),
            final(self).view(final(out)@) == old(self).view(old(out)@).focus_in(window),
    {
        if let Some(client) = self.current_focused() {
            if client != window {
                self.set_focus(client, out);
            }
            self.do_log(out);
        }
    }

    /// The keyboard has a new mapping, which the display's owner has
    /// taken note of: the keys are grabbed anew.
    pub fn on_mapping_notify(&self, request: i32, out: &mut Vec<Request>)
        ensures
            self.view(final(out)@) == self.view(old(out)@).mapping_notified(request),
    {
        if request == MAPPING_KEYBOARD {
            self.grab_keys(out);
        }
    }

    /// A window wants to be put on the screen: it becomes a client,
    /// unless it is one already.
    pub fn on_map_request(&mut self, info: NewWindow, out: &mut Vec<Request>)
        requires
            old(self).wf(),
        ensures
            final(self).wf(),
            old(self).view(old(out)@).manages(info.window) ==> final(self).view(final(out)@) == old(self).view(old(out)@),
            !old(self).view(old(out)@).manages(info.window) ==> exists|made: ClientW| #[trigger]
                old(self).view(old(out)@).makes(info, made) && final(self).view(final(out)@) == old(self).view(old(out)@).window_managed(info, made),
    {
        if self.get_client_by_window(info.window).is_none() {
            self.manage_window(info, out);
        }
    }

    /// The title of the client in the records.
    pub open spec fn title_of(&self, window: u64) -> String {
        match client_of(self.clients@, window) {
            Some(c) => c.0.title,
            None => choose|t: String| #[trigger] t@.len() == 0,
        }
    }

    /// A window changed a property: a new name becomes the title of its
    /// client, a new type is taken note of.
    pub fn on_property_notify(
        &mut self,
        window: u64,
        atom: u64,
        net_name: Option<String>,
        name: Option<String>,
        state: Option<u64>,
        window_type: Option<u64>,
        out: &mut Vec<Request>,
    )
        requires
            old(self).wf(),
        ensures
            final(self).wf(),
            final(self).view(final(out)@) == old(self).view(old(out)@).property_notified(
                window,
                atom,
                final(self).title_of(window),
                state,
                window_type,
            ),
            old(self).view(old(out)@).manages(window) && (atom == ATOM_WM_NAME || atom == old(self).atoms.net_wm_name) && client_of(old(self).clients@, window) is Some ==> final(self).title_of(window)@ == match net_name {
                Some(t) => t@,
                None => match name {
                    Some(t) => t@,
                    None => "Unknown"@,
                },
            },
    {
        if self.get_client_by_window(window).is_some() {
            if atom == ATOM_WM_NAME || atom == self.atoms.net_wm_name {
                if let Some(i) = find_client(&self.clients, window) {
                    self.clients[i].update_title(net_name, name);
                    assert(windows(self.clients@) =~= windows(old(self).clients@));
                }
                self.do_log(out);
            } else if atom == ATOM_WM_NORMAL_HINTS {
            } else if atom == self.atoms.net_wm_window_type {
                self.update_window_type(window, state, window_type, out);
            }
        }
    }

    pub fn on_unmap_notify(&mut self, window: u64, send_event: bool, out: &mut Vec<Request>)
        requires
            old(self).wf(),
        ensures
            final(self).wf(),
            final(self).view(final(out)@) == old(self).view(old(out)@).unmap_notified(
                window,
                send_event,
            ),
    {
        if let Some(c) = self.get_client_by_window(window) {
            if send_event {
                out.push(Request::State { window, state: WindowState::Withdrawn });
                assert(out@ =~= old(out)@ + seq![
                    Request::State { window, state: WindowState::Withdrawn },
                ]);
            } else {
                self.unmanage(c, false, out);
            }
        }
        self.do_log(out);
    }

    /// A client did not take a message that it was sent.
    pub fn on_protocol_refused(&self, window: u64, protocol: Protocol, out: &mut Vec<Request>)
        ensures
            self.view(final(out)@) == self.view(old(out)@).protocol_refused(window, protocol),
    {
        match protocol {
            Protocol::Delete => {
                out.push(Request::Kill { window });
                assert(out@ =~= old(out)@ + seq![Request::Kill { window }]);
            },
            Protocol::TakeFocus => {},
        }
    }

    /// Begins the drag that moves the client. The pointer has been
    /// grabbed, and is at (`pointer_x`, `pointer_y`).
    pub fn move_mouse(&self, client: u64, pointer_x: i32, pointer_y: i32) -> (drag: Option<Drag>)
        ensures
            drag == self.view(Seq::empty()).move_begun(client, pointer_x, pointer_y),
    {
        match find_client(&self.clients, client) {
            Some(i) => {
                if self.clients[i].is_fullscreen() {
                    return None;
                }
                Some(
                    Drag {
                        kind: DragKind::Move,
                        window: client,
                        origin: self.clients[i].get_rect(),
                        pointer_x,
                        pointer_y,
                        last_time: 0,
                    },
                )
            },
            None => None,
        }
    }

    /// Puts the pointer on the lower right corner of the client.
    pub fn warp_pointer(&self, client: u64, out: &mut Vec<Request>)
        ensures
            self.view(final(out)@) == self.view(old(out)@).pointer_warped(client),
    {
        if let Some(i) = find_client(&self.clients, client) {
            let rect = self.clients[i].get_rect();
            let x: i64 = rect.width as i64 + self.config.border_width as i64 - 1;
            let y: i64 = rect.height as i64 + self.config.border_width as i64 - 1;
            if i32::MIN as i64 <= x && x <= i32::MAX as i64 && i32::MIN as i64 <= y && y
                <= i32::MAX as i64 {
                out.push(Request::Warp { window: client, x: x as i32, y: y as i32 });
                assert(out@ =~= old(out)@ + seq![
                    Request::Warp { window: client, x: x as i32, y: y as i32 },
                ]);
            }
        }
    }

    /// Begins the drag that resizes the client: the pointer, which has
    /// been grabbed, is put on the corner of the client.
    pub fn resize_mouse(&self, client: u64, out: &mut Vec<Request>) -> (drag: Option<Drag>)
        ensures
            drag == self.view(Seq::empty()).resize_begun(client),
            self.view(final(out)@) == match drag {
                Some(d) => self.view(old(out)@).pointer_warped(client).sent(seq![Request::Sync]),
                None => self.view(old(out)@),
            },
    {
        match find_client(&self.clients, client) {
            Some(i) => {
                if self.clients[i].is_fullscreen() {
                    return None;
                }
                let rect = self.clients[i].get_rect();
                let x: i64 = rect.width as i64 + self.config.border_width as i64 - 1;
                let y: i64 = rect.height as i64 + self.config.border_width as i64 - 1;
                if !(i32::MIN as i64 <= x && x <= i32::MAX as i64 && i32::MIN as i64 <= y && y
                    <= i32::MAX as i64) {
                    return None;
                }
                self.warp_pointer(client, out);
                out.push(Request::Sync);
                assert(out@ =~= self.view(old(out)@).pointer_warped(client).out + seq![Request::Sync]);
                Some(
                    Drag {
                        kind: DragKind::Resize,
                        window: client,
                        origin: rect,
                        pointer_x: 0,
                        pointer_y: 0,
                        last_time: 0,
                    },
                )
            },
            None => None,
        }
    }

    /// The pointer moved to (`x`, `y`) at `time` during the drag.
    pub fn drag_motion(&mut self, drag: &mut Drag, time: u64, x: i32, y: i32, out: &mut Vec<Request>)
        requires
            old(self).wf(),
        ensures
            final(self).wf(),
            *final(drag) == old(drag).after(time),
            final(self).view(final(out)@) == old(self).view(old(out)@).dragged(*old(drag), time, x, y),
    {
        if time >= drag.last_time && time - drag.last_time < DRAG_INTERVAL {
            return ;
        }
        drag.last_time = time;
        let border: i64 = self.config.border_width as i64;
        if let Some(i) = find_client(&self.clients, drag.window) {
            if !self.clients[i].is_floating() {
                return ;
            }
            match drag.kind {
                DragKind::Move => {
                    let nx: i64 = drag.origin.x as i64 + x as i64 - drag.pointer_x as i64;
                    let ny: i64 = drag.origin.y as i64 + y as i64 - drag.pointer_y as i64;
                    if i32::MIN as i64 <= nx && nx <= i32::MAX as i64 && i32::MIN as i64 <= ny && ny
                        <= i32::MAX as i64 {
                        self.clients[i].move_window(nx as i32, ny as i32, true, out);
                        assert(out@ =~= old(out)@ + seq![
                            Request::Move { window: drag.window, x: nx as i32, y: ny as i32 },
                        ]);
                    }
                },
                DragKind::Resize => {
                    let mut nw: i64 = x as i64 - 2 * border - drag.origin.x as i64 + 1;
                    let mut nh: i64 = y as i64 - 2 * border - drag.origin.y as i64 + 1;
                    if nw < 1 {
                        nw = 1;
                    }
                    if nh < 1 {
                        nh = 1;
                    }
                    if nw <= i32::MAX as i64 && nh <= i32::MAX as i64 {
                        let rect = Rect::new(drag.origin.x, drag.origin.y, nw as i32, nh as i32);
                        self.clients[i].resize(rect, false, out);
                        assert(out@ =~= old(out)@ + seq![
                            Request::Configure { window: drag.window, rect },
                        ]);
                    }
                },
            }
        }
    }

    /// Ends the drag. The pointer is released by the owner of the display.
    pub fn drag_end(&self, drag: &Drag, out: &mut Vec<Request>)
        ensures
            self.view(final(out)@) == self.view(old(out)@).drag_ended(*drag),
    {
        match drag.kind {
            DragKind::Move => {},
            DragKind::Resize => {
                self.warp_pointer(drag.window, out);
            },
        }
    }

    /// Does what the event asks for. The result says which drag of the
    /// pointer begins, if any.
    pub fn handle_event(&mut self, event: Event, out: &mut Vec<Request>) -> (drag: Option<DragKind>)
        requires
            old(self).wf(),
        ensures
            final(self).wf(),
            match event {
                Event::ButtonPress { window, button, state } => final(self).view(final(out)@) == old(self).view(old(out)@).button_pressed(window) && drag == final(self).view(
                    final(out)@,
                ).drag_begun(window, button, state),
                Event::ClientMessage { window, message_type, l0, l1, l2 } => final(self).view(
                    final(out)@,
                ) == old(self).view(old(out)@).client_message(window, message_type, l0, l1, l2),
                Event::ConfigureRequest { request } => final(self).view(final(out)@) == old(self).view(old(out)@).configure_requested(request),
                Event::ConfigureNotify { window, width, height } => final(self).view(final(out)@)
                    == old(self).view(old(out)@).configure_notified(window, width, height),
                Event::DestroyNotify { window } => final(self).view(final(out)@) == old(self).view(
                    old(out)@,
                ).destroy_notified(window),
                Event::FocusIn { window } => final(self).view(final(out)@) == old(self).view(
                    old(out)@,
                ).focus_in(window),
                Event::KeyPress { keysym, state } => final(self).view(final(out)@) == old(self).view(
                    old(out)@,
                ).key_pressed(keysym, state),
                Event::MappingNotify { mapping } => final(self).view(final(out)@) == old(self).view(
                    old(out)@,
                ).mapping_notified(mapping),
                Event::MapRequest { info: Some(info) } => if old(self).view(old(out)@).manages(
                    info.window,
                ) {
                    final(self).view(final(out)@) == old(self).view(old(out)@)
                } else {
                    exists|made: ClientW| #[trigger]
                        old(self).view(old(out)@).makes(info, made) && final(self).view(final(out)@)
                            == old(self).view(old(out)@).window_managed(info, made)
                },
                Event::PropertyNotify {
                    window,
                    atom,
                    net_name,
                    name,
                    window_state,
                    window_type,
                } => final(self).view(final(out)@) == old(self).view(old(out)@).property_notified(
                    window,
                    atom,
                    final(self).title_of(window),
                    window_state,
                    window_type,
                ),
                Event::UnmapNotify { window, send_event } => final(self).view(final(out)@) == old(self).view(old(out)@).unmap_notified(window, send_event),
                _ => final(self).view(final(out)@) == old(self).view(old(out)@),
            },
            !(event is ButtonPress) ==> drag is None,
    {
        match event {
            Event::ButtonPress { window, button, state } => {
                return self.on_button_press(window, button, state, out);
            },
            Event::ClientMessage { window, message_type, l0, l1, l2 } => {
                self.on_client_message(window, message_type, l0, l1, l2, out);
            },
            Event::ConfigureRequest { request } => {
                self.on_configure_request(request, out);
            },
            Event::ConfigureNotify { window, width, height } => {
                self.on_configure_notify(window, width, height, out);
            },
            Event::DestroyNotify { window } => {
                self.on_destroy_notify(window, out);
            },
            Event::EnterNotify => {
                self.on_enter_notify();
            },
            Event::Expose => {
                self.on_expose_notify();
            },
            Event::FocusIn { window } => {
                self.on_focus_in(window, out);
            },
            Event::KeyPress { keysym, state } => {
                self.on_key_press(keysym, state, out);
            },
            Event::MappingNotify { mapping } => {
                self.on_mapping_notify(mapping, out);
            },
            Event::MapRequest { info } => {
                if let Some(new_window) = info {
                    self.on_map_request(new_window, out);
                }
            },
            Event::MotionNotify => {
                self.on_motion_notify();
            },
            Event::PropertyNotify { window, atom, net_name, name, window_state, window_type } => {
                self.on_property_notify(window, atom, net_name, name, window_state, window_type, out);
            },
            Event::UnmapNotify { window, send_event } => {
                self.on_unmap_notify(window, send_event, out);
            },
        }
        None
    }
}

/// What a window manager does with the events of the display. Each
/// operation keeps the manager sound.
pub trait XWindowManager {
    /// What every operation keeps.
    spec fn sound(&self) -> bool;

    fn on_button_press(&mut self, window: u64, button: u32, state: u32, out: &mut Vec<Request>) -> (drag:
        Option<DragKind>)
        requires
            old(self).sound(),
        ensures
            final(self).sound(),
    ;

    fn on_client_message(
        &mut self,
        window: u64,
        message_type: u64,
        l0: i64,
        l1: i64,
        l2: i64,
        out: &mut Vec<Request>,
    )
        requires
            old(self).sound(),
        ensures
            final(self).sound(),
    ;

    fn on_configure_request(&mut self, request: ConfigureRequest, out: &mut Vec<Request>)
        requires
            old(self).sound(),
        ensures
            final(self).sound(),
    ;

    fn on_configure_notify(&mut self, window: u64, width: i32, height: i32, out: &mut Vec<Request>)
        requires
            old(self).sound(),
        ensures
            final(self).sound(),
    ;

    fn on_destroy_notify(&mut self, window: u64, out: &mut Vec<Request>)
        requires
            old(self).sound(),
        ensures
            final(self).sound(),
    ;

    fn on_enter_notify(&self);

    fn on_expose_notify(&self);

    fn on_focus_in(&mut self, window: u64, out: &mut Vec<Request>)
        requires
            old(self).sound(),
        ensures
            final(self).sound(),
    ;

    fn on_key_press(&mut self, keysym: u32, state: u32, out: &mut Vec<Request>)
        requires
            old(self).sound(),
        ensures
            final(self).sound(),
    ;

    fn on_mapping_notify(&self, request: i32, out: &mut Vec<Request>);

    fn on_map_request(&mut self, info: NewWindow, out: &mut Vec<Request>)
        requires
            old(self).sound(),
        ensures
            final(self).sound(),
    ;

    fn on_motion_notify(&self);

    fn on_property_notify(
        &mut self,
        window: u64,
        atom: u64,
        net_name: Option<String>,
        name: Option<String>,
        state: Option<u64>,
        window_type: Option<u64>,
        out: &mut Vec<Request>,
    )
        requires
            old(self).sound(),
        ensures
            final(self).sound(),
    ;

    fn on_unmap_notify(&mut self, window: u64, send_event: bool, out: &mut Vec<Request>)
        requires
            old(self).sound(),
        ensures
            final(self).sound(),
    ;
}

impl XWindowManager for WindowManager {
    open spec fn sound(&self) -> bool {
        self.wf()
    }

    fn on_button_press(&mut self, window: u64, button: u32, state: u32, out: &mut Vec<Request>) -> (drag:
        Option<DragKind>)
        ensures
            final(self).view(final(out)@) == old(self).view(old(out)@).button_pressed(window),
            drag == final(self).view(final(out)@).drag_begun(window, button, state),
    {
        WindowManager::on_button_press(self, window, button, state, out)
    }

    fn on_client_message(
        &mut self,
        window: u64,
        message_type: u64,
        l0: i64,
        l1: i64,
        l2: i64,
        out: &mut Vec<Request>,
    )
        ensures
            final(self).view(final(out)@) == old(self).view(old(out)@).client_message(
                window,
                message_type,
                l0,
                l1,
                l2,
            ),
    {
        WindowManager::on_client_message(self, window, message_type, l0, l1, l2, out)
    }

    fn on_configure_request(&mut self, request: ConfigureRequest, out: &mut Vec<Request>)
        ensures
            final(self).view(final(out)@) == old(self).view(old(out)@).configure_requested(request),
    {
        WindowManager::on_configure_request(self, request, out)
    }

    fn on_configure_notify(&mut self, window: u64, width: i32, height: i32, out: &mut Vec<Request>)
        ensures
            final(self).view(final(out)@) == old(self).view(old(out)@).configure_notified(
                window,
                width,
                height,
            ),
    {
        WindowManager::on_configure_notify(self, window, width, height, out)
    }

    fn on_destroy_notify(&mut self, window: u64, out: &mut Vec<Request>)
        ensures
            final(self).view(final(out)@) == old(self).view(old(out)@).destroy_notified(window),
    {
        WindowManager::on_destroy_notify(self, window, out)
    }

    fn on_enter_notify(&self) {
        WindowManager::on_enter_notify(self)
    }

    fn on_expose_notify(&self) {
        WindowManager::on_expose_notify(self)
    }

    fn on_focus_in(&mut self, window: u64, out: &mut Vec<Request>)
        ensures
            final(self).view(final(out)@) == old(self).view(old(out)@).focus_in(window),
    {
        WindowManager::on_focus_in(self, window, out)
    }

    fn on_key_press(&mut self, keysym: u32, state: u32, out: &mut Vec<Request>)
        ensures
            final(self).view(final(out)@) == old(self).view(old(out)@).key_pressed(keysym, state),
    {
        WindowManager::on_key_press(self, keysym, state, out)
    }

    fn on_mapping_notify(&self, request: i32, out: &mut Vec<Request>)
        ensures
            self.view(final(out)@) == self.view(old(out)@).mapping_notified(request),
    {
        WindowManager::on_mapping_notify(self, request, out)
    }

    fn on_map_request(&mut self, info: NewWindow, out: &mut Vec<Request>)
        ensures
            old(self).view(old(out)@).manages(info.window) ==> final(self).view(final(out)@) == old(self).view(old(out)@),
            !old(self).view(old(out)@).manages(info.window) ==> exists|made: ClientW| #[trigger]
                old(self).view(old(out)@).makes(info, made) && final(self).view(final(out)@) == old(self).view(old(out)@).window_managed(info, made),
    {
        WindowManager::on_map_request(self, info, out)
    }

    fn on_motion_notify(&self) {
        WindowManager::on_motion_notify(self)
    }

    fn on_property_notify(
        &mut self,
        window: u64,
        atom: u64,
        net_name: Option<String>,
        name: Option<String>,
        state: Option<u64>,
        window_type: Option<u64>,
        out: &mut Vec<Request>,
    )
        ensures
            final(self).view(final(out)@) == old(self).view(old(out)@).property_notified(
                window,
                atom,
                final(self).title_of(window),
                state,
                window_type,
            ),
    {
        WindowManager::on_property_notify(self, window, atom, net_name, name, state, window_type, out)
    }

    fn on_unmap_notify(&mut self, window: u64, send_event: bool, out: &mut Vec<Request>)
        ensures
            final(self).view(final(out)@) == old(self).view(old(out)@).unmap_notified(
                window,
                send_event,
            ),
    {
        WindowManager::on_unmap_notify(self, window, send_event, out)
    }
}

} // verus!
