//! The record of one managed window, and what the manager does to it.

use vstd::prelude::*;
use vstd::string::*;
use crate::display::{Protocol, Request, WindowState};
pub use crate::rect::Rect;

verus! {

/// What the manager knows of one window.
pub struct Client {
    pub anchor_window: u64,
    pub tag: u8,
    pub title: String,
    pub root: u64,
    pub class: String,
    pub was_floating: bool,
    pub is_floating: bool,
    pub is_sticky: bool,
    pub is_dialog: bool,
    pub is_maximized: bool,
    pub is_fullscreen: bool,
    pub is_dock: bool,
    pub is_above: bool,
    pub normal_border_color: u64,
    pub focused_border_color: u64,
    pub window: u64,
    pub old_rect: Rect,
    pub rect: Rect,
    pub border: i32,
    pub old_border: i32,
    pub weight: i32,
    pub extras: Vec<(String, String)>,
}

/// The value that the extras hold for the key: that of the first entry with that key.
pub open spec fn lookup(extras: Seq<(String, String)>, key: Seq<char>) -> Option<Seq<char>>
    decreases extras.len(),
{
    if extras.len() == 0 {
        None
    } else if extras[0].0@ == key {
        Some(extras[0].1@)
    } else {
        lookup(extras.skip(1), key)
    }
}

/// The first entry with the key decides, wherever it stands.
pub proof fn lemma_lookup(extras: Seq<(String, String)>, key: Seq<char>, i: int)
    requires
        0 <= i <= extras.len(),
        forall|j: int| 0 <= j < i ==> extras[j].0@ != key,
    ensures
        i < extras.len() && extras[i].0@ == key ==> lookup(extras, key) == Some(extras[i].1@),
        i == extras.len() ==> lookup(extras, key) is None,
        lookup(extras, key) == lookup(extras.skip(i), key),
    decreases i,
{
    if i > 0 {
        let rest = extras.skip(1);
        assert(extras[0].0@ != key);
        assert forall|j: int| 0 <= j < i - 1 implies rest[j].0@ != key by {
            assert(rest[j] == extras[j + 1]);
        }
        lemma_lookup(rest, key, i - 1);
        assert(rest.skip(i - 1) =~= extras.skip(i));
        if i < extras.len() {
            assert(rest[i - 1] == extras[i]);
        }
    } else {
        assert(extras.skip(0) =~= extras);
    }
}

impl Client {
    /// A client as it is when its window first shows up: on `tag`, tiled,
    /// not placed, with the class that the window announces.
    pub open spec fn fresh(
        self,
        root: u64,
        window: u64,
        anchor_window: u64,
        tag: u8,
        class: Option<String>,
    ) -> bool {
        &&& self.anchor_window == anchor_window
        &&& self.root == root
        &&& self.window == window
        &&& self.tag == tag
        &&& self.title@ == "broken"@
        &&& self.class@ == match class {
            Some(c) => c@,
            None => "broken"@,
        }
        &&& !self.was_floating && !self.is_floating && !self.is_dialog && !self.is_sticky
        &&& !self.is_maximized && !self.is_fullscreen && !self.is_dock && !self.is_above
        &&& self.focused_border_color == 0 && self.normal_border_color == 0
        &&& self.old_rect == Rect::unplaced() && self.rect == Rect::unplaced()
        &&& self.border == 0 && self.old_border == 0
        &&& self.weight == -1
        &&& self.extras@.len() == 0
    }

    /// `class` is the class hint of the window, if it has one.
    pub fn new(root: u64, window: u64, anchor_window: u64, tag: u8, class: Option<String>) -> (c:
        Client)
        ensures
            c.fresh(root, window, anchor_window, tag, class),
    {
        let class_name = match class {
            Some(name) => name,
            None => String::from_str("broken"),
        };
        Client {
            anchor_window,
            root,
            window,
            tag,
            title: String::from_str("broken"),
            class: class_name,
            was_floating: false,
            is_floating: false,
            is_dialog: false,
            is_sticky: false,
            is_maximized: false,
            is_fullscreen: false,
            is_dock: false,
            is_above: false,
            focused_border_color: 0,
            normal_border_color: 0,
            old_rect: Rect::default(),
            rect: Rect::default(),
            border: 0,
            old_border: 0,
            weight: -1,
            extras: Vec::new(),
        }
    }

    /// The client with its present geometry remembered as the one to go back to.
    pub open spec fn saved(self) -> Client {
        Client { old_rect: self.rect, ..self }
    }

    pub open spec fn sized(self, rect: Rect) -> Client {
        Client { rect, ..self }
    }

    pub fn save_window_size(&mut self)
        ensures
            *final(self) == old(self).saved(),
    {
        self.old_rect = self.rect;
    }

    pub fn set_size(&mut self, x: i32, y: i32, width: i32, height: i32)
        ensures
            *final(self) == old(self).sized(Rect { x, y, width, height }),
    {
        self.rect = Rect { x, y, width, height };
    }
}

impl Default for Client {
    /// The record of no window in particular: as a new one, with 0 for
    /// every handle and the tag.
    fn default() -> (c: Client)
        ensures
            c.fresh(0, 0, 0, 0, None),
    {
        Client::new(0, 0, 0, 0, None)
    }
}

/// Two lists that agree on every entry with the key hold the same value for it.
pub proof fn lemma_lookup_agrees(a: Seq<(String, String)>, b: Seq<(String, String)>, key: Seq<char>)
    requires
        a.len() == b.len(),
        forall|j: int| 0 <= j < a.len() ==> (a[j].0@ == key <==> b[j].0@ == key),
        forall|j: int| 0 <= j < a.len() && a[j].0@ == key ==> a[j].1@ == b[j].1@,
    ensures
        lookup(a, key) == lookup(b, key),
    decreases a.len(),
{
    if a.len() > 0 && a[0].0@ != key {
        let ra = a.skip(1);
        let rb = b.skip(1);
        assert forall|j: int| 0 <= j < ra.len() implies (ra[j].0@ == key <==> rb[j].0@ == key) && (
        ra[j].0@ == key ==> ra[j].1@ == rb[j].1@) by {
            assert(ra[j] == a[j + 1]);
            assert(rb[j] == b[j + 1]);
        }
        lemma_lookup_agrees(ra, rb, key);
    }
}

/// An entry added at the end changes nothing for another key.
pub proof fn lemma_lookup_push(a: Seq<(String, String)>, entry: (String, String), key: Seq<char>)
    requires
        entry.0@ != key,
    ensures
        lookup(a.push(entry), key) == lookup(a, key),
    decreases a.len(),
{
    let b = a.push(entry);
    if a.len() > 0 {
        assert(b.skip(1) =~= a.skip(1).push(entry));
        assert(b[0] == a[0]);
        lemma_lookup_push(a.skip(1), entry, key);
    } else {
        assert(b[0] == entry);
        assert(b.skip(1).len() == 0);
        assert(lookup(b.skip(1), key) is None);
    }
}

/// A managed client: the record, and the operations that the workspaces
/// and the manager use on it. Operations that show on the screen add their
/// requests to `out`.
pub struct ClientW(pub Client);

pub type ClientL = Vec<ClientW>;

impl ClientW {
    pub open spec fn with_title(self, title: String) -> ClientW {
        ClientW(Client { title, ..self.0 })
    }

    pub open spec fn with_extras(self, extras: Vec<(String, String)>) -> ClientW {
        ClientW(Client { extras, ..self.0 })
    }

    pub open spec fn with_tag(self, tag: u8) -> ClientW {
        ClientW(Client { tag, ..self.0 })
    }

    /// The floating flag changes, and the flag as it was is remembered.
    pub open spec fn with_floating(self, floating: bool) -> ClientW {
        ClientW(Client { was_floating: self.0.is_floating, is_floating: floating, ..self.0 })
    }

    pub open spec fn with_sticky(self, sticky: bool) -> ClientW {
        ClientW(Client { is_sticky: sticky, ..self.0 })
    }

    pub open spec fn with_dock(self, dock: bool) -> ClientW {
        ClientW(Client { is_dock: dock, ..self.0 })
    }

    pub open spec fn with_above(self, above: bool) -> ClientW {
        ClientW(Client { is_above: above, ..self.0 })
    }

    pub open spec fn with_maximized(self, maximized: bool) -> ClientW {
        ClientW(Client { is_maximized: maximized, ..self.0 })
    }

    pub open spec fn with_border_color(self, normal: u64, focused: u64) -> ClientW {
        ClientW(Client { normal_border_color: normal, focused_border_color: focused, ..self.0 })
    }

    /// A resize that is not temporary remembers the geometry that it
    /// replaces; a temporary one leaves the record as it is.
    pub open spec fn resized(self, rect: Rect, temporary: bool) -> ClientW {
        if temporary {
            self
        } else {
            ClientW(Client { old_rect: self.0.rect, rect, ..self.0 })
        }
    }

    /// A move that is saved remembers the geometry that it replaces.
    pub open spec fn moved(self, x: i32, y: i32, save: bool) -> ClientW {
        if save {
            ClientW(
                Client {
                    old_rect: self.0.rect,
                    rect: Rect { x, y, ..self.0.rect },
                    ..self.0
                },
            )
        } else {
            self
        }
    }

    /// The geometry one unit wider.
    pub open spec fn wider(self) -> Rect
        recommends
            self.0.rect.width < i32::MAX,
    {
        Rect { width: (self.0.rect.width + 1) as i32, ..self.0.rect }
    }

    /// The record after the window was made one unit wider and then as wide as before.
    pub open spec fn nudged(self) -> ClientW {
        self.resized(self.wider(), false).resized(self.0.rect, false)
    }

    /// Entering fullscreen makes the client floating and gives it `rect`;
    /// leaving it brings back the floating flag and the geometry that
    /// were remembered.
    pub open spec fn with_fullscreen(self, rect: Rect, fullscreen: bool) -> ClientW {
        if fullscreen {
            ClientW(Client { is_fullscreen: true, ..self.0 }).with_floating(true).resized(
                rect,
                false,
            )
        } else {
            let back = self.with_floating(self.0.was_floating);
            ClientW(Client { is_fullscreen: false, ..back.0 }).resized(self.0.old_rect, false)
        }
    }

    /// What the display is asked when the client enters or leaves fullscreen.
    pub open spec fn fullscreen_requests(self, rect: Rect, fullscreen: bool) -> Seq<Request> {
        let window = self.0.window;
        if fullscreen {
            seq![
                Request::Fullscreen { window, fullscreen: true },
                Request::Configure { window, rect },
                Request::Raise { window },
            ]
        } else {
            seq![
                Request::Fullscreen { window, fullscreen: false },
                Request::Configure { window, rect: self.0.old_rect },
            ]
        }
    }

    /// Where the window is put to hide it: far to the left of the screen.
    pub open spec fn hidden_x(self) -> int {
        -10 * self.0.rect.width
    }

    /// Whether `show` can be carried out in 32-bit coordinates.
    pub open spec fn can_show(self, visible: bool) -> bool {
        if visible {
            self.0.rect.width < i32::MAX
        } else {
            i32::MIN <= self.hidden_x() <= i32::MAX
        }
    }

    pub open spec fn shown(self, visible: bool) -> ClientW {
        if visible {
            self.nudged()
        } else {
            self
        }
    }

    /// What the display is asked when the client is shown or hidden.
    pub open spec fn show_requests(self, visible: bool) -> Seq<Request> {
        let window = self.0.window;
        let rect = self.0.rect;
        if visible {
            seq![
                Request::Move { window, x: rect.x, y: rect.y },
                Request::Configure { window, rect: self.wider() },
                Request::Configure { window, rect },
            ]
        } else {
            seq![Request::Move { window, x: self.hidden_x() as i32, y: rect.y }]
        }
    }

    /// `class` is the class hint of the window, if it has one.
    pub fn new(root: u64, window: u64, anchor_window: u64, tag: u8, class: Option<String>) -> (c:
        ClientW)
        ensures
            c.0.fresh(root, window, anchor_window, tag, class),
    {
        ClientW(Client::new(root, window, anchor_window, tag, class))
    }

    pub fn borrow(&self) -> (c: &Client)
        ensures
            *c == self.0,
    {
        &self.0
    }

    pub fn borrow_mut(&mut self) -> (c: &mut Client)
        ensures
            *c == old(self).0,
            final(self).0 == *final(c),
    {
        &mut self.0
    }

    pub fn get_title(&self) -> (title: String)
        ensures
            title@ == self.0.title@,
    {
        self.0.title.clone()
    }

    /// The title becomes the name that the window publishes: `net_name`
    /// if it has one, else `name`, else "Unknown".
    pub fn update_title(&mut self, net_name: Option<String>, name: Option<String>)
        ensures
            *final(self) == old(self).with_title(final(self).0.title),
            final(self).0.title@ == match net_name {
                Some(t) => t@,
                None => match name {
                    Some(t) => t@,
                    None => "Unknown"@,
                },
            },
    {
        self.0.title = match net_name {
            Some(t) => t,
            None => match name {
                Some(t) => t,
                None => String::from_str("Unknown"),
            },
        };
    }

    pub fn get_class(&self) -> (class: String)
        ensures
            class@ == self.0.class@,
    {
        self.0.class.clone()
    }

    pub fn is_fullscreen(&self) -> (b: bool)
        ensures
            b == self.0.is_fullscreen,
    {
        self.0.is_fullscreen
    }

    pub fn is_floating(&self) -> (b: bool)
        ensures
            b == self.0.is_floating,
    {
        self.0.is_floating
    }

    pub fn is_above(&self) -> (b: bool)
        ensures
            b == self.0.is_above,
    {
        self.0.is_above
    }

    pub fn is_sticky(&self) -> (b: bool)
        ensures
            b == self.0.is_sticky,
    {
        self.0.is_sticky
    }

    pub fn is_dock(&self) -> (b: bool)
        ensures
            b == self.0.is_dock,
    {
        self.0.is_dock
    }

    /// Whether the window is a dialog: `window_type` is the type that the
    /// window publishes now, `dialog` the type that dialogs publish.
    pub fn is_dialog(&self, window_type: Option<u64>, dialog: u64) -> (b: bool)
        ensures
            b == (window_type == Some(dialog)),
    {
        match window_type {
            Some(atom) => atom == dialog,
            None => false,
        }
    }

    pub fn is_maximized(&self) -> (b: bool)
        ensures
            b == self.0.is_maximized,
    {
        self.0.is_maximized
    }

    pub fn get_extra(&self, key: &str) -> (value: Option<String>)
        ensures
            match value {
                Some(v) => lookup(self.0.extras@, key@) == Some(v@),
                None => lookup(self.0.extras@, key@) is None,
            },
    {
        let wanted = String::from_str(key);
        let mut i: usize = 0;
        while i < self.0.extras.len()
            invariant
                i <= self.0.extras@.len(),
                wanted@ == key@,
                forall|j: int| 0 <= j < i ==> self.0.extras@[j].0@ != key@,
            decreases self.0.extras@.len() - i,
        {
            if self.0.extras[i].0 == wanted {
                proof {
                    lemma_lookup(self.0.extras@, key@, i as int);
                }
                return Some(self.0.extras[i].1.clone());
            }
            i += 1;
        }
        proof {
            lemma_lookup(self.0.extras@, key@, i as int);
        }
        None
    }

    /// The key holds the value from now on; every other key holds what it held.
    pub fn put_extra(&mut self, key: String, val: String)
        ensures
            *final(self) == old(self).with_extras(final(self).0.extras),
            lookup(final(self).0.extras@, key@) == Some(val@),
            forall|other: Seq<char>|
                other != key@ ==> lookup(final(self).0.extras@, other) == lookup(
                    old(self).0.extras@,
                    other,
                ),
    {
        let ghost before = self.0.extras@;
        let mut i: usize = 0;
        while i < self.0.extras.len()
            invariant
                i <= self.0.extras@.len(),
                self.0.extras@ == before,
                *self == *old(self),
                forall|j: int| 0 <= j < i ==> self.0.extras@[j].0@ != key@,
            decreases self.0.extras@.len() - i,
        {
            if self.0.extras[i].0 == key {
                self.0.extras.set(i, (key, val));
                proof {
                    let after = self.0.extras@;
                    lemma_lookup(after, key@, i as int);
                    assert forall|other: Seq<char>| other != key@ implies lookup(after, other)
                        == lookup(before, other) by {
                        lemma_lookup_agrees(after, before, other);
                    }
                }
                return ;
            }
            i += 1;
        }
        self.0.extras.push((key, val));
        proof {
            let after = self.0.extras@;
            lemma_lookup(after, key@, i as int);
            assert forall|other: Seq<char>| other != key@ implies lookup(after, other) == lookup(
                before,
                other,
            ) by {
                lemma_lookup_push(before, (key, val), other);
            }
        }
    }

    pub fn set_tag(&mut self, tag: u8)
        ensures
            *final(self) == old(self).with_tag(tag),
    {
        self.0.tag = tag;
    }

    pub fn set_floating(&mut self, floating: bool)
        ensures
            *final(self) == old(self).with_floating(floating),
    {
        let was_floating = self.0.is_floating;
        self.0.was_floating = was_floating;
        self.0.is_floating = floating;
    }

    pub fn set_sticky(&mut self, sticky: bool)
        ensures
            *final(self) == old(self).with_sticky(sticky),
    {
        self.0.is_sticky = sticky;
    }

    pub fn set_dock(&mut self, dock: bool)
        ensures
            *final(self) == old(self).with_dock(dock),
    {
        self.0.is_dock = dock;
    }

    pub fn set_above(&mut self, above: bool)
        ensures
            *final(self) == old(self).with_above(above),
    {
        self.0.is_above = above;
    }

    pub fn set_maximized(&mut self, maximized: bool)
        ensures
            *final(self) == old(self).with_maximized(maximized),
    {
        self.0.is_maximized = maximized;
    }

    pub fn set_fullscreen(&mut self, rect: Rect, fullscreen: bool, out: &mut Vec<Request>)
        ensures
            *final(self) == old(self).with_fullscreen(rect, fullscreen),
            final(out)@ == old(out)@ + old(self).fullscreen_requests(rect, fullscreen),
    {
        let window = self.0.window;
        if fullscreen {
            out.push(Request::Fullscreen { window, fullscreen: true });
            self.0.is_fullscreen = true;
            self.set_floating(true);
            self.resize(rect, false, out);
            self.raise_window(out);
        } else {
            out.push(Request::Fullscreen { window, fullscreen: false });
            let was_floating = self.0.was_floating;
            self.set_floating(was_floating);
            self.0.is_fullscreen = false;
            let old_rect = self.0.old_rect;
            self.resize(old_rect, false, out);
        }
        assert(out@ =~= old(out)@ + old(self).fullscreen_requests(rect, fullscreen));
    }

    pub fn tag(&self) -> (tag: u8)
        ensures
            tag == self.0.tag,
    {
        self.0.tag
    }

    pub fn window(&self) -> (window: u64)
        ensures
            window == self.0.window,
    {
        self.0.window
    }

    /// Whether `show` can be carried out in 32-bit coordinates.
    pub fn check_show(&self, visible: bool) -> (b: bool)
        ensures
            b == self.can_show(visible),
    {
        if visible {
            self.0.rect.width < i32::MAX
        } else {
            let width: i64 = self.0.rect.width as i64;
            let x: i64 = 0 - 10 * width;
            i32::MIN as i64 <= x && x <= i32::MAX as i64
        }
    }

    /// A visible client is moved to its place and nudged, so that it draws
    /// itself again. A hidden one is moved off the screen and stays mapped.
    pub fn show(&mut self, visible: bool, out: &mut Vec<Request>)
        requires
            old(self).can_show(visible),
        ensures
            *final(self) == old(self).shown(visible),
            final(out)@ == old(out)@ + old(self).show_requests(visible),
    {
        let rect = self.get_rect();
        if visible {
            self.move_window(rect.x, rect.y, false, out);
            self.invalidate(out);
        } else {
            self.move_window(-10 * rect.width, rect.y, false, out);
        }
        assert(out@ =~= old(out)@ + old(self).show_requests(visible));
    }

    pub fn get_rect(&self) -> (rect: Rect)
        ensures
            rect == self.0.rect,
    {
        self.0.rect
    }

    pub fn move_window(&mut self, x: i32, y: i32, save: bool, out: &mut Vec<Request>)
        ensures
            *final(self) == old(self).moved(x, y, save),
            final(out)@ == old(out)@.push(Request::Move { window: old(self).0.window, x, y }),
    {
        if save {
            self.0.save_window_size();
            self.0.rect.x = x;
            self.0.rect.y = y;
        }
        out.push(Request::Move { window: self.0.window, x, y });
    }

    /// Makes the window one unit wider and then as wide as it was, for the
    /// clients that draw themselves only when their size changes.
    pub fn invalidate(&mut self, out: &mut Vec<Request>)
        requires
            old(self).0.rect.width < i32::MAX,
        ensures
            *final(self) == old(self).nudged(),
            final(out)@ == old(out)@ + seq![
                Request::Configure { window: old(self).0.window, rect: old(self).wider() },
                Request::Configure { window: old(self).0.window, rect: old(self).0.rect },
            ],
    {
        let mut rect = self.get_rect();
        rect.width = rect.width + 1;
        self.resize(rect, false, out);
        rect.width = rect.width - 1;
        self.resize(rect, false, out);
        assert(out@ =~= old(out)@ + seq![
            Request::Configure { window: old(self).0.window, rect: old(self).wider() },
            Request::Configure { window: old(self).0.window, rect: old(self).0.rect },
        ]);
    }

    pub fn resize(&mut self, rect: Rect, temporary: bool, out: &mut Vec<Request>)
        ensures
            *final(self) == old(self).resized(rect, temporary),
            final(out)@ == old(out)@.push(Request::Configure { window: old(self).0.window, rect }),
    {
        if !temporary {
            self.0.save_window_size();
            self.0.set_size(rect.x, rect.y, rect.width, rect.height);
        }
        out.push(Request::Configure { window: self.0.window, rect });
    }

    pub fn configure(&self, out: &mut Vec<Request>)
        ensures
            final(out)@ == old(out)@.push(
                Request::Notify { window: self.0.window, rect: self.0.rect, border: self.0.border },
            ),
    {
        out.push(
            Request::Notify { window: self.0.window, rect: self.0.rect, border: self.0.border },
        );
    }

    pub fn set_state(&self, state: WindowState, out: &mut Vec<Request>)
        ensures
            final(out)@ == old(out)@.push(Request::State { window: self.0.window, state }),
    {
        out.push(Request::State { window: self.0.window, state });
    }

    pub fn send_event(&self, proto: Protocol, out: &mut Vec<Request>)
        ensures
            final(out)@ == old(out)@.push(Request::Send { window: self.0.window, protocol: proto }),
    {
        out.push(Request::Send { window: self.0.window, protocol: proto });
    }

    pub fn raise_window(&self, out: &mut Vec<Request>)
        ensures
            final(out)@ == old(out)@.push(Request::Raise { window: self.0.window }),
    {
        out.push(Request::Raise { window: self.0.window });
    }

    pub fn lower_window(&self, out: &mut Vec<Request>)
        ensures
            final(out)@ == old(out)@.push(Request::Lower { window: self.0.window }),
    {
        out.push(Request::Lower { window: self.0.window });
    }

    pub fn set_border_color(&mut self, normal: u64, focused: u64)
        ensures
            *final(self) == old(self).with_border_color(normal, focused),
    {
        self.0.focused_border_color = focused;
        self.0.normal_border_color = normal;
    }

    pub fn grab_buttons(&self, focused: bool, out: &mut Vec<Request>)
        ensures
            final(out)@ == old(out)@.push(Request::GrabButtons { window: self.0.window, focused }),
    {
        out.push(Request::GrabButtons { window: self.0.window, focused });
    }

    pub fn focus(&self, focus: bool, out: &mut Vec<Request>)
        ensures
            final(out)@ == old(out)@.push(Request::Focus { window: self.0.window, focused: focus }),
    {
        out.push(Request::Focus { window: self.0.window, focused: focus });
    }
}

/// Entering fullscreen and leaving it again brings back the floating flag
/// and the geometry that the client had before, whatever rectangles the
/// two calls were given.
pub proof fn lemma_fullscreen_restores(client: ClientW, on: Rect, off: Rect)
    ensures
        client.with_fullscreen(on, true).with_fullscreen(off, false).0.is_floating
            == client.0.is_floating,
        client.with_fullscreen(on, true).with_fullscreen(off, false).0.rect == client.0.rect,
        !client.with_fullscreen(on, true).with_fullscreen(off, false).0.is_fullscreen,
{
}

/// A choice among the clients of a workspace.
#[derive(Clone, Copy, Debug, PartialEq, Eq, Structural)]
pub enum ClientFilter {
    /// The clients that float.
    Floating,
    /// The clients that do not float.
    Tiled,
    /// The clients that follow every change of tag.
    Sticky,
    /// The clients that stay on their tag.
    Settled,
    /// Every client.
    All,
}

impl ClientFilter {
    pub open spec fn accepts(self, client: ClientW) -> bool {
        match self {
            ClientFilter::Floating => client.0.is_floating,
            ClientFilter::Tiled => !client.0.is_floating,
            ClientFilter::Sticky => client.0.is_sticky,
            ClientFilter::Settled => !client.0.is_sticky,
            ClientFilter::All => true,
        }
    }

    pub fn test(&self, client: &ClientW) -> (b: bool)
        ensures
            b == self.accepts(*client),
    {
        match self {
            ClientFilter::Floating => client.is_floating(),
            ClientFilter::Tiled => !client.is_floating(),
            ClientFilter::Sticky => client.is_sticky(),
            ClientFilter::Settled => !client.is_sticky(),
            ClientFilter::All => true,
        }
    }
}

} // verus!
