//! The manager as a mathematical value, and what each of its operations
//! makes of it. The operations of `WindowManager` are proved to do exactly
//! what is written here.

use vstd::prelude::*;
use crate::atoms::AtomTable;
use crate::client::{ClientFilter, ClientW};
use crate::config::{
    ClientAction, ClientChange, ClientPredicate, Config, KeyBinding, WmAction, TAG_OVERVIEW,
};
use crate::display::{KeyTable, Protocol, Request, WindowState};
use crate::layout::{Layout, Tile};
use crate::rect::Rect;
use crate::util::{counted_modifiers, LOCK_MASK};
use crate::ring::{position, FocusShift, Ring};
use crate::workspace::{client_of, selected, show_all, usable_area, windows, Frame};

verus! {

/// The colours of the borders, as the display has numbered them.
#[derive(Clone, Copy, Debug, PartialEq, Eq, Structural)]
pub struct Colors {
    pub normal_border_color: u64,
    pub focused_border_color: u64,
}

/// Everything that the manager holds, and the requests that it has made.
pub ghost struct State {
    pub config: Config,
    pub colors: Colors,
    pub atoms: AtomTable,
    pub root: u64,
    pub anchor_window: u64,
    /// The workspaces, apart from their clients.
    pub frames: Seq<Frame>,
    pub descriptions: Seq<Option<String>>,
    /// The focus ring of each workspace.
    pub rings: Seq<Ring>,
    /// The records of the clients that the workspaces hold.
    pub clients: Seq<ClientW>,
    /// The docks.
    pub special: Seq<ClientW>,
    pub current_tag: u8,
    /// The clients that had the focus before, the most recent one last.
    pub back: Seq<u64>,
    pub screen_width: i32,
    pub screen_height: i32,
    /// The requests to the display so far.
    pub out: Seq<Request>,
}

/// The tag of the client with the window; 0 if there is no such client.
pub open spec fn tag_of(clients: Seq<ClientW>, window: u64) -> u8 {
    match client_of(clients, window) {
        Some(c) => c.0.tag,
        None => 0,
    }
}

/// The window put into a list that is ordered by falling tag, behind
/// every window whose tag is not lower than its own.
pub open spec fn insert_by_tag(list: Seq<u64>, window: u64, clients: Seq<ClientW>) -> Seq<u64>
    decreases list.len(),
{
    if list.len() == 0 {
        seq![window]
    } else if tag_of(clients, list.last()) >= tag_of(clients, window) {
        list.push(window)
    } else {
        insert_by_tag(list.drop_last(), window, clients).push(list.last())
    }
}

/// The windows ordered by falling tag; windows of one tag keep their order.
pub open spec fn by_falling_tag(list: Seq<u64>, clients: Seq<ClientW>) -> Seq<u64>
    decreases list.len(),
{
    if list.len() == 0 {
        list
    } else {
        insert_by_tag(by_falling_tag(list.drop_last(), clients), list.last(), clients)
    }
}

/// Where `insert_by_tag` puts the window.
pub proof fn lemma_insert_by_tag_at(list: Seq<u64>, window: u64, clients: Seq<ClientW>, at: int)
    requires
        0 <= at <= list.len(),
        forall|k: int| at <= k < list.len() ==> tag_of(clients, list[k]) < tag_of(clients, window),
        at == 0 || tag_of(clients, list[at - 1]) >= tag_of(clients, window),
    ensures
        insert_by_tag(list, window, clients) == list.insert(at, window),
    decreases list.len(),
{
    if list.len() == 0 {
        assert(list.insert(at, window) =~= seq![window]);
    } else if at == list.len() {
        assert(list.insert(at, window) =~= list.push(window));
    } else {
        lemma_insert_by_tag_at(list.drop_last(), window, clients, at);
        assert(list.drop_last().insert(at, window).push(list.last()) =~= list.insert(at, window));
    }
}

/// The ring that holds the windows, each put in at the head in turn.
pub open spec fn filled(ring: Ring, list: Seq<u64>) -> Ring
    decreases list.len(),
{
    if list.len() == 0 {
        ring
    } else {
        filled(ring, list.drop_last()).insert(list.last(), false)
    }
}

/// What the display is asked while the ring is filled.
pub open spec fn fill_requests(ring: Ring, list: Seq<u64>) -> Seq<Request>
    decreases list.len(),
{
    if list.len() == 0 {
        Seq::empty()
    } else {
        fill_requests(ring, list.drop_last()) + filled(ring, list.drop_last()).insert_requests(
            list.last(),
            false,
        )
    }
}

/// The clients of the workspaces with index below `upto`, but those of the overview.
pub open spec fn gathered(frames: Seq<Frame>, rings: Seq<Ring>, upto: nat) -> Seq<u64>
    decreases upto,
{
    if upto == 0 {
        Seq::empty()
    } else {
        let i = upto - 1;
        let so_far = gathered(frames, rings, i as nat);
        if frames[i].tag == TAG_OVERVIEW {
            so_far
        } else {
            so_far + rings[i].listing()
        }
    }
}

impl State {
    pub open spec fn tags(self) -> Seq<u64> {
        self.frames.map_values(|f: Frame| f.tag as u64)
    }

    /// The index of the workspace of the tag.
    pub open spec fn index_of(self, tag: u8) -> Option<int> {
        position(self.tags(), tag as u64)
    }

    /// There is a workspace for the tag in use, one for the overview and
    /// one for the tag that new clients go to from the overview.
    pub open spec fn wf(self) -> bool {
        &&& self.rings.len() == self.frames.len()
        &&& self.descriptions.len() == self.frames.len()
        &&& self.index_of(self.current_tag) is Some
        &&& self.index_of(TAG_OVERVIEW) is Some
        &&& self.index_of(self.config.tag_default) is Some
    }

    /// The index of the workspace in use.
    pub open spec fn current(self) -> int {
        self.index_of(self.current_tag).unwrap()
    }

    /// The ring of the workspace in use.
    pub open spec fn ring(self) -> Ring {
        self.rings[self.current()]
    }

    pub open spec fn frame(self) -> Frame {
        self.frames[self.current()]
    }

    /// The client that has the focus.
    pub open spec fn focused(self) -> Option<u64> {
        self.ring().current
    }

    pub open spec fn sent(self, requests: Seq<Request>) -> State {
        State { out: self.out + requests, ..self }
    }

    pub open spec fn with_ring(self, i: int, ring: Ring) -> State {
        State { rings: self.rings.update(i, ring), ..self }
    }

    pub open spec fn with_clients(self, clients: Seq<ClientW>) -> State {
        State { clients, ..self }
    }

    /// The status bar is told that something has changed.
    pub open spec fn logged(self) -> State {
        self.sent(seq![Request::Log])
    }

    /// The clients of every workspace, but those of the overview.
    pub open spec fn all_clients(self) -> Seq<u64> {
        gathered(self.frames, self.rings, self.frames.len())
    }

    /// The published list of windows is written anew.
    pub open spec fn client_list_updated(self) -> State {
        self.sent(seq![Request::ClearClientList] + self.all_clients().map_values(
            |window: u64| Request::AppendClientList { window },
        ))
    }

    /// Whether the workspace is one that shares the monitor of the
    /// workspace in use, so that its clients have to leave the screen.
    pub open spec fn hides(self, i: int) -> bool {
        &&& self.frames[i].tag != TAG_OVERVIEW
        &&& self.frames[i].tag != self.current_tag
        &&& self.current_tag != TAG_OVERVIEW
        &&& self.frames[i].rect.x == self.frame().rect.x
        &&& self.frames[i].rect.y == self.frame().rect.y
    }

    /// The clients of the workspaces with index below `upto` that share
    /// the monitor of the workspace in use are hidden.
    pub open spec fn others_hidden(self, upto: nat) -> State
        decreases upto,
    {
        if upto == 0 {
            self
        } else {
            let i = upto - 1;
            let so_far = self.others_hidden(i as nat);
            if self.hides(i) {
                let (clients, requests) = show_all(self.rings[i].listing(), so_far.clients, false);
                so_far.with_clients(clients).sent(requests)
            } else {
                so_far
            }
        }
    }

    /// The clients that the overview shows: those of all workspaces that
    /// stay on their tag, by falling tag.
    pub open spec fn overview_clients(self) -> Seq<u64> {
        by_falling_tag(selected(self.all_clients(), self.clients, ClientFilter::Settled), self.clients)
    }

    /// In the overview, its ring is made anew from the clients of all workspaces.
    pub open spec fn overview_rebuilt(self) -> State {
        if self.current_tag == TAG_OVERVIEW {
            self.with_ring(self.current(), filled(Ring::empty(), self.overview_clients())).sent(
                fill_requests(Ring::empty(), self.overview_clients()),
            )
        } else {
            self
        }
    }

    /// The area that the clients of the workspace in use share: its
    /// monitor below the bar, with room for the borders.
    pub open spec fn area(self) -> Option<Rect> {
        usable_area(&self.frame().config, self.frame().rect, self.frame().config.bar_height as int)
    }

    /// The workspace in use is laid out in its area, and the focus is shown.
    pub open spec fn laid_out(self) -> State {
        let frame = self.frame();
        let ring = self.ring();
        let clients = frame.arranged_in(ring, self.clients, self.area());
        self.with_clients(clients).sent(
            frame.arrange_in_requests(ring, self.clients, self.area()) + frame.restack_requests(
                ring,
                clients,
            ),
        )
    }

    /// The screen is brought up to date: the workspaces that share the
    /// monitor of the one in use are hidden, the overview is made anew
    /// if it is in use, and the workspace in use is laid out.
    pub open spec fn arranged(self) -> State {
        self.others_hidden(self.frames.len()).overview_rebuilt().laid_out()
    }
}

/// The stack with the client on top: a client that the stack holds
/// already moves up, so that no client is in the stack twice.
pub open spec fn pushed(stack: Seq<u64>, client: u64) -> Seq<u64> {
    match position(stack, client) {
        Some(i) => stack.remove(i).push(stack[i]),
        None => stack.push(client),
    }
}

/// The stack without the first occurrence of the client.
pub open spec fn without(stack: Seq<u64>, client: u64) -> Seq<u64> {
    match position(stack, client) {
        Some(i) => stack.remove(i),
        None => stack,
    }
}

/// The records with the first record of the window replaced by `change` of it.
pub open spec fn changed(clients: Seq<ClientW>, window: u64, change: spec_fn(ClientW) -> ClientW) -> Seq<
    ClientW,
> {
    match position(windows(clients), window) {
        Some(i) => clients.update(i, change(clients[i])),
        None => clients,
    }
}

/// The records with the tag of each of the windows set to `tag`.
pub open spec fn retagged(clients: Seq<ClientW>, list: Seq<u64>, tag: u8) -> Seq<ClientW>
    decreases list.len(),
{
    if list.len() == 0 {
        clients
    } else {
        changed(retagged(clients, list.drop_last(), tag), list.last(), |c: ClientW| c.with_tag(tag))
    }
}

/// The ring after each of the windows was removed from it in turn.
pub open spec fn removed_all(ring: Ring, list: Seq<u64>) -> Ring
    decreases list.len(),
{
    if list.len() == 0 {
        ring
    } else {
        removed_all(ring, list.drop_last()).remove(list.last())
    }
}

pub open spec fn remove_all_requests(ring: Ring, list: Seq<u64>) -> Seq<Request>
    decreases list.len(),
{
    if list.len() == 0 {
        Seq::empty()
    } else {
        remove_all_requests(ring, list.drop_last()) + removed_all(
            ring,
            list.drop_last(),
        ).remove_requests(list.last())
    }
}

/// The ring after each of the windows entered it at the focus in turn.
pub open spec fn attached(ring: Ring, list: Seq<u64>) -> Ring
    decreases list.len(),
{
    if list.len() == 0 {
        ring
    } else {
        attached(ring, list.drop_last()).insert(list.last(), true)
    }
}

pub open spec fn attach_requests(ring: Ring, list: Seq<u64>) -> Seq<Request>
    decreases list.len(),
{
    if list.len() == 0 {
        Seq::empty()
    } else {
        attach_requests(ring, list.drop_last()) + attached(ring, list.drop_last()).insert_requests(
            list.last(),
            true,
        )
    }
}

impl State {
    pub open spec fn ring_inserted(self, i: int, window: u64, at_focus: bool) -> State {
        self.with_ring(i, self.rings[i].insert(window, at_focus)).sent(
            self.rings[i].insert_requests(window, at_focus),
        )
    }

    pub open spec fn ring_removed(self, i: int, window: u64) -> State {
        self.with_ring(i, self.rings[i].remove(window)).sent(self.rings[i].remove_requests(window))
    }

    pub open spec fn ring_detached(self, i: int) -> State {
        self.with_ring(i, self.rings[i].detach()).sent(self.rings[i].detach_requests())
    }

    pub open spec fn ring_zoomed(self, i: int) -> State {
        self.with_ring(i, self.rings[i].zoom()).sent(self.rings[i].zoom_requests())
    }

    /// The focus of the workspace in use is shown on the screen.
    pub open spec fn restacked(self) -> State {
        self.sent(self.frame().restack_requests(self.ring(), self.clients))
    }

    /// The focus of the workspace in use goes to the client, and the
    /// status bar is told.
    pub open spec fn focused_here(self, window: u64) -> State {
        self.with_ring(self.current(), self.ring().focus_on(window)).sent(
            self.ring().focus_requests(window),
        ).restacked().logged()
    }

    pub open spec fn backed(self, client: u64) -> State {
        State { back: pushed(self.back, client), ..self }
    }

    pub open spec fn on_tag(self, tag: u8) -> State {
        State { current_tag: tag, ..self }
    }

    /// The sticky clients of the workspace in use.
    pub open spec fn sticky(self) -> Seq<u64> {
        selected(self.ring().listing(), self.clients, ClientFilter::Sticky)
    }

    /// The workspace in use becomes that of the tag, and the sticky
    /// clients of the workspace that was in use come along. The overview
    /// takes no client along.
    pub open spec fn moved_to(self, tag: u8) -> State {
        if tag == TAG_OVERVIEW {
            self.on_tag(tag)
        } else {
            let sticky = self.sticky();
            let source = self.current();
            let target = self.index_of(tag).unwrap();
            let left = self.with_ring(source, removed_all(self.ring(), sticky)).sent(
                remove_all_requests(self.ring(), sticky),
            );
            left.on_tag(tag).with_clients(retagged(left.clients, sticky, tag)).with_ring(
                target,
                attached(left.rings[target], sticky),
            ).sent(attach_requests(left.rings[target], sticky))
        }
    }

    /// After a change of tag: the client that had the focus before goes
    /// on the stack of clients to go back to, unless it has the focus
    /// again; the client that has the focus now is shown to have it.
    pub open spec fn settled(self, before: Option<u64>) -> State {
        match self.focused() {
            Some(client) => {
                let kept = match before {
                    Some(old) => if old != client {
                        self.backed(old)
                    } else {
                        self
                    },
                    None => self,
                };
                kept.focused_here(client)
            },
            None => match before {
                Some(old) => self.backed(old),
                None => self,
            },
        }
    }

    /// The manager goes to the tag. Nothing happens if it is there
    /// already, or if no workspace has that tag.
    pub open spec fn tag_selected(self, tag: u8) -> State {
        if tag == self.current_tag || self.index_of(tag) is None {
            self
        } else {
            self.moved_to(tag).sent(seq![Request::FocusRoot]).arranged().settled(
                self.focused(),
            ).logged()
        }
    }

    /// The manager goes to the tag of the client and gives it the focus.
    /// Nothing happens if there is no record of the client.
    pub open spec fn focus_set(self, window: u64) -> State {
        match client_of(self.clients, window) {
            Some(c) => self.tag_selected(c.0.tag).focused_here(window),
            None => self,
        }
    }

    /// The manager goes back to the client that is on top of the stack.
    pub open spec fn toggled_back(self) -> State {
        if self.back.len() == 0 {
            self
        } else {
            let client = self.back.last();
            let popped = State { back: self.back.drop_last(), ..self };
            match client_of(popped.clients, client) {
                Some(c) => popped.tag_selected(c.0.tag).focus_set(client),
                None => popped,
            }
        }
    }

    /// The focused client is taken to the tag, and the manager goes
    /// there. Nothing happens in the overview, or if the tag is that of
    /// the overview or of no workspace.
    pub open spec fn tag_added(self, tag: u8) -> State {
        if self.current_tag == TAG_OVERVIEW || tag == TAG_OVERVIEW || self.index_of(tag) is None {
            self
        } else {
            let left = self.ring_detached(self.current());
            let there = match self.focused() {
                Some(client) => left.with_clients(
                    changed(left.clients, client, |c: ClientW| c.with_tag(tag)),
                ).ring_inserted(self.index_of(tag).unwrap(), client, false),
                None => left,
            };
            there.tag_selected(tag)
        }
    }

    pub open spec fn maximize_toggled(self) -> State {
        if self.current_tag == TAG_OVERVIEW {
            self
        } else {
            match self.focused() {
                Some(client) => match client_of(self.clients, client) {
                    Some(c) => self.with_clients(
                        changed(
                            self.clients,
                            client,
                            |c: ClientW| c.with_maximized(!c.0.is_maximized),
                        ),
                    ).arranged(),
                    None => self,
                },
                None => self,
            }
        }
    }

    pub open spec fn floating_toggled(self) -> State {
        match self.focused() {
            Some(client) => match client_of(self.clients, client) {
                Some(c) => self.with_clients(
                    changed(self.clients, client, |c: ClientW| c.with_floating(!c.0.is_floating)),
                ).arranged(),
                None => self,
            },
            None => self,
        }
    }

    /// The client enters or leaves fullscreen on the monitor of its
    /// tag. After leaving, the screen is brought up to date.
    pub open spec fn fullscreen_set(self, window: u64, fullscreen: bool) -> State {
        match client_of(self.clients, window) {
            Some(c) => match self.index_of(c.0.tag) {
                Some(i) => {
                    let rect = self.frames[i].rect;
                    let done = self.with_clients(
                        changed(self.clients, window, |c: ClientW| c.with_fullscreen(rect, fullscreen)),
                    ).sent(c.fullscreen_requests(rect, fullscreen));
                    if fullscreen {
                        done
                    } else {
                        done.arranged()
                    }
                },
                None => self,
            },
            None => self,
        }
    }

    /// The focus goes to the client with the index among those of the
    /// workspace in use; to the last one for `None`.
    pub open spec fn focus_index_set(self, index: Option<usize>) -> State {
        let listing = self.ring().listing();
        let i: int = match index {
            Some(i) => i as int,
            None => if listing.len() == 0 {
                0
            } else {
                listing.len() - 1
            },
        };
        if i < listing.len() {
            self.focus_set(listing[i])
        } else {
            self
        }
    }

    /// The focus goes around the ring by one step.
    pub open spec fn focus_shifted(self, inc: i32) -> State {
        let direction = if inc > 0 {
            FocusShift::Forward
        } else {
            FocusShift::Backward
        };
        let ring = self.ring().circle(direction);
        self.with_ring(self.current(), ring).sent(
            self.ring().circle_requests(direction) + self.frame().restack_requests(
                ring,
                self.clients,
            ),
        ).logged()
    }

    /// The focused client is asked to close.
    pub open spec fn client_killed(self) -> State {
        self.sent(
            match self.focused() {
                Some(window) => seq![Request::Send { window, protocol: Protocol::Delete }],
                None => Seq::empty(),
            },
        ).arranged()
    }

    pub open spec fn zoomed(self) -> State {
        self.ring_zoomed(self.current()).arranged()
    }
}

/// Where a move by (`dx`, `dy`) takes a rectangle that has to stay on the screen.
pub open spec fn shift_target(rect: Rect, screen: Rect, dx: int, dy: int) -> (int, int) {
    let x = rect.x + dx;
    let x = if x < screen.x {
        screen.x as int
    } else {
        x
    };
    let x = if x > screen.width - rect.width {
        screen.width - rect.width
    } else {
        x
    };
    let y = rect.y + dy;
    let y = if y < screen.y {
        screen.y as int
    } else {
        y
    };
    let y = if y > screen.height - rect.height {
        screen.height - rect.height
    } else {
        y
    };
    (x, y)
}

pub open spec fn fits_i32(v: int) -> bool {
    i32::MIN <= v <= i32::MAX
}

/// An extent grown by `delta`, but not beyond `limit`.
pub open spec fn grown(extent: int, delta: int, limit: int) -> int {
    if extent + delta > limit {
        limit
    } else {
        extent + delta
    }
}

/// What is known of a window when it asks to be put on the screen.
pub struct NewWindow {
    pub window: u64,
    /// The geometry that the window has.
    pub rect: Rect,
    /// The name that the window publishes the new way, if any.
    pub net_name: Option<String>,
    /// The name that the window publishes the old way, if any.
    pub name: Option<String>,
    /// The class hint of the window, if any.
    pub class: Option<String>,
    /// The state that the window publishes, if any.
    pub state: Option<u64>,
    /// The type that the window publishes, if any.
    pub window_type: Option<u64>,
}

/// Whether the rule is for the client.
pub open spec fn rule_matches(predicate: ClientPredicate, client: ClientW, window_type: Option<u64>, dialog: u64) -> bool {
    match predicate {
        ClientPredicate::ClassIs(class) => client.0.class@ == class@,
        ClientPredicate::IsDialog => window_type == Some(dialog),
    }
}

pub open spec fn change_applied(client: ClientW, change: ClientChange) -> ClientW {
    match change {
        ClientChange::Floating(floating) => client.with_floating(floating),
        ClientChange::Sticky(sticky) => client.with_sticky(sticky),
    }
}

/// The client after the changes, the first one applied first.
pub open spec fn action_applied(client: ClientW, action: Seq<ClientChange>) -> ClientW
    decreases action.len(),
{
    if action.len() == 0 {
        client
    } else {
        change_applied(action_applied(client, action.drop_last()), action.last())
    }
}

/// The client after every rule had its turn, in the order of the rules:
/// each rule that is for the client, as the client is by then, is applied.
pub open spec fn ruled(
    client: ClientW,
    rules: Seq<(ClientPredicate, ClientAction)>,
    window_type: Option<u64>,
    dialog: u64,
) -> ClientW
    decreases rules.len(),
{
    if rules.len() == 0 {
        client
    } else {
        let so_far = ruled(client, rules.drop_last(), window_type, dialog);
        if rule_matches(rules.last().0, so_far, window_type, dialog) {
            action_applied(so_far, rules.last().1@)
        } else {
            so_far
        }
    }
}

/// Changes touch the floating and sticky marks of a client and nothing else.
pub proof fn lemma_action_keeps(client: ClientW, action: Seq<ClientChange>)
    ensures
        action_applied(client, action) == ClientW(
            crate::client::Client {
                was_floating: action_applied(client, action).0.was_floating,
                is_floating: action_applied(client, action).0.is_floating,
                is_sticky: action_applied(client, action).0.is_sticky,
                ..client.0
            },
        ),
    decreases action.len(),
{
    if action.len() > 0 {
        lemma_action_keeps(client, action.drop_last());
    }
}

/// Rules touch the floating and sticky marks of a client and nothing else.
pub proof fn lemma_ruled_keeps(
    client: ClientW,
    rules: Seq<(ClientPredicate, ClientAction)>,
    window_type: Option<u64>,
    dialog: u64,
)
    ensures
        ruled(client, rules, window_type, dialog) == ClientW(
            crate::client::Client {
                was_floating: ruled(client, rules, window_type, dialog).0.was_floating,
                is_floating: ruled(client, rules, window_type, dialog).0.is_floating,
                is_sticky: ruled(client, rules, window_type, dialog).0.is_sticky,
                ..client.0
            },
        ),
    decreases rules.len(),
{
    if rules.len() > 0 {
        let so_far = ruled(client, rules.drop_last(), window_type, dialog);
        lemma_ruled_keeps(client, rules.drop_last(), window_type, dialog);
        lemma_action_keeps(so_far, rules.last().1@);
    }
}

/// The client after what its window publishes was taken note of: a
/// window in fullscreen state fills `rect`, one in the state "above" is
/// marked so, a modal one floats, and a dock is marked as a dock.
pub open spec fn classified(
    client: ClientW,
    rect: Rect,
    state: Option<u64>,
    window_type: Option<u64>,
    atoms: AtomTable,
) -> ClientW {
    let c1 = if state == Some(atoms.net_wm_state_fullscreen) {
        client.with_fullscreen(rect, true)
    } else {
        client
    };
    let c2 = if state == Some(atoms.net_wm_state_above) {
        c1.with_above(true)
    } else {
        c1
    };
    let c3 = if state == Some(atoms.net_wm_state_modal) {
        c2.with_floating(true)
    } else {
        c2
    };
    if window_type == Some(atoms.net_wm_window_type_dock) {
        c3.with_dock(true)
    } else {
        c3
    }
}

/// What the display is asked while a window is classified.
pub open spec fn classify_requests(
    client: ClientW,
    rect: Rect,
    state: Option<u64>,
    atoms: AtomTable,
) -> Seq<Request> {
    if state == Some(atoms.net_wm_state_fullscreen) {
        client.fullscreen_requests(rect, true)
    } else {
        Seq::empty()
    }
}

impl State {
    /// Whether a workspace other than the overview holds the window.
    pub open spec fn manages(self, window: u64) -> bool {
        self.all_clients().contains(window)
    }

    /// The focused client, if it floats, moves by (`dx`, `dy`) as far as
    /// the screen lets it. A move to a place that is no pair of 32-bit
    /// numbers does not happen.
    pub open spec fn window_shifted(self, dx: i32, dy: i32) -> State {
        match self.focused() {
            Some(window) => match client_of(self.clients, window) {
                Some(c) => {
                    let (x, y) = shift_target(c.0.rect, self.frame().rect, dx as int, dy as int);
                    if c.0.is_floating && fits_i32(x) && fits_i32(y) {
                        self.with_clients(
                            changed(
                                self.clients,
                                window,
                                |c: ClientW| c.moved(x as i32, y as i32, true),
                            ),
                        ).sent(seq![Request::Move { window, x: x as i32, y: y as i32 }, Request::Sync])
                    } else {
                        self
                    }
                },
                None => self,
            },
            None => self,
        }
    }

    /// The focused client, if it floats, gets wider by `delta`, but not
    /// wider than the screen; it never gets narrower than 10.
    pub open spec fn width_expanded(self, delta: i32) -> State {
        match self.focused() {
            Some(window) => match client_of(self.clients, window) {
                Some(c) => {
                    let width = grown(c.0.rect.width as int, delta as int, self.frame().rect.width as int);
                    if c.0.is_floating && width >= 10 {
                        let rect = Rect { width: width as i32, ..c.0.rect };
                        self.with_clients(
                            changed(self.clients, window, |c: ClientW| c.resized(rect, false)),
                        ).sent(seq![Request::Configure { window, rect }])
                    } else {
                        self
                    }
                },
                None => self,
            },
            None => self,
        }
    }

    /// The focused client, if it floats, gets higher by `delta`, but not
    /// higher than the screen; it never gets lower than 10.
    pub open spec fn height_expanded(self, delta: i32) -> State {
        match self.focused() {
            Some(window) => match client_of(self.clients, window) {
                Some(c) => {
                    let height = grown(
                        c.0.rect.height as int,
                        delta as int,
                        self.frame().rect.height as int,
                    );
                    if c.0.is_floating && height >= 10 {
                        let rect = Rect { height: height as i32, ..c.0.rect };
                        self.with_clients(
                            changed(self.clients, window, |c: ClientW| c.resized(rect, false)),
                        ).sent(seq![Request::Configure { window, rect }])
                    } else {
                        self
                    }
                },
                None => self,
            },
            None => self,
        }
    }

    /// The tag that a new client gets: the tag in use, or from the
    /// overview the tag that the configuration names.
    pub open spec fn landing_tag(self) -> u8 {
        if self.current_tag == TAG_OVERVIEW {
            self.config.tag_default
        } else {
            self.current_tag
        }
    }

    /// The record of a new client before its window was classified and
    /// the rules were applied, given the record `made` that it has after.
    pub open spec fn first_record(self, info: NewWindow, made: ClientW) -> ClientW {
        ClientW(
            crate::client::Client {
                anchor_window: self.anchor_window,
                tag: self.landing_tag(),
                root: self.root,
                was_floating: false,
                is_floating: false,
                is_sticky: false,
                is_dialog: false,
                is_maximized: false,
                is_fullscreen: false,
                is_dock: false,
                is_above: false,
                normal_border_color: self.colors.normal_border_color,
                focused_border_color: self.colors.focused_border_color,
                window: info.window,
                old_rect: info.rect,
                rect: info.rect,
                border: 0,
                old_border: 0,
                weight: -1i32,
                ..made.0
            },
        )
    }

    /// The record of a new client after it was classified, before the rules.
    pub open spec fn classified_record(self, info: NewWindow, made: ClientW) -> ClientW {
        classified(
            self.first_record(info, made),
            self.frames[self.index_of(self.landing_tag()).unwrap()].rect,
            info.state,
            info.window_type,
            self.atoms,
        )
    }

    /// `made` is the record that a new client gets: on the landing tag,
    /// with the names that its window publishes and the geometry that
    /// it has, classified, and with the rules applied.
    pub open spec fn makes(self, info: NewWindow, made: ClientW) -> bool {
        &&& made.0.title@ == match info.net_name {
            Some(t) => t@,
            None => match info.name {
                Some(t) => t@,
                None => "Unknown"@,
            },
        }
        &&& made.0.class@ == match info.class {
            Some(c) => c@,
            None => "broken"@,
        }
        &&& made.0.extras@.len() == 0
        &&& made == ruled(
            self.classified_record(info, made),
            self.config.rules@,
            info.window_type,
            self.atoms.net_wm_window_type_dialog,
        )
    }

    /// The display is asked for what a new client needs: its window joins
    /// the published list, is classified, gets its border unless it is
    /// a dock, is listened to, and is put on the screen.
    pub open spec fn asked_for(self, info: NewWindow, made: ClientW) -> State {
        let window = info.window;
        let first = self.first_record(info, made);
        let area = self.frames[self.index_of(self.landing_tag()).unwrap()].rect;
        let typed = self.classified_record(info, made);
        self.sent(
            seq![Request::AppendClientList { window }] + classify_requests(
                first,
                area,
                info.state,
                self.atoms,
            ) + (if typed.0.is_dock {
                Seq::empty()
            } else {
                seq![
                    Request::Border { window, width: self.config.border_width },
                    Request::Notify { window, rect: typed.0.rect, border: typed.0.border },
                ]
            }) + seq![
                Request::Listen { window },
                Request::GrabButtons { window, focused: false },
                Request::State { window, state: WindowState::Normal },
                Request::MapWindow { window },
            ],
        )
    }

    /// A client with its record joins the manager: a dock goes to the
    /// docks; any other client goes to the ring of the landing tag, at
    /// the focus if it floats and at the head if not, and the screen is
    /// brought up to date.
    pub open spec fn adopted(self, made: ClientW) -> State {
        if made.0.is_dock {
            State { special: self.special.push(made), ..self }
        } else {
            self.with_clients(self.clients.push(made)).ring_inserted(
                self.index_of(self.landing_tag()).unwrap(),
                made.0.window,
                made.0.is_floating,
            ).arranged()
        }
    }

    /// A new window is taken under management with the record `made`.
    pub open spec fn window_managed(self, info: NewWindow, made: ClientW) -> State {
        self.asked_for(info, made).adopted(made)
    }

    /// The records without the first record of the window.
    pub open spec fn forgotten(self, window: u64) -> State {
        match position(windows(self.clients), window) {
            Some(i) => self.with_clients(self.clients.remove(i)),
            None => self,
        }
    }

    /// The client leaves the ring of the workspace of the tag, if there is one.
    pub open spec fn taken_from(self, tag: u8, window: u64) -> State {
        match self.index_of(tag) {
            Some(i) => self.ring_removed(i, window),
            None => self,
        }
    }

    /// A client is given up: it leaves its ring, the stack of clients to
    /// go back to and the records, and the screen is brought up to
    /// date. A window that was not destroyed is published as withdrawn.
    /// Nothing happens if no workspace holds the window, or if there is
    /// no record of it.
    pub open spec fn unmanaged(self, window: u64, destroy: bool) -> State {
        if !self.manages(window) {
            self
        } else {
            match client_of(self.clients, window) {
                Some(c) => {
                    let told = if destroy {
                        self
                    } else {
                        self.sent(seq![Request::State { window, state: WindowState::Withdrawn }])
                    };
                    let first = if self.current_tag == TAG_OVERVIEW {
                        told.taken_from(c.0.tag, window)
                    } else {
                        told
                    };
                    let out_of_stack = State { back: without(first.back, window), ..first };
                    out_of_stack.taken_from(c.0.tag, window).forgotten(
                        window,
                    ).client_list_updated().arranged()
                },
                None => self,
            }
        }
    }

    /// What a managed window publishes is taken note of.
    pub open spec fn window_classified(self, window: u64, state: Option<u64>, window_type: Option<u64>) -> State {
        match client_of(self.clients, window) {
            Some(c) => match self.index_of(c.0.tag) {
                Some(i) => {
                    let rect = self.frames[i].rect;
                    let atoms = self.atoms;
                    self.with_clients(
                        changed(
                            self.clients,
                            window,
                            |c: ClientW| classified(c, rect, state, window_type, atoms),
                        ),
                    ).sent(classify_requests(c, rect, state, self.atoms))
                },
                None => self,
            },
            None => self,
        }
    }
}

/// The grabs that the keys need: each key once as it is, and once with
/// the lock modifier, so that the lock makes no difference.
pub open spec fn grab_requests(bindings: Seq<KeyBinding>) -> Seq<Request>
    decreases bindings.len(),
{
    if bindings.len() == 0 {
        Seq::empty()
    } else {
        grab_requests(bindings.drop_last()) + seq![
            Request::GrabKey { modifiers: bindings.last().0 | 0u32, keysym: bindings.last().1 },
            Request::GrabKey { modifiers: bindings.last().0 | LOCK_MASK, keysym: bindings.last().1 },
        ]
    }
}

/// Whether a number of a client message is the atom.
pub open spec fn long_is(value: i64, atom: u64) -> bool {
    value >= 0 && value as u64 == atom
}

/// The bits by which a window says which fields of its request it has set.
pub const CONFIGURE_X: u64 = 1;

pub const CONFIGURE_Y: u64 = 2;

pub const CONFIGURE_WIDTH: u64 = 4;

pub const CONFIGURE_HEIGHT: u64 = 8;

/// The button that moves a client, and the one that resizes it.
pub const BUTTON_MOVE: u32 = 1;

pub const BUTTON_RESIZE: u32 = 3;

/// Atoms that every display numbers alike.
pub const ATOM_WM_NAME: u64 = 39;

pub const ATOM_WM_NORMAL_HINTS: u64 = 40;

/// The kind of a new mapping that concerns the keys.
pub const MAPPING_KEYBOARD: i32 = 1;

/// The geometry and stacking that a window asks for.
#[derive(Clone, Copy, Debug, PartialEq, Eq, Structural)]
pub struct ConfigureRequest {
    pub window: u64,
    pub rect: Rect,
    /// The window above which this one wants to be.
    pub above: u64,
    /// How it wants to be stacked.
    pub detail: i32,
    /// Which of the fields the window has set.
    pub value_mask: u64,
}

/// The rectangle with the fields that the request sets taken from it.
pub open spec fn requested_rect(rect: Rect, request: ConfigureRequest) -> Rect {
    Rect {
        x: if request.value_mask & CONFIGURE_X != 0 {
            request.rect.x
        } else {
            rect.x
        },
        y: if request.value_mask & CONFIGURE_Y != 0 {
            request.rect.y
        } else {
            rect.y
        },
        width: if request.value_mask & CONFIGURE_WIDTH != 0 {
            request.rect.width
        } else {
            rect.width
        },
        height: if request.value_mask & CONFIGURE_HEIGHT != 0 {
            request.rect.height
        } else {
            rect.height
        },
    }
}

/// What a drag of the pointer does to a client.
#[derive(Clone, Copy, Debug, PartialEq, Eq, Structural)]
pub enum DragKind {
    Move,
    Resize,
}

/// The layout that the configuration names for the tag; tiles if it names none.
pub open spec fn layout_for(layouts: Seq<(u8, Layout)>, tag: u8) -> Layout
    decreases layouts.len(),
{
    if layouts.len() == 0 {
        Layout::Tile(Tile)
    } else if layouts[0].0 == tag {
        layouts[0].1
    } else {
        layout_for(layouts.skip(1), tag)
    }
}

impl State {
    /// The keys of the configuration are grabbed anew.
    pub open spec fn keys_grabbed(self) -> State {
        self.sent(
            seq![Request::UngrabKeys] + grab_requests(self.config.keys@) + grab_requests(
                self.config.tag_keys@,
            ) + grab_requests(self.config.add_keys@),
        )
    }

    /// What the action of a key does. An action that only the owner of
    /// the display can carry out is handed on with its place in the configuration.
    pub open spec fn performed(self, action: WmAction, table: KeyTable, index: usize) -> State {
        match action {
            WmAction::Exit => self.sent(seq![Request::Exit]),
            WmAction::ShiftFocus(inc) => self.focus_shifted(inc),
            WmAction::KillClient => self.client_killed(),
            WmAction::ToggleMaximize => self.maximize_toggled(),
            WmAction::ToggleFloating => self.floating_toggled(),
            WmAction::ShiftWindow(dx, dy) => self.window_shifted(dx, dy),
            WmAction::ExpandWidth(delta) => self.width_expanded(delta),
            WmAction::ExpandHeight(delta) => self.height_expanded(delta),
            WmAction::SelectTag(tag) => self.tag_selected(tag),
            WmAction::AddTag(tag) => self.tag_added(tag),
            WmAction::Promote => if self.current_tag != TAG_OVERVIEW {
                self.zoomed()
            } else {
                match self.focused() {
                    Some(client) => match client_of(self.clients, client) {
                        Some(c) => self.tag_selected(c.0.tag).focus_set(client),
                        None => self,
                    },
                    None => self,
                }
            },
            WmAction::SetFocusIndex(index) => self.focus_index_set(index),
            WmAction::ToggleBack => self.toggled_back(),
            _ => self.sent(seq![Request::Run { table, index }]),
        }
    }

    /// Each of the first `upto` keys of the list that is the key pressed
    /// has its action performed, in the order of the list.
    pub open spec fn keys_run(
        self,
        bindings: Seq<KeyBinding>,
        table: KeyTable,
        keysym: u32,
        mask: u32,
        upto: nat,
    ) -> State
        decreases upto,
    {
        if upto == 0 {
            self
        } else {
            let so_far = self.keys_run(bindings, table, keysym, mask, (upto - 1) as nat);
            let key = bindings[upto - 1];
            if key.1 == keysym && mask == key.0 {
                so_far.performed(key.2, table, (upto - 1) as usize)
            } else {
                so_far
            }
        }
    }

    /// A key was pressed: every key of the configuration with that
    /// symbol and those modifiers has its action performed.
    pub open spec fn key_pressed(self, keysym: u32, state: u32) -> State {
        let mask = state & !LOCK_MASK & counted_modifiers();
        let config = self.config;
        self.keys_run(config.keys@, KeyTable::Keys, keysym, mask, config.keys@.len()).keys_run(
            config.tag_keys@,
            KeyTable::TagKeys,
            keysym,
            mask,
            config.tag_keys@.len(),
        ).keys_run(config.add_keys@, KeyTable::AddKeys, keysym, mask, config.add_keys@.len())
    }

    /// A button was pressed on a window: a managed client gets the focus.
    pub open spec fn button_pressed(self, window: u64) -> State {
        if self.manages(window) {
            self.focus_set(window).restacked()
        } else {
            self
        }
    }

    /// The drag that a press of a button begins: with the modifier of the
    /// configuration, the first button moves and the third resizes a
    /// client of the workspace in use.
    pub open spec fn drag_begun(self, window: u64, button: u32, state: u32) -> Option<DragKind> {
        if state & self.config.mod_key != 0 && self.ring().contains(window) {
            if button == BUTTON_MOVE {
                Some(DragKind::Move)
            } else if button == BUTTON_RESIZE {
                Some(DragKind::Resize)
            } else {
                None
            }
        } else {
            None
        }
    }

    /// A client sent a message about its state: fullscreen is switched
    /// on for 1, off for 0 and over for 2; a modal window floats.
    pub open spec fn client_message(self, window: u64, message_type: u64, l0: i64, l1: i64, l2: i64) -> State {
        if self.manages(window) && message_type == self.atoms.net_wm_state {
            let fullscreen = self.atoms.net_wm_state_fullscreen;
            let modal = self.atoms.net_wm_state_modal;
            let is_fullscreen = match client_of(self.clients, window) {
                Some(c) => c.0.is_fullscreen,
                None => false,
            };
            let first = if long_is(l1, fullscreen) || long_is(l2, fullscreen) {
                self.fullscreen_set(window, l0 == 1 || (l0 == 2 && !is_fullscreen))
            } else {
                self
            };
            if long_is(l1, modal) || long_is(l2, modal) {
                first.with_clients(
                    changed(first.clients, window, |c: ClientW| c.with_floating(true)),
                ).arranged()
            } else {
                first
            }
        } else {
            self
        }
    }

    /// A window asks for geometry or stacking. In the overview a client
    /// gets its stacking and no geometry. A floating client that is on
    /// the screen gets the geometry that it asks for. Any other client
    /// is told the geometry that it has, and is shown or hidden as its
    /// tag says. A window that is no client gets what it asks for.
    pub open spec fn configure_requested(self, request: ConfigureRequest) -> State {
        let window = request.window;
        let done = if self.manages(window) {
            match client_of(self.clients, window) {
                Some(c) => if self.current_tag == TAG_OVERVIEW {
                    self.sent(
                        seq![
                            Request::Forward {
                                window,
                                rect: Rect { x: 0, y: 0, width: 0, height: 0 },
                                sibling: request.above,
                                stack_mode: request.detail,
                                mask: request.value_mask & !(CONFIGURE_X | CONFIGURE_Y
                                    | CONFIGURE_WIDTH | CONFIGURE_HEIGHT),
                            },
                        ],
                    )
                } else if (c.0.is_sticky || c.0.tag == self.current_tag) && c.0.is_floating {
                    let rect = requested_rect(c.0.rect, request);
                    self.with_clients(
                        changed(self.clients, window, |c: ClientW| c.resized(rect, false)),
                    ).sent(seq![Request::Configure { window, rect }])
                } else {
                    let visible = c.0.tag == self.current_tag;
                    let told = self.sent(
                        seq![Request::Notify { window, rect: c.0.rect, border: c.0.border }],
                    );
                    if c.can_show(visible) {
                        told.with_clients(
                            changed(told.clients, window, |c: ClientW| c.shown(visible)),
                        ).sent(c.show_requests(visible))
                    } else {
                        told
                    }
                },
                None => self,
            }
        } else {
            self.sent(
                seq![
                    Request::Forward {
                        window,
                        rect: request.rect,
                        sibling: request.above,
                        stack_mode: request.detail,
                        mask: request.value_mask,
                    },
                ],
            )
        };
        done.sent(seq![Request::Sync])
    }

    /// The root window has a new size: the manager takes note of it and
    /// brings the screen up to date.
    pub open spec fn configure_notified(self, window: u64, width: i32, height: i32) -> State {
        if window == self.root && (width != self.screen_width || height != self.screen_height) {
            (State { screen_width: width, screen_height: height, ..self }).arranged()
        } else {
            self
        }
    }

    pub open spec fn destroy_notified(self, window: u64) -> State {
        if self.manages(window) {
            self.unmanaged(window, true)
        } else {
            self
        }
    }

    /// A window got the keyboard: if it is not the focused client, the
    /// focused client gets it back.
    pub open spec fn focus_in(self, window: u64) -> State {
        match self.focused() {
            Some(client) => (if client != window {
                self.focus_set(client)
            } else {
                self
            }).logged(),
            None => self,
        }
    }

    pub open spec fn mapping_notified(self, request: i32) -> State {
        if request == MAPPING_KEYBOARD {
            self.keys_grabbed()
        } else {
            self
        }
    }

    /// A managed window published something new about itself.
    pub open spec fn property_notified(
        self,
        window: u64,
        atom: u64,
        title: String,
        state: Option<u64>,
        window_type: Option<u64>,
    ) -> State {
        if self.manages(window) {
            if atom == ATOM_WM_NAME || atom == self.atoms.net_wm_name {
                self.with_clients(changed(self.clients, window, |c: ClientW| c.with_title(title))).logged()
            } else if atom == ATOM_WM_NORMAL_HINTS {
                self
            } else if atom == self.atoms.net_wm_window_type {
                self.window_classified(window, state, window_type)
            } else {
                self
            }
        } else {
            self
        }
    }

    /// A window left the screen. If its client says so itself, it is
    /// published as withdrawn; else the client is given up.
    pub open spec fn unmap_notified(self, window: u64, send_event: bool) -> State {
        (if self.manages(window) {
            if send_event {
                self.sent(seq![Request::State { window, state: WindowState::Withdrawn }])
            } else {
                self.unmanaged(window, false)
            }
        } else {
            self
        }).logged()
    }

    /// The client did not take the message: one that was asked to close
    /// has its connection closed.
    pub open spec fn protocol_refused(self, window: u64, protocol: Protocol) -> State {
        match protocol {
            Protocol::Delete => self.sent(seq![Request::Kill { window }]),
            Protocol::TakeFocus => self,
        }
    }
}

/// A drag of the pointer that moves or resizes a client.
#[derive(Clone, Copy, Debug, PartialEq, Eq, Structural)]
pub struct Drag {
    pub kind: DragKind,
    pub window: u64,
    /// The geometry of the client when the drag began.
    pub origin: Rect,
    /// Where the pointer was when the drag began.
    pub pointer_x: i32,
    pub pointer_y: i32,
    /// The time of the last motion that was not passed over.
    pub last_time: u64,
}

/// The shortest time between two motions of a drag that both count.
pub const DRAG_INTERVAL: u64 = 16;

impl Drag {
    /// Whether a motion at `time` comes too soon after the last one to count.
    pub open spec fn too_soon(self, time: u64) -> bool {
        time >= self.last_time && time - self.last_time < DRAG_INTERVAL
    }

    /// Where a motion to (`x`, `y`) takes the client: its new place for
    /// a move, its new extent, which is 1 at least, for a resize.
    pub open spec fn target(self, border: int, x: int, y: int) -> (int, int) {
        match self.kind {
            DragKind::Move => (
                self.origin.x + x - self.pointer_x,
                self.origin.y + y - self.pointer_y,
            ),
            DragKind::Resize => {
                let width = x - 2 * border - self.origin.x + 1;
                let height = y - 2 * border - self.origin.y + 1;
                (
                    if width > 1 {
                        width
                    } else {
                        1
                    },
                    if height > 1 {
                        height
                    } else {
                        1
                    },
                )
            },
        }
    }

    pub open spec fn after(self, time: u64) -> Drag {
        if self.too_soon(time) {
            self
        } else {
            Drag { last_time: time, ..self }
        }
    }
}

/// Where the pointer is put while a client is resized: on the lower right
/// corner of the client.
pub open spec fn resize_corner(rect: Rect, border: int) -> (int, int) {
    (rect.width + border - 1, rect.height + border - 1)
}

impl State {
    /// The drag that moves the client begins, unless the client is in
    /// fullscreen or there is no record of it.
    pub open spec fn move_begun(self, window: u64, pointer_x: i32, pointer_y: i32) -> Option<Drag> {
        match client_of(self.clients, window) {
            Some(c) => if c.0.is_fullscreen {
                None
            } else {
                Some(
                    Drag {
                        kind: DragKind::Move,
                        window,
                        origin: c.0.rect,
                        pointer_x,
                        pointer_y,
                        last_time: 0,
                    },
                )
            },
            None => None,
        }
    }

    /// The drag that resizes the client begins, unless the client is in
    /// fullscreen, there is no record of it, or its corner is at no
    /// place that 32-bit numbers name.
    pub open spec fn resize_begun(self, window: u64) -> Option<Drag> {
        match client_of(self.clients, window) {
            Some(c) => {
                let (x, y) = resize_corner(c.0.rect, self.config.border_width as int);
                if c.0.is_fullscreen || !fits_i32(x) || !fits_i32(y) {
                    None
                } else {
                    Some(
                        Drag {
                            kind: DragKind::Resize,
                            window,
                            origin: c.0.rect,
                            pointer_x: 0,
                            pointer_y: 0,
                            last_time: 0,
                        },
                    )
                }
            },
            None => None,
        }
    }

    /// The pointer is put on the corner of the client that is resized.
    pub open spec fn pointer_warped(self, window: u64) -> State {
        match client_of(self.clients, window) {
            Some(c) => {
                let (x, y) = resize_corner(c.0.rect, self.config.border_width as int);
                if fits_i32(x) && fits_i32(y) {
                    self.sent(seq![Request::Warp { window, x: x as i32, y: y as i32 }])
                } else {
                    self
                }
            },
            None => self,
        }
    }

    /// The pointer moved during a drag. A motion that comes too soon
    /// after the last one is passed over. A floating client follows the
    /// pointer, unless that takes it where 32-bit numbers do not reach.
    pub open spec fn dragged(self, drag: Drag, time: u64, x: i32, y: i32) -> State {
        match client_of(self.clients, drag.window) {
            Some(c) => {
                let (a, b) = drag.target(self.config.border_width as int, x as int, y as int);
                if drag.too_soon(time) || !c.0.is_floating || !fits_i32(a) || !fits_i32(b) {
                    self
                } else {
                    match drag.kind {
                        DragKind::Move => self.with_clients(
                            changed(
                                self.clients,
                                drag.window,
                                |c: ClientW| c.moved(a as i32, b as i32, true),
                            ),
                        ).sent(seq![Request::Move { window: drag.window, x: a as i32, y: b as i32 }]),
                        DragKind::Resize => {
                            let rect = Rect {
                                x: drag.origin.x,
                                y: drag.origin.y,
                                width: a as i32,
                                height: b as i32,
                            };
                            self.with_clients(
                                changed(
                                    self.clients,
                                    drag.window,
                                    |c: ClientW| c.resized(rect, false),
                                ),
                            ).sent(seq![Request::Configure { window: drag.window, rect }])
                        },
                    }
                }
            },
            None => self,
        }
    }

    /// The drag is over: after a resize the pointer is put on the corner
    /// of the client once more.
    pub open spec fn drag_ended(self, drag: Drag) -> State {
        match drag.kind {
            DragKind::Move => self,
            DragKind::Resize => self.pointer_warped(drag.window),
        }
    }
}

} // verus!
