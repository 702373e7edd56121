//! A workspace: the focus ring of one tag, its area and its layout.

use vstd::prelude::*;
use std::collections::VecDeque;
use std::rc::Rc;
use crate::client::{ClientFilter, ClientL, ClientW};
use crate::config::{Config, TAG_OVERVIEW};
use crate::display::{Protocol, Request};
use crate::layout::{layout_fits, Layout};
use crate::rect::{Rect, LAYOUT_LIMIT};
pub use crate::ring::FocusShift;
use crate::ring::{
    lemma_backward_to, lemma_forward_to, lemma_insert_is_shifts, lemma_position,
    lemma_rewind_is_shifts, lemma_wind_is_shifts, option_seq, position, shift_requests,
    shift_times, steps_requests, Ring,
};

verus! {

pub struct Workspace {
    /// The window below which the focused tiled client is stacked.
    pub anchor_window: u64,
    pub config: Rc<Config>,
    pub client_current: Option<u64>,
    pub clients_prev: VecDeque<u64>,
    pub clients_next: VecDeque<u64>,
    pub description: Option<String>,
    pub layout: Layout,
    pub rect: Rect,
    pub tag: u8,
}

/// What a workspace is apart from the clients that it holds.
pub ghost struct Frame {
    pub anchor_window: u64,
    pub config: Config,
    pub layout: Layout,
    pub rect: Rect,
    pub tag: u8,
}

impl Workspace {
    pub open spec fn frame(&self) -> Frame {
        Frame {
            anchor_window: self.anchor_window,
            config: *self.config,
            layout: self.layout,
            rect: self.rect,
            tag: self.tag,
        }
    }

    /// The focus ring of the workspace.
    pub open spec fn ring(&self) -> Ring {
        Ring {
            before: self.clients_prev@,
            current: self.client_current,
            after: self.clients_next@,
        }
    }

    /// Everything but the ring is as it is in `other`.
    pub open spec fn same_but_ring(&self, other: &Workspace) -> bool {
        &&& self.frame() == other.frame()
        &&& self.config == other.config
        &&& self.description == other.description
    }

    pub fn new(
        config: Rc<Config>,
        anchor_window: u64,
        tag: u8,
        description: Option<String>,
        layout: Layout,
        rect: Rect,
    ) -> (w: Workspace)
        ensures
            w.ring() == Ring::empty(),
            w.anchor_window == anchor_window,
            w.config == config,
            w.description == description,
            w.layout == layout,
            w.rect == rect,
            w.tag == tag,
    {
        Workspace {
            anchor_window,
            client_current: None,
            clients_prev: VecDeque::new(),
            clients_next: VecDeque::new(),
            description,
            config,
            layout,
            rect,
            tag,
        }
    }

    fn push_next(&mut self, client: Option<u64>)
        ensures
            final(self).same_but_ring(old(self)),
            final(self).ring() == (Ring {
                after: option_seq(client) + old(self).ring().after,
                ..old(self).ring()
            }),
    {
        if let Some(c) = client {
            self.clients_next.push_front(c);
        }
        assert(self.clients_next@ =~= option_seq(client) + old(self).clients_next@);
    }

    fn push_prev(&mut self, client: Option<u64>)
        ensures
            final(self).same_but_ring(old(self)),
            final(self).ring() == (Ring {
                before: old(self).ring().before + option_seq(client),
                ..old(self).ring()
            }),
    {
        if let Some(c) = client {
            self.clients_prev.push_back(c);
        }
        assert(self.clients_prev@ =~= old(self).clients_prev@ + option_seq(client));
    }

    /// One step of focus. Where there is nowhere to go nothing happens.
    pub fn shift_focus(&mut self, shift: FocusShift, out: &mut Vec<Request>)
        ensures
            final(self).same_but_ring(old(self)),
            final(self).ring() == old(self).ring().shift(shift),
            final(out)@ == old(out)@ + shift_requests(old(self).ring(), shift),
    {
        match shift {
            FocusShift::Forward => {
                if let Some(next_client) = self.clients_next.pop_front() {
                    let current = self.client_current.take();
                    out.push(Request::GrabButtons { window: next_client, focused: true });
                    self.client_current = Some(next_client);
                    if let Some(c) = current {
                        out.push(Request::Focus { window: c, focused: false });
                        out.push(Request::GrabButtons { window: c, focused: false });
                    }
                    self.push_prev(current);
                    assert(self.clients_next@ =~= old(self).clients_next@.skip(1));
                }
            },
            FocusShift::Backward => {
                if let Some(prev_client) = self.clients_prev.pop_back() {
                    let current = self.client_current.take();
                    out.push(Request::GrabButtons { window: prev_client, focused: true });
                    self.client_current = Some(prev_client);
                    if let Some(c) = current {
                        out.push(Request::Focus { window: c, focused: false });
                        out.push(Request::GrabButtons { window: c, focused: false });
                    }
                    self.push_next(current);
                    assert(self.clients_prev@ =~= old(self).clients_prev@.drop_last());
                }
            },
        }
        assert(out@ =~= old(out)@ + shift_requests(old(self).ring(), shift));
    }

    /// `steps` steps of focus, one after the other.
    fn shift_many(&mut self, shift: FocusShift, steps: usize, out: &mut Vec<Request>)
        ensures
            final(self).same_but_ring(old(self)),
            final(self).ring() == shift_times(old(self).ring(), shift, steps as nat),
            final(out)@ == old(out)@ + steps_requests(old(self).ring(), shift, steps as nat),
    {
        let mut done: usize = 0;
        while done < steps
            invariant
                done <= steps,
                self.same_but_ring(old(self)),
                shift_times(self.ring(), shift, (steps - done) as nat) == shift_times(
                    old(self).ring(),
                    shift,
                    steps as nat,
                ),
                out@ + steps_requests(self.ring(), shift, (steps - done) as nat) == old(out)@
                    + steps_requests(old(self).ring(), shift, steps as nat),
            decreases steps - done,
        {
            let ghost ring = self.ring();
            let ghost sent = out@;
            self.shift_focus(shift, out);
            done += 1;
            assert((sent + shift_requests(ring, shift)) + steps_requests(
                ring.shift(shift),
                shift,
                (steps - done) as nat,
            ) =~= sent + steps_requests(ring, shift, (steps - done + 1) as nat));
        }
        assert(out@ + Seq::<Request>::empty() =~= out@);
    }

    /// One step of focus that wraps around at either end; the client that
    /// has the focus after it is put on top of the tiled clients.
    pub fn circle_focus(&mut self, direction: FocusShift, clients: &ClientL, out: &mut Vec<Request>)
        ensures
            final(self).same_but_ring(old(self)),
            final(self).ring() == old(self).ring().circle(direction),
            final(out)@ == old(out)@ + old(self).ring().circle_requests(direction)
                + final(self).frame().restack_requests(final(self).ring(), clients@),
    {
        proof {
            lemma_rewind_is_shifts(self.ring());
            lemma_wind_is_shifts(self.ring());
        }
        match direction {
            FocusShift::Forward => {
                if self.clients_next.len() > 0 {
                    self.shift_focus(direction, out);
                } else {
                    let steps = self.clients_prev.len();
                    self.shift_many(FocusShift::Backward, steps, out);
                }
            },
            FocusShift::Backward => {
                if self.clients_prev.len() > 0 {
                    self.shift_focus(direction, out);
                } else {
                    let steps = self.clients_next.len();
                    self.shift_many(FocusShift::Forward, steps, out);
                }
            },
        }
        self.restack(clients, out);
    }

    pub fn update_rect(&mut self, rect: Rect)
        ensures
            *final(self) == (Workspace { rect, ..*old(self) }),
    {
        self.rect = rect;
    }

    /// Every client leaves the ring.
    pub fn clear(&mut self)
        ensures
            final(self).same_but_ring(old(self)),
            final(self).ring() == Ring::empty(),
    {
        self.clients_prev.clear();
        self.clients_next.clear();
        self.client_current = None;
    }

    /// Takes the focused client out of the ring and hands it back. The
    /// client after it takes the focus, or else the client before it.
    pub fn detach_current(&mut self, out: &mut Vec<Request>) -> (client: Option<u64>)
        ensures
            client == old(self).ring().current,
            final(self).same_but_ring(old(self)),
            final(self).ring() == old(self).ring().detach(),
            final(out)@ == old(out)@ + old(self).ring().detach_requests(),
    {
        if self.client_current.is_some() {
            if self.clients_next.len() > 0 {
                self.shift_focus(FocusShift::Forward, out);
                let client = self.clients_prev.pop_back();
                assert(self.clients_prev@ =~= old(self).clients_prev@);
                return client;
            } else if self.clients_prev.len() > 0 {
                self.shift_focus(FocusShift::Backward, out);
                let client = self.clients_next.pop_front();
                assert(self.clients_next@ =~= old(self).clients_next@);
                return client;
            }
        }
        assert(out@ + Seq::<Request>::empty() =~= out@);
        self.client_current.take()
    }

    /// The handle of the client with this window, if the ring holds it.
    pub fn get_client_by_window(&self, window: u64) -> (client: Option<u64>)
        ensures
            client == if self.ring().contains(window) {
                Some(window)
            } else {
                None
            },
    {
        proof {
            lemma_position(self.clients_prev@, window);
            lemma_position(self.clients_next@, window);
        }
        let ghost order = self.ring().order();
        if let Some(c) = self.client_current {
            if c == window {
                assert(order[self.clients_prev@.len() as int] == window);
                return Some(c);
            }
        }
        if let Some(i) = find_window(&self.clients_prev, window) {
            assert(order[i as int] == window);
            return Some(window);
        }
        if let Some(i) = find_window(&self.clients_next, window) {
            assert(order[self.clients_prev@.len() + option_seq(self.client_current).len() + i]
                == window);
            return Some(window);
        }
        None
    }

    pub fn get_current_focused(&self) -> (client: Option<u64>)
        ensures
            client == self.ring().current,
    {
        self.client_current
    }

    pub fn get_description(&self) -> (description: Option<&String>)
        ensures
            match description {
                Some(d) => self.description == Some(*d),
                None => self.description is None,
            },
    {
        self.description.as_ref()
    }

    /// Asks the focused client to close its window.
    pub fn kill_client(&self, out: &mut Vec<Request>)
        ensures
            final(out)@ == old(out)@ + match self.ring().current {
                Some(window) => seq![Request::Send { window, protocol: Protocol::Delete }],
                None => Seq::empty(),
            },
    {
        if let Some(window) = self.client_current {
            out.push(Request::Send { window, protocol: Protocol::Delete });
            assert(out@ =~= old(out)@ + seq![
                Request::Send { window, protocol: Protocol::Delete },
            ]);
        } else {
            assert(out@ =~= old(out)@ + Seq::<Request>::empty());
        }
    }

    /// A new client takes the focus: at the place of the focus if
    /// `at_focus`, else at the head of the ring.
    pub fn new_client(&mut self, client: u64, at_focus: bool, out: &mut Vec<Request>)
        ensures
            final(self).same_but_ring(old(self)),
            final(self).ring() == old(self).ring().insert(client, at_focus),
            final(out)@ == old(out)@ + old(self).ring().insert_requests(client, at_focus),
    {
        proof {
            lemma_insert_is_shifts(self.ring(), client, at_focus);
        }
        if !at_focus {
            self.clients_prev.push_front(client);
            proof {
                lemma_rewind_is_shifts(self.ring());
            }
            let steps = self.clients_prev.len();
            self.shift_many(FocusShift::Backward, steps, out);
        } else {
            self.clients_prev.push_back(client);
            self.shift_focus(FocusShift::Backward, out);
        }
    }

    /// One occurrence of the client leaves the ring, if there is one.
    pub fn remove_client(&mut self, client: u64, out: &mut Vec<Request>)
        ensures
            final(self).same_but_ring(old(self)),
            final(self).ring() == old(self).ring().remove(client),
            final(out)@ == old(out)@ + old(self).ring().remove_requests(client),
    {
        if let Some(at) = find_window(&self.clients_prev, client) {
            self.clients_prev.remove(at);
            assert(out@ + Seq::<Request>::empty() =~= out@);
            return ;
        }
        if let Some(at) = find_window(&self.clients_next, client) {
            self.clients_next.remove(at);
            assert(out@ + Seq::<Request>::empty() =~= out@);
            return ;
        }
        if self.client_current == Some(client) {
            self.detach_current(out);
        } else {
            assert(out@ + Seq::<Request>::empty() =~= out@);
        }
    }

    pub fn restack(&self, clients: &ClientL, out: &mut Vec<Request>)
        ensures
            final(out)@ == old(out)@ + self.frame().restack_requests(self.ring(), clients@),
    {
        if let Some(window) = self.client_current {
            out.push(Request::Focus { window, focused: true });
            let floating = match find_client(clients, window) {
                Some(i) => clients[i].is_floating(),
                None => false,
            };
            if floating {
                out.push(Request::Raise { window });
            } else {
                out.push(Request::Stack { window, sibling: self.anchor_window, above: true });
                let others = self.others();
                let tiled = select_from(&others, clients, ClientFilter::Tiled);
                let ghost chain = stack_chain(window, tiled@);
                let ghost base = out@;
                let mut below: u64 = window;
                let mut i: usize = 0;
                while i < tiled.len()
                    invariant
                        i <= tiled@.len(),
                        chain == stack_chain(window, tiled@),
                        out@ == base + chain.take(i as int),
                        below == if i == 0 {
                            window
                        } else {
                            tiled@[i - 1]
                        },
                    decreases tiled@.len() - i,
                {
                    out.push(Request::Stack { window: tiled[i], sibling: below, above: false });
                    assert(out@ =~= base + chain.take(i + 1));
                    below = tiled[i];
                    i += 1;
                }
                assert(chain.take(tiled@.len() as int) =~= chain);
            }
            assert(out@ =~= old(out)@ + self.frame().restack_requests(self.ring(), clients@));
        } else {
            assert(out@ =~= old(out)@ + self.frame().restack_requests(self.ring(), clients@));
        }
    }

    /// The clients of the workspace but the focused one, in the order of the ring.
    pub fn others(&self) -> (list: Vec<u64>)
        ensures
            list@ == self.ring().before + self.ring().after,
    {
        let mut list: Vec<u64> = Vec::new();
        let mut i: usize = 0;
        while i < self.clients_prev.len()
            invariant
                i <= self.clients_prev@.len(),
                list@ == self.clients_prev@.take(i as int),
            decreases self.clients_prev@.len() - i,
        {
            list.push(self.clients_prev[i]);
            assert(list@ =~= self.clients_prev@.take(i + 1));
            i += 1;
        }
        assert(list@ =~= self.clients_prev@);
        let mut j: usize = 0;
        while j < self.clients_next.len()
            invariant
                j <= self.clients_next@.len(),
                list@ == self.clients_prev@ + self.clients_next@.take(j as int),
            decreases self.clients_next@.len() - j,
        {
            list.push(self.clients_next[j]);
            assert(list@ =~= self.clients_prev@ + self.clients_next@.take(j + 1));
            j += 1;
        }
        assert(self.clients_next@.take(j as int) =~= self.clients_next@);
        list
    }

    pub fn set_description(&mut self, description: String)
        ensures
            *final(self) == (Workspace { description: Some(description), ..*old(self) }),
    {
        self.description = Some(description);
    }

    /// The focus jumps to the client, one step at a time, so that the
    /// order of the ring stays as it is.
    pub fn set_focus(&mut self, client: u64, out: &mut Vec<Request>)
        ensures
            final(self).same_but_ring(old(self)),
            final(self).ring() == old(self).ring().focus_on(client),
            final(out)@ == old(out)@ + old(self).ring().focus_requests(client),
    {
        if self.client_current == Some(client) {
            out.push(Request::GrabButtons { window: client, focused: true });
            assert(out@ =~= old(out)@ + old(self).ring().focus_requests(client));
            return ;
        }
        if let Some(at) = find_window(&self.clients_prev, client) {
            proof {
                lemma_backward_to(self.ring(), at as int);
            }
            let steps = self.clients_prev.len() - at;
            self.shift_many(FocusShift::Backward, steps, out);
            return ;
        }
        if let Some(at) = find_window(&self.clients_next, client) {
            proof {
                lemma_forward_to(self.ring(), at as int);
            }
            let len = self.clients_next.len();
            assert(at < len);
            self.shift_many(FocusShift::Forward, at + 1, out);
            return ;
        }
        assert(out@ + Seq::<Request>::empty() =~= out@);
    }

    /// The focused client moves to the head of the ring and keeps the focus.
    pub fn zoom(&mut self, out: &mut Vec<Request>)
        ensures
            final(self).same_but_ring(old(self)),
            final(self).ring() == old(self).ring().zoom(),
            final(out)@ == old(out)@ + old(self).ring().zoom_requests(),
    {
        match self.detach_current(out) {
            Some(client) => {
                self.new_client(client, false, out);
                assert(out@ =~= old(out)@ + old(self).ring().zoom_requests());
            },
            None => {},
        }
    }

    /// The clients of the workspace: those before the focus, those after
    /// it, and the focused client last.
    pub fn iter(&self) -> (listing: Vec<u64>)
        ensures
            listing@ == self.ring().listing(),
    {
        let mut listing = self.others();
        if let Some(c) = self.client_current {
            listing.push(c);
        }
        assert(listing@ =~= self.ring().listing());
        listing
    }

    /// The clients of the workspace that the filter accepts, in the order of `iter`.
    pub fn select_clients(&self, clients: &ClientL, filter: ClientFilter) -> (chosen: Vec<u64>)
        ensures
            chosen@ == selected(self.ring().listing(), clients@, filter),
    {
        let listing = self.iter();
        select_from(&listing, clients, filter)
    }

    /// Shows or hides every client of the workspace whose record the list
    /// holds. A client whose place off the screen, or whose width plus
    /// one, is not a 32-bit number is left alone.
    pub fn show(&self, visible: bool, clients: &mut ClientL, out: &mut Vec<Request>)
        ensures
            final(clients)@ == show_all(self.ring().listing(), old(clients)@, visible).0,
            final(out)@ == old(out)@ + show_all(self.ring().listing(), old(clients)@, visible).1,
    {
        let listing = self.iter();
        let mut i: usize = 0;
        assert(listing@.take(0) =~= Seq::<u64>::empty());
        assert(out@ + Seq::<Request>::empty() =~= out@);
        while i < listing.len()
            invariant
                i <= listing@.len(),
                clients@ == show_all(listing@.take(i as int), old(clients)@, visible).0,
                out@ == old(out)@ + show_all(listing@.take(i as int), old(clients)@, visible).1,
            decreases listing@.len() - i,
        {
            assert(listing@.take(i + 1).drop_last() =~= listing@.take(i as int));
            let ghost so_far = show_all(listing@.take(i as int), old(clients)@, visible).1;
            let window = listing[i];
            match find_client(clients, window) {
                Some(at) => {
                    if clients[at].check_show(visible) {
                        clients[at].show(visible, out);
                    }
                },
                None => {},
            }
            assert(out@ =~= old(out)@ + (so_far + show_step(
                show_all(listing@.take(i as int), old(clients)@, visible).0,
                window,
                visible,
            ).1));
            i += 1;
        }
        assert(listing@.take(listing@.len() as int) =~= listing@);
    }

    /// The rectangle that the layout gives to each client that it
    /// arranges, in the order of `iter`.
    pub fn get_layout(&self, clients: &ClientL, rect: Rect) -> (plan: Vec<(u64, Rect)>)
        requires
            layout_fits(&*self.config, rect),
        ensures
            plan@ == self.layout.assignment(&*self.config, self.ring().listing(), clients@, rect),
    {
        self.layout.layout(self, clients, rect)
    }

    /// Gives each client that the layout arranges its rectangle in `area`.
    /// In the workspace of the overview and with the layout of the
    /// overview the rectangles are for show only: the clients keep their
    /// geometry. Elsewhere a maximized client gets the whole area
    /// instead of its tile.
    pub fn place(&self, area: Option<Rect>, clients: &mut ClientL, out: &mut Vec<Request>)
        requires
            area is Some ==> layout_fits(&*self.config, area.unwrap()),
        ensures
            final(clients)@ == self.frame().placed(self.ring(), old(clients)@, area),
            final(out)@ == old(out)@ + self.frame().place_requests(self.ring(), old(clients)@, area),
    {
        match area {
            Some(rect) => {
                let plan = self.get_layout(clients, rect);
                let overview = self.tag == TAG_OVERVIEW || matches!(self.layout, Layout::Overview(_));
                let mut i: usize = 0;
                assert(plan@.take(0) =~= Seq::<(u64, Rect)>::empty());
                assert(out@ + Seq::<Request>::empty() =~= out@);
                while i < plan.len()
                    invariant
                        i <= plan@.len(),
                        clients@ == place_all(plan@.take(i as int), old(clients)@, overview, rect).0,
                        out@ == old(out)@ + place_all(
                            plan@.take(i as int),
                            old(clients)@,
                            overview,
                            rect,
                        ).1,
                    decreases plan@.len() - i,
                {
                    assert(plan@.take(i + 1).drop_last() =~= plan@.take(i as int));
                    let ghost so_far = place_all(plan@.take(i as int), old(clients)@, overview, rect);
                    let (window, tile) = plan[i];
                    match find_client(clients, window) {
                        Some(at) => {
                            let target = if !overview && clients[at].is_maximized() {
                                rect
                            } else {
                                tile
                            };
                            clients[at].resize(target, overview, out);
                        },
                        None => {},
                    }
                    assert(out@ =~= old(out)@ + (so_far.1 + place_step(
                        so_far.0,
                        (window, tile),
                        overview,
                        rect,
                    ).1));
                    i += 1;
                }
                assert(plan@.take(plan@.len() as int) =~= plan@);
            },
            None => {
                assert(out@ + Seq::<Request>::empty() =~= out@);
            },
        }
    }

    /// Brings the floating clients to the front, each with the geometry that it has.
    pub fn refresh_floating(&self, clients: &mut ClientL, out: &mut Vec<Request>)
        ensures
            final(clients)@ == refresh_all(
                selected(self.ring().listing(), old(clients)@, ClientFilter::Floating),
                old(clients)@,
            ).0,
            final(out)@ == old(out)@ + refresh_all(
                selected(self.ring().listing(), old(clients)@, ClientFilter::Floating),
                old(clients)@,
            ).1,
    {
        let floating = self.select_clients(clients, ClientFilter::Floating);
        let mut i: usize = 0;
        assert(floating@.take(0) =~= Seq::<u64>::empty());
        assert(out@ + Seq::<Request>::empty() =~= out@);
        while i < floating.len()
            invariant
                i <= floating@.len(),
                clients@ == refresh_all(floating@.take(i as int), old(clients)@).0,
                out@ == old(out)@ + refresh_all(floating@.take(i as int), old(clients)@).1,
            decreases floating@.len() - i,
        {
            assert(floating@.take(i + 1).drop_last() =~= floating@.take(i as int));
            let ghost so_far = refresh_all(floating@.take(i as int), old(clients)@);
            let window = floating[i];
            match find_client(clients, window) {
                Some(at) => {
                    let rect = clients[at].get_rect();
                    clients[at].resize(rect, false, out);
                    clients[at].raise_window(out);
                },
                None => {},
            }
            assert(out@ =~= old(out)@ + (so_far.1 + refresh_step(so_far.0, window).1));
            i += 1;
        }
        assert(floating@.take(floating@.len() as int) =~= floating@);
    }

    /// Puts the clients that are in fullscreen on top.
    pub fn raise_fullscreen(&self, clients: &ClientL, out: &mut Vec<Request>)
        ensures
            final(out)@ == old(out)@ + raise_all(self.ring().listing(), clients@),
    {
        let listing = self.iter();
        let mut i: usize = 0;
        assert(listing@.take(0) =~= Seq::<u64>::empty());
        assert(out@ + Seq::<Request>::empty() =~= out@);
        while i < listing.len()
            invariant
                i <= listing@.len(),
                out@ == old(out)@ + raise_all(listing@.take(i as int), clients@),
            decreases listing@.len() - i,
        {
            assert(listing@.take(i + 1).drop_last() =~= listing@.take(i as int));
            let ghost so_far = raise_all(listing@.take(i as int), clients@);
            let window = listing[i];
            match find_client(clients, window) {
                Some(at) => {
                    if clients[at].is_fullscreen() {
                        clients[at].raise_window(out);
                    }
                },
                None => {},
            }
            assert(out@ =~= old(out)@ + (so_far + raise_step(clients@, window)));
            i += 1;
        }
        assert(listing@.take(listing@.len() as int) =~= listing@);
    }

    /// The area of the workspace that is left for its clients, if a
    /// layout can work with it.
    pub fn work_area(&self) -> (area: Option<Rect>)
        ensures
            area == self.frame().area(),
            area is Some ==> layout_fits(&*self.config, area.unwrap()),
    {
        let bar_height = if self.rect.x == 0 {
            self.config.bar_height
        } else {
            self.rect.y
        };
        usable(&*self.config, self.rect, bar_height)
    }

    /// Arranges the clients of the workspace in its area: the layout
    /// places those that it arranges, the floating ones come to the front
    /// with the geometry that they have, and those in fullscreen on top.
    pub fn arrange(&self, clients: &mut ClientL, out: &mut Vec<Request>)
        ensures
            final(clients)@ == self.frame().arranged(self.ring(), old(clients)@),
            final(out)@ == old(out)@ + self.frame().arrange_requests(self.ring(), old(clients)@),
    {
        let area = self.work_area();
        self.arrange_in(area, clients, out);
    }

    /// `arrange` in an area that the caller has chosen.
    pub fn arrange_in(&self, area: Option<Rect>, clients: &mut ClientL, out: &mut Vec<Request>)
        requires
            area is Some ==> layout_fits(&*self.config, area.unwrap()),
        ensures
            final(clients)@ == self.frame().arranged_in(self.ring(), old(clients)@, area),
            final(out)@ == old(out)@ + self.frame().arrange_in_requests(
                self.ring(),
                old(clients)@,
                area,
            ),
    {
        self.place(area, clients, out);
        if self.tag != TAG_OVERVIEW {
            self.refresh_floating(clients, out);
        }
        self.raise_fullscreen(clients, out);
        assert(out@ =~= old(out)@ + self.frame().arrange_in_requests(
            self.ring(),
            old(clients)@,
            area,
        ));
    }
}

/// What the display is asked to put the windows below `top`, one below the other.
pub open spec fn stack_chain(top: u64, below: Seq<u64>) -> Seq<Request> {
    Seq::new(
        below.len(),
        |i: int|
            Request::Stack {
                window: below[i],
                sibling: if i == 0 {
                    top
                } else {
                    below[i - 1]
                },
                above: false,
            },
    )
}

impl Frame {
    /// What the display is asked to show the focus: the focused client is
    /// told so; a floating one is raised; a tiled one is put just above
    /// the anchor, and the other tiled clients below it, one below the
    /// other in the order of the ring.
    pub open spec fn restack_requests(self, ring: Ring, clients: Seq<ClientW>) -> Seq<Request> {
        match ring.current {
            Some(window) => seq![Request::Focus { window, focused: true }] + (if floats(
                clients,
                window,
            ) {
                seq![Request::Raise { window }]
            } else {
                seq![Request::Stack { window, sibling: self.anchor_window, above: true }]
                    + stack_chain(
                    window,
                    selected(ring.before + ring.after, clients, ClientFilter::Tiled),
                )
            }),
            None => Seq::empty(),
        }
    }

    /// The area of the workspace that is left for its clients: below the
    /// bar, and smaller than the monitor by the borders of a client. On
    /// the first monitor the bar is as high as the configuration says;
    /// on another monitor the area begins where the monitor begins.
    pub open spec fn area(self) -> Option<Rect> {
        let bar: int = if self.rect.x == 0 {
            self.config.bar_height as int
        } else {
            self.rect.y as int
        };
        usable_area(&self.config, self.rect, bar)
    }

    /// The clients after the workspace was arranged in `area`.
    pub open spec fn arranged_in(self, ring: Ring, clients: Seq<ClientW>, area: Option<Rect>) -> Seq<
        ClientW,
    > {
        let placed = self.placed(ring, clients, area);
        if self.tag != TAG_OVERVIEW {
            refresh_all(selected(ring.listing(), placed, ClientFilter::Floating), placed).0
        } else {
            placed
        }
    }

    /// The clients after the workspace was arranged in its own area.
    pub open spec fn arranged(self, ring: Ring, clients: Seq<ClientW>) -> Seq<ClientW> {
        self.arranged_in(ring, clients, self.area())
    }

    /// Whether the rectangles that the layout gives are for show only,
    /// so that the clients keep the geometry that they have: in the
    /// workspace of the overview, and with the layout of the overview.
    pub open spec fn for_show(self) -> bool {
        self.tag == TAG_OVERVIEW || self.layout is Overview
    }

    /// The clients after each got the rectangle that the layout gives it
    /// in `area`. Without an area nothing is placed.
    pub open spec fn placed(self, ring: Ring, clients: Seq<ClientW>, area: Option<Rect>) -> Seq<
        ClientW,
    > {
        match area {
            Some(rect) => place_all(
                self.layout.assignment(&self.config, ring.listing(), clients, rect),
                clients,
                self.for_show(),
                rect,
            ).0,
            None => clients,
        }
    }

    /// What the display is asked to give each client its place in `area`.
    pub open spec fn place_requests(self, ring: Ring, clients: Seq<ClientW>, area: Option<Rect>) -> Seq<
        Request,
    > {
        match area {
            Some(rect) => place_all(
                self.layout.assignment(&self.config, ring.listing(), clients, rect),
                clients,
                self.for_show(),
                rect,
            ).1,
            None => Seq::empty(),
        }
    }

    /// What the display is asked to bring the floating clients to the
    /// front, once the clients are placed. The overview has no such step.
    pub open spec fn float_requests(self, ring: Ring, placed: Seq<ClientW>) -> Seq<Request> {
        if self.tag != TAG_OVERVIEW {
            refresh_all(selected(ring.listing(), placed, ClientFilter::Floating), placed).1
        } else {
            Seq::empty()
        }
    }

    /// What the display is asked when the workspace is arranged in `area`.
    pub open spec fn arrange_in_requests(
        self,
        ring: Ring,
        clients: Seq<ClientW>,
        area: Option<Rect>,
    ) -> Seq<Request> {
        let placed = self.placed(ring, clients, area);
        self.place_requests(ring, clients, area) + self.float_requests(ring, placed) + raise_all(
            ring.listing(),
            self.arranged_in(ring, clients, area),
        )
    }

    /// What the display is asked when the workspace is arranged in its own area.
    pub open spec fn arrange_requests(self, ring: Ring, clients: Seq<ClientW>) -> Seq<Request> {
        self.arrange_in_requests(ring, clients, self.area())
    }
}

/// The area that is left of a monitor's rectangle below a bar of height
/// `bar`, with room for the borders of a client, if the sizes make sense
/// and the area is one that a layout can work with.
pub open spec fn usable_area(config: &Config, rect: Rect, bar: int) -> Option<Rect> {
    let width = rect.width - 2 * config.border_width;
    let height = rect.height - bar - 2 * config.border_width;
    if config.geometry_ok() && -LAYOUT_LIMIT <= rect.x <= LAYOUT_LIMIT && -LAYOUT_LIMIT <= bar
        <= LAYOUT_LIMIT && -LAYOUT_LIMIT <= rect.x + width <= LAYOUT_LIMIT && -LAYOUT_LIMIT <= bar
        + height <= LAYOUT_LIMIT {
        Some(Rect { x: rect.x, y: bar as i32, width: width as i32, height: height as i32 })
    } else {
        None
    }
}

pub fn usable(config: &Config, rect: Rect, bar: i32) -> (area: Option<Rect>)
    ensures
        area == usable_area(config, rect, bar as int),
        area is Some ==> layout_fits(config, area.unwrap()),
{
    if !config.check_geometry() {
        return None;
    }
    let limit: i64 = LAYOUT_LIMIT as i64;
    let width: i64 = rect.width as i64 - 2 * (config.border_width as i64);
    let height: i64 = rect.height as i64 - bar as i64 - 2 * (config.border_width as i64);
    let right: i64 = rect.x as i64 + width;
    let bottom: i64 = bar as i64 + height;
    if -limit <= rect.x as i64 && rect.x as i64 <= limit && -limit <= bar as i64 && bar as i64
        <= limit && -limit <= right && right <= limit && -limit <= bottom && bottom <= limit {
        Some(Rect { x: rect.x, y: bar, width: width as i32, height: height as i32 })
    } else {
        None
    }
}

/// The windows of the listing that the filter accepts, in their order.
pub fn select_from(listing: &Vec<u64>, clients: &ClientL, filter: ClientFilter) -> (chosen: Vec<u64>)
    ensures
        chosen@ == selected(listing@, clients@, filter),
{
    let mut chosen: Vec<u64> = Vec::new();
    let mut i: usize = 0;
    assert(listing@.take(0) =~= Seq::<u64>::empty());
    while i < listing.len()
        invariant
            i <= listing@.len(),
            chosen@ == selected(listing@.take(i as int), clients@, filter),
        decreases listing@.len() - i,
    {
        assert(listing@.take(i + 1).drop_last() =~= listing@.take(i as int));
        let window = listing[i];
        let keep = match find_client(clients, window) {
            Some(at) => filter.test(&clients[at]),
            None => false,
        };
        if keep {
            chosen.push(window);
        }
        i += 1;
    }
    assert(listing@.take(listing@.len() as int) =~= listing@);
    chosen
}

/// The windows of `listing` whose record the list holds and the filter accepts.
pub open spec fn selected(listing: Seq<u64>, clients: Seq<ClientW>, filter: ClientFilter) -> Seq<
    u64,
>
    decreases listing.len(),
{
    if listing.len() == 0 {
        listing
    } else {
        let rest = selected(listing.drop_last(), clients, filter);
        match client_of(clients, listing.last()) {
            Some(c) => if filter.accepts(c) {
                rest.push(listing.last())
            } else {
                rest
            },
            None => rest,
        }
    }
}

/// Showing or hiding one client: the list after it, and what the display is asked.
pub open spec fn show_step(clients: Seq<ClientW>, window: u64, visible: bool) -> (
    Seq<ClientW>,
    Seq<Request>,
) {
    match position(windows(clients), window) {
        Some(i) => if clients[i].can_show(visible) {
            (clients.update(i, clients[i].shown(visible)), clients[i].show_requests(visible))
        } else {
            (clients, Seq::empty())
        },
        None => (clients, Seq::empty()),
    }
}

/// `show_step` for each window of the listing in turn.
pub open spec fn show_all(listing: Seq<u64>, clients: Seq<ClientW>, visible: bool) -> (
    Seq<ClientW>,
    Seq<Request>,
)
    decreases listing.len(),
{
    if listing.len() == 0 {
        (clients, Seq::empty())
    } else {
        let (so_far, sent) = show_all(listing.drop_last(), clients, visible);
        let (next, more) = show_step(so_far, listing.last(), visible);
        (next, sent + more)
    }
}

/// Placing one client: it gets its tile, or the whole area if it is
/// maximized; in the overview its record stays as it is.
pub open spec fn place_step(clients: Seq<ClientW>, item: (u64, Rect), overview: bool, area: Rect) -> (
    Seq<ClientW>,
    Seq<Request>,
) {
    match position(windows(clients), item.0) {
        Some(i) => {
            let target = if !overview && clients[i].0.is_maximized {
                area
            } else {
                item.1
            };
            (
                clients.update(i, clients[i].resized(target, overview)),
                seq![Request::Configure { window: item.0, rect: target }],
            )
        },
        None => (clients, Seq::empty()),
    }
}

/// `place_step` for each item of the plan in turn.
pub open spec fn place_all(
    plan: Seq<(u64, Rect)>,
    clients: Seq<ClientW>,
    overview: bool,
    area: Rect,
) -> (Seq<ClientW>, Seq<Request>)
    decreases plan.len(),
{
    if plan.len() == 0 {
        (clients, Seq::empty())
    } else {
        let (so_far, sent) = place_all(plan.drop_last(), clients, overview, area);
        let (next, more) = place_step(so_far, plan.last(), overview, area);
        (next, sent + more)
    }
}

/// Bringing one floating client to the front with the geometry that it has.
pub open spec fn refresh_step(clients: Seq<ClientW>, window: u64) -> (Seq<ClientW>, Seq<Request>) {
    match position(windows(clients), window) {
        Some(i) => (
            clients.update(i, clients[i].resized(clients[i].0.rect, false)),
            seq![
                Request::Configure { window, rect: clients[i].0.rect },
                Request::Raise { window },
            ],
        ),
        None => (clients, Seq::empty()),
    }
}

/// `refresh_step` for each window in turn.
pub open spec fn refresh_all(floating: Seq<u64>, clients: Seq<ClientW>) -> (
    Seq<ClientW>,
    Seq<Request>,
)
    decreases floating.len(),
{
    if floating.len() == 0 {
        (clients, Seq::empty())
    } else {
        let (so_far, sent) = refresh_all(floating.drop_last(), clients);
        let (next, more) = refresh_step(so_far, floating.last());
        (next, sent + more)
    }
}

/// What the display is asked to put the client on top if it is in fullscreen.
pub open spec fn raise_step(clients: Seq<ClientW>, window: u64) -> Seq<Request> {
    match client_of(clients, window) {
        Some(c) => if c.0.is_fullscreen {
            seq![Request::Raise { window }]
        } else {
            Seq::empty()
        },
        None => Seq::empty(),
    }
}

/// What the display is asked to put the clients in fullscreen on top.
pub open spec fn raise_all(listing: Seq<u64>, clients: Seq<ClientW>) -> Seq<Request>
    decreases listing.len(),
{
    if listing.len() == 0 {
        Seq::empty()
    } else {
        raise_all(listing.drop_last(), clients) + raise_step(clients, listing.last())
    }
}

/// The windows of the clients, in the order of the list.
pub open spec fn windows(clients: Seq<ClientW>) -> Seq<u64> {
    clients.map_values(|c: ClientW| c.0.window)
}

/// The record of the first client in the list that has the window.
pub open spec fn client_of(clients: Seq<ClientW>, window: u64) -> Option<ClientW> {
    match position(windows(clients), window) {
        Some(i) => Some(clients[i]),
        None => None,
    }
}

/// Whether the list holds the window as a floating client.
pub open spec fn floats(clients: Seq<ClientW>, window: u64) -> bool {
    match client_of(clients, window) {
        Some(c) => c.0.is_floating,
        None => false,
    }
}

/// The index of the first occurrence of the window.
pub fn find_window(list: &VecDeque<u64>, window: u64) -> (at: Option<usize>)
    ensures
        match at {
            Some(i) => position(list@, window) == Some(i as int) && i < list@.len(),
            None => position(list@, window) is None,
        },
{
    let mut i: usize = 0;
    while i < list.len()
        invariant
            i <= list@.len(),
            forall|j: int| 0 <= j < i ==> list@[j] != window,
        decreases list@.len() - i,
    {
        if list[i] == window {
            proof {
                lemma_position(list@, window);
            }
            return Some(i);
        }
        i += 1;
    }
    proof {
        lemma_position(list@, window);
    }
    None
}

/// The index of the first client in the list that has the window.
pub fn find_client(clients: &ClientL, window: u64) -> (at: Option<usize>)
    ensures
        match at {
            Some(i) => position(windows(clients@), window) == Some(i as int) && i < clients@.len()
                && clients@[i as int].0.window == window,
            None => position(windows(clients@), window) is None,
        },
{
    let mut i: usize = 0;
    while i < clients.len()
        invariant
            i <= clients@.len(),
            forall|j: int| 0 <= j < i ==> windows(clients@)[j] != window,
        decreases clients@.len() - i,
    {
        assert(windows(clients@)[i as int] == clients@[i as int].0.window);
        if clients[i].window() == window {
            proof {
                lemma_position(windows(clients@), window);
            }
            return Some(i);
        }
        i += 1;
    }
    proof {
        lemma_position(windows(clients@), window);
    }
    None
}

} // verus!
