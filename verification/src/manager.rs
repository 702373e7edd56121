//! The window manager: the workspaces, the records of their clients, and
//! the operations that keys and events of the display lead to.

use vstd::prelude::*;
use std::rc::Rc;
use crate::atoms::AtomTable;
use crate::client::{ClientFilter, ClientL, ClientW};
use crate::clients::apply_action;
use crate::config::{ClientAction, ClientPredicate, Config, TAG_OVERVIEW};
use crate::display::{Request, WindowState};
use crate::loggers::Logger;
use crate::rect::Rect;
use crate::ring::{lemma_listing_holds, lemma_position, position, FocusShift, Ring};
use crate::state::{
    attach_requests,
    attached,
    by_falling_tag,
    changed,
    classified,
    classify_requests,
    fill_requests,
    filled,
    gathered,
    lemma_insert_by_tag_at,
    pushed,
    remove_all_requests,
    removed_all,
    retagged,
    lemma_ruled_keeps,
    ruled,
    shift_target,
    tag_of,
    without,
    Colors,
    NewWindow,
    State,
};
use crate::workspace::{find_client, select_from, usable, windows, Frame, Workspace};

verus! {

/// The clients that had the focus before, for going back to them.
pub struct BackStack {
    pub stack: Vec<u64>,
}

impl BackStack {
    pub fn new() -> (b: BackStack)
        ensures
            b.stack@.len() == 0,
    {
        BackStack { stack: Vec::new() }
    }

    pub fn peek(&self) -> (top: Option<u64>)
        ensures
            top == if self.stack@.len() > 0 {
                Some(self.stack@.last())
            } else {
                None
            },
    {
        let len = self.stack.len();
        if len > 0 {
            Some(self.stack[len - 1])
        } else {
            None
        }
    }

    pub fn pop(&mut self) -> (top: Option<u64>)
        ensures
            top == if old(self).stack@.len() > 0 {
                Some(old(self).stack@.last())
            } else {
                None
            },
            final(self).stack@ == if old(self).stack@.len() > 0 {
                old(self).stack@.drop_last()
            } else {
                old(self).stack@
            },
    {
        self.stack.pop()
    }

    /// The client goes on top. A client that the stack holds already moves up.
    pub fn push(&mut self, client: u64)
        ensures
            final(self).stack@ == pushed(old(self).stack@, client),
    {
        match find_in(&self.stack, client) {
            Some(index) => {
                let c = self.stack.remove(index);
                self.stack.push(c);
            },
            None => {
                self.stack.push(client);
            },
        }
    }

    pub fn remove(&mut self, client: u64)
        ensures
            final(self).stack@ == without(old(self).stack@, client),
    {
        match find_in(&self.stack, client) {
            Some(index) => {
                self.stack.remove(index);
            },
            None => {},
        }
    }
}

/// The index of the first occurrence of the window.
pub fn find_in(list: &Vec<u64>, window: u64) -> (at: Option<usize>)
    ensures
        match at {
            Some(i) => position(list@, window) == Some(i as int) && i < list@.len(),
            None => position(list@, window) is None,
        },
{
    let mut i: usize = 0;
    while i < list.len()
        invariant
            i <= list@.len(),
            forall|j: int| 0 <= j < i ==> list@[j] != window,
        decreases list@.len() - i,
    {
        if list[i] == window {
            proof {
                lemma_position(list@, window);
            }
            return Some(i);
        }
        i += 1;
    }
    proof {
        lemma_position(list@, window);
    }
    None
}

pub struct WindowManager {
    pub config: Rc<Config>,
    pub anchor_window: u64,
    pub root: u64,
    pub screen_width: i32,
    pub screen_height: i32,
    pub current_tag: u8,
    /// The docks.
    pub special_windows: ClientL,
    pub colors: Colors,
    pub workspaces: Vec<Workspace>,
    pub back_stack: BackStack,
    /// The records of the clients that the workspaces hold.
    pub clients: ClientL,
    pub atoms: AtomTable,
}

pub open spec fn frames_of(workspaces: Seq<Workspace>) -> Seq<Frame> {
    workspaces.map_values(|w: Workspace| w.frame())
}

pub open spec fn rings_of(workspaces: Seq<Workspace>) -> Seq<Ring> {
    workspaces.map_values(|w: Workspace| w.ring())
}

pub open spec fn descriptions_of(workspaces: Seq<Workspace>) -> Seq<Option<String>> {
    workspaces.map_values(|w: Workspace| w.description)
}

/// One workspace has changed, and only its ring.
pub proof fn lemma_ring_changed(before: Seq<Workspace>, after: Seq<Workspace>, i: int)
    requires
        0 <= i < before.len(),
        after.len() == before.len(),
        forall|j: int| 0 <= j < before.len() && j != i ==> after[j] == before[j],
        after[i].same_but_ring(&before[i]),
    ensures
        frames_of(after) == frames_of(before),
        descriptions_of(after) == descriptions_of(before),
        rings_of(after) == rings_of(before).update(i, after[i].ring()),
{
    assert(frames_of(after) =~= frames_of(before));
    assert(descriptions_of(after) =~= descriptions_of(before));
    assert(rings_of(after) =~= rings_of(before).update(i, after[i].ring()));
}

impl WindowManager {
    /// The manager as a value, with the requests that it has made so far.
    pub open spec fn view(&self, out: Seq<Request>) -> State {
        State {
            config: *self.config,
            colors: self.colors,
            atoms: self.atoms,
            root: self.root,
            anchor_window: self.anchor_window,
            frames: frames_of(self.workspaces@),
            descriptions: descriptions_of(self.workspaces@),
            rings: rings_of(self.workspaces@),
            clients: self.clients@,
            special: self.special_windows@,
            current_tag: self.current_tag,
            back: self.back_stack.stack@,
            screen_width: self.screen_width,
            screen_height: self.screen_height,
            out,
        }
    }

    /// What every operation of the manager keeps: see `State::wf`.
    pub open spec fn wf(&self) -> bool {
        self.view(Seq::empty()).wf()
    }

    /// Whether the manager is as every operation keeps it.
    pub fn check(&self) -> (b: bool)
        ensures
            b == self.wf(),
    {
        self.index_of_tag(self.current_tag).is_some() && self.index_of_tag(TAG_OVERVIEW).is_some()
            && self.index_of_tag(self.config.tag_default).is_some()
    }

    /// Everything but the workspaces and the records of the clients is as it is in `other`.
    pub open spec fn same_setup(&self, other: &WindowManager) -> bool {
        &&& self.config == other.config
        &&& self.colors == other.colors
        &&& self.atoms == other.atoms
        &&& self.root == other.root
        &&& self.anchor_window == other.anchor_window
        &&& self.special_windows@ == other.special_windows@
        &&& self.current_tag == other.current_tag
        &&& self.back_stack.stack@ == other.back_stack.stack@
        &&& self.screen_width == other.screen_width
        &&& self.screen_height == other.screen_height
    }

    /// The index of the workspace of the tag.
    pub fn index_of_tag(&self, tag: u8) -> (at: Option<usize>)
        ensures
            match at {
                Some(i) => self.view(Seq::empty()).index_of(tag) == Some(i as int) && i
                    < self.workspaces@.len() && self.workspaces@[i as int].tag == tag,
                None => self.view(Seq::empty()).index_of(tag) is None,
            },
    {
        let ghost tags = self.view(Seq::empty()).tags();
        let mut i: usize = 0;
        while i < self.workspaces.len()
            invariant
                i <= self.workspaces@.len(),
                tags == self.view(Seq::empty()).tags(),
                forall|j: int| 0 <= j < i ==> tags[j] != tag as u64,
            decreases self.workspaces@.len() - i,
        {
            assert(tags[i as int] == self.workspaces@[i as int].tag as u64);
            if self.workspaces[i].tag == tag {
                proof {
                    lemma_position(tags, tag as u64);
                }
                return Some(i);
            }
            i += 1;
        }
        proof {
            lemma_position(tags, tag as u64);
        }
        None
    }

    /// The index of the workspace in use.
    pub fn current_index(&self) -> (at: usize)
        requires
            self.wf(),
        ensures
            at as int == self.view(Seq::empty()).current(),
            at < self.workspaces@.len(),
            self.workspaces@[at as int].tag == self.current_tag,
            self.workspaces@[at as int].ring() == self.view(Seq::empty()).ring(),
            self.workspaces@[at as int].frame() == self.view(Seq::empty()).frame(),
    {
        match self.index_of_tag(self.current_tag) {
            Some(i) => i,
            None => 0,
        }
    }

    pub fn current_workspace(&self) -> (w: &Workspace)
        requires
            self.wf(),
        ensures
            *w == self.workspaces@[self.view(Seq::empty()).current()],
            w.ring() == self.view(Seq::empty()).ring(),
            w.frame() == self.view(Seq::empty()).frame(),
    {
        let at = self.current_index();
        &self.workspaces[at]
    }

    pub fn current_focused(&self) -> (client: Option<u64>)
        requires
            self.wf(),
        ensures
            client == self.view(Seq::empty()).focused(),
    {
        self.current_workspace().get_current_focused()
    }

    /// The clients of every workspace but the overview, workspace by workspace.
    pub fn all_clients(&self) -> (all: Vec<u64>)
        ensures
            all@ == self.view(Seq::empty()).all_clients(),
    {
        let ghost s = self.view(Seq::empty());
        let mut all: Vec<u64> = Vec::new();
        let mut i: usize = 0;
        while i < self.workspaces.len()
            invariant
                i <= self.workspaces@.len(),
                s == self.view(Seq::empty()),
                all@ == gathered(s.frames, s.rings, i as nat),
            decreases self.workspaces@.len() - i,
        {
            assert(s.frames[i as int] == self.workspaces@[i as int].frame());
            assert(s.rings[i as int] == self.workspaces@[i as int].ring());
            if self.workspaces[i].tag != TAG_OVERVIEW {
                let mut listing = self.workspaces[i].iter();
                all.append(&mut listing);
            }
            i += 1;
        }
        all
    }

    pub fn current_clients(&self) -> (listing: Vec<u64>)
        requires
            self.wf(),
        ensures
            listing@ == self.view(Seq::empty()).ring().listing(),
    {
        self.current_workspace().iter()
    }

    /// The text that the logger makes of what the manager holds now: the
    /// logger is told the configuration, the workspaces, the records,
    /// the clients of all workspaces but the overview, the tag in use,
    /// the clients of the workspace in use and the focused client.
    pub fn status<L: Logger>(&self, logger: &mut L) -> (text: String)
        requires
            self.wf(),
        ensures
            old(logger).tells(
                &*self.config,
                self.workspaces@,
                self.clients@,
                self.view(Seq::empty()).all_clients(),
                self.current_tag,
                self.view(Seq::empty()).ring().listing(),
                self.view(Seq::empty()).focused(),
                text@,
            ),
    {
        let all_clients = self.all_clients();
        let current_clients = self.current_clients();
        let current_focused = self.current_focused();
        logger.dump(
            &*self.config,
            &self.workspaces,
            &self.clients,
            &all_clients,
            self.current_tag,
            &current_clients,
            current_focused,
        )
    }

    /// Tells the status bar that something has changed.
    pub fn do_log(&self, out: &mut Vec<Request>)
        ensures
            self.view(final(out)@) == self.view(old(out)@).logged(),
    {
        out.push(Request::Log);
        assert(out@ =~= old(out)@ + seq![Request::Log]);
    }

    /// Writes the published list of managed windows anew.
    pub fn update_client_list(&self, out: &mut Vec<Request>)
        ensures
            self.view(final(out)@) == self.view(old(out)@).client_list_updated(),
    {
        out.push(Request::ClearClientList);
        let all = self.all_clients();
        let ghost wanted = all@.map_values(|window: u64| Request::AppendClientList { window });
        let mut i: usize = 0;
        while i < all.len()
            invariant
                i <= all@.len(),
                wanted == all@.map_values(|window: u64| Request::AppendClientList { window }),
                out@ == old(out)@ + seq![Request::ClearClientList] + wanted.take(i as int),
            decreases all@.len() - i,
        {
            out.push(Request::AppendClientList { window: all[i] });
            assert(out@ =~= old(out)@ + seq![Request::ClearClientList] + wanted.take(i + 1));
            i += 1;
        }
        assert(out@ =~= old(out)@ + (seq![Request::ClearClientList] + wanted));
    }

    /// Brings the screen up to date: hides the workspaces that share the
    /// monitor of the one in use, makes the overview anew if it is in
    /// use, lays out the workspace in use and shows the focus.
    pub fn arrange_windows(&mut self, out: &mut Vec<Request>)
        requires
            old(self).wf(),
        ensures
            final(self).wf(),
            final(self).view(final(out)@) == old(self).view(old(out)@).arranged(),
    {
        let ghost start = self.view(out@);
        let cur = self.current_index();
        let screen_rect = self.workspaces[cur].rect;
        let mut i: usize = 0;
        while i < self.workspaces.len()
            invariant
                i <= self.workspaces@.len(),
                self.wf(),
                start.wf(),
                cur as int == start.current(),
                screen_rect == start.frame().rect,
                start == old(self).view(old(out)@),
                self.workspaces@ == old(self).workspaces@,
                self.same_setup(old(self)),
                self.view(out@) == start.others_hidden(i as nat),
            decreases self.workspaces@.len() - i,
        {
            let tag = self.workspaces[i].tag;
            let rect = self.workspaces[i].rect;
            assert(start.frames[i as int] == self.workspaces@[i as int].frame());
            assert(start.rings[i as int] == self.workspaces@[i as int].ring());
            if tag != TAG_OVERVIEW && tag != self.current_tag && self.current_tag != TAG_OVERVIEW
                && screen_rect.x == rect.x && screen_rect.y == rect.y {
                assert(start.hides(i as int));
                self.workspaces[i].show(false, &mut self.clients, out);
            } else {
                assert(!start.hides(i as int));
            }
            i += 1;
        }
        let ghost hidden = self.view(out@);
        if self.current_tag == TAG_OVERVIEW {
            let all = self.all_clients();
            let settled = select_from(&all, &self.clients, ClientFilter::Settled);
            let sorted = sort_by_tag(&settled, &self.clients);
            assert(sorted@ == hidden.overview_clients());
            self.workspaces[cur].clear();
            let mut k: usize = 0;
            assert(sorted@.take(0) =~= Seq::<u64>::empty());
            assert(out@ + Seq::<Request>::empty() =~= out@);
            while k < sorted.len()
                invariant
                    k <= sorted@.len(),
                    cur < self.workspaces@.len(),
                    self.workspaces@.len() == old(self).workspaces@.len(),
                    forall|j: int|
                        0 <= j < self.workspaces@.len() && j != cur ==> self.workspaces@[j] == old(self).workspaces@[j],
                    self.workspaces@[cur as int].same_but_ring(&old(self).workspaces@[cur as int]),
                    self.workspaces@[cur as int].ring() == filled(
                        Ring::empty(),
                        sorted@.take(k as int),
                    ),
                    out@ == hidden.out + fill_requests(Ring::empty(), sorted@.take(k as int)),
                    self.clients@ == hidden.clients,
                    self.same_setup(old(self)),
                decreases sorted@.len() - k,
            {
                assert(sorted@.take(k + 1).drop_last() =~= sorted@.take(k as int));
                let ghost sent = fill_requests(Ring::empty(), sorted@.take(k as int));
                let ghost ring = self.workspaces@[cur as int].ring();
                self.workspaces[cur].new_client(sorted[k], false, out);
                assert(out@ =~= hidden.out + (sent + ring.insert_requests(sorted@[k as int], false)));
                k += 1;
            }
            assert(sorted@.take(sorted@.len() as int) =~= sorted@);
            proof {
                lemma_ring_changed(old(self).workspaces@, self.workspaces@, cur as int);
            }
        }
        assert(self.view(out@) == hidden.overview_rebuilt());
        let ghost rebuilt = self.view(out@);
        assert(rebuilt.frames == start.frames);
        assert(rebuilt.current() == cur as int);
        assert(rebuilt.frame() == self.workspaces@[cur as int].frame());
        assert(rebuilt.ring() == self.workspaces@[cur as int].ring());
        let area = usable(
            &*self.workspaces[cur].config,
            screen_rect,
            self.workspaces[cur].config.bar_height,
        );
        assert(area == rebuilt.area());
        self.workspaces[cur].arrange_in(area, &mut self.clients, out);
        self.workspaces[cur].restack(&self.clients, out);
        assert(out@ =~= rebuilt.out + (rebuilt.frame().arrange_in_requests(
            rebuilt.ring(),
            rebuilt.clients,
            rebuilt.area(),
        ) + rebuilt.frame().restack_requests(
            rebuilt.ring(),
            rebuilt.frame().arranged_in(rebuilt.ring(), rebuilt.clients, rebuilt.area()),
        )));
    }

    /// A new client enters the ring of the workspace with index `at`.
    pub(crate) fn ring_insert(&mut self, at: usize, client: u64, at_focus: bool, out: &mut Vec<Request>)
        requires
            old(self).wf(),
            at < old(self).workspaces@.len(),
        ensures
            final(self).wf(),
            final(self).view(final(out)@) == old(self).view(old(out)@).ring_inserted(
                at as int,
                client,
                at_focus,
            ),
    {
        self.workspaces[at].new_client(client, at_focus, out);
        proof {
            lemma_ring_changed(old(self).workspaces@, self.workspaces@, at as int);
        }
    }

    /// A client leaves the ring of the workspace with index `at`.
    pub(crate) fn ring_remove(&mut self, at: usize, client: u64, out: &mut Vec<Request>)
        requires
            old(self).wf(),
            at < old(self).workspaces@.len(),
        ensures
            final(self).wf(),
            final(self).view(final(out)@) == old(self).view(old(out)@).ring_removed(
                at as int,
                client,
            ),
    {
        self.workspaces[at].remove_client(client, out);
        proof {
            lemma_ring_changed(old(self).workspaces@, self.workspaces@, at as int);
        }
    }

    /// The tag of the client changes in its record.
    pub(crate) fn retag(&mut self, client: u64, tag: u8)
        ensures
            final(self).same_setup(old(self)),
            final(self).workspaces@ == old(self).workspaces@,
            final(self).clients@ == changed(old(self).clients@, client, |c: ClientW| c.with_tag(tag)),
    {
        match find_client(&self.clients, client) {
            Some(i) => {
                self.clients[i].set_tag(tag);
            },
            None => {},
        }
    }

    /// Shows on the screen which client of the workspace in use has the focus.
    pub(crate) fn restack(&self, out: &mut Vec<Request>)
        requires
            self.wf(),
        ensures
            self.view(final(out)@) == self.view(old(out)@).restacked(),
    {
        let cur = self.current_index();
        self.workspaces[cur].restack(&self.clients, out);
    }

    /// Gives the focus of the workspace in use to the client.
    pub(crate) fn focus_here(&mut self, client: u64, out: &mut Vec<Request>)
        requires
            old(self).wf(),
        ensures
            final(self).wf(),
            final(self).view(final(out)@) == old(self).view(old(out)@).focused_here(client),
    {
        let cur = self.current_index();
        self.workspaces[cur].set_focus(client, out);
        proof {
            lemma_ring_changed(old(self).workspaces@, self.workspaces@, cur as int);
        }
        self.restack(out);
        self.do_log(out);
    }

    /// Goes to the workspace of the tag, and takes the sticky clients along.
    pub(crate) fn move_to(&mut self, tag: u8, target: usize, out: &mut Vec<Request>)
        requires
            old(self).wf(),
            tag != old(self).current_tag,
            old(self).view(Seq::empty()).index_of(tag) == Some(target as int),
            target < old(self).workspaces@.len(),
        ensures
            final(self).wf(),
            final(self).view(final(out)@) == old(self).view(old(out)@).moved_to(tag),
    {
        let ghost start = self.view(out@);
        if tag == TAG_OVERVIEW {
            self.current_tag = tag;
            return ;
        }
        let source = self.current_index();
        let sticky = self.workspaces[source].select_clients(&self.clients, ClientFilter::Sticky);
        assert(sticky@ == start.sticky());
        let ghost ring = start.ring();
        let mut i: usize = 0;
        assert(sticky@.take(0) =~= Seq::<u64>::empty());
        assert(start.with_ring(source as int, ring).sent(Seq::empty()) == start) by {
            assert(start.rings.update(source as int, ring) =~= start.rings);
            assert(start.out + Seq::<Request>::empty() =~= start.out);
        }
        while i < sticky.len()
            invariant
                i <= sticky@.len(),
                self.wf(),
                source < self.workspaces@.len(),
                source as int == start.current(),
                ring == start.ring(),
                start == old(self).view(old(out)@),
                self.view(out@) == start.with_ring(
                    source as int,
                    removed_all(ring, sticky@.take(i as int)),
                ).sent(remove_all_requests(ring, sticky@.take(i as int))),
            decreases sticky@.len() - i,
        {
            assert(sticky@.take(i + 1).drop_last() =~= sticky@.take(i as int));
            let ghost before = self.view(out@);
            self.ring_remove(source, sticky[i], out);
            proof {
                let so_far = removed_all(ring, sticky@.take(i as int));
                let sent = remove_all_requests(ring, sticky@.take(i as int));
                assert(before.rings[source as int] == so_far);
                assert(start.rings.update(source as int, so_far).update(
                    source as int,
                    so_far.remove(sticky@[i as int]),
                ) =~= start.rings.update(source as int, so_far.remove(sticky@[i as int])));
                assert((start.out + sent) + so_far.remove_requests(sticky@[i as int]) =~= start.out
                    + (sent + so_far.remove_requests(sticky@[i as int])));
            }
            i += 1;
        }
        assert(sticky@.take(sticky@.len() as int) =~= sticky@);
        self.current_tag = tag;
        let ghost left = start.with_ring(source as int, removed_all(ring, sticky@)).sent(
            remove_all_requests(ring, sticky@),
        );
        let ghost there = left.on_tag(tag);
        let ghost landing = left.rings[target as int];
        assert(self.view(out@) == there);
        let mut k: usize = 0;
        assert(there.with_clients(there.clients).with_ring(target as int, landing).sent(
            Seq::empty(),
        ) == there) by {
            assert(there.rings.update(target as int, landing) =~= there.rings);
            assert(there.out + Seq::<Request>::empty() =~= there.out);
        }
        while k < sticky.len()
            invariant
                k <= sticky@.len(),
                self.wf(),
                target < self.workspaces@.len(),
                landing == there.rings[target as int],
                there.rings.len() == self.workspaces@.len(),
                self.view(out@) == there.with_clients(
                    retagged(there.clients, sticky@.take(k as int), tag),
                ).with_ring(target as int, attached(landing, sticky@.take(k as int))).sent(
                    attach_requests(landing, sticky@.take(k as int)),
                ),
            decreases sticky@.len() - k,
        {
            assert(sticky@.take(k + 1).drop_last() =~= sticky@.take(k as int));
            let ghost before = self.view(out@);
            self.retag(sticky[k], tag);
            self.ring_insert(target, sticky[k], true, out);
            proof {
                let so_far = attached(landing, sticky@.take(k as int));
                let sent = attach_requests(landing, sticky@.take(k as int));
                assert(before.rings[target as int] == so_far);
                assert(there.rings.update(target as int, so_far).update(
                    target as int,
                    so_far.insert(sticky@[k as int], true),
                ) =~= there.rings.update(target as int, so_far.insert(sticky@[k as int], true)));
                assert((there.out + sent) + so_far.insert_requests(sticky@[k as int], true)
                    =~= there.out + (sent + so_far.insert_requests(sticky@[k as int], true)));
            }
            k += 1;
        }
    }

    /// After a change of tag: remembers the client that had the focus,
    /// and shows which client has it now.
    pub(crate) fn settle(&mut self, before: Option<u64>, out: &mut Vec<Request>)
        requires
            old(self).wf(),
        ensures
            final(self).wf(),
            final(self).view(final(out)@) == old(self).view(old(out)@).settled(before),
    {
        match self.current_focused() {
            Some(client) => {
                if let Some(old_client) = before {
                    if old_client != client {
                        self.back_stack.push(old_client);
                    }
                }
                self.focus_here(client, out);
            },
            None => {
                if let Some(old_client) = before {
                    self.back_stack.push(old_client);
                }
            },
        }
    }

    /// Goes to the tag. Nothing happens if the manager is there already,
    /// or if no workspace has that tag.
    pub fn select_tag(&mut self, tag: u8, out: &mut Vec<Request>)
        requires
            old(self).wf(),
        ensures
            final(self).wf(),
            final(self).view(final(out)@) == old(self).view(old(out)@).tag_selected(tag),
    {
        if tag == self.current_tag {
            return ;
        }
        let target = match self.index_of_tag(tag) {
            Some(i) => i,
            None => {
                return ;
            },
        };
        let old_client = self.current_focused();
        self.move_to(tag, target, out);
        out.push(Request::FocusRoot);
        assert(out@ =~= old(self).view(old(out)@).moved_to(tag).out + seq![Request::FocusRoot]);
        self.arrange_windows(out);
        self.settle(old_client, out);
        self.do_log(out);
    }

    /// Goes back to the client that had the focus before.
    pub fn toggle_back(&mut self, out: &mut Vec<Request>)
        requires
            old(self).wf(),
        ensures
            final(self).wf(),
            final(self).view(final(out)@) == old(self).view(old(out)@).toggled_back(),
    {
        if let Some(client) = self.back_stack.pop() {
            match find_client(&self.clients, client) {
                Some(i) => {
                    let tag = self.clients[i].tag();
                    self.select_tag(tag, out);
                    self.set_focus(client, out);
                },
                None => {},
            }
        }
    }

    /// Goes to the tag of the client and gives it the focus.
    pub fn set_focus(&mut self, client: u64, out: &mut Vec<Request>)
        requires
            old(self).wf(),
        ensures
            final(self).wf(),
            final(self).view(final(out)@) == old(self).view(old(out)@).focus_set(client),
    {
        match find_client(&self.clients, client) {
            Some(i) => {
                let tag = self.clients[i].tag();
                self.select_tag(tag, out);
                self.focus_here(client, out);
            },
            None => {},
        }
    }

    /// Takes the focused client to the tag and goes there.
    pub fn add_tag(&mut self, tag: u8, out: &mut Vec<Request>)
        requires
            old(self).wf(),
        ensures
            final(self).wf(),
            final(self).view(final(out)@) == old(self).view(old(out)@).tag_added(tag),
    {
        if self.current_tag == TAG_OVERVIEW || tag == TAG_OVERVIEW {
            return ;
        }
        let target = match self.index_of_tag(tag) {
            Some(i) => i,
            None => {
                return ;
            },
        };
        let cur = self.current_index();
        let current_client = self.workspaces[cur].detach_current(out);
        proof {
            lemma_ring_changed(old(self).workspaces@, self.workspaces@, cur as int);
        }
        if let Some(client) = current_client {
            self.retag(client, tag);
            self.ring_insert(target, client, false, out);
        }
        self.select_tag(tag, out);
    }

    pub fn toggle_maximize(&mut self, out: &mut Vec<Request>)
        requires
            old(self).wf(),
        ensures
            final(self).wf(),
            final(self).view(final(out)@) == old(self).view(old(out)@).maximize_toggled(),
    {
        if self.current_tag != TAG_OVERVIEW {
            if let Some(client) = self.current_focused() {
                if let Some(i) = find_client(&self.clients, client) {
                    let maximized = self.clients[i].is_maximized();
                    self.clients[i].set_maximized(!maximized);
                    self.arrange_windows(out);
                }
            }
        }
    }

    pub fn toggle_floating(&mut self, out: &mut Vec<Request>)
        requires
            old(self).wf(),
        ensures
            final(self).wf(),
            final(self).view(final(out)@) == old(self).view(old(out)@).floating_toggled(),
    {
        if let Some(client) = self.current_focused() {
            if let Some(i) = find_client(&self.clients, client) {
                let floating = self.clients[i].is_floating();
                self.clients[i].set_floating(!floating);
                self.arrange_windows(out);
            }
        }
    }

    /// The client enters or leaves fullscreen on the monitor of its tag.
    pub fn set_fullscreen(&mut self, client: u64, fullscreen: bool, out: &mut Vec<Request>)
        requires
            old(self).wf(),
        ensures
            final(self).wf(),
            final(self).view(final(out)@) == old(self).view(old(out)@).fullscreen_set(
                client,
                fullscreen,
            ),
    {
        if let Some(i) = find_client(&self.clients, client) {
            let tag = self.clients[i].tag();
            if let Some(at) = self.index_of_tag(tag) {
                let rect = self.workspaces[at].rect;
                assert(old(self).view(old(out)@).frames[at as int].rect == rect);
                self.clients[i].set_fullscreen(rect, fullscreen, out);
                if !fullscreen {
                    self.arrange_windows(out);
                }
            }
        }
    }

    pub fn set_focus_index(&mut self, index: Option<usize>, out: &mut Vec<Request>)
        requires
            old(self).wf(),
        ensures
            final(self).wf(),
            final(self).view(final(out)@) == old(self).view(old(out)@).focus_index_set(index),
    {
        let clients = self.current_clients();
        let i = match index {
            Some(i) => i,
            None => if clients.len() == 0 {
                0
            } else {
                clients.len() - 1
            },
        };
        if i < clients.len() {
            self.set_focus(clients[i], out);
        }
    }

    /// The focus goes around the ring: forward if `inc` is positive, else backward.
    pub fn shift_focus(&mut self, inc: i32, out: &mut Vec<Request>)
        requires
            old(self).wf(),
        ensures
            final(self).wf(),
            final(self).view(final(out)@) == old(self).view(old(out)@).focus_shifted(inc),
    {
        let cur = self.current_index();
        let direction = if inc > 0 {
            FocusShift::Forward
        } else {
            FocusShift::Backward
        };
        self.workspaces[cur].circle_focus(direction, &self.clients, out);
        proof {
            lemma_ring_changed(old(self).workspaces@, self.workspaces@, cur as int);
        }
        self.do_log(out);
        proof {
            let start = old(self).view(old(out)@);
            let ring = start.ring().circle(direction);
            assert(out@ =~= (start.out + (start.ring().circle_requests(direction)
                + start.frame().restack_requests(ring, start.clients))) + seq![Request::Log]);
        }
    }

    /// Asks the focused client to close its window.
    pub fn kill_client(&mut self, out: &mut Vec<Request>)
        requires
            old(self).wf(),
        ensures
            final(self).wf(),
            final(self).view(final(out)@) == old(self).view(old(out)@).client_killed(),
    {
        let cur = self.current_index();
        self.workspaces[cur].kill_client(out);
        self.arrange_windows(out);
    }

    /// The focused client moves to the head of the ring.
    pub fn zoom(&mut self, out: &mut Vec<Request>)
        requires
            old(self).wf(),
        ensures
            final(self).wf(),
            final(self).view(final(out)@) == old(self).view(old(out)@).zoomed(),
    {
        let cur = self.current_index();
        self.workspaces[cur].zoom(out);
        proof {
            lemma_ring_changed(old(self).workspaces@, self.workspaces@, cur as int);
        }
        self.arrange_windows(out);
    }

    /// The handle of the client with the window, if a workspace other
    /// than the overview holds it.
    pub fn get_client_by_window(&self, window: u64) -> (client: Option<u64>)
        ensures
            client == if self.view(Seq::empty()).manages(window) {
                Some(window)
            } else {
                None
            },
    {
        let ghost s = self.view(Seq::empty());
        let mut i: usize = 0;
        while i < self.workspaces.len()
            invariant
                i <= self.workspaces@.len(),
                s == self.view(Seq::empty()),
                !gathered(s.frames, s.rings, i as nat).contains(window),
            decreases self.workspaces@.len() - i,
        {
            assert(s.frames[i as int] == self.workspaces@[i as int].frame());
            assert(s.rings[i as int] == self.workspaces@[i as int].ring());
            let ghost so_far = gathered(s.frames, s.rings, i as nat);
            let ghost listing = s.rings[i as int].listing();
            proof {
                lemma_listing_holds(s.rings[i as int], window);
            }
            if self.workspaces[i].tag != TAG_OVERVIEW {
                if let Some(c) = self.workspaces[i].get_client_by_window(window) {
                    proof {
                        let k = choose|k: int| 0 <= k < listing.len() && listing[k] == window;
                        assert((so_far + listing)[so_far.len() + k] == window);
                        lemma_gathered_grows(s.frames, s.rings, (i + 1) as nat, s.frames.len(), window);
                    }
                    return Some(c);
                }
                assert forall|k: int| 0 <= k < (so_far + listing).len() implies (so_far + listing)[k]
                    != window by {
                    if k < so_far.len() {
                        assert(so_far[k] == (so_far + listing)[k]);
                    } else {
                        assert(listing[k - so_far.len()] == (so_far + listing)[k]);
                    }
                }
            }
            i += 1;
        }
        None
    }

    /// Moves the focused client, if it floats, by (`delta_x`, `delta_y`)
    /// as far as the screen lets it.
    pub fn shift_window(&mut self, delta_x: i32, delta_y: i32, out: &mut Vec<Request>)
        requires
            old(self).wf(),
        ensures
            final(self).wf(),
            final(self).view(final(out)@) == old(self).view(old(out)@).window_shifted(
                delta_x,
                delta_y,
            ),
    {
        if let Some(client) = self.current_focused() {
            if let Some(i) = find_client(&self.clients, client) {
                if !self.clients[i].is_floating() {
                    return ;
                }
                let screen_rect = self.current_workspace().rect;
                let rect = self.clients[i].get_rect();
                let mut target_x: i64 = rect.x as i64 + delta_x as i64;
                let mut target_y: i64 = rect.y as i64 + delta_y as i64;
                if target_x < screen_rect.x as i64 {
                    target_x = screen_rect.x as i64;
                }
                if target_x > screen_rect.width as i64 - rect.width as i64 {
                    target_x = screen_rect.width as i64 - rect.width as i64;
                }
                if target_y < screen_rect.y as i64 {
                    target_y = screen_rect.y as i64;
                }
                if target_y > screen_rect.height as i64 - rect.height as i64 {
                    target_y = screen_rect.height as i64 - rect.height as i64;
                }
                assert((target_x as int, target_y as int) == shift_target(
                    rect,
                    screen_rect,
                    delta_x as int,
                    delta_y as int,
                ));
                if i32::MIN as i64 <= target_x && target_x <= i32::MAX as i64 && i32::MIN as i64
                    <= target_y && target_y <= i32::MAX as i64 {
                    self.clients[i].move_window(target_x as i32, target_y as i32, true, out);
                    out.push(Request::Sync);
                    assert(out@ =~= old(out)@ + seq![
                        Request::Move { window: client, x: target_x as i32, y: target_y as i32 },
                        Request::Sync,
                    ]);
                }
            }
        }
    }

    /// Makes the focused client, if it floats, wider by `delta`.
    pub fn expand_width(&mut self, delta: i32, out: &mut Vec<Request>)
        requires
            old(self).wf(),
        ensures
            final(self).wf(),
            final(self).view(final(out)@) == old(self).view(old(out)@).width_expanded(delta),
    {
        if let Some(client) = self.current_focused() {
            if let Some(i) = find_client(&self.clients, client) {
                if !self.clients[i].is_floating() {
                    return ;
                }
                let screen_rect = self.current_workspace().rect;
                let mut rect = self.clients[i].get_rect();
                let mut width: i64 = delta as i64 + rect.width as i64;
                if width > screen_rect.width as i64 {
                    width = screen_rect.width as i64;
                }
                if width < 10 {
                    return ;
                }
                rect.width = width as i32;
                self.clients[i].resize(rect, false, out);
                assert(out@ =~= old(out)@ + seq![Request::Configure { window: client, rect }]);
            }
        }
    }

    /// Makes the focused client, if it floats, higher by `delta`.
    pub fn expand_height(&mut self, delta: i32, out: &mut Vec<Request>)
        requires
            old(self).wf(),
        ensures
            final(self).wf(),
            final(self).view(final(out)@) == old(self).view(old(out)@).height_expanded(delta),
    {
        if let Some(client) = self.current_focused() {
            if let Some(i) = find_client(&self.clients, client) {
                if !self.clients[i].is_floating() {
                    return ;
                }
                let screen_rect = self.current_workspace().rect;
                let mut rect = self.clients[i].get_rect();
                let mut height: i64 = delta as i64 + rect.height as i64;
                if height > screen_rect.height as i64 {
                    height = screen_rect.height as i64;
                }
                if height < 10 {
                    return ;
                }
                rect.height = height as i32;
                self.clients[i].resize(rect, false, out);
                assert(out@ =~= old(out)@ + seq![Request::Configure { window: client, rect }]);
            }
        }
    }

    /// The tag that a new client gets.
    pub fn landing_tag(&self) -> (tag: u8)
        ensures
            tag == self.view(Seq::empty()).landing_tag(),
    {
        if self.current_tag == TAG_OVERVIEW {
            self.config.tag_default
        } else {
            self.current_tag
        }
    }

    /// Makes the record of a new client, and asks the display for what a
    /// new client needs.
    pub fn new_record(&self, info: NewWindow, out: &mut Vec<Request>) -> (made: ClientW)
        requires
            self.wf(),
        ensures
            self.view(old(out)@).makes(info, made),
            self.view(final(out)@) == self.view(old(out)@).asked_for(info, made),
    {
        let ghost s = self.view(out@);
        let tag = self.landing_tag();
        let window = info.window;
        let mut client = ClientW::new(self.root, window, self.anchor_window, self.current_tag, info.class);
        client.update_title(info.net_name, info.name);
        client.set_tag(tag);
        client.0.set_size(info.rect.x, info.rect.y, info.rect.width, info.rect.height);
        client.0.save_window_size();
        client.set_border_color(self.colors.normal_border_color, self.colors.focused_border_color);
        out.push(Request::AppendClientList { window });
        let at = match self.index_of_tag(tag) {
            Some(i) => i,
            None => 0,
        };
        let area = self.workspaces[at].rect;
        assert(s.frames[at as int] == self.workspaces@[at as int].frame());
        let ghost first = client;
        classify(&mut client, area, info.state, info.window_type, &self.atoms, out);
        if !client.is_dock() {
            out.push(Request::Border { window, width: self.config.border_width });
            client.configure(out);
        }
        out.push(Request::Listen { window });
        client.grab_buttons(false, out);
        client.set_state(WindowState::Normal, out);
        out.push(Request::MapWindow { window });
        let ghost typed = client;
        apply_rules(
            &mut client,
            &self.config.rules,
            info.window_type,
            self.atoms.net_wm_window_type_dialog,
        );
        proof {
            lemma_ruled_keeps(
                typed,
                self.config.rules@,
                info.window_type,
                self.atoms.net_wm_window_type_dialog,
            );
            assert(first == s.first_record(info, client));
            assert(typed == s.classified_record(info, client));
            assert(out@ =~= s.asked_for(info, client).out);
        }
        client
    }

    /// Takes a new client with its record: a dock goes to the docks, any
    /// other client to the ring of the landing tag.
    pub fn adopt(&mut self, made: ClientW, out: &mut Vec<Request>)
        requires
            old(self).wf(),
        ensures
            final(self).wf(),
            final(self).view(final(out)@) == old(self).view(old(out)@).adopted(made),
    {
        if made.is_dock() {
            self.special_windows.push(made);
        } else {
            let tag = self.landing_tag();
            let at = match self.index_of_tag(tag) {
                Some(i) => i,
                None => 0,
            };
            let window = made.window();
            let floating = made.is_floating();
            self.clients.push(made);
            self.ring_insert(at, window, floating, out);
            self.arrange_windows(out);
        }
    }

    /// Takes a window under management.
    pub fn manage_window(&mut self, info: NewWindow, out: &mut Vec<Request>)
        requires
            old(self).wf(),
        ensures
            final(self).wf(),
            exists|made: ClientW| #[trigger]
                old(self).view(old(out)@).makes(info, made) && final(self).view(final(out)@) == old(self).view(old(out)@).window_managed(info, made),
    {
        let made = self.new_record(info, out);
        self.adopt(made, out);
    }

    /// Gives a client up, because its window was destroyed or taken from the screen.
    pub fn unmanage(&mut self, client: u64, destroy: bool, out: &mut Vec<Request>)
        requires
            old(self).wf(),
        ensures
            final(self).wf(),
            final(self).view(final(out)@) == old(self).view(old(out)@).unmanaged(client, destroy),
    {
        if self.get_client_by_window(client).is_none() {
            return ;
        }
        let at = match find_client(&self.clients, client) {
            Some(i) => i,
            None => {
                return ;
            },
        };
        let tag = self.clients[at].tag();
        if !destroy {
            self.clients[at].set_state(WindowState::Withdrawn, out);
            assert(out@ =~= old(out)@ + seq![
                Request::State { window: client, state: WindowState::Withdrawn },
            ]);
        }
        if self.current_tag == TAG_OVERVIEW {
            self.take_from(tag, client, out);
        }
        self.back_stack.remove(client);
        self.take_from(tag, client, out);
        match find_client(&self.clients, client) {
            Some(i) => {
                self.clients.remove(i);
            },
            None => {},
        }
        self.update_client_list(out);
        self.arrange_windows(out);
    }

    /// The client leaves the ring of the workspace of the tag, if there is one.
    pub(crate) fn take_from(&mut self, tag: u8, client: u64, out: &mut Vec<Request>)
        requires
            old(self).wf(),
        ensures
            final(self).wf(),
            final(self).view(final(out)@) == old(self).view(old(out)@).taken_from(tag, client),
    {
        match self.index_of_tag(tag) {
            Some(i) => {
                self.ring_remove(i, client, out);
            },
            None => {},
        }
    }

    /// Takes note of what a managed window publishes about itself.
    pub fn update_window_type(
        &mut self,
        client: u64,
        state: Option<u64>,
        window_type: Option<u64>,
        out: &mut Vec<Request>,
    )
        requires
            old(self).wf(),
        ensures
            final(self).wf(),
            final(self).view(final(out)@) == old(self).view(old(out)@).window_classified(
                client,
                state,
                window_type,
            ),
    {
        if let Some(i) = find_client(&self.clients, client) {
            let tag = self.clients[i].tag();
            if let Some(at) = self.index_of_tag(tag) {
                let rect = self.workspaces[at].rect;
                assert(old(self).view(old(out)@).frames[at as int].rect == rect);
                classify(&mut self.clients[i], rect, state, window_type, &self.atoms, out);
            }
        }
    }
}

/// Takes note of what a window publishes about itself.
pub fn classify(
    client: &mut ClientW,
    rect: Rect,
    state: Option<u64>,
    window_type: Option<u64>,
    atoms: &AtomTable,
    out: &mut Vec<Request>,
)
    ensures
        *final(client) == classified(*old(client), rect, state, window_type, *atoms),
        final(out)@ == old(out)@ + classify_requests(*old(client), rect, state, *atoms),
{
    if let Some(s) = state {
        if s == atoms.net_wm_state_fullscreen {
            client.set_fullscreen(rect, true, out);
        }
        if s == atoms.net_wm_state_above {
            client.set_above(true);
        }
        if s == atoms.net_wm_state_modal {
            client.set_floating(true);
        }
    }
    if let Some(t) = window_type {
        if t == atoms.net_wm_window_type_dock {
            client.set_dock(true);
        }
    }
    assert(out@ =~= old(out)@ + classify_requests(*old(client), rect, state, *atoms));
}

/// Applies to the client every rule that is for it, in the order of the rules.
pub fn apply_rules(
    client: &mut ClientW,
    rules: &Vec<(ClientPredicate, ClientAction)>,
    window_type: Option<u64>,
    dialog: u64,
)
    ensures
        *final(client) == ruled(*old(client), rules@, window_type, dialog),
{
    let mut i: usize = 0;
    assert(rules@.take(0) =~= Seq::<(ClientPredicate, ClientAction)>::empty());
    while i < rules.len()
        invariant
            i <= rules@.len(),
            *client == ruled(*old(client), rules@.take(i as int), window_type, dialog),
        decreases rules@.len() - i,
    {
        assert(rules@.take(i + 1).drop_last() =~= rules@.take(i as int));
        let matches = match &rules[i].0 {
            ClientPredicate::ClassIs(class) => client.0.class == *class,
            ClientPredicate::IsDialog => client.is_dialog(window_type, dialog),
        };
        if matches {
            apply_action(client, &rules[i].1);
        }
        i += 1;
    }
    assert(rules@.take(rules@.len() as int) =~= rules@);
}

/// What the earlier workspaces hold, all workspaces hold.
pub proof fn lemma_gathered_grows(
    frames: Seq<Frame>,
    rings: Seq<Ring>,
    from: nat,
    upto: nat,
    window: u64,
)
    requires
        from <= upto,
        gathered(frames, rings, from).contains(window),
    ensures
        gathered(frames, rings, upto).contains(window),
    decreases upto - from,
{
    if from < upto {
        lemma_gathered_grows(frames, rings, from, (upto - 1) as nat, window);
        let so_far = gathered(frames, rings, (upto - 1) as nat);
        let k = choose|k: int| 0 <= k < so_far.len() && so_far[k] == window;
        if frames[upto - 1].tag != TAG_OVERVIEW {
            assert((so_far + rings[upto - 1].listing())[k] == window);
        }
    }
}

/// Orders the windows by falling tag; windows of one tag keep their order.
pub fn sort_by_tag(list: &Vec<u64>, clients: &ClientL) -> (sorted: Vec<u64>)
    ensures
        sorted@ == by_falling_tag(list@, clients@),
{
    let mut sorted: Vec<u64> = Vec::new();
    let mut i: usize = 0;
    assert(list@.take(0) =~= Seq::<u64>::empty());
    while i < list.len()
        invariant
            i <= list@.len(),
            sorted@ == by_falling_tag(list@.take(i as int), clients@),
            sorted@.len() == i,
        decreases list@.len() - i,
    {
        let window = list[i];
        let tag = tag_in(clients, window);
        let mut at: usize = sorted.len();
        while at > 0 && tag_in(clients, sorted[at - 1]) < tag
            invariant
                at <= sorted@.len(),
                tag == tag_of(clients@, window),
                forall|k: int| at <= k < sorted@.len() ==> tag_of(clients@, sorted@[k]) < tag,
            decreases at,
        {
            at -= 1;
        }
        proof {
            lemma_insert_by_tag_at(sorted@, window, clients@, at as int);
            assert(list@.take(i + 1).drop_last() =~= list@.take(i as int));
        }
        sorted.insert(at, window);
        i += 1;
    }
    assert(list@.take(list@.len() as int) =~= list@);
    sorted
}

/// The tag of the client with the window; 0 if there is no such client.
pub fn tag_in(clients: &ClientL, window: u64) -> (tag: u8)
    ensures
        tag == tag_of(clients@, window),
{
    match find_client(clients, window) {
        Some(at) => clients[at].tag(),
        None => 0,
    }
}

} // verus!
