//! The focus ring as a mathematical value, and what holds of it.
//!
//! A ring is three sequences of window handles: the clients before the
//! focus, the focused client (if any), and the clients after it. Every
//! change of focus is a rotation: it never reorders `order()`.

use vstd::prelude::*;
use crate::display::Request;
use vstd::multiset::Multiset;
use vstd::seq_lib::{to_multiset_contains, to_multiset_insert, to_multiset_remove};

verus! {

/// The direction of a change of focus.
#[derive(Clone, Copy, Debug, PartialEq, Eq, Structural)]
pub enum FocusShift {
    Forward,
    Backward,
}

/// The position of the first occurrence of `window` in `s`.
pub open spec fn position(s: Seq<u64>, window: u64) -> Option<int>
    decreases s.len(),
{
    if s.len() == 0 {
        None
    } else if s[0] == window {
        Some(0)
    } else {
        match position(s.skip(1), window) {
            Some(i) => Some(i + 1),
            None => None,
        }
    }
}

/// `position` finds the first index that holds the window, and finds none
/// only if no index holds it.
pub proof fn lemma_position(s: Seq<u64>, window: u64)
    ensures
        match position(s, window) {
            Some(i) => 0 <= i < s.len() && s[i] == window && forall|j: int|
                0 <= j < i ==> s[j] != window,
            None => forall|j: int| 0 <= j < s.len() ==> s[j] != window,
        },
    decreases s.len(),
{
    if s.len() > 0 && s[0] != window {
        let rest = s.skip(1);
        lemma_position(rest, window);
        match position(rest, window) {
            Some(i) => {
                assert forall|j: int| 0 <= j < i + 1 implies s[j] != window by {
                    if j > 0 {
                        assert(rest[j - 1] == s[j]);
                    }
                }
            },
            None => {
                assert forall|j: int| 0 <= j < s.len() implies s[j] != window by {
                    if j > 0 {
                        assert(rest[j - 1] == s[j]);
                    }
                }
            },
        }
    }
}

/// The focus ring of one workspace.
pub ghost struct Ring {
    /// The clients that lost the focus, the most recent one last.
    pub before: Seq<u64>,
    /// The focused client.
    pub current: Option<u64>,
    /// The clients that a forward shift reaches, the nearest one first.
    pub after: Seq<u64>,
}

/// One step in the life of a ring.
pub ghost enum RingOp {
    NewClient { window: u64, at_focus: bool },
    RemoveClient { window: u64 },
    ShiftFocus { shift: FocusShift },
}

pub open spec fn option_seq(o: Option<u64>) -> Seq<u64> {
    match o {
        Some(w) => seq![w],
        None => Seq::empty(),
    }
}

impl Ring {
    pub open spec fn empty() -> Ring {
        Ring { before: Seq::empty(), current: None, after: Seq::empty() }
    }

    /// The clients in focus order: a forward shift moves the focus one step
    /// to the right in this sequence, a backward shift one step to the left.
    pub open spec fn order(self) -> Seq<u64> {
        self.before + option_seq(self.current) + self.after
    }

    /// The clients in the order in which a workspace lists them: those
    /// before the focus, those after it, and the focused client last.
    pub open spec fn listing(self) -> Seq<u64> {
        self.before + self.after + option_seq(self.current)
    }

    pub open spec fn len(self) -> nat {
        self.order().len()
    }

    pub open spec fn members(self) -> Multiset<u64> {
        self.order().to_multiset()
    }

    pub open spec fn contains(self, window: u64) -> bool {
        self.order().contains(window)
    }

    /// A ring without a focused client holds no client at all.
    pub open spec fn wf(self) -> bool {
        self.current is None ==> self.before.len() == 0 && self.after.len() == 0
    }

    /// The ring with the given focus order whose focus is at index `at`.
    pub open spec fn focused_at(order: Seq<u64>, at: int) -> Ring
        recommends
            0 <= at < order.len(),
    {
        Ring { before: order.take(at), current: Some(order[at]), after: order.skip(at + 1) }
    }

    /// One step of focus. Where there is nowhere to go the ring stays as it is.
    pub open spec fn shift(self, shift: FocusShift) -> Ring {
        match shift {
            FocusShift::Forward => if self.after.len() > 0 {
                Ring {
                    before: self.before + option_seq(self.current),
                    current: Some(self.after[0]),
                    after: self.after.skip(1),
                }
            } else {
                self
            },
            FocusShift::Backward => if self.before.len() > 0 {
                Ring {
                    before: self.before.drop_last(),
                    current: Some(self.before.last()),
                    after: option_seq(self.current) + self.after,
                }
            } else {
                self
            },
        }
    }

    /// Backward shifts until nothing is left before the focus.
    pub open spec fn rewind(self) -> Ring {
        if self.before.len() > 0 {
            Ring {
                before: Seq::empty(),
                current: Some(self.order()[0]),
                after: self.order().skip(1),
            }
        } else {
            self
        }
    }

    /// Forward shifts until nothing is left after the focus.
    pub open spec fn wind(self) -> Ring {
        if self.after.len() > 0 {
            Ring {
                before: self.order().drop_last(),
                current: Some(self.order().last()),
                after: Seq::empty(),
            }
        } else {
            self
        }
    }

    /// One step of focus that wraps around at either end.
    pub open spec fn circle(self, direction: FocusShift) -> Ring {
        match direction {
            FocusShift::Forward => if self.after.len() > 0 {
                self.shift(FocusShift::Forward)
            } else {
                self.rewind()
            },
            FocusShift::Backward => if self.before.len() > 0 {
                self.shift(FocusShift::Backward)
            } else {
                self.wind()
            },
        }
    }

    /// `circle` applied `n` times.
    pub open spec fn circle_times(self, direction: FocusShift, n: nat) -> Ring
        decreases n,
    {
        if n == 0 {
            self
        } else {
            self.circle(direction).circle_times(direction, (n - 1) as nat)
        }
    }

    /// A new client takes the focus. With `at_focus` it is put just before
    /// the client that had the focus; without, at the head of the ring, and
    /// every other client comes after it.
    pub open spec fn insert(self, window: u64, at_focus: bool) -> Ring {
        if at_focus {
            Ring {
                before: self.before,
                current: Some(window),
                after: option_seq(self.current) + self.after,
            }
        } else {
            Ring { before: Seq::empty(), current: Some(window), after: self.order() }
        }
    }

    /// The focused client leaves. The client after it takes the focus, or,
    /// if there is none, the client before it.
    pub open spec fn detach(self) -> Ring {
        if self.current is None {
            self
        } else if self.after.len() > 0 {
            Ring { before: self.before, current: Some(self.after[0]), after: self.after.skip(1) }
        } else if self.before.len() > 0 {
            Ring {
                before: self.before.drop_last(),
                current: Some(self.before.last()),
                after: self.after,
            }
        } else {
            Ring { before: self.before, current: None, after: self.after }
        }
    }

    /// One occurrence of the client leaves: the first one before the focus,
    /// else the first one after it, else the focused client itself.
    pub open spec fn remove(self, window: u64) -> Ring {
        match position(self.before, window) {
            Some(i) => Ring { before: self.before.remove(i), ..self },
            None => match position(self.after, window) {
                Some(i) => Ring { after: self.after.remove(i), ..self },
                None => if self.current == Some(window) {
                    self.detach()
                } else {
                    self
                },
            },
        }
    }

    /// The focus jumps to the client, by rotation. A client that the ring
    /// does not hold leaves the ring as it is.
    pub open spec fn focus_on(self, window: u64) -> Ring {
        if self.current == Some(window) {
            self
        } else {
            match position(self.before, window) {
                Some(i) => Ring::focused_at(self.order(), i),
                None => match position(self.after, window) {
                    Some(i) => Ring::focused_at(
                        self.order(),
                        self.before.len() + option_seq(self.current).len() + i,
                    ),
                    None => self,
                },
            }
        }
    }

    /// The focused client moves to the head of the ring and keeps the focus.
    pub open spec fn zoom(self) -> Ring {
        match self.current {
            Some(window) => self.detach().insert(window, false),
            None => self,
        }
    }

    pub open spec fn apply(self, op: RingOp) -> Ring {
        match op {
            RingOp::NewClient { window, at_focus } => self.insert(window, at_focus),
            RingOp::RemoveClient { window } => self.remove(window),
            RingOp::ShiftFocus { shift } => self.shift(shift),
        }
    }

    /// The ring after the steps, the first one applied first.
    pub open spec fn run(self, ops: Seq<RingOp>) -> Ring
        decreases ops.len(),
    {
        if ops.len() == 0 {
            self
        } else {
            self.run(ops.drop_last()).apply(ops.last())
        }
    }
}

/// The clients that were added by the steps and not removed again: each
/// `NewClient` adds one occurrence, each `RemoveClient` takes one away if
/// there is one at that moment.
pub open spec fn tally(start: Multiset<u64>, ops: Seq<RingOp>) -> Multiset<u64>
    decreases ops.len(),
{
    if ops.len() == 0 {
        start
    } else {
        let so_far = tally(start, ops.drop_last());
        match ops.last() {
            RingOp::NewClient { window, at_focus } => so_far.insert(window),
            RingOp::RemoveClient { window } => so_far.remove(window),
            RingOp::ShiftFocus { shift } => so_far,
        }
    }
}

/// A shift of focus is a rotation: it keeps the focus order, and so the
/// clients that the ring holds.
pub proof fn lemma_shift_keeps_order(ring: Ring, shift: FocusShift)
    ensures
        ring.shift(shift).order() == ring.order(),
        ring.shift(shift).members() == ring.members(),
        ring.wf() ==> ring.shift(shift).wf(),
{
    assert(ring.shift(shift).order() =~= ring.order());
}

/// Winding the ring to either end keeps the focus order.
pub proof fn lemma_wind_keeps_order(ring: Ring)
    ensures
        ring.rewind().order() == ring.order(),
        ring.wind().order() == ring.order(),
        ring.wf() ==> ring.rewind().wf() && ring.wind().wf(),
{
    assert(ring.rewind().order() =~= ring.order());
    assert(ring.wind().order() =~= ring.order());
}

/// A new client enters the focus order at one place and nothing else moves.
pub proof fn lemma_insert_members(ring: Ring, window: u64, at_focus: bool)
    ensures
        ring.insert(window, at_focus).order() == ring.order().insert(
            if at_focus {
                ring.before.len() as int
            } else {
                0
            },
            window,
        ),
        ring.insert(window, at_focus).members() == ring.members().insert(window),
        ring.insert(window, at_focus).wf(),
        ring.insert(window, at_focus).current == Some(window),
{
    let at: int = if at_focus {
        ring.before.len() as int
    } else {
        0
    };
    assert(ring.insert(window, at_focus).order() =~= ring.order().insert(at, window));
    to_multiset_insert(ring.order(), at, window);
}

/// The focused client leaves the focus order and nothing else moves.
pub proof fn lemma_detach_members(ring: Ring)
    ensures
        ring.wf() ==> ring.detach().wf(),
        match ring.current {
            Some(window) => ring.detach().order() == ring.order().remove(ring.before.len() as int)
                && ring.detach().members() == ring.members().remove(window),
            None => ring.detach() == ring,
        },
{
    match ring.current {
        Some(window) => {
            let at = ring.before.len() as int;
            assert(ring.detach().order() =~= ring.order().remove(at));
            to_multiset_remove(ring.order(), at);
        },
        None => {},
    }
}

/// Removing a client takes one occurrence of it out of the ring if there
/// is one, and leaves the ring as it is if there is none.
pub proof fn lemma_remove_members(ring: Ring, window: u64)
    ensures
        ring.remove(window).members() == ring.members().remove(window),
        ring.wf() ==> ring.remove(window).wf(),
        !ring.contains(window) ==> ring.remove(window) == ring,
{
    lemma_position(ring.before, window);
    lemma_position(ring.after, window);
    lemma_detach_members(ring);
    let order = ring.order();
    match position(ring.before, window) {
        Some(i) => {
            assert(ring.remove(window).order() =~= order.remove(i));
            assert(order[i] == window);
            to_multiset_remove(order, i);
        },
        None => match position(ring.after, window) {
            Some(i) => {
                let at = ring.before.len() + option_seq(ring.current).len() + i;
                assert(ring.remove(window).order() =~= order.remove(at));
                assert(order[at] == window);
                to_multiset_remove(order, at);
            },
            None => {
                if ring.current != Some(window) {
                    assert(!order.contains(window));
                    to_multiset_contains(order, window);
                    assert(ring.members().remove(window) =~= ring.members());
                }
            },
        },
    }
    if !ring.contains(window) {
        assert(forall|j: int| 0 <= j < ring.before.len() ==> ring.before[j] == order[j]);
        assert(forall|j: int|
            0 <= j < ring.after.len() ==> ring.after[j] == order[ring.before.len() + option_seq(
                ring.current,
            ).len() + j]);
        if ring.current == Some(window) {
            assert(order[ring.before.len() as int] == window);
        }
    }
}

/// Whatever clients are added, removed and shifted, and in whatever order:
/// the ring holds exactly the clients that were added and not removed
/// again, and it has a focused client unless it is empty.
pub proof fn lemma_ring_holds_what_was_added(start: Ring, ops: Seq<RingOp>)
    requires
        start.wf(),
    ensures
        start.run(ops).wf(),
        start.run(ops).members() == tally(start.members(), ops),
    decreases ops.len(),
{
    if ops.len() > 0 {
        let ring = start.run(ops.drop_last());
        lemma_ring_holds_what_was_added(start, ops.drop_last());
        match ops.last() {
            RingOp::NewClient { window, at_focus } => lemma_insert_members(ring, window, at_focus),
            RingOp::RemoveClient { window } => lemma_remove_members(ring, window),
            RingOp::ShiftFocus { shift } => lemma_shift_keeps_order(ring, shift),
        }
    }
}

/// A ring with a focused client is its focus order and the place of the focus.
pub proof fn lemma_ring_is_order_and_place(ring: Ring)
    requires
        ring.current is Some,
    ensures
        ring == Ring::focused_at(ring.order(), ring.before.len() as int),
{
    let other = Ring::focused_at(ring.order(), ring.before.len() as int);
    assert(other.before =~= ring.before);
    assert(other.after =~= ring.after);
}

/// The place of the focus after `steps` forward steps around a ring of
/// `len` clients that began at `start`.
pub open spec fn place_after(start: int, steps: int, len: int) -> int {
    if start + steps < len {
        start + steps
    } else {
        start + steps - len
    }
}

/// One forward step around the ring moves the focus to the next place in
/// the focus order, and from the last place to the first.
pub proof fn lemma_circle_forward_step(order: Seq<u64>, at: int)
    requires
        0 <= at < order.len(),
    ensures
        Ring::focused_at(order, at).circle(FocusShift::Forward) == Ring::focused_at(
            order,
            if at + 1 < order.len() {
                at + 1
            } else {
                0
            },
        ),
{
    let ring = Ring::focused_at(order, at);
    let next = ring.circle(FocusShift::Forward);
    assert(ring.order() =~= order);
    if at + 1 < order.len() {
        let want = Ring::focused_at(order, at + 1);
        assert(next.before =~= want.before);
        assert(next.after =~= want.after);
    } else {
        let want = Ring::focused_at(order, 0);
        assert(ring.after.len() == 0);
        if ring.before.len() > 0 {
            assert(next.before =~= want.before);
            assert(next.after =~= want.after);
        } else {
            assert(next.before =~= want.before);
            assert(next.after =~= want.after);
        }
    }
}

proof fn lemma_circle_forward_steps(order: Seq<u64>, at: int, steps: nat)
    requires
        0 <= at < order.len(),
        steps <= order.len(),
    ensures
        Ring::focused_at(order, at).circle_times(FocusShift::Forward, steps) == Ring::focused_at(
            order,
            place_after(at, steps as int, order.len() as int),
        ),
    decreases steps,
{
    if steps > 0 {
        lemma_circle_forward_step(order, at);
        let next: int = if at + 1 < order.len() {
            at + 1
        } else {
            0
        };
        lemma_circle_forward_steps(order, next, (steps - 1) as nat);
    }
}

/// Going forward around the ring as many times as it has clients brings
/// the focus back to where it was, and the whole ring with it.
pub proof fn lemma_circle_closes(ring: Ring)
    requires
        ring.wf(),
    ensures
        ring.circle_times(FocusShift::Forward, ring.len()) == ring,
{
    match ring.current {
        Some(window) => {
            lemma_ring_is_order_and_place(ring);
            lemma_circle_forward_steps(ring.order(), ring.before.len() as int, ring.len());
        },
        None => {
            assert(ring.order() =~= Seq::<u64>::empty());
        },
    }
}

/// What the display is asked when the focus moves one step: the client
/// that takes the focus gives up its click grab, and the client that loses
/// it gets the normal border and its click grab back.
pub open spec fn shift_requests(ring: Ring, shift: FocusShift) -> Seq<Request> {
    let target = match shift {
        FocusShift::Forward => if ring.after.len() > 0 {
            Some(ring.after[0])
        } else {
            None
        },
        FocusShift::Backward => if ring.before.len() > 0 {
            Some(ring.before.last())
        } else {
            None
        },
    };
    match target {
        Some(next) => seq![Request::GrabButtons { window: next, focused: true }] + match ring.current {
            Some(window) => seq![
                Request::Focus { window, focused: false },
                Request::GrabButtons { window, focused: false },
            ],
            None => Seq::empty(),
        },
        None => Seq::empty(),
    }
}

/// The number of steps that the focus can go in the direction.
pub open spec fn room(ring: Ring, shift: FocusShift) -> nat {
    match shift {
        FocusShift::Forward => ring.after.len(),
        FocusShift::Backward => ring.before.len(),
    }
}

/// What the display is asked when the focus moves `steps` steps, one after the other.
pub open spec fn steps_requests(ring: Ring, shift: FocusShift, steps: nat) -> Seq<Request>
    decreases steps,
{
    if steps == 0 {
        Seq::empty()
    } else {
        shift_requests(ring, shift) + steps_requests(ring.shift(shift), shift, (steps - 1) as nat)
    }
}

/// The ring after `steps` steps of focus, one after the other.
pub open spec fn shift_times(ring: Ring, shift: FocusShift, steps: nat) -> Ring
    decreases steps,
{
    if steps == 0 {
        ring
    } else {
        shift_times(ring.shift(shift), shift, (steps - 1) as nat)
    }
}

/// Going backward as far as there is room empties the part before the focus.
pub proof fn lemma_rewind_is_shifts(ring: Ring)
    ensures
        shift_times(ring, FocusShift::Backward, ring.before.len()) == ring.rewind(),
    decreases ring.before.len(),
{
    if ring.before.len() > 0 {
        let next = ring.shift(FocusShift::Backward);
        lemma_rewind_is_shifts(next);
        assert(next.order() =~= ring.order());
        assert(next.before.len() == ring.before.len() - 1);
        if next.before.len() == 0 {
            assert(next.before =~= Seq::<u64>::empty());
            assert(next.after =~= ring.order().skip(1));
            assert(next == ring.rewind());
        } else {
            assert(next.rewind() == ring.rewind());
        }
        assert(shift_times(ring, FocusShift::Backward, ring.before.len()) == shift_times(
            next,
            FocusShift::Backward,
            next.before.len(),
        ));
    }
}

/// Going forward as far as there is room empties the part after the focus.
pub proof fn lemma_wind_is_shifts(ring: Ring)
    ensures
        shift_times(ring, FocusShift::Forward, ring.after.len()) == ring.wind(),
    decreases ring.after.len(),
{
    if ring.after.len() > 0 {
        let next = ring.shift(FocusShift::Forward);
        lemma_wind_is_shifts(next);
        assert(next.order() =~= ring.order());
        assert(next.after.len() == ring.after.len() - 1);
        if next.after.len() == 0 {
            assert(next.after =~= Seq::<u64>::empty());
            assert(next.before =~= ring.order().drop_last());
            assert(next == ring.wind());
        } else {
            assert(next.wind() == ring.wind());
        }
        assert(shift_times(ring, FocusShift::Forward, ring.after.len()) == shift_times(
            next,
            FocusShift::Forward,
            next.after.len(),
        ));
    }
}

/// Going backward from the end of `before` to index `at` puts the focus there.
pub proof fn lemma_backward_to(ring: Ring, at: int)
    requires
        0 <= at < ring.before.len(),
    ensures
        shift_times(ring, FocusShift::Backward, (ring.before.len() - at) as nat) == Ring::focused_at(
            ring.order(),
            at,
        ),
    decreases ring.before.len() - at,
{
    let next = ring.shift(FocusShift::Backward);
    assert(next.order() =~= ring.order());
    if at + 1 < ring.before.len() {
        lemma_backward_to(next, at);
    } else {
        let want = Ring::focused_at(ring.order(), at);
        assert(next.before =~= want.before);
        assert(next.after =~= want.after);
        assert(shift_times(next, FocusShift::Backward, 0) == next);
    }
}

/// Going forward `at + 1` steps puts the focus on index `at` of `after`.
pub proof fn lemma_forward_to(ring: Ring, at: int)
    requires
        0 <= at < ring.after.len(),
    ensures
        shift_times(ring, FocusShift::Forward, (at + 1) as nat) == Ring::focused_at(
            ring.order(),
            ring.before.len() + option_seq(ring.current).len() + at,
        ),
    decreases at,
{
    let next = ring.shift(FocusShift::Forward);
    assert(next.order() =~= ring.order());
    if at > 0 {
        lemma_forward_to(next, at - 1);
    } else {
        let want = Ring::focused_at(
            ring.order(),
            ring.before.len() + option_seq(ring.current).len() + at,
        );
        assert(next.before =~= want.before);
        assert(next.after =~= want.after);
        assert(shift_times(next, FocusShift::Forward, 0) == next);
    }
}

impl Ring {
    /// What the display is asked when the focus goes around by one step.
    pub open spec fn circle_requests(self, direction: FocusShift) -> Seq<Request> {
        match direction {
            FocusShift::Forward => if self.after.len() > 0 {
                shift_requests(self, direction)
            } else {
                steps_requests(self, FocusShift::Backward, self.before.len())
            },
            FocusShift::Backward => if self.before.len() > 0 {
                shift_requests(self, direction)
            } else {
                steps_requests(self, FocusShift::Forward, self.after.len())
            },
        }
    }

    /// What the display is asked when a new client enters the ring.
    pub open spec fn insert_requests(self, window: u64, at_focus: bool) -> Seq<Request> {
        if at_focus {
            shift_requests(
                Ring { before: self.before.push(window), ..self },
                FocusShift::Backward,
            )
        } else {
            steps_requests(
                Ring { before: seq![window] + self.before, ..self },
                FocusShift::Backward,
                self.before.len() + 1,
            )
        }
    }

    /// What the display is asked when the focused client leaves the ring.
    pub open spec fn detach_requests(self) -> Seq<Request> {
        if self.current is None {
            Seq::empty()
        } else if self.after.len() > 0 {
            shift_requests(self, FocusShift::Forward)
        } else {
            shift_requests(self, FocusShift::Backward)
        }
    }

    /// What the display is asked when a client is removed from the ring.
    pub open spec fn remove_requests(self, window: u64) -> Seq<Request> {
        if position(self.before, window) is None && position(self.after, window) is None
            && self.current == Some(window) {
            self.detach_requests()
        } else {
            Seq::empty()
        }
    }

    /// What the display is asked when the focus jumps to a client.
    pub open spec fn focus_requests(self, window: u64) -> Seq<Request> {
        if self.current == Some(window) {
            seq![Request::GrabButtons { window, focused: true }]
        } else {
            match position(self.before, window) {
                Some(i) => steps_requests(
                    self,
                    FocusShift::Backward,
                    (self.before.len() - i) as nat,
                ),
                None => match position(self.after, window) {
                    Some(i) => steps_requests(self, FocusShift::Forward, (i + 1) as nat),
                    None => Seq::empty(),
                },
            }
        }
    }

    /// What the display is asked when the focused client moves to the head of the ring.
    pub open spec fn zoom_requests(self) -> Seq<Request> {
        match self.current {
            Some(window) => self.detach_requests() + self.detach().insert_requests(window, false),
            None => Seq::empty(),
        }
    }
}

/// Putting the new client in front of `before` and going backward all the
/// way gives the ring that `insert` describes; putting it at the end of
/// `before` and going backward once does so for a client that enters at the focus.
pub proof fn lemma_insert_is_shifts(ring: Ring, window: u64, at_focus: bool)
    ensures
        at_focus ==> (Ring { before: ring.before.push(window), ..ring }).shift(FocusShift::Backward)
            == ring.insert(window, true),
        !at_focus ==> (Ring { before: seq![window] + ring.before, ..ring }).rewind() == ring.insert(
            window,
            false,
        ),
{
    if at_focus {
        let start = Ring { before: ring.before.push(window), ..ring };
        assert(start.before.drop_last() =~= ring.before);
    } else {
        let start = Ring { before: seq![window] + ring.before, ..ring };
        assert(start.order().skip(1) =~= ring.order());
    }
}

/// The listing of a ring holds the clients that its focus order holds.
pub proof fn lemma_listing_holds(ring: Ring, window: u64)
    ensures
        ring.listing().contains(window) <==> ring.contains(window),
{
    let order = ring.order();
    let listing = ring.listing();
    let b = ring.before.len() as int;
    let c = option_seq(ring.current).len() as int;
    let a = ring.after.len() as int;
    if order.contains(window) {
        let i = choose|i: int| 0 <= i < order.len() && order[i] == window;
        if i < b {
            assert(listing[i] == window);
        } else if i < b + c {
            assert(listing[b + a] == window);
        } else {
            assert(listing[i - c] == window);
        }
    }
    if listing.contains(window) {
        let i = choose|i: int| 0 <= i < listing.len() && listing[i] == window;
        if i < b {
            assert(order[i] == window);
        } else if i < b + a {
            assert(order[i + c] == window);
        } else {
            assert(order[b] == window);
        }
    }
}

/// A sequence without repetitions stays so when something new enters it.
pub proof fn lemma_insert_distinct(s: Seq<u64>, at: int, window: u64)
    requires
        s.no_duplicates(),
        !s.contains(window),
        0 <= at <= s.len(),
    ensures
        s.insert(at, window).no_duplicates(),
        forall|v: u64| s.insert(at, window).contains(v) <==> v == window || s.contains(v),
{
    let t = s.insert(at, window);
    assert forall|i: int, j: int| 0 <= i < t.len() && 0 <= j < t.len() && i != j implies t[i]
        != t[j] by {
        let a = if i < at {
            i
        } else {
            i - 1
        };
        let b = if j < at {
            j
        } else {
            j - 1
        };
        if i == at {
            assert(s[b] == t[j]);
        } else if j == at {
            assert(s[a] == t[i]);
        } else {
            assert(s[a] == t[i] && s[b] == t[j]);
        }
    }
    assert forall|v: u64| t.contains(v) <==> v == window || s.contains(v) by {
        if s.contains(v) {
            let k = choose|k: int| 0 <= k < s.len() && s[k] == v;
            if k < at {
                assert(t[k] == v);
            } else {
                assert(t[k + 1] == v);
            }
        }
        if v == window {
            assert(t[at] == v);
        }
        if t.contains(v) && v != window {
            let k = choose|k: int| 0 <= k < t.len() && t[k] == v;
            if k < at {
                assert(s[k] == v);
            } else {
                assert(s[k - 1] == v);
            }
        }
    }
}

/// A sequence without repetitions stays so when something leaves it,
/// and what has left is no longer in it.
pub proof fn lemma_remove_distinct(s: Seq<u64>, at: int)
    requires
        s.no_duplicates(),
        0 <= at < s.len(),
    ensures
        s.remove(at).no_duplicates(),
        forall|v: u64| s.remove(at).contains(v) <==> v != s[at] && s.contains(v),
{
    let t = s.remove(at);
    assert forall|i: int, j: int| 0 <= i < t.len() && 0 <= j < t.len() && i != j implies t[i]
        != t[j] by {
        let a = if i < at {
            i
        } else {
            i + 1
        };
        let b = if j < at {
            j
        } else {
            j + 1
        };
        assert(s[a] == t[i] && s[b] == t[j]);
    }
    assert forall|v: u64| t.contains(v) <==> v != s[at] && s.contains(v) by {
        if s.contains(v) && v != s[at] {
            let k = choose|k: int| 0 <= k < s.len() && s[k] == v;
            if k < at {
                assert(t[k] == v);
            } else {
                assert(t[k - 1] == v);
            }
        }
        if t.contains(v) {
            let k = choose|k: int| 0 <= k < t.len() && t[k] == v;
            let a = if k < at {
                k
            } else {
                k + 1
            };
            assert(s[a] == v);
        }
    }
}

impl Ring {
    /// No client is in the ring twice.
    pub open spec fn distinct(self) -> bool {
        self.order().no_duplicates()
    }
}

/// Moving the focus keeps a ring without repetitions so, whatever the
/// kind of move: a step, a step around, or a jump.
pub proof fn lemma_focus_keeps_distinct(ring: Ring, shift: FocusShift, target: u64)
    requires
        ring.distinct(),
    ensures
        ring.shift(shift).distinct(),
        ring.circle(shift).distinct(),
        ring.focus_on(target).distinct(),
        forall|v: u64| ring.shift(shift).contains(v) <==> ring.contains(v),
        forall|v: u64| ring.circle(shift).contains(v) <==> ring.contains(v),
        forall|v: u64| ring.focus_on(target).contains(v) <==> ring.contains(v),
{
    lemma_shift_keeps_order(ring, shift);
    lemma_wind_keeps_order(ring);
    lemma_position(ring.before, target);
    lemma_position(ring.after, target);
    let next = ring.focus_on(target);
    if next != ring {
        let at: int = match position(ring.before, target) {
            Some(i) => i,
            None => ring.before.len() + option_seq(ring.current).len() + position(
                ring.after,
                target,
            ).unwrap(),
        };
        assert(next == Ring::focused_at(ring.order(), at));
        assert(next.order() =~= ring.order());
    }
}

/// A client that the ring does not hold can enter it, and the ring stays
/// without repetitions.
pub proof fn lemma_insert_keeps_distinct(ring: Ring, window: u64, at_focus: bool)
    requires
        ring.distinct(),
        !ring.contains(window),
    ensures
        ring.insert(window, at_focus).distinct(),
        forall|v: u64| ring.insert(window, at_focus).contains(v) <==> v == window || ring.contains(v),
{
    lemma_insert_members(ring, window, at_focus);
    let at: int = if at_focus {
        ring.before.len() as int
    } else {
        0
    };
    lemma_insert_distinct(ring.order(), at, window);
}

/// A client that leaves a ring without repetitions is no longer in it,
/// and every other client still is.
pub proof fn lemma_remove_keeps_distinct(ring: Ring, window: u64)
    requires
        ring.distinct(),
    ensures
        ring.remove(window).distinct(),
        forall|v: u64| ring.remove(window).contains(v) <==> v != window && ring.contains(v),
        ring.detach().distinct(),
        forall|v: u64| ring.detach().contains(v) <==> Some(v) != ring.current && ring.contains(v),
{
    lemma_position(ring.before, window);
    lemma_position(ring.after, window);
    let order = ring.order();
    let middle = option_seq(ring.current).len();
    match ring.current {
        Some(c) => {
            let at = ring.before.len() as int;
            assert(ring.detach().order() =~= order.remove(at));
            assert(order[at] == c);
            lemma_remove_distinct(order, at);
        },
        None => {},
    }
    match position(ring.before, window) {
        Some(i) => {
            assert(ring.remove(window).order() =~= order.remove(i));
            assert(order[i] == window);
            lemma_remove_distinct(order, i);
        },
        None => match position(ring.after, window) {
            Some(i) => {
                let at = ring.before.len() + middle + i;
                assert(ring.remove(window).order() =~= order.remove(at));
                assert(order[at] == window);
                lemma_remove_distinct(order, at);
            },
            None => {
                if ring.current != Some(window) {
                    assert forall|k: int| 0 <= k < order.len() implies order[k] != window by {
                        if k < ring.before.len() {
                            assert(ring.before[k] == order[k]);
                        } else if k >= ring.before.len() + middle {
                            assert(ring.after[k - ring.before.len() - middle] == order[k]);
                        }
                    }
                }
            },
        },
    }
}

/// The listing of a ring has no repetitions if its focus order has none.
pub proof fn lemma_listing_distinct(ring: Ring)
    requires
        ring.distinct(),
    ensures
        ring.listing().no_duplicates(),
        (ring.before + ring.after).no_duplicates(),
{
    let order = ring.order();
    let listing = ring.listing();
    let b = ring.before.len() as int;
    let c = option_seq(ring.current).len() as int;
    let a = ring.after.len() as int;
    assert forall|i: int, j: int|
        0 <= i < listing.len() && 0 <= j < listing.len() && i != j implies listing[i]
        != listing[j] by {
        let x = if i < b {
            i
        } else if i < b + a {
            i + c
        } else {
            b
        };
        let y = if j < b {
            j
        } else if j < b + a {
            j + c
        } else {
            b
        };
        assert(order[x] == listing[i] && order[y] == listing[j]);
    }
    let others = ring.before + ring.after;
    assert forall|i: int, j: int|
        0 <= i < others.len() && 0 <= j < others.len() && i != j implies others[i]
        != others[j] by {
        let x = if i < b {
            i
        } else {
            i + c
        };
        let y = if j < b {
            j
        } else {
            j + c
        };
        assert(order[x] == others[i] && order[y] == others[j]);
    }
}

} // verus!
