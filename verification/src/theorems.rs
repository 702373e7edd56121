//! Theorems about the manager that relate several of its operations.

use vstd::prelude::*;
use crate::client::{Client, ClientFilter, ClientW};
use crate::config::{CONFIG_LIMIT, TAG_OVERVIEW};
use crate::layout::{
    lemma_insert_cell_place, lemma_overview_grid_len, lemma_overview_rects_len,
    lemma_overview_subdivide_len, lemma_reading_order, lemma_reading_order_contains,
    overview_grid, overview_halves, overview_rects, overview_rounds, overview_subdivide,
    reading_order,
};
use crate::display::Request;

use crate::rect::{Rect, LAYOUT_LIMIT};
use crate::ring::{
    lemma_focus_keeps_distinct, lemma_insert_keeps_distinct, lemma_listing_distinct,
    lemma_listing_holds, lemma_position, lemma_remove_keeps_distinct, option_seq, position,
    FocusShift, Ring,
};
use crate::state::{attached, gathered, removed_all, retagged, NewWindow, State};
use crate::workspace::{
    client_of, place_all, place_step, refresh_all, refresh_step, selected, show_all, show_step,
    windows, Frame,
};

verus! {

/// The second client is the first one but for its geometry.
pub open spec fn same_but_geometry(a: ClientW, b: ClientW) -> bool {
    b == ClientW(Client { rect: b.0.rect, old_rect: b.0.old_rect, ..a.0 })
}

/// The second list holds the clients of the first, each with the marks
/// that it has there; only their geometry may differ.
pub open spec fn same_marks(a: Seq<ClientW>, b: Seq<ClientW>) -> bool {
    &&& a.len() == b.len()
    &&& forall|i: int| 0 <= i < a.len() ==> same_but_geometry(#[trigger] a[i], b[i])
}

pub proof fn lemma_same_marks_windows(a: Seq<ClientW>, b: Seq<ClientW>)
    requires
        same_marks(a, b),
    ensures
        windows(a) == windows(b),
        forall|window: u64|
            match #[trigger] client_of(a, window) {
                Some(c) => client_of(b, window) is Some && same_but_geometry(
                    c,
                    client_of(b, window).unwrap(),
                ),
                None => client_of(b, window) is None,
            },
{
    assert forall|i: int| 0 <= i < a.len() implies windows(a)[i] == windows(b)[i] by {
        assert(same_but_geometry(a[i], b[i]));
    }
    assert(windows(a) =~= windows(b));
    assert forall|window: u64|
        match #[trigger] client_of(a, window) {
            Some(c) => client_of(b, window) is Some && same_but_geometry(
                c,
                client_of(b, window).unwrap(),
            ),
            None => client_of(b, window) is None,
        } by {
        lemma_position(windows(a), window);
        match position(windows(a), window) {
            Some(i) => {
                assert(same_but_geometry(a[i], b[i]));
            },
            None => {},
        }
    }
}

pub proof fn lemma_same_marks_chain(a: Seq<ClientW>, b: Seq<ClientW>, c: Seq<ClientW>)
    requires
        same_marks(a, b),
        same_marks(b, c),
    ensures
        same_marks(a, c),
{
    assert forall|i: int| 0 <= i < a.len() implies same_but_geometry(#[trigger] a[i], c[i]) by {
        assert(same_but_geometry(a[i], b[i]));
        assert(same_but_geometry(b[i], c[i]));
    }
}

/// One record of the list has a new geometry.
pub proof fn lemma_update_keeps_marks(a: Seq<ClientW>, i: int, c: ClientW)
    requires
        0 <= i < a.len(),
        same_but_geometry(a[i], c),
    ensures
        same_marks(a, a.update(i, c)),
{
    let b = a.update(i, c);
    assert forall|k: int| 0 <= k < a.len() implies same_but_geometry(#[trigger] a[k], b[k]) by {}
}

/// Showing and hiding clients changes nothing but their geometry.
pub proof fn lemma_show_keeps_marks(listing: Seq<u64>, clients: Seq<ClientW>, visible: bool)
    ensures
        same_marks(clients, show_all(listing, clients, visible).0),
    decreases listing.len(),
{
    if listing.len() > 0 {
        let so_far = show_all(listing.drop_last(), clients, visible).0;
        lemma_show_keeps_marks(listing.drop_last(), clients, visible);
        lemma_position(windows(so_far), listing.last());
        match position(windows(so_far), listing.last()) {
            Some(i) => {
                if so_far[i].can_show(visible) {
                    lemma_update_keeps_marks(so_far, i, so_far[i].shown(visible));
                }
            },
            None => {},
        }
        lemma_same_marks_chain(clients, so_far, show_step(so_far, listing.last(), visible).0);
    } else {
        assert(same_marks(clients, clients));
    }
}

/// Placing clients changes nothing but their geometry.
pub proof fn lemma_place_keeps_marks(
    plan: Seq<(u64, Rect)>,
    clients: Seq<ClientW>,
    overview: bool,
    area: Rect,
)
    ensures
        same_marks(clients, place_all(plan, clients, overview, area).0),
    decreases plan.len(),
{
    if plan.len() > 0 {
        let so_far = place_all(plan.drop_last(), clients, overview, area).0;
        lemma_place_keeps_marks(plan.drop_last(), clients, overview, area);
        lemma_position(windows(so_far), plan.last().0);
        match position(windows(so_far), plan.last().0) {
            Some(i) => {
                let target = if !overview && so_far[i].0.is_maximized {
                    area
                } else {
                    plan.last().1
                };
                lemma_update_keeps_marks(so_far, i, so_far[i].resized(target, overview));
            },
            None => {},
        }
        lemma_same_marks_chain(clients, so_far, place_step(so_far, plan.last(), overview, area).0);
    } else {
        assert(same_marks(clients, clients));
    }
}

/// Bringing floating clients to the front changes nothing but their geometry.
pub proof fn lemma_refresh_keeps_marks(floating: Seq<u64>, clients: Seq<ClientW>)
    ensures
        same_marks(clients, refresh_all(floating, clients).0),
    decreases floating.len(),
{
    if floating.len() > 0 {
        let so_far = refresh_all(floating.drop_last(), clients).0;
        lemma_refresh_keeps_marks(floating.drop_last(), clients);
        lemma_position(windows(so_far), floating.last());
        match position(windows(so_far), floating.last()) {
            Some(i) => {
                lemma_update_keeps_marks(so_far, i, so_far[i].resized(so_far[i].0.rect, false));
            },
            None => {},
        }
        lemma_same_marks_chain(clients, so_far, refresh_step(so_far, floating.last()).0);
    } else {
        assert(same_marks(clients, clients));
    }
}

/// A choice among clients looks at their marks, not at their geometry.
pub proof fn lemma_selected_by_marks(
    listing: Seq<u64>,
    a: Seq<ClientW>,
    b: Seq<ClientW>,
    filter: ClientFilter,
)
    requires
        same_marks(a, b),
    ensures
        selected(listing, a, filter) == selected(listing, b, filter),
    decreases listing.len(),
{
    if listing.len() > 0 {
        lemma_selected_by_marks(listing.drop_last(), a, b, filter);
        lemma_same_marks_windows(a, b);
        let window = listing.last();
        match client_of(a, window) {
            Some(c) => {
                assert(same_but_geometry(c, client_of(b, window).unwrap()));
            },
            None => {},
        }
    }
}

/// Laying out a workspace changes nothing of its clients but their geometry.
pub proof fn lemma_arranged_keeps_marks(
    frame: Frame,
    ring: Ring,
    clients: Seq<ClientW>,
    area: Option<Rect>,
)
    ensures
        same_marks(clients, frame.placed(ring, clients, area)),
        same_marks(clients, frame.arranged_in(ring, clients, area)),
{
    let placed = frame.placed(ring, clients, area);
    match area {
        Some(rect) => {
            lemma_place_keeps_marks(
                frame.layout.assignment(&frame.config, ring.listing(), clients, rect),
                clients,
                frame.for_show(),
                rect,
            );
        },
        None => {
            assert(same_marks(clients, clients));
        },
    }
    if frame.tag != TAG_OVERVIEW {
        lemma_refresh_keeps_marks(
            selected(ring.listing(), placed, ClientFilter::Floating),
            placed,
        );
        lemma_same_marks_chain(clients, placed, frame.arranged_in(ring, clients, area));
    }
}

/// A layout that has been applied gives the same rectangles when it is
/// asked again: what it gives depends on the order of the clients, on
/// their marks and on the area, and applying it changes none of these.
pub proof fn lemma_layout_repeats(frame: Frame, ring: Ring, clients: Seq<ClientW>, area: Rect)
    ensures
        frame.layout.assignment(
            &frame.config,
            ring.listing(),
            frame.arranged_in(ring, clients, Some(area)),
            area,
        ) == frame.layout.assignment(&frame.config, ring.listing(), clients, area),
{
    lemma_arranged_keeps_marks(frame, ring, clients, Some(area));
    lemma_selected_by_marks(
        ring.listing(),
        clients,
        frame.arranged_in(ring, clients, Some(area)),
        frame.layout.filter(),
    );
}

/// Two plans that a layout makes of the same order of clients, the same
/// records and the same rectangle are one plan: the same clients, each
/// with the same rectangle. The tiling layout is one such layout.
pub proof fn lemma_layout_twice(
    frame: Frame,
    ring: Ring,
    clients: Seq<ClientW>,
    area: Rect,
    first: Seq<(u64, Rect)>,
    second: Seq<(u64, Rect)>,
)
    requires
        first == frame.layout.assignment(&frame.config, ring.listing(), clients, area),
        second == frame.layout.assignment(&frame.config, ring.listing(), clients, area),
    ensures
        first.len() == second.len(),
        forall|i: int| 0 <= i < first.len() ==> first[i] == second[i],
        first == second,
{
}

/// Hiding the other workspaces changes nothing but the geometry of
/// clients and the requests made.
pub proof fn lemma_others_hidden(s: State, upto: nat)
    ensures
        s.others_hidden(upto) == (State {
            clients: s.others_hidden(upto).clients,
            out: s.others_hidden(upto).out,
            ..s
        }),
        same_marks(s.clients, s.others_hidden(upto).clients),
    decreases upto,
{
    if upto > 0 {
        let so_far = s.others_hidden((upto - 1) as nat);
        lemma_others_hidden(s, (upto - 1) as nat);
        if s.hides(upto - 1) {
            lemma_show_keeps_marks(s.rings[upto - 1].listing(), so_far.clients, false);
            lemma_same_marks_chain(s.clients, so_far.clients, s.others_hidden(upto).clients);
        }
    } else {
        assert(same_marks(s.clients, s.clients));
    }
}

/// On a tag other than the overview, bringing the screen up to date
/// changes nothing but the geometry of clients and the requests made.
pub proof fn lemma_arranged(s: State)
    requires
        s.current_tag != TAG_OVERVIEW,
    ensures
        s.arranged() == (State { clients: s.arranged().clients, out: s.arranged().out, ..s }),
        same_marks(s.clients, s.arranged().clients),
{
    let hidden = s.others_hidden(s.frames.len());
    lemma_others_hidden(s, s.frames.len());
    lemma_arranged_keeps_marks(hidden.frame(), hidden.ring(), hidden.clients, hidden.area());
    lemma_same_marks_chain(s.clients, hidden.clients, s.arranged().clients);
}

/// Every window that enters a ring is in the ring.
pub proof fn lemma_attached_holds(ring: Ring, list: Seq<u64>, window: u64)
    requires
        list.contains(window) || ring.contains(window),
    ensures
        attached(ring, list).contains(window),
    decreases list.len(),
{
    if list.len() > 0 {
        let so_far = attached(ring, list.drop_last());
        let next = so_far.insert(list.last(), true);
        if list.last() == window {
            assert(next.order()[so_far.before.len() as int] == window);
        } else {
            if list.contains(window) {
                let k = choose|k: int| 0 <= k < list.len() && list[k] == window;
                assert(list.drop_last()[k] == window);
            }
            lemma_attached_holds(ring, list.drop_last(), window);
            let k = choose|k: int| 0 <= k < so_far.order().len() && so_far.order()[k] == window;
            if k < so_far.before.len() {
                assert(next.order()[k] == window);
            } else {
                assert(next.order()[k + 1] == window);
            }
        }
    }
}

/// The tag of a client after some clients got a new tag.
pub proof fn lemma_retagged(clients: Seq<ClientW>, list: Seq<u64>, tag: u8, window: u64)
    ensures
        windows(retagged(clients, list, tag)) == windows(clients),
        match client_of(clients, window) {
            Some(c) => client_of(retagged(clients, list, tag), window) == Some(
                if list.contains(window) {
                    c.with_tag(tag)
                } else {
                    c
                },
            ),
            None => client_of(retagged(clients, list, tag), window) is None,
        },
    decreases list.len(),
{
    if list.len() > 0 {
        let so_far = retagged(clients, list.drop_last(), tag);
        let next = retagged(clients, list, tag);
        lemma_retagged(clients, list.drop_last(), tag, window);
        lemma_retagged(clients, list.drop_last(), tag, list.last());
        lemma_position(windows(so_far), list.last());
        lemma_position(windows(so_far), window);
        lemma_position(windows(clients), window);
        match position(windows(so_far), list.last()) {
            Some(i) => {
                assert(next == so_far.update(i, so_far[i].with_tag(tag)));
                assert(windows(next) =~= windows(so_far));
            },
            None => {},
        }
        if list.drop_last().contains(window) {
            let k = choose|k: int| 0 <= k < list.drop_last().len() && list.drop_last()[k] == window;
            assert(list[k] == window);
        }
        if list.contains(window) && window != list.last() {
            let k = choose|k: int| 0 <= k < list.len() && list[k] == window;
            assert(list.drop_last()[k] == window);
        }
        if window == list.last() {
            assert(list[list.len() - 1] == window);
        }
    }
}

/// A choice holds every client of the listing that the filter accepts.
pub proof fn lemma_selected_holds(
    listing: Seq<u64>,
    clients: Seq<ClientW>,
    filter: ClientFilter,
    window: u64,
)
    requires
        listing.contains(window),
        client_of(clients, window) is Some,
        filter.accepts(client_of(clients, window).unwrap()),
    ensures
        selected(listing, clients, filter).contains(window),
    decreases listing.len(),
{
    let chosen = selected(listing, clients, filter);
    if listing.last() == window {
        assert(chosen[chosen.len() - 1] == window);
    } else {
        let k = choose|k: int| 0 <= k < listing.len() && listing[k] == window;
        assert(listing.drop_last()[k] == window);
        lemma_selected_holds(listing.drop_last(), clients, filter, window);
        let rest = selected(listing.drop_last(), clients, filter);
        let j = choose|j: int| 0 <= j < rest.len() && rest[j] == window;
        assert(chosen[j] == window);
    }
}

/// A jump of the focus keeps every client in the ring.
pub proof fn lemma_focus_on_holds(ring: Ring, target: u64, window: u64)
    requires
        ring.contains(window),
    ensures
        ring.focus_on(target).contains(window),
{
    lemma_position(ring.before, target);
    lemma_position(ring.after, target);
    let order = ring.order();
    let next = ring.focus_on(target);
    if next != ring {
        let at: int = match position(ring.before, target) {
            Some(i) => i,
            None => ring.before.len() + option_seq(ring.current).len() + position(
                ring.after,
                target,
            ).unwrap(),
        };
        assert(next == Ring::focused_at(order, at));
        assert(next.order() =~= order);
    }
}

/// A sticky client follows a change of tag: after the manager has gone
/// to another tag, the workspace in use holds the client, and the tag
/// of the client is the tag in use.
pub proof fn lemma_sticky_follows(s: State, tag: u8, window: u64)
    requires
        s.wf(),
        tag != TAG_OVERVIEW,
        tag != s.current_tag,
        s.index_of(tag) is Some,
        s.ring().contains(window),
        client_of(s.clients, window) is Some,
        client_of(s.clients, window).unwrap().0.is_sticky,
    ensures
        s.tag_selected(tag).wf(),
        s.tag_selected(tag).frames == s.frames,
        s.tag_selected(tag).current_tag == tag,
        s.tag_selected(tag).ring().contains(window),
        client_of(s.tag_selected(tag).clients, window) is Some,
        client_of(s.tag_selected(tag).clients, window).unwrap().0.tag == tag,
        client_of(s.tag_selected(tag).clients, window).unwrap().0.is_sticky,
{
    let sticky = s.sticky();
    let source = s.current();
    let target = s.index_of(tag).unwrap();
    lemma_position(s.tags(), tag as u64);
    lemma_position(s.tags(), s.current_tag as u64);
    lemma_listing_holds(s.ring(), window);
    lemma_selected_holds(s.ring().listing(), s.clients, ClientFilter::Sticky, window);
    let left = s.with_ring(source, removed_all(s.ring(), sticky));
    let moved = s.moved_to(tag);
    assert(moved.frames == s.frames);
    assert(moved.current_tag == tag);
    assert(moved.current() == target);
    assert(moved.ring() == attached(left.rings[target], sticky));
    lemma_attached_holds(left.rings[target], sticky, window);
    lemma_retagged(s.clients, sticky, tag, window);
    assert(moved.clients == retagged(s.clients, sticky, tag));
    let asked = moved.sent(seq![Request::FocusRoot]);
    let arranged = asked.arranged();
    lemma_arranged(asked);
    lemma_same_marks_windows(asked.clients, arranged.clients);
    assert(arranged.ring() == moved.ring());
    let record = client_of(asked.clients, window).unwrap();
    assert(same_but_geometry(record, client_of(arranged.clients, window).unwrap()));
    let settled = arranged.settled(s.focused());
    match arranged.focused() {
        Some(client) => {
            lemma_focus_on_holds(arranged.ring(), client, window);
        },
        None => {},
    }
    assert(settled.clients == arranged.clients);
    assert(settled.frames == s.frames);
    assert(settled.current_tag == tag);
    assert(settled.ring().contains(window));
}

/// A sticky client follows the manager from one tag to another and
/// back: after each change of tag the workspace in use holds the client,
/// and the tag of the client is the tag in use.
pub proof fn lemma_sticky_round_trip(s: State, there: u8, window: u64)
    requires
        s.wf(),
        s.current_tag != TAG_OVERVIEW,
        there != TAG_OVERVIEW,
        there != s.current_tag,
        s.index_of(there) is Some,
        s.ring().contains(window),
        client_of(s.clients, window) is Some,
        client_of(s.clients, window).unwrap().0.is_sticky,
    ensures
        s.tag_selected(there).current_tag == there,
        s.tag_selected(there).ring().contains(window),
        client_of(s.tag_selected(there).clients, window).unwrap().0.tag == there,
        s.tag_selected(there).tag_selected(s.current_tag).current_tag == s.current_tag,
        s.tag_selected(there).tag_selected(s.current_tag).ring().contains(window),
        client_of(
            s.tag_selected(there).tag_selected(s.current_tag).clients,
            window,
        ).unwrap().0.tag == s.current_tag,
{
    lemma_sticky_follows(s, there, window);
    lemma_sticky_follows(s.tag_selected(there), s.current_tag, window);
}

/// Whether the index is that of a workspace of a tag, not of the overview.
pub open spec fn of_a_tag(s: State, i: int) -> bool {
    0 <= i < s.frames.len() && s.frames[i].tag != TAG_OVERVIEW
}

/// The workspaces of the tags keep their clients apart: none holds a
/// client twice, and no two of them hold the same client.
pub open spec fn apart(s: State) -> bool {
    &&& forall|i: int| of_a_tag(s, i) ==> (#[trigger] s.rings[i]).distinct()
    &&& forall|i: int, j: int, v: u64|
        of_a_tag(s, i) && of_a_tag(s, j) && i != j ==> !(#[trigger] s.rings[i].contains(v)
            && #[trigger] s.rings[j].contains(v))
}

/// A manager whose rings are all empty, as a new one's are, keeps the
/// clients of the tags apart.
pub proof fn lemma_empty_rings_are_apart(s: State)
    requires
        s.rings.len() == s.frames.len(),
        forall|i: int| 0 <= i < s.rings.len() ==> #[trigger] s.rings[i] == Ring::empty(),
    ensures
        apart(s),
{
    assert forall|i: int| of_a_tag(s, i) implies (#[trigger] s.rings[i]).distinct() by {
        assert(s.rings[i].order() =~= Seq::<u64>::empty());
    }
    assert forall|i: int, j: int, v: u64|
        of_a_tag(s, i) && of_a_tag(s, j) && i != j implies !(#[trigger] s.rings[i].contains(v)
        && #[trigger] s.rings[j].contains(v)) by {
        assert(s.rings[i].order() =~= Seq::<u64>::empty());
    }
}

/// What is left of a ring after some clients were removed from it.
pub proof fn lemma_removed_all(ring: Ring, list: Seq<u64>)
    requires
        ring.distinct(),
    ensures
        removed_all(ring, list).distinct(),
        forall|v: u64| removed_all(ring, list).contains(v) <==> ring.contains(v) && !list.contains(v),
    decreases list.len(),
{
    if list.len() > 0 {
        let so_far = removed_all(ring, list.drop_last());
        lemma_removed_all(ring, list.drop_last());
        lemma_remove_keeps_distinct(so_far, list.last());
        assert forall|v: u64| removed_all(ring, list).contains(v) <==> ring.contains(v)
            && !list.contains(v) by {
            if list.drop_last().contains(v) {
                let k = choose|k: int| 0 <= k < list.drop_last().len() && list.drop_last()[k] == v;
                assert(list[k] == v);
            }
            if list.contains(v) && v != list.last() {
                let k = choose|k: int| 0 <= k < list.len() && list[k] == v;
                assert(list.drop_last()[k] == v);
            }
            if v == list.last() {
                assert(list[list.len() - 1] == v);
            }
        }
    }
}

/// What a ring holds after some new clients entered it.
pub proof fn lemma_attached(ring: Ring, list: Seq<u64>)
    requires
        ring.distinct(),
        list.no_duplicates(),
        forall|v: u64| list.contains(v) ==> !ring.contains(v),
    ensures
        attached(ring, list).distinct(),
        forall|v: u64| attached(ring, list).contains(v) <==> ring.contains(v) || list.contains(v),
    decreases list.len(),
{
    if list.len() > 0 {
        let rest = list.drop_last();
        let so_far = attached(ring, rest);
        assert forall|v: u64| rest.contains(v) implies !ring.contains(v) by {
            let k = choose|k: int| 0 <= k < rest.len() && rest[k] == v;
            assert(list[k] == v);
        }
        lemma_attached(ring, rest);
        assert(list[list.len() - 1] == list.last());
        assert(!rest.contains(list.last())) by {
            if rest.contains(list.last()) {
                let k = choose|k: int| 0 <= k < rest.len() && rest[k] == list.last();
                assert(list[k] == list[list.len() - 1]);
            }
        }
        lemma_insert_keeps_distinct(so_far, list.last(), true);
        assert forall|v: u64| attached(ring, list).contains(v) <==> ring.contains(v)
            || list.contains(v) by {
            if rest.contains(v) {
                let k = choose|k: int| 0 <= k < rest.len() && rest[k] == v;
                assert(list[k] == v);
            }
            if list.contains(v) && v != list.last() {
                let k = choose|k: int| 0 <= k < list.len() && list[k] == v;
                assert(rest[k] == v);
            }
        }
    }
}

/// A choice among clients takes each client once at most, and no client
/// that the listing does not hold.
pub proof fn lemma_selected_part(listing: Seq<u64>, clients: Seq<ClientW>, filter: ClientFilter)
    requires
        listing.no_duplicates(),
    ensures
        selected(listing, clients, filter).no_duplicates(),
        forall|v: u64| selected(listing, clients, filter).contains(v) ==> listing.contains(v),
    decreases listing.len(),
{
    if listing.len() > 0 {
        let rest = listing.drop_last();
        let chosen = selected(rest, clients, filter);
        let all = selected(listing, clients, filter);
        lemma_selected_part(rest, clients, filter);
        assert forall|v: u64| chosen.contains(v) implies listing.contains(v) && v
            != listing.last() by {
            assert(rest.contains(v));
            let k = choose|k: int| 0 <= k < rest.len() && rest[k] == v;
            assert(listing[k] == v);
            assert(listing[listing.len() - 1] == listing.last());
        }
        assert(listing[listing.len() - 1] == listing.last());
        if all != chosen {
            assert(all == chosen.push(listing.last()));
            assert forall|i: int, j: int|
                0 <= i < all.len() && 0 <= j < all.len() && i != j implies all[i] != all[j] by {
                if i < chosen.len() {
                    assert(chosen.contains(all[i]));
                }
                if j < chosen.len() {
                    assert(chosen.contains(all[j]));
                }
            }
            assert forall|v: u64| all.contains(v) implies listing.contains(v) by {
                let k = choose|k: int| 0 <= k < all.len() && all[k] == v;
                if k < chosen.len() {
                    assert(chosen.contains(v));
                }
            }
        }
    }
}

/// Bringing the screen up to date changes the ring of no workspace of a tag.
pub proof fn lemma_arranged_rings(s: State)
    requires
        s.wf(),
    ensures
        s.arranged().frames == s.frames,
        s.arranged().current_tag == s.current_tag,
        s.arranged().config == s.config,
        s.arranged().descriptions == s.descriptions,
        s.arranged().rings.len() == s.rings.len(),
        forall|i: int| #[trigger] of_a_tag(s, i) ==> s.arranged().rings[i] == s.rings[i],
        s.current_tag != TAG_OVERVIEW ==> s.arranged().rings == s.rings,
{
    let hidden = s.others_hidden(s.frames.len());
    lemma_others_hidden(s, s.frames.len());
    lemma_position(s.tags(), s.current_tag as u64);
}

/// Going to another tag keeps the clients of the tags apart. From the
/// overview this holds if the overview holds no sticky client, as it
/// does when it has just been made anew.
pub proof fn lemma_tags_stay_apart(s: State, tag: u8)
    requires
        s.wf(),
        apart(s),
        s.current_tag == TAG_OVERVIEW ==> s.sticky().len() == 0,
    ensures
        s.tag_selected(tag).wf(),
        apart(s.tag_selected(tag)),
{
    if tag != s.current_tag && s.index_of(tag) is Some {
        let source = s.current();
        let target = s.index_of(tag).unwrap();
        lemma_position(s.tags(), tag as u64);
        lemma_position(s.tags(), s.current_tag as u64);
        let moved = s.moved_to(tag);
        assert(moved.frames == s.frames);
        assert(moved.current_tag == tag);
        assert(moved.wf());
        assert(apart(moved)) by {
            if tag != TAG_OVERVIEW {
                let sticky = s.sticky();
                let ring = s.ring();
                let landing = s.rings[target];
                assert(source != target);
                if of_a_tag(s, source) {
                    lemma_listing_distinct(ring);
                    lemma_selected_part(ring.listing(), s.clients, ClientFilter::Sticky);
                    lemma_removed_all(ring, sticky);
                    assert forall|v: u64| sticky.contains(v) implies ring.contains(v)
                        && !landing.contains(v) by {
                        lemma_listing_holds(ring, v);
                    }
                } else {
                    assert(sticky =~= Seq::<u64>::empty());
                }
                lemma_attached(landing, sticky);
                assert forall|i: int| of_a_tag(moved, i) implies (#[trigger] moved.rings[i]).distinct() by {
                    if i != source && i != target {
                        assert(moved.rings[i] == s.rings[i]);
                    }
                }
                assert forall|i: int, j: int, v: u64|
                    of_a_tag(moved, i) && of_a_tag(moved, j) && i != j implies !(
                    #[trigger] moved.rings[i].contains(v) && #[trigger] moved.rings[j].contains(
                        v,
                    )) by {
                    if moved.rings[i].contains(v) && moved.rings[j].contains(v) {
                        let in_i = s.rings[i].contains(v) || (i == target && sticky.contains(v));
                        let in_j = s.rings[j].contains(v) || (j == target && sticky.contains(v));
                        assert(in_i && in_j);
                        assert(sticky.contains(v) ==> s.rings[source].contains(v));
                    }
                }
            }
        }
        let asked = moved.sent(seq![Request::FocusRoot]);
        let arranged = asked.arranged();
        lemma_arranged_rings(asked);
        assert(apart(arranged)) by {
            assert forall|i: int| of_a_tag(arranged, i) implies (#[trigger] arranged.rings[i]).distinct() by {
                assert(of_a_tag(asked, i));
                assert(arranged.rings[i] == moved.rings[i]);
            }
            assert forall|i: int, j: int, v: u64|
                of_a_tag(arranged, i) && of_a_tag(arranged, j) && i != j implies !(
                #[trigger] arranged.rings[i].contains(v) && #[trigger] arranged.rings[j].contains(
                    v,
                )) by {
                assert(of_a_tag(asked, i) && of_a_tag(asked, j));
                assert(arranged.rings[i] == moved.rings[i]);
                assert(arranged.rings[j] == moved.rings[j]);
            }
        }
        let settled = arranged.settled(s.focused());
        let cur = arranged.current();
        match arranged.focused() {
            Some(client) => {
                if of_a_tag(arranged, cur) {
                    lemma_focus_keeps_distinct(arranged.ring(), FocusShift::Forward, client);
                }
                assert forall|i: int| of_a_tag(settled, i) implies (#[trigger] settled.rings[i]).distinct() by {
                    if i != cur {
                        assert(settled.rings[i] == arranged.rings[i]);
                    }
                }
                assert forall|i: int, j: int, v: u64|
                    of_a_tag(settled, i) && of_a_tag(settled, j) && i != j implies !(
                    #[trigger] settled.rings[i].contains(v) && #[trigger] settled.rings[j].contains(
                        v,
                    )) by {
                    if settled.rings[i].contains(v) && settled.rings[j].contains(v) {
                        assert(arranged.rings[i].contains(v));
                        assert(arranged.rings[j].contains(v));
                    }
                }
            },
            None => {
                assert(settled.rings == arranged.rings);
            },
        }
        assert(settled.frames == s.frames);
    }
}

/// What a workspace of a tag holds, the manager manages.
pub proof fn lemma_gathered_holds(s: State, upto: nat, i: int, window: u64)
    requires
        of_a_tag(s, i),
        i < upto <= s.frames.len(),
        s.rings[i].contains(window),
    ensures
        gathered(s.frames, s.rings, upto).contains(window),
    decreases upto,
{
    let so_far = gathered(s.frames, s.rings, (upto - 1) as nat);
    if i < upto - 1 {
        lemma_gathered_holds(s, (upto - 1) as nat, i, window);
        let k = choose|k: int| 0 <= k < so_far.len() && so_far[k] == window;
        if s.frames[upto - 1].tag != TAG_OVERVIEW {
            assert((so_far + s.rings[upto - 1].listing())[k] == window);
        }
    } else {
        lemma_listing_holds(s.rings[i], window);
        let listing = s.rings[i].listing();
        let k = choose|k: int| 0 <= k < listing.len() && listing[k] == window;
        assert((so_far + listing)[so_far.len() + k] == window);
    }
}

/// One ring has changed, and it holds no client of another workspace:
/// the clients of the tags are still apart.
pub proof fn lemma_one_ring_changed(s: State, i: int, ring: Ring)
    requires
        apart(s),
        0 <= i < s.rings.len(),
        s.rings.len() == s.frames.len(),
        of_a_tag(s, i) ==> ring.distinct(),
        forall|j: int, v: u64|
            of_a_tag(s, i) && of_a_tag(s, j) && j != i && ring.contains(v) ==> !(
            #[trigger] s.rings[j].contains(v)),
    ensures
        apart(s.with_ring(i, ring)),
{
    let t = s.with_ring(i, ring);
    assert forall|j: int| of_a_tag(t, j) implies (#[trigger] t.rings[j]).distinct() by {
        if j != i {
            assert(t.rings[j] == s.rings[j]);
        }
    }
    assert forall|a: int, b: int, v: u64| of_a_tag(t, a) && of_a_tag(t, b) && a != b implies !(
    #[trigger] t.rings[a].contains(v) && #[trigger] t.rings[b].contains(v)) by {
        if t.rings[a].contains(v) && t.rings[b].contains(v) {
            if a == i {
                assert(s.rings[b].contains(v));
            } else if b == i {
                assert(s.rings[a].contains(v));
            } else {
                assert(s.rings[a].contains(v) && s.rings[b].contains(v));
            }
        }
    }
}

/// Two managers with the same workspaces and rings keep their clients apart alike.
pub proof fn lemma_apart_by_rings(s: State, t: State)
    requires
        apart(s),
        t.frames == s.frames,
        t.rings.len() == s.rings.len(),
        forall|i: int| #[trigger] of_a_tag(s, i) ==> t.rings[i] == s.rings[i],
    ensures
        apart(t),
{
    assert forall|i: int| of_a_tag(t, i) implies (#[trigger] t.rings[i]).distinct() by {
        assert(of_a_tag(s, i));
    }
    assert forall|a: int, b: int, v: u64| of_a_tag(t, a) && of_a_tag(t, b) && a != b implies !(
    #[trigger] t.rings[a].contains(v) && #[trigger] t.rings[b].contains(v)) by {
        assert(of_a_tag(s, a) && of_a_tag(s, b));
        if t.rings[a].contains(v) && t.rings[b].contains(v) {
            assert(s.rings[a].contains(v) && s.rings[b].contains(v));
        }
    }
}

/// Taking a window under management that is not managed yet keeps the
/// clients of the tags apart.
pub proof fn lemma_manage_keeps_apart(s: State, info: NewWindow, made: ClientW)
    requires
        s.wf(),
        apart(s),
        !s.manages(info.window),
        made.0.window == info.window,
    ensures
        s.window_managed(info, made).wf(),
        apart(s.window_managed(info, made)),
{
    let asked = s.asked_for(info, made);
    let window = info.window;
    if !made.0.is_dock {
        let landing = s.landing_tag();
        let at = s.index_of(landing).unwrap();
        lemma_position(s.tags(), landing as u64);
        let held = asked.with_clients(asked.clients.push(made));
        assert forall|i: int| of_a_tag(s, i) implies !(#[trigger] s.rings[i]).contains(window) by {
            if s.rings[i].contains(window) {
                lemma_gathered_holds(s, s.frames.len(), i, window);
            }
        }
        let ring = held.rings[at];
        if of_a_tag(s, at) {
            lemma_insert_keeps_distinct(ring, window, made.0.is_floating);
        }
        assert(apart(held)) by {
            lemma_apart_by_rings(s, held);
        }
        let grown = ring.insert(window, made.0.is_floating);
        assert forall|j: int, v: u64|
            of_a_tag(held, at) && of_a_tag(held, j) && j != at && grown.contains(v) implies !(
            #[trigger] held.rings[j].contains(v)) by {
            if v == window {
                assert(of_a_tag(s, j));
                assert(!s.rings[j].contains(window));
            } else {
                assert(ring.contains(v));
                assert(!(held.rings[at].contains(v) && held.rings[j].contains(v)));
            }
        }
        lemma_one_ring_changed(held, at, grown);
        let inserted = held.ring_inserted(at, window, made.0.is_floating);
        lemma_apart_by_rings(held.with_ring(at, ring.insert(window, made.0.is_floating)), inserted);
        lemma_arranged_rings(inserted);
        lemma_apart_by_rings(inserted, inserted.arranged());
    } else {
        lemma_apart_by_rings(s, s.window_managed(info, made));
    }
}

/// Giving a client up keeps the clients of the tags apart.
pub proof fn lemma_unmanage_keeps_apart(s: State, window: u64, destroy: bool)
    requires
        s.wf(),
        apart(s),
    ensures
        s.unmanaged(window, destroy).wf(),
        apart(s.unmanaged(window, destroy)),
{
    if s.manages(window) {
        match client_of(s.clients, window) {
            Some(c) => {
                let told = if destroy {
                    s
                } else {
                    s.sent(seq![Request::State { window, state: crate::display::WindowState::Withdrawn }])
                };
                lemma_apart_by_rings(s, told);
                let first = if s.current_tag == TAG_OVERVIEW {
                    told.taken_from(c.0.tag, window)
                } else {
                    told
                };
                lemma_taken_keeps_apart(told, c.0.tag, window);
                let out_of_stack = State { back: crate::state::without(first.back, window), ..first };
                lemma_apart_by_rings(first, out_of_stack);
                let taken = out_of_stack.taken_from(c.0.tag, window);
                lemma_taken_keeps_apart(out_of_stack, c.0.tag, window);
                let listed = taken.forgotten(window).client_list_updated();
                lemma_apart_by_rings(taken, listed);
                lemma_arranged_rings(listed);
                lemma_apart_by_rings(listed, listed.arranged());
            },
            None => {},
        }
    }
}

/// A client that leaves the ring of its tag leaves the clients of the tags apart.
pub proof fn lemma_taken_keeps_apart(s: State, tag: u8, window: u64)
    requires
        apart(s),
        s.rings.len() == s.frames.len(),
    ensures
        apart(s.taken_from(tag, window)),
        s.taken_from(tag, window).frames == s.frames,
        s.taken_from(tag, window).rings.len() == s.rings.len(),
        s.taken_from(tag, window).current_tag == s.current_tag,
        s.taken_from(tag, window).config == s.config,
        s.taken_from(tag, window).descriptions == s.descriptions,
{
    match s.index_of(tag) {
        Some(i) => {
            lemma_position(s.tags(), tag as u64);
            let ring = s.rings[i];
            if of_a_tag(s, i) {
                lemma_remove_keeps_distinct(ring, window);
            }
            assert forall|j: int, v: u64|
                of_a_tag(s, i) && of_a_tag(s, j) && j != i && ring.remove(window).contains(
                    v,
                ) implies !(#[trigger] s.rings[j].contains(v)) by {
                assert(ring.contains(v));
                assert(!(s.rings[i].contains(v) && s.rings[j].contains(v)));
            }
            lemma_one_ring_changed(s, i, ring.remove(window));
            lemma_apart_by_rings(s.with_ring(i, ring.remove(window)), s.taken_from(tag, window));
        },
        None => {},
    }
}

/// Taking the focused client to another tag keeps the clients of the tags apart.
pub proof fn lemma_add_tag_keeps_apart(s: State, tag: u8)
    requires
        s.wf(),
        apart(s),
    ensures
        s.tag_added(tag).wf(),
        apart(s.tag_added(tag)),
{
    if !(s.current_tag == TAG_OVERVIEW || tag == TAG_OVERVIEW || s.index_of(tag) is None) {
        let source = s.current();
        let target = s.index_of(tag).unwrap();
        lemma_position(s.tags(), tag as u64);
        lemma_position(s.tags(), s.current_tag as u64);
        let ring = s.ring();
        lemma_remove_keeps_distinct(ring, 0);
        assert forall|j: int, v: u64|
            of_a_tag(s, source) && of_a_tag(s, j) && j != source && ring.detach().contains(
                v,
            ) implies !(#[trigger] s.rings[j].contains(v)) by {
            assert(ring.contains(v));
            assert(!(s.rings[source].contains(v) && s.rings[j].contains(v)));
        }
        lemma_one_ring_changed(s, source, ring.detach());
        let left = s.ring_detached(source);
        lemma_apart_by_rings(s.with_ring(source, ring.detach()), left);
        let there = match s.focused() {
            Some(client) => {
                let retagged = left.with_clients(
                    crate::state::changed(left.clients, client, |c: ClientW| c.with_tag(tag)),
                );
                lemma_apart_by_rings(left, retagged);
                let landing = retagged.rings[target];
                assert(ring.contains(client)) by {
                    assert(ring.order()[ring.before.len() as int] == client);
                }
                assert(!landing.contains(client)) by {
                    if target != source {
                        assert(landing == s.rings[target]);
                        assert(!(s.rings[source].contains(client) && s.rings[target].contains(
                            client,
                        )));
                    } else {
                        assert(landing == ring.detach());
                    }
                }
                lemma_insert_keeps_distinct(landing, client, false);
                assert forall|j: int, v: u64|
                    of_a_tag(retagged, target) && of_a_tag(retagged, j) && j != target
                        && landing.insert(client, false).contains(v) implies !(
                    #[trigger] retagged.rings[j].contains(v)) by {
                    if v == client {
                        if j == source {
                            assert(retagged.rings[j] == ring.detach());
                        } else {
                            assert(retagged.rings[j] == s.rings[j]);
                            assert(!(s.rings[source].contains(client) && s.rings[j].contains(
                                client,
                            )));
                        }
                    } else {
                        assert(landing.contains(v));
                        assert(!(retagged.rings[target].contains(v) && retagged.rings[j].contains(
                            v,
                        )));
                    }
                }
                lemma_one_ring_changed(retagged, target, landing.insert(client, false));
                let put = retagged.ring_inserted(target, client, false);
                lemma_apart_by_rings(retagged.with_ring(target, landing.insert(client, false)), put);
                put
            },
            None => left,
        };
        lemma_tags_stay_apart(there, tag);
    }
}

/// Whether the index is that of the one workspace of a tag that holds
/// the window, and holds it once.
pub open spec fn in_one_ring(s: State, window: u64) -> bool {
    &&& of_a_tag(s, s.current())
    &&& s.ring().contains(window)
    &&& s.ring().distinct()
    &&& forall|i: int| of_a_tag(s, i) && i != s.current() ==> !(#[trigger] s.rings[i]).contains(window)
}

/// A sticky client moves with the manager: after the manager has gone
/// to another tag, the client is in the ring of that tag once and in the
/// ring of no other tag, its tag is the tag in use, and it is still
/// sticky. The rings of the tags are taken to be apart before, and are
/// so after.
pub proof fn lemma_sticky_moves(s: State, tag: u8, window: u64)
    requires
        s.wf(),
        apart(s),
        s.current_tag != TAG_OVERVIEW,
        tag != TAG_OVERVIEW,
        tag != s.current_tag,
        s.index_of(tag) is Some,
        s.ring().contains(window),
        client_of(s.clients, window) is Some,
        client_of(s.clients, window).unwrap().0.is_sticky,
    ensures
        s.tag_selected(tag).wf(),
        apart(s.tag_selected(tag)),
        s.tag_selected(tag).frames == s.frames,
        s.tag_selected(tag).current_tag == tag,
        in_one_ring(s.tag_selected(tag), window),
        client_of(s.tag_selected(tag).clients, window) is Some,
        client_of(s.tag_selected(tag).clients, window).unwrap().0.tag == tag,
        client_of(s.tag_selected(tag).clients, window).unwrap().0.is_sticky,
{
    let t = s.tag_selected(tag);
    lemma_sticky_follows(s, tag, window);
    lemma_tags_stay_apart(s, tag);
    lemma_position(t.tags(), tag as u64);
    assert(of_a_tag(t, t.current()));
    assert forall|i: int| of_a_tag(t, i) && i != t.current() implies !(#[trigger] t.rings[i]).contains(
        window,
    ) by {
        assert(!(t.rings[i].contains(window) && t.rings[t.current()].contains(window)));
    }
}

/// A sticky client goes with the manager from one tag to another and
/// back: after each change of tag it is in the ring of the tag in use
/// once and in the ring of no other tag, and its tag is the tag in use.
pub proof fn lemma_sticky_there_and_back(s: State, there: u8, window: u64)
    requires
        s.wf(),
        apart(s),
        s.current_tag != TAG_OVERVIEW,
        there != TAG_OVERVIEW,
        there != s.current_tag,
        s.index_of(there) is Some,
        s.ring().contains(window),
        client_of(s.clients, window) is Some,
        client_of(s.clients, window).unwrap().0.is_sticky,
    ensures
        s.tag_selected(there).current_tag == there,
        in_one_ring(s.tag_selected(there), window),
        client_of(s.tag_selected(there).clients, window).unwrap().0.tag == there,
        s.tag_selected(there).tag_selected(s.current_tag).current_tag == s.current_tag,
        in_one_ring(s.tag_selected(there).tag_selected(s.current_tag), window),
        client_of(
            s.tag_selected(there).tag_selected(s.current_tag).clients,
            window,
        ).unwrap().0.tag == s.current_tag,
        client_of(
            s.tag_selected(there).tag_selected(s.current_tag).clients,
            window,
        ).unwrap().0.is_sticky,
{
    lemma_sticky_moves(s, there, window);
    lemma_sticky_moves(s.tag_selected(there), s.current_tag, window);
}

/// Whether `a` stands before `b` in the sequence.
pub open spec fn comes_before(s: Seq<u64>, a: u64, b: u64) -> bool {
    exists|i: int, j: int| 0 <= i < j < s.len() && s[i] == a && s[j] == b
}

/// What leaves a sequence changes nothing for the others: they stay,
/// and they stay in their order.
pub proof fn lemma_remove_keeps_order(s: Seq<u64>, at: int, a: u64, b: u64)
    requires
        0 <= at < s.len(),
        s[at] != a,
        s[at] != b,
    ensures
        s.contains(a) ==> s.remove(at).contains(a),
        comes_before(s, a, b) ==> comes_before(s.remove(at), a, b),
{
    let t = s.remove(at);
    if s.contains(a) {
        let k = choose|k: int| 0 <= k < s.len() && s[k] == a;
        let k2 = if k < at {
            k
        } else {
            k - 1
        };
        assert(t[k2] == a);
    }
    if comes_before(s, a, b) {
        let (i, j) = choose|i: int, j: int| 0 <= i < j < s.len() && s[i] == a && s[j] == b;
        let i2 = if i < at {
            i
        } else {
            i - 1
        };
        let j2 = if j < at {
            j
        } else {
            j - 1
        };
        assert(0 <= i2 < j2 < t.len() && t[i2] == a && t[j2] == b);
    }
}

/// A client that leaves a ring changes nothing for the others: they
/// stay in the ring, in their order.
pub proof fn lemma_ring_remove_keeps_order(ring: Ring, window: u64, a: u64, b: u64)
    requires
        window != a,
        window != b,
    ensures
        ring.contains(a) ==> ring.remove(window).contains(a),
        comes_before(ring.order(), a, b) ==> comes_before(ring.remove(window).order(), a, b),
{
    lemma_position(ring.before, window);
    lemma_position(ring.after, window);
    let order = ring.order();
    let next = ring.remove(window);
    match position(ring.before, window) {
        Some(i) => {
            assert(next.order() =~= order.remove(i));
            assert(order[i] == window);
            lemma_remove_keeps_order(order, i, a, b);
        },
        None => match position(ring.after, window) {
            Some(i) => {
                let at = ring.before.len() + option_seq(ring.current).len() + i;
                assert(next.order() =~= order.remove(at));
                assert(order[at] == window);
                lemma_remove_keeps_order(order, at, a, b);
            },
            None => {
                if ring.current == Some(window) {
                    let at = ring.before.len() as int;
                    assert(next.order() =~= order.remove(at));
                    assert(order[at] == window);
                    lemma_remove_keeps_order(order, at, a, b);
                }
            },
        },
    }
}

/// The clients that leave a ring change nothing for the others.
pub proof fn lemma_removed_all_keeps_order(ring: Ring, list: Seq<u64>, a: u64, b: u64)
    requires
        !list.contains(a),
        !list.contains(b),
    ensures
        ring.contains(a) ==> removed_all(ring, list).contains(a),
        comes_before(ring.order(), a, b) ==> comes_before(removed_all(ring, list).order(), a, b),
    decreases list.len(),
{
    if list.len() > 0 {
        let rest = list.drop_last();
        assert(list[list.len() - 1] == list.last());
        assert forall|v: u64| rest.contains(v) implies list.contains(v) by {
            let k = choose|k: int| 0 <= k < rest.len() && rest[k] == v;
            assert(list[k] == v);
        }
        lemma_removed_all_keeps_order(ring, rest, a, b);
        lemma_ring_remove_keeps_order(removed_all(ring, rest), list.last(), a, b);
    }
}

/// A choice among clients takes only clients that the filter accepts.
pub proof fn lemma_selected_accepts(
    listing: Seq<u64>,
    clients: Seq<ClientW>,
    filter: ClientFilter,
    window: u64,
)
    requires
        selected(listing, clients, filter).contains(window),
    ensures
        client_of(clients, window) is Some,
        filter.accepts(client_of(clients, window).unwrap()),
    decreases listing.len(),
{
    if listing.len() > 0 {
        let rest = selected(listing.drop_last(), clients, filter);
        let all = selected(listing, clients, filter);
        let k = choose|k: int| 0 <= k < all.len() && all[k] == window;
        if k < rest.len() {
            assert(rest[k] == window);
            lemma_selected_accepts(listing.drop_last(), clients, filter, window);
        }
    }
}

/// A client that is not sticky stays where it is when the manager goes
/// to another tag: it keeps its tag, it stays in the ring of the
/// workspace that was in use, and it stays behind every client that is
/// not sticky and stood before it there.
pub proof fn lemma_settled_stays(s: State, tag: u8, window: u64, before: u64)
    requires
        s.wf(),
        s.current_tag != TAG_OVERVIEW,
        tag != TAG_OVERVIEW,
        tag != s.current_tag,
        s.index_of(tag) is Some,
        s.ring().contains(window),
        client_of(s.clients, window) is Some,
        !client_of(s.clients, window).unwrap().0.is_sticky,
        client_of(s.clients, before) is Some ==> !client_of(s.clients, before).unwrap().0.is_sticky,
    ensures
        s.tag_selected(tag).frames == s.frames,
        s.tag_selected(tag).rings[s.current()].contains(window),
        client_of(s.tag_selected(tag).clients, window) is Some,
        client_of(s.tag_selected(tag).clients, window).unwrap().0.tag == client_of(
            s.clients,
            window,
        ).unwrap().0.tag,
        !client_of(s.tag_selected(tag).clients, window).unwrap().0.is_sticky,
        comes_before(s.ring().order(), before, window) ==> comes_before(
            s.tag_selected(tag).rings[s.current()].order(),
            before,
            window,
        ),
{
    let sticky = s.sticky();
    let source = s.current();
    let target = s.index_of(tag).unwrap();
    lemma_position(s.tags(), tag as u64);
    lemma_position(s.tags(), s.current_tag as u64);
    assert(!sticky.contains(window)) by {
        if sticky.contains(window) {
            lemma_selected_accepts(s.ring().listing(), s.clients, ClientFilter::Sticky, window);
        }
    }
    assert(!sticky.contains(before)) by {
        if sticky.contains(before) {
            lemma_selected_accepts(s.ring().listing(), s.clients, ClientFilter::Sticky, before);
        }
    }
    lemma_removed_all_keeps_order(s.ring(), sticky, before, window);
    lemma_removed_all_keeps_order(s.ring(), sticky, window, window);
    let moved = s.moved_to(tag);
    assert(moved.rings[source] == removed_all(s.ring(), sticky));
    lemma_retagged(s.clients, sticky, tag, window);
    assert(moved.clients == retagged(s.clients, sticky, tag));
    let asked = moved.sent(seq![Request::FocusRoot]);
    let arranged = asked.arranged();
    lemma_arranged(asked);
    lemma_same_marks_windows(asked.clients, arranged.clients);
    let record = client_of(asked.clients, window).unwrap();
    assert(same_but_geometry(record, client_of(arranged.clients, window).unwrap()));
    assert(arranged.current() == target);
    let settled = arranged.settled(s.focused());
    assert(settled.rings[source] == arranged.rings[source]);
    assert(settled.clients == arranged.clients);
}

/// Whether the first rectangle lies within the second.
pub open spec fn inside(r: Rect, outer: Rect) -> bool {
    &&& outer.x <= r.x
    &&& outer.y <= r.y
    &&& r.x + r.width <= outer.x + outer.width
    &&& r.y + r.height <= outer.y + outer.height
}

/// Whether neither extent of the rectangle is below zero.
pub open spec fn has_extent(r: Rect) -> bool {
    r.width >= 0 && r.height >= 0
}

/// Whether the two rectangles share no point of their interiors: one
/// ends where the other begins, or before.
pub open spec fn no_overlap(a: Rect, b: Rect) -> bool {
    ||| a.x + a.width <= b.x
    ||| b.x + b.width <= a.x
    ||| a.y + a.height <= b.y
    ||| b.y + b.height <= a.y
}

pub open spec fn all_inside(cells: Seq<Rect>, outer: Rect) -> bool {
    forall|i: int| 0 <= i < cells.len() ==> inside(#[trigger] cells[i], outer)
}

pub open spec fn all_have_extent(cells: Seq<Rect>) -> bool {
    forall|i: int| 0 <= i < cells.len() ==> has_extent(#[trigger] cells[i])
}

pub open spec fn none_overlap(cells: Seq<Rect>) -> bool {
    forall|i: int, j: int|
        0 <= i < cells.len() && 0 <= j < cells.len() && i != j ==> no_overlap(
            #[trigger] cells[i],
            #[trigger] cells[j],
        )
}

/// The two halves of a cell lie within the cell and do not overlap.
pub proof fn lemma_halves(r: Rect, inset: int, horizontal: bool, outer: Rect)
    requires
        has_extent(r),
        inside(r, outer),
        outer.corners_within(LAYOUT_LIMIT as int),
        0 <= inset <= CONFIG_LIMIT,
    ensures
        inside(overview_halves(r, inset, horizontal).0, r),
        inside(overview_halves(r, inset, horizontal).1, r),
        inside(overview_halves(r, inset, horizontal).0, outer),
        inside(overview_halves(r, inset, horizontal).1, outer),
        no_overlap(
            overview_halves(r, inset, horizontal).0,
            overview_halves(r, inset, horizontal).1,
        ),
{
}

/// Where the halves of a cell stand after every cell was halved.
pub proof fn lemma_subdivide_index(cells: Seq<Rect>, inset: int, horizontal: bool, i: int)
    requires
        0 <= i < cells.len(),
    ensures
        overview_subdivide(cells, inset, horizontal).len() == 2 * cells.len(),
        overview_subdivide(cells, inset, horizontal)[2 * i] == overview_halves(
            cells[i],
            inset,
            horizontal,
        ).0,
        overview_subdivide(cells, inset, horizontal)[2 * i + 1] == overview_halves(
            cells[i],
            inset,
            horizontal,
        ).1,
    decreases cells.len(),
{
    lemma_overview_subdivide_len(cells, inset, horizontal);
    lemma_overview_subdivide_len(cells.drop_last(), inset, horizontal);
    if i < cells.len() - 1 {
        lemma_subdivide_index(cells.drop_last(), inset, horizontal, i);
        assert(cells.drop_last()[i] == cells[i]);
    }
}

/// Halving every cell keeps the cells within the rectangle and apart.
pub proof fn lemma_subdivide_cells(cells: Seq<Rect>, inset: int, horizontal: bool, outer: Rect)
    requires
        all_have_extent(cells),
        all_inside(cells, outer),
        none_overlap(cells),
        outer.corners_within(LAYOUT_LIMIT as int),
        0 <= inset <= CONFIG_LIMIT,
    ensures
        all_inside(overview_subdivide(cells, inset, horizontal), outer),
        none_overlap(overview_subdivide(cells, inset, horizontal)),
{
    let halved = overview_subdivide(cells, inset, horizontal);
    lemma_overview_subdivide_len(cells, inset, horizontal);
    assert forall|m: int| 0 <= m < halved.len() implies inside(#[trigger] halved[m], outer) by {
        let i = m / 2;
        lemma_subdivide_index(cells, inset, horizontal, i);
        lemma_halves(cells[i], inset, horizontal, outer);
    }
    assert forall|m: int, k: int|
        0 <= m < halved.len() && 0 <= k < halved.len() && m != k implies no_overlap(
        #[trigger] halved[m],
        #[trigger] halved[k],
    ) by {
        let i = m / 2;
        let j = k / 2;
        lemma_subdivide_index(cells, inset, horizontal, i);
        lemma_subdivide_index(cells, inset, horizontal, j);
        lemma_halves(cells[i], inset, horizontal, outer);
        lemma_halves(cells[j], inset, horizontal, outer);
        if i != j {
            assert(no_overlap(cells[i], cells[j]));
        }
    }
}

/// Putting cells in reading order keeps them within the rectangle and apart.
pub proof fn lemma_reading_order_cells(cells: Seq<Rect>, outer: Rect)
    requires
        all_inside(cells, outer),
        none_overlap(cells),
    ensures
        all_inside(reading_order(cells), outer),
        none_overlap(reading_order(cells)),
        reading_order(cells).len() == cells.len(),
    decreases cells.len(),
{
    lemma_reading_order(cells);
    let sorted = reading_order(cells);
    assert forall|i: int| 0 <= i < sorted.len() implies inside(#[trigger] sorted[i], outer) by {
        lemma_reading_order_contains(cells, i);
        let k = choose|k: int| 0 <= k < cells.len() && cells[k] == sorted[i];
        assert(inside(cells[k], outer));
    }
    if cells.len() > 0 {
        let rest = cells.drop_last();
        let last = cells.last();
        assert(all_inside(rest, outer)) by {
            assert forall|i: int| 0 <= i < rest.len() implies inside(#[trigger] rest[i], outer) by {
                assert(rest[i] == cells[i]);
            }
        }
        assert(none_overlap(rest)) by {
            assert forall|i: int, j: int|
                0 <= i < rest.len() && 0 <= j < rest.len() && i != j implies no_overlap(
                #[trigger] rest[i],
                #[trigger] rest[j],
            ) by {
                assert(rest[i] == cells[i] && rest[j] == cells[j]);
            }
        }
        lemma_reading_order_cells(rest, outer);
        let before = reading_order(rest);
        let at = lemma_insert_cell_place(before, last);
        assert(sorted == before.insert(at, last));
        assert forall|k: int| 0 <= k < before.len() implies no_overlap(
            #[trigger] before[k],
            last,
        ) by {
            lemma_reading_order_contains(rest, k);
            let m = choose|m: int| 0 <= m < rest.len() && rest[m] == before[k];
            assert(cells[m] == before[k]);
            assert(cells[cells.len() - 1] == last);
            assert(no_overlap(cells[m], cells[cells.len() - 1]));
        }
        assert forall|i: int, j: int|
            0 <= i < sorted.len() && 0 <= j < sorted.len() && i != j implies no_overlap(
            #[trigger] sorted[i],
            #[trigger] sorted[j],
        ) by {
            let a = if i < at {
                i
            } else {
                i - 1
            };
            let b = if j < at {
                j
            } else {
                j - 1
            };
            if i == at {
                assert(sorted[j] == before[b]);
                assert(no_overlap(before[b], last));
            } else if j == at {
                assert(sorted[i] == before[a]);
                assert(no_overlap(before[a], last));
            } else {
                assert(sorted[i] == before[a] && sorted[j] == before[b]);
                assert(no_overlap(before[a], before[b]));
            }
        }
    }
}

/// Whether no cell of a grid before the round `rounds` has an extent below zero.
pub open spec fn grids_have_extent(rounds: nat, rect: Rect, inset: int) -> bool {
    forall|k: nat| k < rounds ==> all_have_extent(#[trigger] overview_grid(k, rect, inset))
}

/// The cells of the grid of the overview lie within the rectangle, and
/// no two of them overlap, as long as the rectangle is so large that no
/// cell that is halved has an extent below zero.
pub proof fn lemma_overview_grid_cells(rounds: nat, rect: Rect, inset: int)
    requires
        rect.corners_within(LAYOUT_LIMIT as int),
        0 <= inset <= CONFIG_LIMIT,
        grids_have_extent(rounds, rect, inset),
    ensures
        all_inside(overview_grid(rounds, rect, inset), rect),
        none_overlap(overview_grid(rounds, rect, inset)),
    decreases rounds,
{
    if rounds > 0 {
        let before = overview_grid((rounds - 1) as nat, rect, inset);
        assert(grids_have_extent((rounds - 1) as nat, rect, inset));
        lemma_overview_grid_cells((rounds - 1) as nat, rect, inset);
        assert(all_have_extent(overview_grid((rounds - 1) as nat, rect, inset)));
        lemma_subdivide_cells(before, inset, rounds % 2 == 1, rect);
        lemma_reading_order_cells(overview_subdivide(before, inset, rounds % 2 == 1), rect);
    }
}

/// The rectangles of the overview lie within the rectangle that they
/// share, and no two of them overlap, as long as the rectangle is so
/// large that no cell that is halved on the way has an extent below zero.
pub proof fn lemma_overview_rects_tile(n: nat, rect: Rect, inset: int)
    requires
        n >= 1,
        rect.corners_within(LAYOUT_LIMIT as int),
        0 <= inset <= CONFIG_LIMIT,
        grids_have_extent(overview_rounds(n), rect, inset),
    ensures
        overview_rects(n, rect, inset).len() == n,
        all_inside(overview_rects(n, rect, inset), rect),
        none_overlap(overview_rects(n, rect, inset)),
{
    lemma_overview_rects_len(n, rect, inset);
    lemma_overview_grid_len(overview_rounds(n), rect, inset);
    lemma_overview_grid_cells(overview_rounds(n), rect, inset);
    let grid = overview_grid(overview_rounds(n), rect, inset);
    let cells = overview_rects(n, rect, inset);
    assert forall|i: int| 0 <= i < cells.len() implies inside(#[trigger] cells[i], rect) by {
        assert(cells[i] == grid[i]);
    }
    assert forall|i: int, j: int|
        0 <= i < cells.len() && 0 <= j < cells.len() && i != j implies no_overlap(
        #[trigger] cells[i],
        #[trigger] cells[j],
    ) by {
        assert(cells[i] == grid[i] && cells[j] == grid[j]);
    }
}

} // verus!
