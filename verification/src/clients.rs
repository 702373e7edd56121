//! Lists of clients: looking up, ranking, showing and choosing.

use vstd::prelude::*;
use crate::client::{ClientFilter, ClientL, ClientW};
use crate::config::ClientChange;
use crate::display::Request;

use crate::state::action_applied;
use crate::workspace::{client_of, find_client, windows};

verus! {

/// Whether the first client does not rank behind the second: clients
/// that stay on their tag come before sticky ones, then lower tags before
/// higher ones, tiled clients before floating ones, and higher weights
/// before lower ones.
pub open spec fn ranks_with(a: ClientW, b: ClientW) -> bool {
    if a.0.is_sticky != b.0.is_sticky {
        !a.0.is_sticky
    } else if a.0.tag != b.0.tag {
        a.0.tag < b.0.tag
    } else if a.0.is_floating != b.0.is_floating {
        !a.0.is_floating
    } else {
        a.0.weight >= b.0.weight
    }
}

/// The client put into a ranked list, behind every client that does not rank behind it.
pub open spec fn insert_ranked(list: Seq<ClientW>, client: ClientW) -> Seq<ClientW>
    decreases list.len(),
{
    if list.len() == 0 {
        seq![client]
    } else if ranks_with(list.last(), client) {
        list.push(client)
    } else {
        insert_ranked(list.drop_last(), client).push(list.last())
    }
}

/// The clients by rank; clients of one rank keep their order.
pub open spec fn ranked(list: Seq<ClientW>) -> Seq<ClientW>
    decreases list.len(),
{
    if list.len() == 0 {
        list
    } else {
        insert_ranked(ranked(list.drop_last()), list.last())
    }
}

/// Where `insert_ranked` puts the client.
pub proof fn lemma_insert_ranked_at(list: Seq<ClientW>, client: ClientW, at: int)
    requires
        0 <= at <= list.len(),
        forall|k: int| at <= k < list.len() ==> !ranks_with(list[k], client),
        at == 0 || ranks_with(list[at - 1], client),
    ensures
        insert_ranked(list, client) == list.insert(at, client),
    decreases list.len(),
{
    if list.len() == 0 {
        assert(list.insert(at, client) =~= seq![client]);
    } else if at == list.len() {
        assert(list.insert(at, client) =~= list.push(client));
    } else {
        lemma_insert_ranked_at(list.drop_last(), client, at);
        assert(list.drop_last().insert(at, client).push(list.last()) =~= list.insert(at, client));
    }
}

fn ranks_with_exec(a: &ClientW, b: &ClientW) -> (r: bool)
    ensures
        r == ranks_with(*a, *b),
{
    if a.is_sticky() != b.is_sticky() {
        !a.is_sticky()
    } else if a.tag() != b.tag() {
        a.tag() < b.tag()
    } else if a.is_floating() != b.is_floating() {
        !a.is_floating()
    } else {
        a.0.weight >= b.0.weight
    }
}

/// The records after the first `upto` of them were shown, each unless
/// its width plus one is no 32-bit number.
pub open spec fn shown_upto(list: Seq<ClientW>, upto: nat) -> Seq<ClientW>
    decreases upto,
{
    if upto == 0 {
        list
    } else {
        let so_far = shown_upto(list, (upto - 1) as nat);
        if so_far[upto - 1].can_show(true) {
            so_far.update(upto - 1, so_far[upto - 1].shown(true))
        } else {
            so_far
        }
    }
}

pub open spec fn show_upto_requests(list: Seq<ClientW>, upto: nat) -> Seq<Request>
    decreases upto,
{
    if upto == 0 {
        Seq::empty()
    } else {
        let so_far = shown_upto(list, (upto - 1) as nat);
        show_upto_requests(list, (upto - 1) as nat) + (if so_far[upto - 1].can_show(true) {
            so_far[upto - 1].show_requests(true)
        } else {
            Seq::empty()
        })
    }
}

/// The records after each got the action that the choice gives it:
/// `yes` if the filter accepts it, else `no`.
pub open spec fn acted_upto(
    list: Seq<ClientW>,
    filter: ClientFilter,
    yes: Seq<ClientChange>,
    no: Seq<ClientChange>,
    upto: nat,
) -> Seq<ClientW>
    decreases upto,
{
    if upto == 0 {
        list
    } else {
        let so_far = acted_upto(list, filter, yes, no, (upto - 1) as nat);
        let c = so_far[upto - 1];
        so_far.update(
            upto - 1,
            action_applied(
                c,
                if filter.accepts(c) {
                    yes
                } else {
                    no
                },
            ),
        )
    }
}

/// The windows of the first `upto` records that the filter accepts.
pub open spec fn chosen_upto(list: Seq<ClientW>, filter: ClientFilter, upto: nat) -> Seq<u64>
    decreases upto,
{
    if upto == 0 {
        Seq::empty()
    } else {
        let so_far = chosen_upto(list, filter, (upto - 1) as nat);
        if filter.accepts(list[upto - 1]) {
            so_far.push(list[upto - 1].0.window)
        } else {
            so_far
        }
    }
}

/// Whether the first window does not rank behind the second. A window
/// without a record ranks behind every other.
pub open spec fn window_ranks_with(records: Seq<ClientW>, a: u64, b: u64) -> bool {
    match client_of(records, a) {
        Some(first) => match client_of(records, b) {
            Some(second) => ranks_with(first, second),
            None => true,
        },
        None => client_of(records, b) is None,
    }
}

pub open spec fn insert_ranked_window(list: Seq<u64>, window: u64, records: Seq<ClientW>) -> Seq<u64>
    decreases list.len(),
{
    if list.len() == 0 {
        seq![window]
    } else if window_ranks_with(records, list.last(), window) {
        list.push(window)
    } else {
        insert_ranked_window(list.drop_last(), window, records).push(list.last())
    }
}

/// The windows by the rank of their clients; windows of one rank keep their order.
pub open spec fn ranked_windows(list: Seq<u64>, records: Seq<ClientW>) -> Seq<u64>
    decreases list.len(),
{
    if list.len() == 0 {
        list
    } else {
        insert_ranked_window(ranked_windows(list.drop_last(), records), list.last(), records)
    }
}

pub proof fn lemma_insert_ranked_window_at(
    list: Seq<u64>,
    window: u64,
    records: Seq<ClientW>,
    at: int,
)
    requires
        0 <= at <= list.len(),
        forall|k: int| at <= k < list.len() ==> !window_ranks_with(records, list[k], window),
        at == 0 || window_ranks_with(records, list[at - 1], window),
    ensures
        insert_ranked_window(list, window, records) == list.insert(at, window),
    decreases list.len(),
{
    if list.len() == 0 {
        assert(list.insert(at, window) =~= seq![window]);
    } else if at == list.len() {
        assert(list.insert(at, window) =~= list.push(window));
    } else {
        lemma_insert_ranked_window_at(list.drop_last(), window, records, at);
        assert(list.drop_last().insert(at, window).push(list.last()) =~= list.insert(at, window));
    }
}

fn window_ranks_with_exec(records: &ClientL, a: u64, b: u64) -> (r: bool)
    ensures
        r == window_ranks_with(records@, a, b),
{
    match find_client(records, a) {
        Some(i) => match find_client(records, b) {
            Some(k) => ranks_with_exec(&records[i], &records[k]),
            None => true,
        },
        None => find_client(records, b).is_none(),
    }
}

/// Orders the windows by the rank of their clients.
pub fn rank_windows(list: &Vec<u64>, records: &ClientL) -> (sorted: Vec<u64>)
    ensures
        sorted@ == ranked_windows(list@, records@),
{
    let mut sorted: Vec<u64> = Vec::new();
    let mut i: usize = 0;
    assert(list@.take(0) =~= Seq::<u64>::empty());
    while i < list.len()
        invariant
            i <= list@.len(),
            sorted@ == ranked_windows(list@.take(i as int), records@),
            sorted@.len() == i,
        decreases list@.len() - i,
    {
        let window = list[i];
        let mut at: usize = sorted.len();
        while at > 0 && !window_ranks_with_exec(records, sorted[at - 1], window)
            invariant
                at <= sorted@.len(),
                forall|k: int|
                    at <= k < sorted@.len() ==> !window_ranks_with(records@, sorted@[k], window),
            decreases at,
        {
            at -= 1;
        }
        proof {
            lemma_insert_ranked_window_at(sorted@, window, records@, at as int);
            assert(list@.take(i + 1).drop_last() =~= list@.take(i as int));
        }
        sorted.insert(at, window);
        i += 1;
    }
    assert(list@.take(list@.len() as int) =~= list@);
    sorted
}

/// What can be done with a list of clients.
pub trait ClientList: Sized {
    type Item;

    fn new() -> Self;

    /// The first client of the list with the window.
    fn get_client_by_window(&self, window: u64) -> Option<&Self::Item>;

    /// Puts the clients in the order of their rank.
    fn rank(&mut self);

    /// Shows every client of the list.
    fn show(&mut self, out: &mut Vec<Request>);

    /// Does `yes_action` to every client that the filter accepts and
    /// `no_action` to every other, and hands back the windows of the
    /// accepted ones: by rank if `rank`, else in the order of the list.
    fn select_clients(
        &mut self,
        predicate: ClientFilter,
        rank: bool,
        yes_action: &Vec<ClientChange>,
        no_action: &Vec<ClientChange>,
    ) -> Vec<u64>;
}

/// Does the changes to the client, the first one first.
pub fn apply_action(client: &mut ClientW, action: &Vec<ClientChange>)
    ensures
        *final(client) == action_applied(*old(client), action@),
{
    let mut k: usize = 0;
    assert(action@.take(0) =~= Seq::<ClientChange>::empty());
    while k < action.len()
        invariant
            k <= action@.len(),
            *client == action_applied(*old(client), action@.take(k as int)),
        decreases action@.len() - k,
    {
        assert(action@.take(k + 1).drop_last() =~= action@.take(k as int));
        match action[k] {
            ClientChange::Floating(floating) => client.set_floating(floating),
            ClientChange::Sticky(sticky) => client.set_sticky(sticky),
        }
        k += 1;
    }
    assert(action@.take(action@.len() as int) =~= action@);
}

impl ClientList for Vec<ClientW> {
    type Item = ClientW;

    fn new() -> (list: Vec<ClientW>)
        ensures
            list@.len() == 0,
    {
        Vec::new()
    }

    fn get_client_by_window(&self, window: u64) -> (client: Option<&ClientW>)
        ensures
            match client {
                Some(c) => client_of(self@, window) == Some(*c),
                None => client_of(self@, window) is None,
            },
    {
        match find_client(self, window) {
            Some(i) => Some(&self[i]),
            None => None,
        }
    }

    fn rank(&mut self)
        ensures
            final(self)@ == ranked(old(self)@),
    {
        let mut sorted: Vec<ClientW> = Vec::new();
        let ghost start = self@;
        let ghost mut done: int = 0;
        assert(start.take(0) =~= Seq::<ClientW>::empty());
        assert(start.skip(0) =~= start);
        while self.len() > 0
            invariant
                0 <= done <= start.len(),
                start == old(self)@,
                self@ == start.skip(done),
                sorted@ == ranked(start.take(done)),
            decreases self@.len(),
        {
            let client = self.remove(0);
            assert(client == start[done]);
            let mut at: usize = sorted.len();
            while at > 0 && !ranks_with_exec(&sorted[at - 1], &client)
                invariant
                    at <= sorted@.len(),
                    forall|k: int| at <= k < sorted@.len() ==> !ranks_with(sorted@[k], client),
                decreases at,
            {
                at -= 1;
            }
            proof {
                lemma_insert_ranked_at(sorted@, client, at as int);
                assert(start.take(done + 1).drop_last() =~= start.take(done));
                assert(self@ =~= start.skip(done + 1));
                done = done + 1;
            }
            sorted.insert(at, client);
        }
        assert(start.take(start.len() as int) =~= start);
        *self = sorted;
    }

    fn show(&mut self, out: &mut Vec<Request>)
        ensures
            final(self)@ == shown_upto(old(self)@, old(self)@.len()),
            final(out)@ == old(out)@ + show_upto_requests(old(self)@, old(self)@.len()),
    {
        let mut i: usize = 0;
        assert(out@ + Seq::<Request>::empty() =~= out@);
        while i < self.len()
            invariant
                i <= self@.len(),
                self@.len() == old(self)@.len(),
                self@ == shown_upto(old(self)@, i as nat),
                out@ == old(out)@ + show_upto_requests(old(self)@, i as nat),
            decreases self@.len() - i,
        {
            let ghost sent = show_upto_requests(old(self)@, i as nat);
            let ghost before = self@;
            if self[i].check_show(true) {
                self[i].show(true, out);
                assert(out@ =~= old(out)@ + (sent + before[i as int].show_requests(true)));
            } else {
                assert(out@ =~= old(out)@ + (sent + Seq::<Request>::empty()));
            }
            i += 1;
        }
    }

    fn select_clients(
        &mut self,
        predicate: ClientFilter,
        rank: bool,
        yes_action: &Vec<ClientChange>,
        no_action: &Vec<ClientChange>,
    ) -> (chosen: Vec<u64>)
        ensures
            final(self)@ == acted_upto(
                old(self)@,
                predicate,
                yes_action@,
                no_action@,
                old(self)@.len(),
            ),
            chosen@ == if rank {
                ranked_windows(chosen_upto(old(self)@, predicate, old(self)@.len()), final(self)@)
            } else {
                chosen_upto(old(self)@, predicate, old(self)@.len())
            },
    {
        let mut result: Vec<u64> = Vec::new();
        let mut i: usize = 0;
        while i < self.len()
            invariant
                i <= self@.len(),
                self@.len() == old(self)@.len(),
                self@ == acted_upto(old(self)@, predicate, yes_action@, no_action@, i as nat),
                forall|k: int| i <= k < self@.len() ==> self@[k] == old(self)@[k],
                result@ == chosen_upto(old(self)@, predicate, i as nat),
            decreases self@.len() - i,
        {
            if predicate.test(&self[i]) {
                result.push(self[i].window());
                apply_action(&mut self[i], yes_action);
            } else {
                apply_action(&mut self[i], no_action);
            }
            i += 1;
        }
        if rank {
            rank_windows(&result, self)
        } else {
            result
        }
    }
}

} // verus!
