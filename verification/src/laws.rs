//! What holds of the shared state whatever the clients do.
//!
//! Every statement here is about the model of the state, `State`, and about
//! the plans of deliveries. The functions of `lifecycle` are proved to move
//! the real state as the model says and to return such plans.

use crate::canvas::{distinct_cells, lemma_distinct_writes_commute, lemma_paint_all_shape, PixelUpdate};
use crate::hub::{lemma_fan_out_exactly_once, Delivery, MessageView};
use crate::lifecycle::{is_plan, is_reply, Event, Outcome, State, Submission};
use crate::limiter::{Timestamp, Verdict};
use crate::registry::ClientId;
use crate::rejection::Rejection;
use vstd::prelude::*;

verus! {

/// The events in which the given clients connect, one after the other.
pub open spec fn connects(clients: Seq<ClientId>) -> Seq<Event> {
    clients.map_values(|c: ClientId| Event::Connect(c))
}

/// The events in which the given submissions come in, one after the other.
pub open spec fn submits(subs: Seq<Submission>) -> Seq<Event> {
    subs.map_values(|s: Submission| Event::Submit(s))
}

/// The writes that the given submissions ask for.
pub open spec fn updates(subs: Seq<Submission>) -> Seq<PixelUpdate> {
    subs.map_values(|s: Submission| s.update)
}

/// The submissions come from connected clients, name cells of the canvas and
/// respect the cooldown: none is throttled by what the limiter remembers in
/// `state`, and two of the same client lie at least a cooldown apart, the
/// later one later in the sequence.
pub open spec fn paced(state: State, subs: Seq<Submission>) -> bool {
    &&& forall|i: int|
        0 <= i < subs.len() ==> state.members.contains((#[trigger] subs[i]).client)
    &&& forall|i: int|
        0 <= i < subs.len() ==> state.grid.in_bounds(
            (#[trigger] subs[i]).update.x as int,
            subs[i].update.y as int,
        )
    &&& forall|i: int|
        0 <= i < subs.len() ==> state.limiter.verdict((#[trigger] subs[i]).client, subs[i].at)
            == Verdict::Accepted
    &&& forall|i: int, j: int|
        0 <= i < j < subs.len() && (#[trigger] subs[i]).client == (#[trigger] subs[j]).client
            ==> subs[j].at >= subs[i].at + state.limiter.cooldown
}

/// After the run of `subs` from `state`, what the limiter holds for `client`
/// was there before or is the time of one of the submissions.
spec fn explained(state: State, subs: Seq<Submission>, end: State, client: ClientId) -> bool {
    ||| state.limiter.last.contains_key(client) && end.limiter.last[client]
        == state.limiter.last[client]
    ||| exists|i: int|
        0 <= i < subs.len() && (#[trigger] subs[i]).client == client && subs[i].at
            == end.limiter.last[client]
}

proof fn lemma_paced_run(state: State, subs: Seq<Submission>)
    requires
        paced(state, subs),
    ensures
        state.run(submits(subs)).members == state.members,
        state.run(submits(subs)).limiter.cooldown == state.limiter.cooldown,
        state.run(submits(subs)).grid == state.grid.paint_all(updates(subs)),
        forall|c: ClientId| #[trigger]
            state.run(submits(subs)).limiter.last.contains_key(c) ==> explained(
                state,
                subs,
                state.run(submits(subs)),
                c,
            ),
    decreases subs.len(),
{
    if subs.len() > 0 {
        let rest = subs.drop_last();
        let s = subs.last();
        let n = rest.len() as int;
        assert forall|i: int| 0 <= i < rest.len() implies rest[i] == subs[i] by {}
        assert(paced(state, rest));
        lemma_paced_run(state, rest);
        assert(submits(subs).drop_last() =~= submits(rest));
        assert(updates(subs).drop_last() =~= updates(rest));
        let mid = state.run(submits(rest));
        let end = state.run(submits(subs));
        assert(end == mid.submit(s));
        lemma_paint_all_shape(state.grid, updates(rest));
        assert(mid.limiter.verdict(s.client, s.at) == Verdict::Accepted) by {
            if mid.limiter.last.contains_key(s.client) {
                assert(explained(state, rest, mid, s.client));
                if !(state.limiter.last.contains_key(s.client) && mid.limiter.last[s.client]
                    == state.limiter.last[s.client]) {
                    let i = choose|i: int|
                        0 <= i < rest.len() && (#[trigger] rest[i]).client == s.client
                            && rest[i].at == mid.limiter.last[s.client];
                    assert(subs[i].client == subs[n].client);
                } else {
                    assert(state.limiter.verdict(subs[n].client, subs[n].at) == Verdict::Accepted);
                }
            }
        }
        assert(mid.judge(s) == Outcome::Accepted) by {
            assert(state.members.contains(subs[n].client));
            assert(state.grid.in_bounds(subs[n].update.x as int, subs[n].update.y as int));
        }
        assert forall|c: ClientId| #[trigger] end.limiter.last.contains_key(c) implies explained(
            state,
            subs,
            end,
            c,
        ) by {
            if c == s.client {
                assert(subs[n].client == c && subs[n].at == end.limiter.last[c]);
            } else {
                assert(mid.limiter.last.contains_key(c));
                assert(explained(state, rest, mid, c));
                if !(state.limiter.last.contains_key(c) && mid.limiter.last[c]
                    == state.limiter.last[c]) {
                    let i = choose|i: int|
                        0 <= i < rest.len() && (#[trigger] rest[i]).client == c && rest[i].at
                            == mid.limiter.last[c];
                    assert(subs[i].client == c && subs[i].at == end.limiter.last[c]);
                }
            }
        }
    } else {
        assert(submits(subs) =~= Seq::<Event>::empty());
        assert(updates(subs) =~= Seq::<PixelUpdate>::empty());
    }
}

/// In a paced sequence of submissions every one is accepted when its turn
/// comes.
pub proof fn lemma_paced_accepted(state: State, subs: Seq<Submission>, n: int)
    requires
        paced(state, subs),
        0 <= n < subs.len(),
    ensures
        state.run(submits(subs.take(n))).judge(subs[n]) == Outcome::Accepted,
{
    let head = subs.take(n + 1);
    assert forall|i: int| 0 <= i < head.len() implies head[i] == subs[i] by {}
    assert(paced(state, head));
    assert(head.drop_last() =~= subs.take(n));
    assert(head.last() == subs[n]);
    let rest = subs.take(n);
    assert forall|i: int| 0 <= i < rest.len() implies rest[i] == subs[i] by {}
    assert(paced(state, rest));
    lemma_paced_run(state, rest);
    lemma_paced_run(state, head);
    let mid = state.run(submits(rest));
    lemma_paint_all_shape(state.grid, updates(rest));
    assert(state.members.contains(subs[n].client));
    assert(state.grid.in_bounds(subs[n].update.x as int, subs[n].update.y as int));
    if mid.limiter.verdict(subs[n].client, subs[n].at) == Verdict::Throttled {
        assert(mid.limiter.last.contains_key(subs[n].client));
        assert(explained(state, rest, mid, subs[n].client));
        if !(state.limiter.last.contains_key(subs[n].client) && mid.limiter.last[subs[n].client]
            == state.limiter.last[subs[n].client]) {
            let i = choose|i: int|
                0 <= i < rest.len() && (#[trigger] rest[i]).client == subs[n].client && rest[i].at
                    == mid.limiter.last[subs[n].client];
            assert(subs[i].client == subs[n].client);
        } else {
            assert(state.limiter.verdict(subs[n].client, subs[n].at) == Verdict::Accepted);
        }
    }
}

/// A paced sequence of submissions leaves the canvas as its writes, applied
/// in the order in which they came, make it.
pub proof fn lemma_paced_canvas(state: State, subs: Seq<Submission>)
    requires
        paced(state, subs),
    ensures
        state.run(submits(subs)).grid == state.grid.paint_all(updates(subs)),
{
    lemma_paced_run(state, subs);
}

/// Convergence of the canvas: where the submissions write to cells that are
/// all different, the canvas ends the same in whichever order they come, as
/// long as each order respects the cooldowns.
pub proof fn lemma_canvas_converges(state: State, a: Seq<Submission>, b: Seq<Submission>)
    requires
        state.grid.wf(),
        paced(state, a),
        paced(state, b),
        distinct_cells(updates(a)),
        a.to_multiset() == b.to_multiset(),
    ensures
        state.run(submits(a)).grid == state.run(submits(b)).grid,
        state.run(submits(a)).grid == state.grid.paint_all(updates(a)),
{
    lemma_paced_run(state, a);
    lemma_paced_run(state, b);
    lemma_updates_multiset(a, b);
    lemma_distinct_writes_commute(state.grid, updates(a), updates(b));
}

/// Sequences that hold the same submissions ask for the same writes.
proof fn lemma_updates_multiset(a: Seq<Submission>, b: Seq<Submission>)
    requires
        a.to_multiset() == b.to_multiset(),
    ensures
        updates(a).to_multiset() == updates(b).to_multiset(),
    decreases a.len(),
{
    a.to_multiset_ensures();
    b.to_multiset_ensures();
    if a.len() == 0 {
        assert(b.len() == 0);
        assert(updates(a) =~= updates(b));
    } else {
        let s = a.last();
        assert(a.contains(s));
        assert(a.to_multiset().count(s) > 0);
        assert(b.contains(s));
        let j = choose|j: int| 0 <= j < b.len() && b[j] == s;
        let a1 = a.drop_last();
        let b1 = b.remove(j);
        assert(a1 =~= a.remove(a.len() - 1));
        assert(a1.to_multiset() =~= b1.to_multiset());
        lemma_updates_multiset(a1, b1);
        let ua = updates(a);
        let ub = updates(b);
        assert(updates(a1) =~= ua.remove(ua.len() - 1));
        assert(updates(b1) =~= ub.remove(j));
        ua.to_multiset_ensures();
        ub.to_multiset_ensures();
        assert(ua.remove(ua.len() - 1).to_multiset() =~= ua.to_multiset().remove(s.update));
        assert(ub.remove(j).to_multiset() =~= ub.to_multiset().remove(s.update));
        assert(ua.contains(ua[ua.len() - 1]));
        assert(ub.contains(ub[j]));
        assert(ua.to_multiset().count(s.update) > 0);
        assert(ub.to_multiset().count(s.update) > 0);
        assert(ua.to_multiset() =~= ua.to_multiset().remove(s.update).insert(s.update));
        assert(ub.to_multiset() =~= ub.to_multiset().remove(s.update).insert(s.update));
    }
}

/// The state at startup is consistent.
pub proof fn lemma_initial_consistent(width: nat, height: nat, cooldown: nat)
    ensures
        State::initial(width, height, cooldown).consistent(),
{
    let state = State::initial(width, height, cooldown);
    assert(state.limiter.last.dom() =~= Set::<ClientId>::empty());
}

/// No event breaks consistency: the grid keeps one colour per cell, and the
/// limiter never remembers a client that is not connected.
pub proof fn lemma_step_consistent(state: State, event: Event)
    requires
        state.consistent(),
    ensures
        state.step(event).consistent(),
{
    match event {
        Event::Connect(client) => {},
        Event::Submit(s) => {
            if state.judge(s) == Outcome::Accepted {
                lemma_paint_all_shape(state.grid, seq![s.update]);
                assert(seq![s.update].drop_last() =~= Seq::<PixelUpdate>::empty());
                assert(state.grid.paint_all(seq![s.update].drop_last()) == state.grid);
            }
        },
        Event::Malformed(client) => {},
        Event::Disconnect(client) => {},
    }
}

/// No sequence of events breaks consistency.
pub proof fn lemma_run_consistent(state: State, events: Seq<Event>)
    requires
        state.consistent(),
    ensures
        state.run(events).consistent(),
    decreases events.len(),
{
    if events.len() > 0 {
        lemma_run_consistent(state, events.drop_last());
        lemma_step_consistent(state.run(events.drop_last()), events.last());
    }
}

/// The size of the canvas never changes.
pub proof fn lemma_run_keeps_size(state: State, events: Seq<Event>)
    ensures
        state.run(events).grid.width == state.grid.width,
        state.run(events).grid.height == state.grid.height,
        state.run(events).limiter.cooldown == state.limiter.cooldown,
    decreases events.len(),
{
    if events.len() > 0 {
        lemma_run_keeps_size(state, events.drop_last());
    }
}

/// After an accepted submission, the next one of the same client is throttled
/// if it comes before the cooldown has passed, and is not if it comes later.
pub proof fn lemma_cooldown_between_submissions(state: State, first: Submission, second: Submission)
    requires
        state.judge(first) == Outcome::Accepted,
        second.client == first.client,
    ensures
        second.at < first.at + state.limiter.cooldown ==> state.submit(first).judge(second)
            == Outcome::Rejected(Rejection::Throttled),
        second.at >= first.at + state.limiter.cooldown ==> state.submit(first).judge(second) == (
        if state.grid.in_bounds(second.update.x as int, second.update.y as int) {
            Outcome::Accepted
        } else {
            Outcome::Rejected(Rejection::OutOfBounds)
        }),
        second.at < first.at + state.limiter.cooldown ==> state.submit(first).submit(second)
            == state.submit(first),
{
}

/// Connects add the newcomers to those connected and change nothing else.
pub proof fn lemma_connects_run(state: State, clients: Seq<ClientId>)
    ensures
        state.run(connects(clients)).members == state.members.union(clients.to_set()),
        state.run(connects(clients)).grid == state.grid,
        state.run(connects(clients)).limiter == state.limiter,
    decreases clients.len(),
{
    let end = state.run(connects(clients));
    if clients.len() > 0 {
        let rest = clients.drop_last();
        lemma_connects_run(state, rest);
        assert(connects(clients).drop_last() =~= connects(rest));
        assert forall|c: ClientId| clients.to_set().contains(c) <==> (rest.to_set().contains(c) || c
            == clients.last()) by {
            if clients.contains(c) {
                let i = choose|i: int| 0 <= i < clients.len() && clients[i] == c;
                if i < rest.len() {
                    assert(rest[i] == c);
                }
            }
            if rest.contains(c) {
                let i = choose|i: int| 0 <= i < rest.len() && rest[i] == c;
                assert(clients[i] == c);
            }
            if c == clients.last() {
                assert(clients[clients.len() - 1] == c);
            }
        }
        assert(end.members =~= state.members.union(clients.to_set()));
    } else {
        assert(connects(clients) =~= Seq::<Event>::empty());
        assert(end.members =~= state.members.union(clients.to_set()));
    }
}

/// When clients connect to a server on which nobody is, and none leaves,
/// those connected are they, and are as many as they.
pub proof fn lemma_everybody_counted(state: State, clients: Seq<ClientId>)
    requires
        state.members == Set::<ClientId>::empty(),
        clients.no_duplicates(),
    ensures
        state.run(connects(clients)).members == clients.to_set(),
        state.run(connects(clients)).members.len() == clients.len(),
{
    lemma_connects_run(state, clients);
    assert(state.members.union(clients.to_set()) =~= clients.to_set());
    clients.unique_seq_to_set();
}

/// When clients connect to a server on which nobody is, and none leaves, the
/// connect of the last of them tells every one of them, once, how many they
/// are.
pub proof fn lemma_count_reaches_everybody(
    state: State,
    clients: Seq<ClientId>,
    plan: Seq<Delivery>,
    client: ClientId,
)
    requires
        state.members == Set::<ClientId>::empty(),
        clients.no_duplicates(),
        clients.len() > 0,
        is_plan(plan, state.run(connects(clients.drop_last())), Event::Connect(clients.last())),
        clients.contains(client),
    ensures
        exists|i: int|
            {
                &&& 1 <= i < plan.len()
                &&& (#[trigger] plan[i]).recipient == client
                &&& plan[i].message@ == MessageView::ClientCount(clients.len())
                &&& forall|j: int|
                    1 <= j < plan.len() && (#[trigger] plan[j]).recipient == client ==> j == i
            },
{
    let rest = clients.drop_last();
    let pre = state.run(connects(rest));
    lemma_everybody_counted(state, rest);
    lemma_everybody_counted(state, clients);
    assert(connects(clients).drop_last() =~= connects(rest));
    assert(state.run(connects(clients)) == pre.connect(clients.last()));
    let audience = pre.members.insert(clients.last());
    assert(audience == clients.to_set());
    let notes = plan.skip(1);
    lemma_fan_out_exactly_once(notes, audience, MessageView::ClientCount(audience.len()), client);
    let k = choose|k: int|
        {
            &&& 0 <= k < notes.len()
            &&& (#[trigger] notes[k]).recipient == client
            &&& notes[k].message@ == MessageView::ClientCount(audience.len())
            &&& forall|j: int|
                0 <= j < notes.len() && (#[trigger] notes[j]).recipient == client ==> j == k
        };
    assert(plan[k + 1] == notes[k]);
    assert forall|j: int| 1 <= j < plan.len() && (#[trigger] plan[j]).recipient == client implies j
        == k + 1 by {
        assert(notes[j - 1] == plan[j]);
    }
}

/// A disconnect leaves nothing of the client in the limiter: whenever its
/// next submission comes, the limiter lets it pass.
pub proof fn lemma_disconnect_forgets(state: State, client: ClientId, at: Timestamp)
    ensures
        !state.disconnect(client).limiter.last.contains_key(client),
        state.disconnect(client).limiter.verdict(client, at) == Verdict::Accepted,
{
}

/// A client that connects again after its disconnect is not throttled by what
/// it submitted before.
pub proof fn lemma_reconnect_starts_afresh(state: State, s: Submission)
    ensures
        state.disconnect(s.client).connect(s.client).judge(s) == (if state.grid.in_bounds(
            s.update.x as int,
            s.update.y as int,
        ) {
            Outcome::Accepted
        } else {
            Outcome::Rejected(Rejection::OutOfBounds)
        }),
{
}

/// A client that was not connected is not throttled on its first submission
/// after its connect.
pub proof fn lemma_newcomer_starts_afresh(state: State, s: Submission)
    requires
        state.consistent(),
        !state.members.contains(s.client),
    ensures
        state.connect(s.client).judge(s) == (if state.grid.in_bounds(
            s.update.x as int,
            s.update.y as int,
        ) {
            Outcome::Accepted
        } else {
            Outcome::Rejected(Rejection::OutOfBounds)
        }),
{
    assert(!state.limiter.last.dom().contains(s.client));
}

/// An accepted update reaches every connected client exactly once, its author
/// among them.
pub proof fn lemma_update_reaches_everybody(
    state: State,
    s: Submission,
    plan: Seq<Delivery>,
    client: ClientId,
)
    requires
        state.judge(s) == Outcome::Accepted,
        is_reply(plan, state, s),
        state.members.contains(client),
    ensures
        state.members.contains(s.client),
        exists|i: int|
            {
                &&& 0 <= i < plan.len()
                &&& (#[trigger] plan[i]).recipient == client
                &&& plan[i].message@ == MessageView::PixelUpdated(s.update)
                &&& forall|j: int|
                    0 <= j < plan.len() && (#[trigger] plan[j]).recipient == client ==> j == i
            },
{
    lemma_fan_out_exactly_once(plan, state.members, MessageView::PixelUpdated(s.update), client);
}

/// A submission that is not accepted changes nothing, and nobody but its
/// author hears of it.
pub proof fn lemma_rejection_is_private(state: State, s: Submission, plan: Seq<Delivery>)
    requires
        state.judge(s) != Outcome::Accepted,
        is_reply(plan, state, s),
    ensures
        state.submit(s) == state,
        forall|i: int| 0 <= i < plan.len() ==> (#[trigger] plan[i]).recipient == s.client,
        forall|i: int| 0 <= i < plan.len() ==> !((#[trigger] plan[i]).message@ is PixelUpdated),
{
}

} // verus!
