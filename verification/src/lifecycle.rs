//! The connection lifecycle: what happens to the shared state, and who is
//! told what, when a client connects, submits a pixel or disconnects.
//!
//! A client is active from its connect to its disconnect, which is exactly
//! the time during which the registry holds it. Before and after, whatever it
//! submits is ignored. An identifier that connects again after a disconnect
//! starts afresh: nothing of the earlier connection is remembered.
//!
//! Every function here works on the canvas, the registry and the limiter as
//! separate values, so that each can live behind a lock of its own, and hands
//! back the deliveries instead of sending them, so that none is sent while a
//! lock is held.

use crate::canvas::{Canvas, Grid, PixelUpdate};
use crate::clock::utc_now_millis;
use crate::hub::{broadcast_count, broadcast_update, is_fan_out, send_error, send_snapshot, Delivery, MessageView};
use crate::limiter::{LimiterState, RateLimiter, Timestamp, Verdict};
use crate::registry::{ClientId, ClientRegistry};
use crate::rejection::Rejection;
use vstd::prelude::*;

verus! {

/// A pixel update together with its author and the time it came in.
#[derive(Clone, Copy, Debug, PartialEq, Eq, Structural)]
pub struct Submission {
    pub client: ClientId,
    pub update: PixelUpdate,
    pub at: Timestamp,
}

/// What a client's connection can report.
#[derive(Clone, Copy, Debug, PartialEq, Eq, Structural)]
pub enum Event {
    /// The handshake of a client has completed.
    Connect(ClientId),
    /// A client asks for a cell to be set.
    Submit(Submission),
    /// A client sent something that is no pixel update.
    Malformed(ClientId),
    /// The connection of a client has closed, for whatever reason.
    Disconnect(ClientId),
}

/// What became of a submission.
#[derive(Clone, Copy, Debug, PartialEq, Eq, Structural)]
pub enum Outcome {
    /// The cell was written and everybody is told.
    Accepted,
    /// Nothing changed and the author is told why.
    Rejected(Rejection),
    /// The author is not connected: nothing changed and nobody is told.
    Ignored,
}

/// Mathematical model of the shared state.
pub struct State {
    pub grid: Grid,
    pub members: Set<ClientId>,
    pub limiter: LimiterState,
}

impl State {
    /// The state at startup: a blank canvas, nobody connected, nothing
    /// remembered.
    pub open spec fn initial(width: nat, height: nat, cooldown: nat) -> State {
        State {
            grid: Grid::blank(width, height),
            members: Set::empty(),
            limiter: LimiterState { cooldown, last: Map::empty() },
        }
    }

    /// The grid has one colour per cell, finitely many clients are connected,
    /// and only connected clients have a remembered submission.
    pub open spec fn consistent(self) -> bool {
        &&& self.grid.wf()
        &&& self.members.finite()
        &&& self.limiter.last.dom().subset_of(self.members)
    }

    /// The fate of a submission: the author must be connected, then its
    /// cooldown must have passed, then the cell must exist.
    pub open spec fn judge(self, s: Submission) -> Outcome {
        if !self.members.contains(s.client) {
            Outcome::Ignored
        } else if self.limiter.verdict(s.client, s.at) == Verdict::Throttled {
            Outcome::Rejected(Rejection::Throttled)
        } else if !self.grid.in_bounds(s.update.x as int, s.update.y as int) {
            Outcome::Rejected(Rejection::OutOfBounds)
        } else {
            Outcome::Accepted
        }
    }

    pub open spec fn connect(self, client: ClientId) -> State {
        State { members: self.members.insert(client), ..self }
    }

    /// Only an accepted submission changes anything: it sets its cell and
    /// becomes the author's latest accepted submission.
    pub open spec fn submit(self, s: Submission) -> State {
        if self.judge(s) == Outcome::Accepted {
            State {
                grid: self.grid.paint(s.update.x as int, s.update.y as int, s.update.color),
                limiter: self.limiter.record(s.client, s.at),
                ..self
            }
        } else {
            self
        }
    }

    pub open spec fn disconnect(self, client: ClientId) -> State {
        State {
            members: self.members.remove(client),
            limiter: self.limiter.forget(client),
            ..self
        }
    }

    pub open spec fn step(self, event: Event) -> State {
        match event {
            Event::Connect(client) => self.connect(client),
            Event::Submit(s) => self.submit(s),
            Event::Malformed(_) => self,
            Event::Disconnect(client) => self.disconnect(client),
        }
    }

    /// The state after a sequence of events, taken one after the other.
    pub open spec fn run(self, events: Seq<Event>) -> State
        decreases events.len(),
    {
        if events.len() == 0 {
            self
        } else {
            self.run(events.drop_last()).step(events.last())
        }
    }
}

/// The single delivery `message` to `client`.
pub open spec fn is_note(plan: Seq<Delivery>, client: ClientId, message: MessageView) -> bool {
    &&& plan.len() == 1
    &&& plan[0].recipient == client
    &&& plan[0].message@ == message
}

/// What a connect sends: first the whole canvas to the newcomer alone, then
/// the number of clients now connected to every one of them, the newcomer
/// included.
pub open spec fn is_welcome(plan: Seq<Delivery>, grid: Grid, members: Set<ClientId>, client: ClientId) -> bool {
    let audience = members.insert(client);
    &&& plan.len() >= 1
    &&& is_note(plan.take(1), client, MessageView::InitCanvas(grid.cells))
    &&& is_fan_out(plan.skip(1), audience, MessageView::ClientCount(audience.len()))
}

/// What a submission sends: an accepted write goes to every connected client,
/// a rejection to the author alone, and an ignored submission to nobody.
pub open spec fn is_reply(plan: Seq<Delivery>, pre: State, s: Submission) -> bool {
    match pre.judge(s) {
        Outcome::Accepted => is_fan_out(plan, pre.members, MessageView::PixelUpdated(s.update)),
        Outcome::Rejected(reason) => is_note(plan, s.client, MessageView::Error(reason)),
        Outcome::Ignored => plan.len() == 0,
    }
}

/// What a malformed payload sends: an error to its author, if connected.
pub open spec fn is_complaint(plan: Seq<Delivery>, members: Set<ClientId>, client: ClientId) -> bool {
    if members.contains(client) {
        is_note(plan, client, MessageView::Error(Rejection::Malformed))
    } else {
        plan.len() == 0
    }
}

/// What a disconnect sends: the number of clients still connected, to every
/// one of them.
pub open spec fn is_farewell(plan: Seq<Delivery>, members: Set<ClientId>, client: ClientId) -> bool {
    let audience = members.remove(client);
    is_fan_out(plan, audience, MessageView::ClientCount(audience.len()))
}

/// What an event sends.
pub open spec fn is_plan(plan: Seq<Delivery>, pre: State, event: Event) -> bool {
    match event {
        Event::Connect(client) => is_welcome(plan, pre.grid, pre.members, client),
        Event::Submit(s) => is_reply(plan, pre, s),
        Event::Malformed(client) => is_complaint(plan, pre.members, client),
        Event::Disconnect(client) => is_farewell(plan, pre.members, client),
    }
}

/// The model of the three parts of the shared state taken together.
pub open spec fn state_of(canvas: Canvas, registry: ClientRegistry, limiter: RateLimiter) -> State {
    State { grid: canvas@, members: registry@, limiter: limiter@ }
}

/// Makes a client active: plans the canvas for it, registers it and plans the
/// new count for everybody.
pub fn connect(canvas: &Canvas, registry: &mut ClientRegistry, client: ClientId) -> (plan: Vec<Delivery>)
    ensures
        final(registry)@ == old(registry)@.insert(client),
        is_welcome(plan@, canvas@, old(registry)@, client),
{
    let mut plan: Vec<Delivery> = Vec::new();
    plan.push(send_snapshot(client, canvas.snapshot()));
    let count = registry.register(client);
    let mut notes = broadcast_count(registry, count);
    let ghost head = plan@;
    let ghost tail = notes@;
    plan.append(&mut notes);
    proof {
        assert(plan@.take(1) =~= head);
        assert(plan@.skip(1) =~= tail);
    }
    plan
}

/// Stamps an update of a client with the present time.
pub fn stamp(client: ClientId, update: PixelUpdate) -> (s: Submission)
    ensures
        s.client == client,
        s.update == update,
{
    Submission { client, update, at: utc_now_millis() }
}

/// Handles a submission: asks the limiter, writes the cell, remembers the
/// time and plans the update for everybody; or plans the error for the
/// author.
pub fn submit(
    canvas: &mut Canvas,
    registry: &ClientRegistry,
    limiter: &mut RateLimiter,
    s: Submission,
) -> (r: (Outcome, Vec<Delivery>))
    ensures
        r.0 == state_of(*old(canvas), *registry, *old(limiter)).judge(s),
        state_of(*final(canvas), *registry, *final(limiter)) == state_of(
            *old(canvas),
            *registry,
            *old(limiter),
        ).submit(s),
        is_reply(r.1@, state_of(*old(canvas), *registry, *old(limiter)), s),
{
    let mut plan: Vec<Delivery> = Vec::new();
    if !registry.contains(s.client) {
        return (Outcome::Ignored, plan);
    }
    match limiter.allow(s.client, s.at) {
        Verdict::Throttled => {
            plan.push(send_error(s.client, Rejection::Throttled));
            return (Outcome::Rejected(Rejection::Throttled), plan);
        },
        Verdict::Accepted => {},
    }
    match canvas.write(s.update.x, s.update.y, s.update.color) {
        Ok(()) => {
            limiter.record(s.client, s.at);
            (Outcome::Accepted, broadcast_update(registry, s.update))
        },
        Err(_) => {
            plan.push(send_error(s.client, Rejection::OutOfBounds));
            (Outcome::Rejected(Rejection::OutOfBounds), plan)
        },
    }
}

/// Handles a payload that is no pixel update: plans the error for its author.
pub fn complain(registry: &ClientRegistry, client: ClientId) -> (plan: Vec<Delivery>)
    ensures
        is_complaint(plan@, registry@, client),
{
    let mut plan: Vec<Delivery> = Vec::new();
    if registry.contains(client) {
        plan.push(send_error(client, Rejection::Malformed));
    }
    plan
}

/// Ends a client's connection: unregisters it, drops what the limiter
/// remembers of it and plans the new count for those who remain.
pub fn disconnect(registry: &mut ClientRegistry, limiter: &mut RateLimiter, client: ClientId) -> (plan: Vec<Delivery>)
    ensures
        final(registry)@ == old(registry)@.remove(client),
        final(limiter)@ == old(limiter)@.forget(client),
        is_farewell(plan@, old(registry)@, client),
{
    let count = registry.unregister(client);
    limiter.forget(client);
    broadcast_count(registry, count)
}

/// Handles one event: moves the shared state one step and plans what is to be
/// sent.
pub fn handle(
    canvas: &mut Canvas,
    registry: &mut ClientRegistry,
    limiter: &mut RateLimiter,
    event: Event,
) -> (plan: Vec<Delivery>)
    ensures
        state_of(*final(canvas), *final(registry), *final(limiter)) == state_of(
            *old(canvas),
            *old(registry),
            *old(limiter),
        ).step(event),
        is_plan(plan@, state_of(*old(canvas), *old(registry), *old(limiter)), event),
{
    match event {
        Event::Connect(client) => connect(canvas, registry, client),
        Event::Submit(s) => submit(canvas, registry, limiter, s).1,
        Event::Malformed(client) => complain(registry, client),
        Event::Disconnect(client) => disconnect(registry, limiter, client),
    }
}

} // verus!
