//! The broadcast hub: which message goes to which client.
//!
//! The hub only plans deliveries. Sending them is left to the transport, one
//! recipient at a time, so that a failed send touches no other recipient.

use crate::canvas::PixelUpdate;
use crate::registry::{ClientId, ClientRegistry};
use crate::rejection::Rejection;
use vstd::prelude::*;

verus! {

/// A message from the server to a client.
#[derive(Clone, Debug, PartialEq, Eq)]
pub enum Message {
    /// The whole canvas, row by row.
    InitCanvas(Vec<u32>),
    /// An accepted write.
    PixelUpdated(PixelUpdate),
    /// The number of clients connected.
    ClientCount(usize),
    /// A submission of the recipient was turned down.
    Error(Rejection),
}

/// Mathematical model of a message.
pub enum MessageView {
    InitCanvas(Seq<u32>),
    PixelUpdated(PixelUpdate),
    ClientCount(nat),
    Error(Rejection),
}

impl View for Message {
    type V = MessageView;

    open spec fn view(&self) -> MessageView {
        match *self {
            Message::InitCanvas(cells) => MessageView::InitCanvas(cells@),
            Message::PixelUpdated(update) => MessageView::PixelUpdated(update),
            Message::ClientCount(n) => MessageView::ClientCount(n as nat),
            Message::Error(rejection) => MessageView::Error(rejection),
        }
    }
}

impl MessageView {
    /// Name of the event under which the message travels.
    pub open spec fn event(self) -> Seq<char> {
        match self {
            MessageView::InitCanvas(_) => "init-canvas"@,
            MessageView::PixelUpdated(_) => "pixel-updated"@,
            MessageView::ClientCount(_) => "current_soldiers"@,
            MessageView::Error(_) => "error"@,
        }
    }
}

impl Message {
    pub fn event(&self) -> (name: &'static str)
        ensures
            name@ == self@.event(),
    {
        match self {
            Message::InitCanvas(_) => "init-canvas",
            Message::PixelUpdated(_) => "pixel-updated",
            Message::ClientCount(_) => "current_soldiers",
            Message::Error(_) => "error",
        }
    }

    /// A second copy of the message.
    pub fn duplicate(&self) -> (copy: Message)
        ensures
            copy@ == self@,
    {
        match self {
            Message::InitCanvas(cells) => Message::InitCanvas(cells.clone()),
            Message::PixelUpdated(update) => Message::PixelUpdated(*update),
            Message::ClientCount(n) => Message::ClientCount(*n),
            Message::Error(rejection) => Message::Error(*rejection),
        }
    }
}

/// One message for one client.
#[derive(Clone, Debug, PartialEq, Eq)]
pub struct Delivery {
    pub recipient: ClientId,
    pub message: Message,
}

/// The recipients of a plan, in its order.
pub open spec fn recipients(plan: Seq<Delivery>) -> Seq<ClientId> {
    plan.map_values(|d: Delivery| d.recipient)
}

/// The plan hands `message` to every client of `audience` exactly once, and
/// nothing to anybody else.
pub open spec fn is_fan_out(plan: Seq<Delivery>, audience: Set<ClientId>, message: MessageView) -> bool {
    &&& recipients(plan).no_duplicates()
    &&& recipients(plan).to_set() == audience
    &&& forall|i: int| 0 <= i < plan.len() ==> (#[trigger] plan[i]).message@ == message
}

/// In a fan-out every client of the audience finds the message in exactly one
/// delivery, and a client outside the audience in none.
pub proof fn lemma_fan_out_exactly_once(
    plan: Seq<Delivery>,
    audience: Set<ClientId>,
    message: MessageView,
    client: ClientId,
)
    requires
        is_fan_out(plan, audience, message),
    ensures
        audience.contains(client) ==> exists|i: int|
            {
                &&& 0 <= i < plan.len()
                &&& (#[trigger] plan[i]).recipient == client
                &&& plan[i].message@ == message
                &&& forall|j: int| 0 <= j < plan.len() && (#[trigger] plan[j]).recipient == client ==> j == i
            },
        !audience.contains(client) ==> forall|j: int|
            0 <= j < plan.len() ==> (#[trigger] plan[j]).recipient != client,
{
    let who = recipients(plan);
    if audience.contains(client) {
        assert(who.to_set().contains(client));
        let i = choose|i: int| 0 <= i < who.len() && who[i] == client;
        assert(plan[i].recipient == client);
        assert forall|j: int| 0 <= j < plan.len() && (#[trigger] plan[j]).recipient == client implies j == i by {
            assert(who[j] == client);
        }
    } else {
        assert forall|j: int| 0 <= j < plan.len() implies (#[trigger] plan[j]).recipient != client by {
            if plan[j].recipient == client {
                assert(who[j] == client);
                assert(who.to_set().contains(client));
            }
        }
    }
}

/// Plans the delivery of `message` to every connected client.
pub fn fan_out(registry: &ClientRegistry, message: &Message) -> (plan: Vec<Delivery>)
    ensures
        is_fan_out(plan@, registry@, message@),
{
    let members = registry.members();
    let mut plan: Vec<Delivery> = Vec::new();
    let mut i: usize = 0;
    while i < members.len()
        invariant
            i <= members.len(),
            plan@.len() == i,
            forall|k: int| 0 <= k < i ==> (#[trigger] plan@[k]).recipient == members@[k],
            forall|k: int| 0 <= k < i ==> (#[trigger] plan@[k]).message@ == message@,
        decreases members.len() - i,
    {
        plan.push(Delivery { recipient: members[i], message: message.duplicate() });
        i += 1;
    }
    proof {
        assert(recipients(plan@) =~= members@);
    }
    plan
}

/// Plans the delivery of an accepted write to every connected client, its
/// author included.
pub fn broadcast_update(registry: &ClientRegistry, update: PixelUpdate) -> (plan: Vec<Delivery>)
    ensures
        is_fan_out(plan@, registry@, MessageView::PixelUpdated(update)),
{
    fan_out(registry, &Message::PixelUpdated(update))
}

/// Plans the delivery of a client count to every connected client.
pub fn broadcast_count(registry: &ClientRegistry, count: usize) -> (plan: Vec<Delivery>)
    ensures
        is_fan_out(plan@, registry@, MessageView::ClientCount(count as nat)),
{
    fan_out(registry, &Message::ClientCount(count))
}

/// The delivery of the whole canvas to one client.
pub fn send_snapshot(client: ClientId, cells: Vec<u32>) -> (delivery: Delivery)
    ensures
        delivery.recipient == client,
        delivery.message@ == MessageView::InitCanvas(cells@),
{
    Delivery { recipient: client, message: Message::InitCanvas(cells) }
}

/// The delivery that tells one client why its submission was turned down.
pub fn send_error(client: ClientId, rejection: Rejection) -> (delivery: Delivery)
    ensures
        delivery.recipient == client,
        delivery.message@ == MessageView::Error(rejection),
{
    Delivery { recipient: client, message: Message::Error(rejection) }
}

} // verus!
