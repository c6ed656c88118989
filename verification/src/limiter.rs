//! The rate limiter: a minimum interval between two accepted submissions of
//! the same client.

use crate::registry::ClientId;
use std::collections::HashMap;
use vstd::prelude::*;

verus! {

/// A point in time, in milliseconds since the Unix epoch.
pub type Timestamp = i64;

/// Cooldown used when none is configured: ten seconds.
pub const DEFAULT_COOLDOWN_MS: u64 = 10_000;

/// What the limiter says of a submission.
#[derive(Clone, Copy, Debug, PartialEq, Eq, Structural)]
pub enum Verdict {
    Accepted,
    Throttled,
}

/// Mathematical model of the limiter: the cooldown in milliseconds and, for
/// each client with an accepted submission, the time of its latest one.
pub struct LimiterState {
    pub cooldown: nat,
    pub last: Map<ClientId, Timestamp>,
}

impl LimiterState {
    /// A submission is throttled exactly when the client has an earlier
    /// accepted one and less than the cooldown has passed since.
    pub open spec fn verdict(self, client: ClientId, now: Timestamp) -> Verdict {
        if self.last.contains_key(client) && now < self.last[client] + self.cooldown {
            Verdict::Throttled
        } else {
            Verdict::Accepted
        }
    }

    pub open spec fn record(self, client: ClientId, now: Timestamp) -> LimiterState {
        LimiterState { last: self.last.insert(client, now), ..self }
    }

    pub open spec fn forget(self, client: ClientId) -> LimiterState {
        LimiterState { last: self.last.remove(client), ..self }
    }
}

/// Once a submission of a client at `first` is recorded, its next one at
/// `second` is throttled exactly when it comes before the cooldown has
/// passed. Other clients are judged as before.
pub proof fn lemma_cooldown(
    limiter: LimiterState,
    client: ClientId,
    first: Timestamp,
    second: Timestamp,
    other: ClientId,
)
    ensures
        second < first + limiter.cooldown ==> limiter.record(client, first).verdict(client, second)
            == Verdict::Throttled,
        second >= first + limiter.cooldown ==> limiter.record(client, first).verdict(client, second)
            == Verdict::Accepted,
        other != client ==> limiter.record(client, first).verdict(other, second) == limiter.verdict(
            other,
            second,
        ),
{
}

/// A client that the limiter has forgotten, or never knew, is not throttled.
pub proof fn lemma_forgotten(limiter: LimiterState, client: ClientId, now: Timestamp)
    ensures
        limiter.forget(client).verdict(client, now) == Verdict::Accepted,
        !limiter.last.contains_key(client) ==> limiter.verdict(client, now) == Verdict::Accepted,
{
}

/// Remembers when each client last had a submission accepted.
pub struct RateLimiter {
    cooldown: u64,
    last: HashMap<ClientId, Timestamp>,
}

impl View for RateLimiter {
    type V = LimiterState;

    closed spec fn view(&self) -> LimiterState {
        LimiterState { cooldown: self.cooldown as nat, last: self.last@ }
    }
}

impl RateLimiter {
    /// A limiter with the given cooldown in milliseconds and no history.
    pub fn new(cooldown_ms: u64) -> (limiter: Self)
        ensures
            limiter@.cooldown == cooldown_ms,
            limiter@.last == Map::<ClientId, Timestamp>::empty(),
    {
        RateLimiter { cooldown: cooldown_ms, last: HashMap::new() }
    }

    pub fn cooldown(&self) -> (ms: u64)
        ensures
            ms == self@.cooldown,
    {
        self.cooldown
    }

    /// Number of clients whose latest accepted submission is remembered.
    pub fn remembered(&self) -> (n: usize)
        ensures
            self@.last.dom().finite(),
            n == self@.last.dom().len(),
    {
        self.last.len()
    }

    /// Time of the client's latest accepted submission, if it has one.
    pub fn last_accepted(&self, client: ClientId) -> (at: Option<Timestamp>)
        ensures
            at == (if self@.last.contains_key(client) {
                Some(self@.last[client])
            } else {
                None
            }),
    {
        match self.last.get(&client) {
            Some(at) => Some(*at),
            None => None,
        }
    }

    /// Judges a submission made at `now`. Nothing is recorded.
    pub fn allow(&self, client: ClientId, now: Timestamp) -> (verdict: Verdict)
        ensures
            verdict == self@.verdict(client, now),
    {
        match self.last.get(&client) {
            Some(at) => {
                if (now as i128) < (*at as i128) + (self.cooldown as i128) {
                    Verdict::Throttled
                } else {
                    Verdict::Accepted
                }
            },
            None => Verdict::Accepted,
        }
    }

    /// Records `now` as the time of the client's latest accepted submission.
    pub fn record(&mut self, client: ClientId, now: Timestamp)
        ensures
            final(self)@ == old(self)@.record(client, now),
    {
        self.last.insert(client, now);
    }

    /// Drops what is remembered of a client.
    pub fn forget(&mut self, client: ClientId)
        ensures
            final(self)@ == old(self)@.forget(client),
    {
        self.last.remove(&client);
    }
}

} // verus!
