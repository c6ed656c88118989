//! Why a submission was turned down.

use vstd::prelude::*;

verus! {

/// The reasons for which a single submission is turned down. None of them
/// closes the connection.
#[derive(Clone, Copy, Debug, PartialEq, Eq, Structural)]
pub enum Rejection {
    /// The client's cooldown has not passed yet.
    Throttled,
    /// The coordinates name no cell of the canvas.
    OutOfBounds,
    /// The payload did not have the shape of a pixel update.
    Malformed,
}

impl Rejection {
    /// The text shown to the client.
    pub open spec fn text(self) -> Seq<char> {
        match self {
            Rejection::Throttled => "You can only place one pixel per minute"@,
            Rejection::OutOfBounds => "Pixel coordinates are outside the canvas"@,
            Rejection::Malformed => "Malformed pixel update"@,
        }
    }

    pub fn message(&self) -> (text: &'static str)
        ensures
            text@ == self.text(),
    {
        match self {
            Rejection::Throttled => "You can only place one pixel per minute",
            Rejection::OutOfBounds => "Pixel coordinates are outside the canvas",
            Rejection::Malformed => "Malformed pixel update",
        }
    }
}

} // verus!
