//! The messages that tasks exchange through the router.

use vstd::prelude::*;

use crate::task_blink::BlinkMsg;
use crate::task_button::ButtonMsg;

verus! {

/// A message routed between tasks.
///
/// Tasks subscribe to a message kind, not to a particular payload: every `Blink(_)` shares
/// one subscription, as does every `Button(_)`.
#[derive(Clone, Copy, PartialEq, Eq, Structural, Debug)]
pub enum Msg {
    Kick,
    Blink(BlinkMsg),
    Button(ButtonMsg),
}

/// The number of a message's kind: `Kick` is 0, `Blink(_)` is 1, `Button(_)` is 2.
pub open spec fn spec_msg_id(msg: Msg) -> int {
    match msg {
        Msg::Kick => 0,
        Msg::Blink(_) => 1,
        Msg::Button(_) => 2,
    }
}

/// The number of message kinds.
pub const MSG_KINDS: usize = 3;

impl Msg {
    /// The number of this message's kind, a C-style discriminant that ignores the payload.
    pub fn id(self) -> (r: usize)
        ensures
            r == spec_msg_id(self),
            r < MSG_KINDS,
    {
        match self {
            Msg::Kick => 0,
            Msg::Blink(_) => 1,
            Msg::Button(_) => 2,
        }
    }
}

/// Two messages share a kind exactly when they are equal up to their payload.
pub proof fn lemma_id_is_kind(a: Msg, b: Msg)
    ensures
        (spec_msg_id(a) == spec_msg_id(b)) <==> (
            (a is Kick && b is Kick) || (a is Blink && b is Blink) || (a is Button && b is Button)
        ),
{
}

} // verus!
