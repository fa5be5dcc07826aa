//! The task that drives the user LED.
//!
//! The task subscribes to `Blink` messages and passes each command on to the LED; all other
//! messages are ignored. The LED itself is the application's.

use vstd::prelude::*;

use crate::msg::Msg;

verus! {

/// A command for the LED task.
#[derive(Clone, Copy, PartialEq, Eq, Structural, Debug)]
pub enum BlinkMsg {
    Off,
    On,
    Toggle,
}

/// The message the LED task subscribes to (its kind is what counts).
pub fn blink_subscription() -> (m: Msg)
    ensures
        m is Blink,
{
    Msg::Blink(BlinkMsg::Off)
}

/// The command that a received message gives the LED: the payload of a `Blink` message,
/// nothing for any other message.
pub open spec fn spec_blink_command(msg: Msg) -> Option<BlinkMsg> {
    match msg {
        Msg::Blink(x) => Some(x),
        _ => None,
    }
}

/// Whether the LED is lit after it is given `cmd` while lit or not (`on`): off, on, or the
/// opposite of what it was.
pub open spec fn led_after(on: bool, cmd: Option<BlinkMsg>) -> bool {
    match cmd {
        Some(BlinkMsg::Off) => false,
        Some(BlinkMsg::On) => true,
        Some(BlinkMsg::Toggle) => !on,
        None => on,
    }
}

/// One turn of the LED task: the command to give the LED for the received message.
pub fn task_blink(msg: Msg) -> (cmd: Option<BlinkMsg>)
    ensures
        cmd == spec_blink_command(msg),
{
    if let Msg::Blink(x) = msg {
        Some(x)
    } else {
        None
    }
}

} // verus!
