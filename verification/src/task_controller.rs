//! The task that controls the system: for now, it lights the LED while the button is held.

use vstd::prelude::*;

use crate::msg::Msg;
use crate::task_blink::{led_after, spec_blink_command, BlinkMsg};
use crate::task_button::{spec_button_step, ButtonMsg};

verus! {

/// The message the controller subscribes to (its kind is what counts).
pub fn controller_subscription() -> (m: Msg)
    ensures
        m is Button,
{
    Msg::Button(ButtonMsg::Released)
}

/// What the controller sends for a received message: a release turns the LED off, a press
/// turns it on, anything else is ignored.
pub open spec fn spec_controller(msg: Msg) -> Option<Msg> {
    match msg {
        Msg::Button(ButtonMsg::Released) => Some(Msg::Blink(BlinkMsg::Off)),
        Msg::Button(ButtonMsg::Pressed) => Some(Msg::Blink(BlinkMsg::On)),
        _ => None,
    }
}

/// One turn of the controller task: the message to send for the received one.
pub fn task_controller(msg: Msg) -> (r: Option<Msg>)
    ensures
        r == spec_controller(msg),
{
    if let Msg::Button(x) = msg {
        match x {
            ButtonMsg::Released => Some(Msg::Blink(BlinkMsg::Off)),
            ButtonMsg::Pressed => Some(Msg::Blink(BlinkMsg::On)),
        }
    } else {
        None
    }
}

/// The button drives the LED: when a `Kick` finds the button changed, the button task's
/// report, passed through the controller and on to the LED task, leaves the LED lit exactly
/// when the button is pressed, whatever the LED showed before.
pub proof fn lemma_button_drives_led(pressed: bool, current: bool, led_on: bool)
    requires
        current != pressed,
    ensures
        ({
            let (_, report) = spec_button_step(pressed, Msg::Kick, current);
            &&& report is Some
            &&& spec_controller(report.unwrap()) is Some
            &&& led_after(led_on, spec_blink_command(spec_controller(report.unwrap()).unwrap()))
                == current
        }),
{
}

} // verus!
