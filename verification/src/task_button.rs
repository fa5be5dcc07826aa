//! The task that reports changes of the user button.
//!
//! The task subscribes to the periodic `Kick`; on each one it reads the button and, when the
//! reading differs from the last reported state, reports the change. Reading the button is
//! the application's.

use vstd::prelude::*;

use crate::msg::Msg;

verus! {

/// A change of the user button.
#[derive(Clone, Copy, PartialEq, Eq, Structural, Debug)]
pub enum ButtonMsg {
    Released,
    Pressed,
}

/// The message the button task subscribes to.
pub fn button_subscription() -> (m: Msg)
    ensures
        m is Kick,
{
    Msg::Kick
}

/// The report of a button that is (`pressed`) or is not pressed.
pub open spec fn button_report(pressed: bool) -> Msg {
    if pressed {
        Msg::Button(ButtonMsg::Pressed)
    } else {
        Msg::Button(ButtonMsg::Released)
    }
}

/// One turn of the button task: from the last reported state, the received message and the
/// button's current reading, the new reported state and the report to send.
pub open spec fn spec_button_step(pressed: bool, msg: Msg, current: bool) -> (bool, Option<Msg>) {
    if msg is Kick && current != pressed {
        (current, Some(button_report(current)))
    } else {
        (pressed, None)
    }
}

/// One turn of the button task; see [`spec_button_step`]. The reading only counts on a
/// `Kick`.
pub fn task_button(pressed: bool, msg: Msg, current: bool) -> (r: (bool, Option<Msg>))
    ensures
        r == spec_button_step(pressed, msg, current),
{
    if let Msg::Kick = msg {
        if current != pressed {
            let report = if current {
                Msg::Button(ButtonMsg::Pressed)
            } else {
                Msg::Button(ButtonMsg::Released)
            };
            return (current, Some(report));
        }
    }
    (pressed, None)
}

/// The button task reports each change once: a second `Kick` with the same reading reports
/// nothing, and the reported state always ends equal to the last reading taken on a `Kick`.
pub proof fn lemma_button_reports_changes_once(pressed: bool, current: bool)
    ensures
        spec_button_step(pressed, Msg::Kick, current).0 == current,
        spec_button_step(spec_button_step(pressed, Msg::Kick, current).0, Msg::Kick, current).1
            is None,
        (spec_button_step(pressed, Msg::Kick, current).1 is Some) <==> (current != pressed),
{
}

} // verus!
