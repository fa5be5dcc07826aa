use nucleo_rtos::msg::Msg;
use nucleo_rtos::task_blink::{blink_subscription, task_blink, BlinkMsg};
use nucleo_rtos::task_button::{button_subscription, task_button, ButtonMsg};
use nucleo_rtos::task_controller::{controller_subscription, task_controller};

#[test]
fn blink_passes_on_blink_commands_only() {
    assert_eq!(task_blink(Msg::Blink(BlinkMsg::On)), Some(BlinkMsg::On));
    assert_eq!(task_blink(Msg::Blink(BlinkMsg::Off)), Some(BlinkMsg::Off));
    assert_eq!(task_blink(Msg::Blink(BlinkMsg::Toggle)), Some(BlinkMsg::Toggle));
    assert_eq!(task_blink(Msg::Kick), None);
    assert_eq!(task_blink(Msg::Button(ButtonMsg::Pressed)), None);
    assert_eq!(blink_subscription().id(), 1);
}

#[test]
fn button_reports_each_change_once() {
    assert_eq!(button_subscription(), Msg::Kick);
    assert_eq!(task_button(false, Msg::Kick, false), (false, None));
    assert_eq!(task_button(false, Msg::Kick, true), (true, Some(Msg::Button(ButtonMsg::Pressed))));
    assert_eq!(task_button(true, Msg::Kick, true), (true, None));
    assert_eq!(task_button(true, Msg::Kick, false), (false, Some(Msg::Button(ButtonMsg::Released))));
}

#[test]
fn button_reads_only_count_on_a_kick() {
    assert_eq!(task_button(false, Msg::Blink(BlinkMsg::On), true), (false, None));
    assert_eq!(task_button(true, Msg::Button(ButtonMsg::Released), false), (true, None));
}

#[test]
fn controller_follows_the_button() {
    assert_eq!(controller_subscription().id(), 2);
    assert_eq!(task_controller(Msg::Button(ButtonMsg::Pressed)), Some(Msg::Blink(BlinkMsg::On)));
    assert_eq!(task_controller(Msg::Button(ButtonMsg::Released)), Some(Msg::Blink(BlinkMsg::Off)));
    assert_eq!(task_controller(Msg::Kick), None);
    assert_eq!(task_controller(Msg::Blink(BlinkMsg::Toggle)), None);
}

#[test]
fn pressing_the_button_lights_the_led_and_releasing_darkens_it() {
    let mut pressed = false;
    for current in [true, false, true] {
        let (p, report) = task_button(pressed, Msg::Kick, current);
        pressed = p;
        let cmd = task_controller(report.unwrap()).unwrap();
        let expected = if current { BlinkMsg::On } else { BlinkMsg::Off };
        assert_eq!(task_blink(cmd), Some(expected));
    }
}
