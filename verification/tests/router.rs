use nucleo_rtos::msg::Msg;
use nucleo_rtos::router::{task_index, RouterBuilder, NUM_TASKS};
use nucleo_rtos::task_blink::BlinkMsg;
use nucleo_rtos::task_button::ButtonMsg;

fn full_router() -> nucleo_rtos::router::Router<&'static str> {
    let mut b = RouterBuilder::new();
    assert_eq!(b.count(), 0);
    assert_eq!(b.install_task("blink"), 1);
    assert_eq!(b.install_task("button"), 2);
    assert_eq!(b.install_task("controller"), 3);
    assert_eq!(b.install_task("terminal"), 4);
    assert_eq!(b.count(), NUM_TASKS);
    b.start()
}

#[test]
fn msg_ids_ignore_payload() {
    assert_eq!(Msg::Kick.id(), 0);
    assert_eq!(Msg::Blink(BlinkMsg::Off).id(), 1);
    assert_eq!(Msg::Blink(BlinkMsg::Toggle).id(), 1);
    assert_eq!(Msg::Button(ButtonMsg::Pressed).id(), 2);
    assert_eq!(Msg::Button(ButtonMsg::Released).id(), 2);
}

#[test]
fn tasks_are_numbered_from_one_in_install_order() {
    let r = full_router();
    assert_eq!(*r.queue(0), "blink");
    assert_eq!(*r.queue(3), "terminal");
    assert_eq!(task_index(1), 0);
    assert_eq!(task_index(4), 3);
}

#[test]
fn fresh_router_sends_nowhere() {
    let r = full_router();
    assert!(r.recipients(Msg::Kick).is_empty());
    assert!(r.recipients(Msg::Blink(BlinkMsg::On)).is_empty());
    assert!(r.recipients(Msg::Button(ButtonMsg::Pressed)).is_empty());
}

#[test]
fn subscription_is_by_kind_and_in_task_order() {
    let mut r = full_router();
    r.subscribe(Msg::Kick, 3);
    r.subscribe(Msg::Kick, 1);
    r.subscribe(Msg::Blink(BlinkMsg::Off), 0);
    r.subscribe(Msg::Button(ButtonMsg::Released), 2);
    r.subscribe(Msg::Button(ButtonMsg::Released), 3);
    assert_eq!(r.recipients(Msg::Kick), vec![1, 3]);
    assert_eq!(r.recipients(Msg::Blink(BlinkMsg::Toggle)), vec![0]);
    assert_eq!(r.recipients(Msg::Button(ButtonMsg::Pressed)), vec![2, 3]);
}

#[test]
fn subscribing_twice_is_subscribing_once() {
    let mut r = full_router();
    r.subscribe(Msg::Kick, 2);
    r.subscribe(Msg::Kick, 2);
    assert_eq!(r.recipients(Msg::Kick), vec![2]);
    assert!(r.recipients(Msg::Blink(BlinkMsg::On)).is_empty());
}

#[test]
fn subscription_order_does_not_matter() {
    let mut a = full_router();
    a.subscribe(Msg::Kick, 0);
    a.subscribe(Msg::Blink(BlinkMsg::On), 1);
    let mut b = full_router();
    b.subscribe(Msg::Blink(BlinkMsg::On), 1);
    b.subscribe(Msg::Kick, 0);
    for m in [Msg::Kick, Msg::Blink(BlinkMsg::On), Msg::Button(ButtonMsg::Pressed)] {
        assert_eq!(a.recipients(m), b.recipients(m));
    }
}

#[test]
fn tasks_past_the_router_are_never_sent_to() {
    let mut r = full_router();
    r.subscribe(Msg::Kick, 31);
    r.subscribe(Msg::Kick, 4);
    assert!(r.recipients(Msg::Kick).is_empty());
    r.subscribe(Msg::Kick, 0);
    assert_eq!(r.recipients(Msg::Kick), vec![0]);
}
