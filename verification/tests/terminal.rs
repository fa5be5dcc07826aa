use nucleo_rtos::msg::Msg;
use nucleo_rtos::task_blink::BlinkMsg;
use nucleo_rtos::task_button::ButtonMsg;
use nucleo_rtos::task_terminal::{greeting, task_terminal, terminal_subscriptions, ReadError, Terminal};

/// Runs one turn per byte (each on a `Kick`), collecting the output and the messages sent.
fn feed(term: &mut Terminal, bytes: &[u8]) -> (String, Vec<Msg>) {
    let mut out = Vec::new();
    let mut sent = Vec::new();
    for &b in bytes {
        let step = task_terminal(term, Msg::Kick, Ok(b));
        out.extend_from_slice(&step.output);
        if let Some(m) = step.send {
            sent.push(m);
        }
    }
    (String::from_utf8_lossy(&out).into_owned(), sent)
}

#[test]
fn greeting_lists_the_commands() {
    let g = String::from_utf8(greeting()).unwrap();
    assert_eq!(
        g,
        "\r\nWelcome to the Nucleo command center terminal!\r\nYou can:\r\n\tblinky on\r\n\tblinky off\r\n\tblinky toggle\r\n"
    );
    assert_eq!(terminal_subscriptions(), vec![Msg::Kick, Msg::Button(ButtonMsg::Released)]);
}

#[test]
fn blinky_on_sends_on_and_replies() {
    let mut t = Terminal::new();
    let (out, sent) = feed(&mut t, b"blinky on\r");
    assert_eq!(out, "\r\n? blinky on\r\r\nYou light up the room.");
    assert_eq!(sent, vec![Msg::Blink(BlinkMsg::On)]);
    let (out, sent) = feed(&mut t, b"x");
    assert_eq!(out, "\r\n? x");
    assert!(sent.is_empty());
}

#[test]
fn blinky_off_and_toggle() {
    let mut t = Terminal::new();
    let (out, sent) = feed(&mut t, b"blinky off\n");
    assert_eq!(out, "\r\n? blinky off\n\r\nIt is pitch black. You are likely to be eaten by a grue.");
    assert_eq!(sent, vec![Msg::Blink(BlinkMsg::Off)]);
    let (out, sent) = feed(&mut t, b"blinky toggle\r");
    assert_eq!(out, "\r\n? blinky toggle\r\r\nJust keep flipping the switch till something works out.");
    assert_eq!(sent, vec![Msg::Blink(BlinkMsg::Toggle)]);
}

#[test]
fn backspace_and_delete_edit_the_line() {
    let mut t = Terminal::new();
    let (out, sent) = feed(&mut t, b"blinkx\x08y\x7fy on\r");
    assert_eq!(out, "\r\n? blinkx\x08y\x7fy on\r\r\nYou light up the room.");
    assert_eq!(sent, vec![Msg::Blink(BlinkMsg::On)]);
}

#[test]
fn backspace_on_an_empty_line_stays_empty() {
    let mut t = Terminal::new();
    let (out, sent) = feed(&mut t, b"\x08\x08\r");
    assert_eq!(out, "\r\n? \x08\x08\r");
    assert!(sent.is_empty());
}

#[test]
fn empty_line_does_nothing_but_prompt_again() {
    let mut t = Terminal::new();
    let (out, sent) = feed(&mut t, b"\r\n");
    assert_eq!(out, "\r\n? \r\r\n? \n");
    assert!(sent.is_empty());
}

#[test]
fn unknown_command_is_quoted() {
    let mut t = Terminal::new();
    let (out, sent) = feed(&mut t, b"hello \"x\"\r");
    assert_eq!(out, "\r\n? hello \"x\"\r\r\nOops, invalid command: \"hello \\\"x\\\"\"");
    assert!(sent.is_empty());
}

#[test]
fn zero_byte_ends_the_command() {
    let mut t = Terminal::new();
    let (out, sent) = feed(&mut t, b"blinky on\x00zz\r");
    assert_eq!(sent, vec![Msg::Blink(BlinkMsg::On)]);
    assert!(out.ends_with("You light up the room."));
}

#[test]
fn invalid_utf8_shows_the_whole_line() {
    let mut t = Terminal::new();
    let step = task_terminal(&mut t, Msg::Kick, Ok(0xff));
    assert_eq!(step.output, b"\r\n? \xff".to_vec());
    let step = task_terminal(&mut t, Msg::Kick, Ok(b'\r'));
    let expected = format!("\rOops, invalid str: {:?}", [0xffu8, 0, 0, 0, 0, 0, 0, 0, 0, 0, 0, 0, 0, 0, 0, 0, 0, 0, 0, 0]);
    assert_eq!(String::from_utf8(step.output).unwrap(), expected);
    assert_eq!(expected, "\rOops, invalid str: [255, 0, 0, 0, 0, 0, 0, 0, 0, 0, 0, 0, 0, 0, 0, 0, 0, 0, 0, 0]");
    assert_eq!(step.send, None);
}

#[test]
fn twenty_bytes_fill_the_line() {
    let mut t = Terminal::new();
    let (out, sent) = feed(&mut t, b"abcdefghijklmnopqrst\r");
    assert_eq!(out, "\r\n? abcdefghijklmnopqrst\r\r\nOops, line too long.");
    assert!(sent.is_empty());
    let (out, _) = feed(&mut t, b"a");
    assert_eq!(out, "\r\n? a");
}

#[test]
fn nineteen_bytes_still_run() {
    let mut t = Terminal::new();
    let (out, _) = feed(&mut t, b"abcdefghijklmnopqrs\r");
    assert_eq!(out, "\r\n? abcdefghijklmnopqrs\r\r\nOops, invalid command: \"abcdefghijklmnopqrs\"");
}

#[test]
fn nothing_to_read_prints_nothing() {
    let mut t = Terminal::new();
    let step = task_terminal(&mut t, Msg::Kick, Err(ReadError::WouldBlock));
    assert_eq!(step.output, b"\r\n? ".to_vec());
    let step = task_terminal(&mut t, Msg::Kick, Err(ReadError::WouldBlock));
    assert!(step.output.is_empty());
    assert_eq!(step.send, None);
}

#[test]
fn read_error_reports_and_starts_over() {
    let mut t = Terminal::new();
    let (_, _) = feed(&mut t, b"bli");
    let step = task_terminal(&mut t, Msg::Kick, Err(ReadError::Other));
    assert_eq!(step.output, b"\r\nOops, something went wrong reading a character.".to_vec());
    let (out, sent) = feed(&mut t, b"nky on\r");
    assert_eq!(out, "\r\n? nky on\r\r\nOops, invalid command: \"nky on\"");
    assert!(sent.is_empty());
}

#[test]
fn button_changes_are_printed_before_the_prompt() {
    let mut t = Terminal::new();
    let step = task_terminal(&mut t, Msg::Button(ButtonMsg::Pressed), Err(ReadError::WouldBlock));
    assert_eq!(step.output, b"\r\nButton pressed!\r\n\r\n? ".to_vec());
    let step = task_terminal(&mut t, Msg::Button(ButtonMsg::Released), Ok(b'a'));
    assert_eq!(step.output, b"\r\nButton released!\r\na".to_vec());
    let step = task_terminal(&mut t, Msg::Blink(BlinkMsg::On), Err(ReadError::WouldBlock));
    assert!(step.output.is_empty());
}
