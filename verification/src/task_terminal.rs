//! The serial terminal task: a line editor with a few commands.
//!
//! On every message it receives, the task prints what the message asks for (button
//! changes), shows a fresh prompt when the previous line is done, then looks at the serial
//! port for one character. Characters are echoed and collected into a line of at most
//! `LINE_LEN` bytes; backspace erases the last one; a line ending runs the command on the
//! line. The serial hardware, the queues and the scheduler are the application's: here stand
//! the terminal's state and the decision of what to print and which message to send.

use vstd::prelude::*;
use vstd::string::StringSliceAdditionalSpecFns;
use vstd::utf8::{decode_utf8, encode_utf8_decode_utf8, valid_utf8};

use crate::msg::Msg;
use crate::task_blink::BlinkMsg;
use crate::task_button::ButtonMsg;

verus! {

/// The capacity of the command line, in bytes.
pub const LINE_LEN: usize = 20;

/// The line break the terminal prints.
pub const NEWLINE: &'static str = "\r\n";

/// The first line of the greeting.
pub const WELCOME: &'static str = "Welcome to the Nucleo command center terminal!";

/// The line that introduces the list of commands.
pub const YOU_CAN: &'static str = "You can:";

/// The greeting's line for the command that lights the LED.
pub const HELP_ON: &'static str = "\tblinky on";

/// The greeting's line for the command that darkens the LED.
pub const HELP_OFF: &'static str = "\tblinky off";

/// The greeting's line for the command that toggles the LED.
pub const HELP_TOGGLE: &'static str = "\tblinky toggle";

/// The prompt printed at the start of every line.
pub const PROMPT: &'static str = "\r\n? ";

/// Printed when the button is released.
pub const BUTTON_RELEASED: &'static str = "\r\nButton released!\r\n";

/// Printed when the button is pressed.
pub const BUTTON_PRESSED: &'static str = "\r\nButton pressed!\r\n";

/// The command that lights the LED.
pub const CMD_ON: &'static str = "blinky on";

/// The command that darkens the LED.
pub const CMD_OFF: &'static str = "blinky off";

/// The command that toggles the LED.
pub const CMD_TOGGLE: &'static str = "blinky toggle";

/// The reply to [`CMD_ON`].
pub const REPLY_ON: &'static str = "\r\nYou light up the room.";

/// The reply to [`CMD_OFF`].
pub const REPLY_OFF: &'static str = "\r\nIt is pitch black. You are likely to be eaten by a grue.";

/// The reply to [`CMD_TOGGLE`].
pub const REPLY_TOGGLE: &'static str = "\r\nJust keep flipping the switch till something works out.";

/// Printed before the quoted text of a line that is no command.
pub const INVALID_COMMAND: &'static str = "\r\nOops, invalid command: ";

/// Printed before the bytes of a line that is not valid UTF-8.
pub const INVALID_STR: &'static str = "Oops, invalid str: ";

/// Printed when a byte arrives while the line is full.
pub const LINE_TOO_LONG: &'static str = "\r\nOops, line too long.";

/// Printed when the serial port reports an error.
pub const READ_FAILED: &'static str = "\r\nOops, something went wrong reading a character.";

/// Carriage return, one of the two bytes that end a line.
pub const CR: u8 = 0x0d;

/// Line feed, the other byte that ends a line.
pub const LF: u8 = 0x0a;

/// Backspace, one of the two bytes that erase the last byte of the line.
pub const BACKSPACE: u8 = 0x08;

/// Delete, the other byte that erases the last byte of the line.
pub const DELETE: u8 = 0x7f;

/// Why reading a character from the serial port gave none.
#[derive(Clone, Copy, PartialEq, Eq, Structural, Debug)]
pub enum ReadError {
    /// No character has arrived yet.
    WouldBlock,
    /// The port reported an error.
    Other,
}

/// The text that `{:?}` gives for a string: Rust's `Debug` formatting of `str`, as UTF-8.
pub uninterp spec fn str_debug(text: Seq<char>) -> Seq<u8>;

/// The text that `{:?}` gives for a byte slice: Rust's `Debug` formatting of `[u8]`, as
/// UTF-8.
pub uninterp spec fn bytes_debug(bytes: Seq<u8>) -> Seq<u8>;

/// `core::str::from_utf8`: the string that `bytes` encode, when they are valid UTF-8.
#[verifier::external_body]
fn utf8_str(bytes: &[u8]) -> (r: Option<&str>)
    ensures
        r is Some <==> valid_utf8(bytes@),
        r matches Some(s) ==> s.spec_bytes() == bytes@,
{
    core::str::from_utf8(bytes).ok()
}

/// `<str as Debug>::fmt`, through `format!("{:?}", ..)`: the quoted and escaped string.
#[verifier::external_body]
fn debug_str(s: &str) -> (r: Vec<u8>)
    ensures
        r@ == str_debug(s@),
{
    format!("{:?}", s).into_bytes()
}

/// `<[u8] as Debug>::fmt`, through `format!("{:?}", ..)`: the bracketed list of the numbers.
#[verifier::external_body]
fn debug_bytes(bytes: &[u8]) -> (r: Vec<u8>)
    ensures
        r@ == bytes_debug(bytes@),
{
    format!("{:?}", bytes).into_bytes()
}

/// The messages the terminal subscribes to: the periodic `Kick`, which makes it poll the
/// serial port, and button changes, which it prints.
pub fn terminal_subscriptions() -> (r: Vec<Msg>)
    ensures
        r@ == seq![Msg::Kick, Msg::Button(ButtonMsg::Released)],
{
    let mut r: Vec<Msg> = Vec::new();
    r.push(Msg::Kick);
    r.push(Msg::Button(ButtonMsg::Released));
    r
}

/// `n` zero bytes.
pub open spec fn zeros(n: int) -> Seq<u8> {
    Seq::new(n as nat, |i: int| 0u8)
}

/// The text printed when the terminal starts.
pub open spec fn spec_greeting() -> Seq<u8> {
    NEWLINE.spec_bytes() + WELCOME.spec_bytes() + NEWLINE.spec_bytes() + YOU_CAN.spec_bytes()
        + NEWLINE.spec_bytes() + HELP_ON.spec_bytes() + NEWLINE.spec_bytes()
        + HELP_OFF.spec_bytes() + NEWLINE.spec_bytes() + HELP_TOGGLE.spec_bytes()
        + NEWLINE.spec_bytes()
}

/// The position of the first zero byte of `line`, or its length when there is none.
pub open spec fn null_pos(line: Seq<u8>) -> int
    decreases line.len(),
{
    if line.len() == 0 || line[0] == 0 {
        0
    } else {
        1 + null_pos(line.drop_first())
    }
}

/// The command on a line: its bytes up to the first zero byte.
pub open spec fn command_of(line: Seq<u8>) -> Seq<u8> {
    line.take(null_pos(line))
}

/// What running the command on `line` prints, and the message it sends.
pub open spec fn spec_command_reply(line: Seq<u8>) -> (Seq<u8>, Option<Msg>) {
    let cmd = command_of(line);
    if cmd == CMD_ON.spec_bytes() {
        (REPLY_ON.spec_bytes(), Some(Msg::Blink(BlinkMsg::On)))
    } else if cmd == CMD_OFF.spec_bytes() {
        (REPLY_OFF.spec_bytes(), Some(Msg::Blink(BlinkMsg::Off)))
    } else if cmd == CMD_TOGGLE.spec_bytes() {
        (REPLY_TOGGLE.spec_bytes(), Some(Msg::Blink(BlinkMsg::Toggle)))
    } else if cmd.len() == 0 {
        (Seq::empty(), None)
    } else if valid_utf8(cmd) {
        (INVALID_COMMAND.spec_bytes() + str_debug(decode_utf8(cmd)), None)
    } else {
        (INVALID_STR.spec_bytes() + bytes_debug(line), None)
    }
}

/// The state of the terminal: the line buffer, the number of bytes typed into it, and
/// whether a fresh line (and prompt) is due.
pub type TermState = (Seq<u8>, int, bool);

/// A well-formed state: a full-size line buffer, a count within it, and zero bytes from the
/// count on.
pub open spec fn state_wf(st: TermState) -> bool {
    &&& st.0.len() == LINE_LEN
    &&& 0 <= st.1 <= LINE_LEN
    &&& forall|i: int| st.1 <= i < LINE_LEN ==> #[trigger] st.0[i] == 0
}

/// The state of a terminal that has just started: a fresh line is due.
pub open spec fn start_state() -> TermState {
    (zeros(LINE_LEN as int), 0, true)
}

/// The first half of a step: print what the message asks for, then start a fresh line with
/// a prompt if one is due.
pub open spec fn spec_on_message(st: TermState, msg: Msg) -> (TermState, Seq<u8>) {
    let shown = match msg {
        Msg::Button(ButtonMsg::Released) => BUTTON_RELEASED.spec_bytes(),
        Msg::Button(ButtonMsg::Pressed) => BUTTON_PRESSED.spec_bytes(),
        _ => Seq::empty(),
    };
    if st.2 {
        ((zeros(LINE_LEN as int), 0, false), shown + PROMPT.spec_bytes())
    } else {
        (st, shown)
    }
}

/// The second half of a step: handle what reading the serial port gave.
pub open spec fn spec_on_read(st: TermState, read: Result<u8, ReadError>) -> (
    TermState,
    Seq<u8>,
    Option<Msg>,
) {
    match read {
        Ok(c) => if st.1 < LINE_LEN {
            if c == CR || c == LF {
                let (reply, send) = spec_command_reply(st.0);
                ((st.0, st.1, true), seq![c] + reply, send)
            } else if c == BACKSPACE || c == DELETE {
                let i = if st.1 > 0 {
                    st.1 - 1
                } else {
                    0
                };
                ((st.0.update(i, 0u8), i, st.2), seq![c], None)
            } else {
                ((st.0.update(st.1, c), st.1 + 1, st.2), seq![c], None)
            }
        } else {
            ((st.0, st.1, true), seq![c] + LINE_TOO_LONG.spec_bytes(), None)
        },
        Err(ReadError::WouldBlock) => (st, Seq::empty(), None),
        Err(ReadError::Other) => ((st.0, st.1, true), READ_FAILED.spec_bytes(), None),
    }
}

/// One turn of the terminal task: the state after it, everything it prints, in order, and
/// the message it sends, if any.
pub open spec fn spec_terminal_step(st: TermState, msg: Msg, read: Result<u8, ReadError>) -> (
    TermState,
    Seq<u8>,
    Option<Msg>,
) {
    let (st1, out1) = spec_on_message(st, msg);
    let (st2, out2, send) = spec_on_read(st1, read);
    (st2, out1 + out2, send)
}

/// What one turn of the terminal prints and sends.
pub struct TerminalStep {
    /// The bytes to write to the serial port, in order.
    pub output: Vec<u8>,
    /// The message to send through the router, if any.
    pub send: Option<Msg>,
}

/// The terminal's state.
pub struct Terminal {
    line: Vec<u8>,
    line_idx: usize,
    clear: bool,
}

/// Appends `bytes` to `out`.
fn push_all(out: &mut Vec<u8>, bytes: &[u8])
    ensures
        final(out)@ == old(out)@ + bytes@,
{
    let mut i: usize = 0;
    while i < bytes.len()
        invariant
            i <= bytes@.len(),
            out@ == old(out)@ + bytes@.take(i as int),
        decreases bytes@.len() - i,
    {
        out.push(bytes[i]);
        proof {
            assert(bytes@.take(i + 1) =~= bytes@.take(i as int).push(bytes@[i as int]));
        }
        i = i + 1;
    }
    proof {
        assert(bytes@.take(i as int) =~= bytes@);
    }
}

/// Whether two byte strings are equal.
fn bytes_eq(a: &[u8], b: &[u8]) -> (r: bool)
    ensures
        r == (a@ == b@),
{
    if a.len() != b.len() {
        return false;
    }
    let mut i: usize = 0;
    while i < a.len()
        invariant
            a@.len() == b@.len(),
            i <= a@.len(),
            forall|j: int| 0 <= j < i ==> a@[j] == b@[j],
        decreases a@.len() - i,
    {
        if a[i] != b[i] {
            return false;
        }
        i = i + 1;
    }
    proof {
        assert(a@ =~= b@);
    }
    true
}

/// The position of the first zero byte of `line`.
fn find_null(line: &[u8]) -> (r: usize)
    ensures
        r == null_pos(line@),
        r <= line@.len(),
{
    let mut i: usize = 0;
    assert(line@.skip(0) =~= line@);
    while i < line.len() && line[i] != 0
        invariant
            i <= line@.len(),
            null_pos(line@) == i + null_pos(line@.skip(i as int)),
        decreases line@.len() - i,
    {
        proof {
            let rest = line@.skip(i as int);
            assert(rest.drop_first() =~= line@.skip(i + 1));
        }
        i = i + 1;
    }
    i
}

/// What running the command on `line` prints, and the message it sends.
fn command_reply(line: &[u8]) -> (r: (Vec<u8>, Option<Msg>))
    ensures
        r.0@ == spec_command_reply(line@).0,
        r.1 == spec_command_reply(line@).1,
{
    let null_pos = find_null(line);
    let cmd = &line[0..null_pos];
    assert(cmd@ == command_of(line@));
    let mut out: Vec<u8> = Vec::new();
    if bytes_eq(cmd, CMD_ON.as_bytes()) {
        push_all(&mut out, REPLY_ON.as_bytes());
        (out, Some(Msg::Blink(BlinkMsg::On)))
    } else if bytes_eq(cmd, CMD_OFF.as_bytes()) {
        push_all(&mut out, REPLY_OFF.as_bytes());
        (out, Some(Msg::Blink(BlinkMsg::Off)))
    } else if bytes_eq(cmd, CMD_TOGGLE.as_bytes()) {
        push_all(&mut out, REPLY_TOGGLE.as_bytes());
        (out, Some(Msg::Blink(BlinkMsg::Toggle)))
    } else if cmd.len() == 0 {
        (out, None)
    } else {
        match utf8_str(cmd) {
            Some(s) => {
                proof {
                    encode_utf8_decode_utf8(s@);
                }
                push_all(&mut out, INVALID_COMMAND.as_bytes());
                let shown = debug_str(s);
                push_all(&mut out, shown.as_slice());
                (out, None)
            },
            None => {
                push_all(&mut out, INVALID_STR.as_bytes());
                let shown = debug_bytes(line);
                push_all(&mut out, shown.as_slice());
                (out, None)
            },
        }
    }
}

/// The text printed when the terminal starts: a blank line, then the welcome and the list of
/// commands, one per line.
pub fn greeting() -> (r: Vec<u8>)
    ensures
        r@ == spec_greeting(),
{
    let mut out: Vec<u8> = Vec::new();
    push_all(&mut out, NEWLINE.as_bytes());
    push_all(&mut out, WELCOME.as_bytes());
    push_all(&mut out, NEWLINE.as_bytes());
    push_all(&mut out, YOU_CAN.as_bytes());
    push_all(&mut out, NEWLINE.as_bytes());
    push_all(&mut out, HELP_ON.as_bytes());
    push_all(&mut out, NEWLINE.as_bytes());
    push_all(&mut out, HELP_OFF.as_bytes());
    push_all(&mut out, NEWLINE.as_bytes());
    push_all(&mut out, HELP_TOGGLE.as_bytes());
    push_all(&mut out, NEWLINE.as_bytes());
    out
}

impl Terminal {
    /// The terminal's state: the line buffer, the number of bytes typed into it, and
    /// whether a fresh line is due.
    pub closed spec fn state(&self) -> TermState {
        (self.line@, self.line_idx as int, self.clear)
    }

    /// A terminal that has just started: a fresh line is due.
    pub fn new() -> (t: Self)
        ensures
            t.state() == start_state(),
            state_wf(t.state()),
    {
        let t = Terminal { line: vec![0u8; LINE_LEN], line_idx: 0, clear: true };
        proof {
            assert(t.line@ =~= zeros(LINE_LEN as int));
        }
        t
    }

    /// The first half of a step; see [`spec_on_message`].
    fn on_message(&mut self, msg: Msg, out: &mut Vec<u8>)
        requires
            state_wf(old(self).state()),
        ensures
            state_wf(final(self).state()),
            final(self).state() == spec_on_message(old(self).state(), msg).0,
            final(out)@ == old(out)@ + spec_on_message(old(self).state(), msg).1,
    {
        match msg {
            Msg::Button(ButtonMsg::Released) => push_all(out, BUTTON_RELEASED.as_bytes()),
            Msg::Button(ButtonMsg::Pressed) => push_all(out, BUTTON_PRESSED.as_bytes()),
            _ => {
                assert(old(out)@ + Seq::<u8>::empty() =~= old(out)@);
            },
        }
        if self.clear {
            self.clear = false;
            self.line = vec![0u8; LINE_LEN];
            self.line_idx = 0;
            push_all(out, PROMPT.as_bytes());
            proof {
                assert(self.line@ =~= zeros(LINE_LEN as int));
            }
        }
        proof {
            let shown = spec_on_message(old(self).state(), msg).1;
            if old(self).clear {
                assert(final(out)@ =~= old(out)@ + shown);
            }
        }
    }

    /// The second half of a step; see [`spec_on_read`].
    fn on_read(&mut self, read: Result<u8, ReadError>, out: &mut Vec<u8>) -> (send: Option<Msg>)
        requires
            state_wf(old(self).state()),
        ensures
            state_wf(final(self).state()),
            final(self).state() == spec_on_read(old(self).state(), read).0,
            final(out)@ == old(out)@ + spec_on_read(old(self).state(), read).1,
            send == spec_on_read(old(self).state(), read).2,
    {
        let ghost st = self.state();
        match read {
            Ok(c) => {
                out.push(c);
                if self.line_idx < LINE_LEN {
                    if c == CR || c == LF {
                        let (reply, send) = command_reply(self.line.as_slice());
                        push_all(out, reply.as_slice());
                        self.clear = true;
                        proof {
                            assert(final(out)@ =~= old(out)@ + (seq![c] + reply@));
                        }
                        send
                    } else if c == BACKSPACE || c == DELETE {
                        self.line_idx = if self.line_idx > 0 {
                            self.line_idx - 1
                        } else {
                            0
                        };
                        self.line.set(self.line_idx, 0);
                        proof {
                            assert(final(out)@ =~= old(out)@ + seq![c]);
                        }
                        None
                    } else {
                        self.line.set(self.line_idx, c);
                        self.line_idx = self.line_idx + 1;
                        proof {
                            assert(final(out)@ =~= old(out)@ + seq![c]);
                        }
                        None
                    }
                } else {
                    push_all(out, LINE_TOO_LONG.as_bytes());
                    self.clear = true;
                    proof {
                        assert(final(out)@ =~= old(out)@ + (seq![c] + LINE_TOO_LONG.spec_bytes()));
                    }
                    None
                }
            },
            Err(ReadError::WouldBlock) => {
                proof {
                    assert(old(out)@ + Seq::<u8>::empty() =~= old(out)@);
                }
                None
            },
            Err(ReadError::Other) => {
                push_all(out, READ_FAILED.as_bytes());
                self.clear = true;
                None
            },
        }
    }
}

/// One turn of the terminal task: `msg` is the message the task received, `read` what the
/// serial port gave when polled for a character. Returns what to print and what to send;
/// see [`spec_terminal_step`].
pub fn task_terminal(term: &mut Terminal, msg: Msg, read: Result<u8, ReadError>) -> (r:
    TerminalStep)
    requires
        state_wf(old(term).state()),
    ensures
        state_wf(final(term).state()),
        final(term).state() == spec_terminal_step(old(term).state(), msg, read).0,
        r.output@ == spec_terminal_step(old(term).state(), msg, read).1,
        r.send == spec_terminal_step(old(term).state(), msg, read).2,
{
    let mut output: Vec<u8> = Vec::new();
    term.on_message(msg, &mut output);
    let send = term.on_read(read, &mut output);
    proof {
        let (st1, out1) = spec_on_message(old(term).state(), msg);
        assert(output@ =~= out1 + spec_on_read(st1, read).1);
    }
    TerminalStep { output, send }
}

/// The state right after a prompt: an empty line.
pub open spec fn prompted_state() -> TermState {
    (zeros(LINE_LEN as int), 0, false)
}

/// The line that typing `typed` gives: each backspace or delete erases the byte before it,
/// every other byte is appended.
pub open spec fn edited(typed: Seq<u8>) -> Seq<u8>
    decreases typed.len(),
{
    if typed.len() == 0 {
        Seq::empty()
    } else {
        let prev = edited(typed.drop_last());
        let c = typed.last();
        if c == BACKSPACE || c == DELETE {
            if prev.len() > 0 {
                prev.drop_last()
            } else {
                prev
            }
        } else {
            prev.push(c)
        }
    }
}

/// The state after the serial port delivers the bytes of `typed`, one per turn.
pub open spec fn typed_state(st: TermState, typed: Seq<u8>) -> TermState
    decreases typed.len(),
{
    if typed.len() == 0 {
        st
    } else {
        spec_on_read(typed_state(st, typed.drop_last()), Ok(typed.last())).0
    }
}

/// Typing keeps the line short enough to take each byte: before every byte, the edited line
/// has room for one more.
pub open spec fn fits_line(typed: Seq<u8>) -> bool {
    forall|k: int| 0 <= k < typed.len() ==> #[trigger] edited(typed.take(k)).len() < LINE_LEN
}

/// A byte that does not end the line and is no zero byte.
pub open spec fn is_typed_byte(c: u8) -> bool {
    c != 0 && c != CR && c != LF
}

proof fn lemma_edited_no_zero(typed: Seq<u8>)
    requires
        forall|i: int| 0 <= i < typed.len() ==> is_typed_byte(#[trigger] typed[i]),
    ensures
        forall|i: int| 0 <= i < edited(typed).len() ==> #[trigger] edited(typed)[i] != 0,
        edited(typed).len() <= typed.len(),
    decreases typed.len(),
{
    if typed.len() > 0 {
        let prev = typed.drop_last();
        assert forall|i: int| 0 <= i < prev.len() implies is_typed_byte(#[trigger] prev[i]) by {
            assert(prev[i] == typed[i]);
        }
        lemma_edited_no_zero(prev);
        assert(is_typed_byte(typed[typed.len() - 1]));
    }
}

proof fn lemma_null_pos_padded(w: Seq<u8>, n: int)
    requires
        0 <= n,
        forall|i: int| 0 <= i < w.len() ==> #[trigger] w[i] != 0,
    ensures
        null_pos(w + zeros(n)) == w.len(),
    decreases w.len(),
{
    let l = w + zeros(n);
    if w.len() == 0 {
        assert(l =~= zeros(n));
    } else {
        assert(l[0] == w[0]);
        assert forall|i: int| 0 <= i < w.drop_first().len() implies #[trigger] w.drop_first()[i]
            != 0 by {
            assert(w.drop_first()[i] == w[i + 1]);
        }
        lemma_null_pos_padded(w.drop_first(), n);
        assert(l.drop_first() =~= w.drop_first() + zeros(n));
    }
}

/// Line editing: from an empty line, typing bytes that neither end the line nor are zero,
/// without ever filling the line before a byte, leaves exactly the edited text in the line,
/// followed by zero bytes, and counts its length.
pub proof fn lemma_line_editing(typed: Seq<u8>)
    requires
        forall|i: int| 0 <= i < typed.len() ==> is_typed_byte(#[trigger] typed[i]),
        fits_line(typed),
    ensures
        typed_state(prompted_state(), typed) == (
            edited(typed) + zeros(LINE_LEN - edited(typed).len()),
            edited(typed).len() as int,
            false,
        ),
        edited(typed).len() <= LINE_LEN,
    decreases typed.len(),
{
    if typed.len() == 0 {
        assert(zeros(LINE_LEN as int) =~= Seq::<u8>::empty() + zeros(LINE_LEN as int));
    } else {
        let prev = typed.drop_last();
        let c = typed.last();
        assert forall|i: int| 0 <= i < prev.len() implies is_typed_byte(#[trigger] prev[i]) by {
            assert(prev[i] == typed[i]);
        }
        assert forall|k: int| 0 <= k < prev.len() implies #[trigger] edited(prev.take(k)).len()
            < LINE_LEN by {
            assert(prev.take(k) =~= typed.take(k));
            assert(edited(typed.take(k)).len() < LINE_LEN);
        }
        lemma_line_editing(prev);
        assert(typed.take(prev.len() as int) =~= prev);
        assert(edited(typed.take(prev.len() as int)).len() < LINE_LEN);
        let e = edited(prev);
        let n = e.len();
        assert(is_typed_byte(typed[typed.len() - 1]));
        let st = typed_state(prompted_state(), prev);
        assert(st.0 == e + zeros(LINE_LEN - n));
        if c == BACKSPACE || c == DELETE {
            if n > 0 {
                assert(st.0.update(n - 1, 0u8) =~= e.drop_last() + zeros(LINE_LEN - (n - 1)));
            } else {
                assert(st.0.update(0, 0u8) =~= e + zeros(LINE_LEN - n));
            }
        } else {
            assert(st.0.update(n as int, c) =~= e.push(c) + zeros(LINE_LEN - (n + 1)));
        }
    }
}

/// A line ending runs the command that was typed: after line editing as in
/// [`lemma_line_editing`] with room left in the line, a carriage return or line feed prints
/// the reply to exactly the edited text and sends its message, and a fresh line is then due.
pub proof fn lemma_enter_runs_typed_command(typed: Seq<u8>, enter: u8)
    requires
        forall|i: int| 0 <= i < typed.len() ==> is_typed_byte(#[trigger] typed[i]),
        fits_line(typed),
        edited(typed).len() < LINE_LEN,
        enter == CR || enter == LF,
    ensures
        ({
            let st = typed_state(prompted_state(), typed);
            let line = st.0;
            let (st2, out, send) = spec_on_read(st, Ok(enter));
            &&& command_of(line) == edited(typed)
            &&& out == seq![enter] + spec_command_reply(line).0
            &&& send == spec_command_reply(line).1
            &&& st2.2
        }),
{
    lemma_line_editing(typed);
    lemma_edited_no_zero(typed);
    let e = edited(typed);
    let line = e + zeros(LINE_LEN - e.len());
    lemma_null_pos_padded(e, LINE_LEN - e.len());
    assert(line.take(e.len() as int) =~= e);
}

} // verus!

verus! {

/// The three command texts are plain ASCII of 9, 10 and 13 bytes, so no two are equal and
/// none is empty.
pub proof fn lemma_command_texts()
    ensures
        CMD_ON.spec_bytes().len() == 9,
        CMD_OFF.spec_bytes().len() == 10,
        CMD_TOGGLE.spec_bytes().len() == 13,
{
    reveal_strlit("blinky on");
    reveal_strlit("blinky off");
    reveal_strlit("blinky toggle");
    assert(CMD_ON@ == "blinky on"@);
    assert(CMD_OFF@ == "blinky off"@);
    assert(CMD_TOGGLE@ == "blinky toggle"@);
    assert(vstd::string::is_ascii(CMD_ON));
    assert(vstd::string::is_ascii(CMD_OFF));
    assert(vstd::string::is_ascii(CMD_TOGGLE));
    vstd::string::is_ascii_spec_bytes(CMD_ON);
    vstd::string::is_ascii_spec_bytes(CMD_OFF);
    vstd::string::is_ascii_spec_bytes(CMD_TOGGLE);
}

/// Commands are recognised by exact match only: a line sends the LED command `On`, `Off` or
/// `Toggle` exactly when its command (the bytes before its first zero byte) is the whole
/// text "blinky on", "blinky off" or "blinky toggle"; an empty command prints and sends
/// nothing; any other command that is valid UTF-8 prints `INVALID_COMMAND` followed by the
/// quoted command and sends nothing.
pub proof fn lemma_command_reply_exact(line: Seq<u8>)
    ensures
        (spec_command_reply(line).1 == Some(Msg::Blink(BlinkMsg::On))) <==> (command_of(line)
            == CMD_ON.spec_bytes()),
        (spec_command_reply(line).1 == Some(Msg::Blink(BlinkMsg::Off))) <==> (command_of(line)
            == CMD_OFF.spec_bytes()),
        (spec_command_reply(line).1 == Some(Msg::Blink(BlinkMsg::Toggle))) <==> (command_of(
            line,
        ) == CMD_TOGGLE.spec_bytes()),
        (spec_command_reply(line).1 is Some) ==> (command_of(line) == CMD_ON.spec_bytes()
            || command_of(line) == CMD_OFF.spec_bytes() || command_of(line)
            == CMD_TOGGLE.spec_bytes()),
        command_of(line).len() == 0 ==> spec_command_reply(line).0.len() == 0
            && spec_command_reply(line).1 is None,
        (command_of(line).len() > 0 && command_of(line) != CMD_ON.spec_bytes() && command_of(
            line,
        ) != CMD_OFF.spec_bytes() && command_of(line) != CMD_TOGGLE.spec_bytes() && valid_utf8(
            command_of(line),
        )) ==> spec_command_reply(line).0 == INVALID_COMMAND.spec_bytes() + str_debug(
            decode_utf8(command_of(line)),
        ) && spec_command_reply(line).1 is None,
{
    lemma_command_texts();
}

/// A turn sends a message only when the byte it reads ends a line that has room left and
/// holds exactly one of the three commands; the message is that command's.
pub proof fn lemma_turn_sends_only_exact_commands(st: TermState, msg: Msg, read: Result<u8, ReadError>)
    requires
        state_wf(st),
    ensures
        ({
            let line_st = spec_on_message(st, msg).0;
            let send = spec_terminal_step(st, msg, read).2;
            &&& send is Some ==> (read matches Ok(c) && (c == CR || c == LF)) && line_st.1
                < LINE_LEN
            &&& (send == Some(Msg::Blink(BlinkMsg::On))) ==> command_of(line_st.0)
                == CMD_ON.spec_bytes()
            &&& (send == Some(Msg::Blink(BlinkMsg::Off))) ==> command_of(line_st.0)
                == CMD_OFF.spec_bytes()
            &&& (send == Some(Msg::Blink(BlinkMsg::Toggle))) ==> command_of(line_st.0)
                == CMD_TOGGLE.spec_bytes()
        }),
{
    let line_st = spec_on_message(st, msg).0;
    lemma_command_reply_exact(line_st.0);
}

/// A button change is shown at the very start of the turn that receives it, whatever the
/// terminal's state and whatever the serial port gives in that turn.
pub proof fn lemma_button_change_always_shown(st: TermState, read: Result<u8, ReadError>)
    ensures
        ({
            let out = spec_terminal_step(st, Msg::Button(ButtonMsg::Pressed), read).1;
            let text = BUTTON_PRESSED.spec_bytes();
            text.len() <= out.len() && out.take(text.len() as int) == text
        }),
        ({
            let out = spec_terminal_step(st, Msg::Button(ButtonMsg::Released), read).1;
            let text = BUTTON_RELEASED.spec_bytes();
            text.len() <= out.len() && out.take(text.len() as int) == text
        }),
{
    let (st1, o1) = spec_on_message(st, Msg::Button(ButtonMsg::Pressed));
    let o2 = spec_on_read(st1, read).1;
    let t = BUTTON_PRESSED.spec_bytes();
    if st.2 {
        assert((t + PROMPT.spec_bytes() + o2).take(t.len() as int) =~= t);
    } else {
        assert((t + o2).take(t.len() as int) =~= t);
    }
    let (st1, o1) = spec_on_message(st, Msg::Button(ButtonMsg::Released));
    let o2 = spec_on_read(st1, read).1;
    let t = BUTTON_RELEASED.spec_bytes();
    if st.2 {
        assert((t + PROMPT.spec_bytes() + o2).take(t.len() as int) =~= t);
    } else {
        assert((t + o2).take(t.len() as int) =~= t);
    }
}

/// Any other message shows nothing of its own: the turn prints the prompt if a fresh line is
/// due, and otherwise only what reading the port prints.
pub proof fn lemma_other_messages_show_nothing(st: TermState, msg: Msg)
    requires
        !(msg is Button),
    ensures
        st.2 ==> spec_on_message(st, msg).1 == PROMPT.spec_bytes(),
        !st.2 ==> spec_on_message(st, msg).1.len() == 0 && spec_on_message(st, msg).0 == st,
{
    if st.2 {
        assert(Seq::<u8>::empty() + PROMPT.spec_bytes() =~= PROMPT.spec_bytes());
    }
}

/// When a fresh line is due, the next turn, whatever its message, starts from an empty line
/// and ends what it prints before reading with the prompt.
pub proof fn lemma_fresh_line_when_due(st: TermState, msg: Msg)
    requires
        st.2,
    ensures
        spec_on_message(st, msg).0 == prompted_state(),
        ({
            let out = spec_on_message(st, msg).1;
            let p = PROMPT.spec_bytes();
            p.len() <= out.len() && out.skip(out.len() - p.len()) == p
        }),
{
    let out = spec_on_message(st, msg).1;
    let p = PROMPT.spec_bytes();
    assert(out.skip(out.len() - p.len()) =~= p);
}

/// A byte read into a full line is echoed, then the overflow is reported and nothing is
/// sent; the line is given up, so the next turn, whatever its message, starts from an empty
/// line with a prompt.
pub proof fn lemma_full_line_overflows(st: TermState, c: u8, msg: Msg)
    requires
        state_wf(st),
        st.1 == LINE_LEN,
    ensures
        spec_on_read(st, Ok(c)).1 == seq![c] + LINE_TOO_LONG.spec_bytes(),
        spec_on_read(st, Ok(c)).2 is None,
        spec_on_message(spec_on_read(st, Ok(c)).0, msg).0 == prompted_state(),
{
    lemma_fresh_line_when_due(spec_on_read(st, Ok(c)).0, msg);
}

/// Every byte read is echoed first; nothing to read prints nothing and changes nothing; a
/// read error is reported, sends nothing, and the next turn starts from an empty line.
pub proof fn lemma_read_results(st: TermState, c: u8, msg: Msg)
    requires
        state_wf(st),
    ensures
        spec_on_read(st, Ok(c)).1.len() >= 1 && spec_on_read(st, Ok(c)).1[0] == c,
        spec_on_read(st, Err(ReadError::WouldBlock)).0 == st,
        spec_on_read(st, Err(ReadError::WouldBlock)).1.len() == 0,
        spec_on_read(st, Err(ReadError::WouldBlock)).2 is None,
        spec_on_read(st, Err(ReadError::Other)).1 == READ_FAILED.spec_bytes(),
        spec_on_read(st, Err(ReadError::Other)).2 is None,
        spec_on_message(spec_on_read(st, Err(ReadError::Other)).0, msg).0 == prompted_state(),
{
    lemma_fresh_line_when_due(spec_on_read(st, Err(ReadError::Other)).0, msg);
}

} // verus!

verus! {

/// The command of a line is the part of the line before its first zero byte: a prefix of the
/// line with no zero byte in it, followed in the line by a zero byte unless it is the whole
/// line.
pub proof fn lemma_command_of_characterized(line: Seq<u8>)
    ensures
        command_of(line).len() <= line.len(),
        command_of(line) == line.take(command_of(line).len() as int),
        forall|i: int| 0 <= i < command_of(line).len() ==> #[trigger] command_of(line)[i] != 0,
        command_of(line).len() < line.len() ==> line[command_of(line).len() as int] == 0,
{
    lemma_null_pos_bounds(line);
}

proof fn lemma_null_pos_bounds(line: Seq<u8>)
    ensures
        0 <= null_pos(line) <= line.len(),
        forall|i: int| 0 <= i < null_pos(line) ==> #[trigger] line[i] != 0,
        null_pos(line) < line.len() ==> line[null_pos(line)] == 0,
    decreases line.len(),
{
    if line.len() > 0 && line[0] != 0 {
        let rest = line.drop_first();
        lemma_null_pos_bounds(rest);
        assert forall|i: int| 0 <= i < null_pos(line) implies #[trigger] line[i] != 0 by {
            if i > 0 {
                assert(line[i] == rest[i - 1]);
            }
        }
        if null_pos(line) < line.len() {
            assert(line[null_pos(line)] == rest[null_pos(rest)]);
        }
    }
}

} // verus!
