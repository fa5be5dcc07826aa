//! The transmit side of the non-blocking serial port.
//!
//! Writers append bytes to a bounded FIFO buffer and enable the transmit interrupt; the
//! interrupt takes one byte at a time from the front of the buffer and hands it to the
//! hardware, or disables itself once the buffer is empty. The buffer is a
//! `heapless::Deque`; the hardware, the interrupt and the critical section around the
//! shared buffer belong to the application.

use vstd::prelude::*;
use vstd::string::StringSliceAdditionalSpecFns;

verus! {

/// The capacity of the transmit buffer, in bytes.
pub const SERIAL_BUF_SIZE: usize = 200;

#[verifier::external_type_specification]
#[verifier::external_body]
#[verifier::reject_recursive_types(T)]
pub struct ExDeque<T, const N: usize>(heapless::Deque<T, N>);

/// The bytes held by a transmit buffer, front first.
pub uninterp spec fn tx_contents(buf: heapless::Deque<u8, SERIAL_BUF_SIZE>) -> Seq<u8>;

/// `heapless::Deque::new`: an empty deque.
#[verifier::external_body]
fn deque_new() -> (buf: heapless::Deque<u8, SERIAL_BUF_SIZE>)
    ensures
        tx_contents(buf) == Seq::<u8>::empty(),
{
    heapless::Deque::new()
}

/// `heapless::Deque::len`: the number of bytes held, never above the capacity.
#[verifier::external_body]
fn deque_len(buf: &heapless::Deque<u8, SERIAL_BUF_SIZE>) -> (n: usize)
    ensures
        n == tx_contents(*buf).len(),
        n <= SERIAL_BUF_SIZE,
{
    buf.len()
}

/// `heapless::Deque::push_back`: appends the byte unless the deque is full, in which case
/// the deque is unchanged and the byte is handed back.
#[verifier::external_body]
fn deque_push_back(buf: &mut heapless::Deque<u8, SERIAL_BUF_SIZE>, byte: u8) -> (r: Result<(), u8>)
    ensures
        tx_contents(*old(buf)).len() < SERIAL_BUF_SIZE ==> r is Ok
            && tx_contents(*final(buf)) == tx_contents(*old(buf)).push(byte),
        tx_contents(*old(buf)).len() >= SERIAL_BUF_SIZE ==> (r matches Err(b) && b == byte)
            && tx_contents(*final(buf)) == tx_contents(*old(buf)),
        tx_contents(*final(buf)).len() <= SERIAL_BUF_SIZE,
{
    buf.push_back(byte)
}

/// `heapless::Deque::pop_front`: removes and returns the front byte, or `None` when the
/// deque is empty.
#[verifier::external_body]
fn deque_pop_front(buf: &mut heapless::Deque<u8, SERIAL_BUF_SIZE>) -> (r: Option<u8>)
    ensures
        tx_contents(*old(buf)).len() == 0 ==> r == None::<u8> && tx_contents(*final(buf))
            == tx_contents(*old(buf)),
        tx_contents(*old(buf)).len() > 0 ==> r == Some(tx_contents(*old(buf))[0])
            && tx_contents(*final(buf)) == tx_contents(*old(buf)).drop_first(),
{
    buf.pop_front()
}

/// Writing did not fit in the transmit buffer.
#[derive(Clone, Copy, PartialEq, Eq, Structural, Debug)]
pub struct WriteError;

/// The room left in a buffer holding `q`.
pub open spec fn room(q: Seq<u8>) -> int {
    if q.len() < SERIAL_BUF_SIZE {
        SERIAL_BUF_SIZE - q.len()
    } else {
        0
    }
}

/// The buffer after writing `bytes` to a buffer holding `q`: the bytes that fit are
/// appended in order, the first that does not fit and all after it are dropped.
pub open spec fn spec_write(q: Seq<u8>, bytes: Seq<u8>) -> Seq<u8> {
    if bytes.len() <= room(q) {
        q + bytes
    } else {
        q + bytes.take(room(q))
    }
}

/// Whether writing `bytes` to a buffer holding `q` succeeds: it does when all of them fit.
pub open spec fn spec_write_fits(q: Seq<u8>, bytes: Seq<u8>) -> bool {
    bytes.len() <= room(q)
}

/// The bytes that `k` transmit interrupts take from a buffer holding `q`, in the order they
/// go out on the line.
pub open spec fn transmitted(q: Seq<u8>, k: nat) -> Seq<u8>
    decreases k,
{
    if k == 0 || q.len() == 0 {
        Seq::empty()
    } else {
        seq![q[0]] + transmitted(q.drop_first(), (k - 1) as nat)
    }
}

/// The state shared between the writers of the serial port and its transmit interrupt.
pub struct SerialNbGlobal {
    tx_buf: heapless::Deque<u8, SERIAL_BUF_SIZE>,
}

impl SerialNbGlobal {
    /// The bytes waiting to be transmitted, the next one first.
    pub closed spec fn view(&self) -> Seq<u8> {
        tx_contents(self.tx_buf)
    }

    /// A state with nothing to transmit.
    pub fn new() -> (s: Self)
        ensures
            s@ == Seq::<u8>::empty(),
    {
        SerialNbGlobal { tx_buf: deque_new() }
    }

    /// The number of bytes waiting to be transmitted.
    pub fn len(&self) -> (n: usize)
        ensures
            n == self@.len(),
            n <= SERIAL_BUF_SIZE,
    {
        deque_len(&self.tx_buf)
    }

    /// Whether the buffer has no room left.
    pub fn is_full(&self) -> (full: bool)
        ensures
            full == (room(self@) == 0),
    {
        deque_len(&self.tx_buf) >= SERIAL_BUF_SIZE
    }

    /// Queues one byte for transmission. The buffer must have room for it.
    pub fn write_byte(&mut self, byte: u8)
        requires
            room(old(self)@) > 0,
        ensures
            final(self)@ == old(self)@.push(byte),
    {
        let _pushed = deque_push_back(&mut self.tx_buf, byte);
    }

    /// Queues `bytes` for transmission, in order, until one does not fit; fails when not all
    /// of them fit.
    pub fn write_bytes(&mut self, bytes: &[u8]) -> (r: Result<(), WriteError>)
        ensures
            final(self)@ == spec_write(old(self)@, bytes@),
            r is Ok <==> spec_write_fits(old(self)@, bytes@),
    {
        let ghost q = self@;
        let mut i: usize = 0;
        while i < bytes.len()
            invariant
                q == old(self)@,
                i <= bytes@.len(),
                i <= room(q),
                self@ == q + bytes@.take(i as int),
            decreases bytes@.len() - i,
        {
            let pushed = deque_push_back(&mut self.tx_buf, bytes[i]);
            if pushed.is_err() {
                proof {
                    assert(i == room(q));
                    assert(bytes@.len() > room(q));
                }
                return Err(WriteError);
            }
            proof {
                assert(bytes@.take(i + 1) =~= bytes@.take(i as int).push(bytes@[i as int]));
            }
            i = i + 1;
        }
        proof {
            assert(bytes@.take(i as int) =~= bytes@);
        }
        Ok(())
    }

    /// Queues the bytes of `s` for transmission, as [`SerialNbGlobal::write_bytes`] does.
    pub fn write_str(&mut self, s: &str) -> (r: Result<(), WriteError>)
        ensures
            final(self)@ == spec_write(old(self)@, s.spec_bytes()),
            r is Ok <==> spec_write_fits(old(self)@, s.spec_bytes()),
    {
        self.write_bytes(s.as_bytes())
    }

    /// What the transmit interrupt does: take the next byte to send, or `None` when there is
    /// nothing left and the interrupt should stop listening.
    pub fn next_tx_byte(&mut self) -> (r: Option<u8>)
        ensures
            old(self)@.len() == 0 ==> r == None::<u8> && final(self)@ == old(self)@,
            old(self)@.len() > 0 ==> r == Some(old(self)@[0]) && final(self)@ == old(
                self,
            )@.drop_first(),
    {
        deque_pop_front(&mut self.tx_buf)
    }
}

/// The transmit interrupt sends every byte of the buffer, in the order the bytes were queued.
pub proof fn lemma_transmitted_in_order(q: Seq<u8>)
    ensures
        transmitted(q, q.len()) == q,
    decreases q.len(),
{
    if q.len() > 0 {
        lemma_transmitted_in_order(q.drop_first());
        assert(seq![q[0]] + q.drop_first() =~= q);
    }
}

/// What is written to an empty buffer, when it fits, goes out on the line exactly as written;
/// what does not fit is cut at the capacity, keeping the bytes written first.
pub proof fn lemma_write_then_transmit(bytes: Seq<u8>)
    ensures
        spec_write_fits(Seq::empty(), bytes) ==> transmitted(
            spec_write(Seq::empty(), bytes),
            bytes.len(),
        ) == bytes,
        !spec_write_fits(Seq::empty(), bytes) ==> transmitted(
            spec_write(Seq::empty(), bytes),
            bytes.len(),
        ) == bytes.take(SERIAL_BUF_SIZE as int),
{
    let e = Seq::<u8>::empty();
    if spec_write_fits(e, bytes) {
        assert(e + bytes =~= bytes);
        lemma_transmitted_in_order(bytes);
    } else {
        let t = bytes.take(SERIAL_BUF_SIZE as int);
        assert(e + t =~= t);
        lemma_transmitted_in_order(t);
        lemma_transmitted_past_end(t, bytes.len());
    }
}

/// Taking more bytes than the buffer holds takes all of them.
pub proof fn lemma_transmitted_past_end(q: Seq<u8>, k: nat)
    requires
        k >= q.len(),
    ensures
        transmitted(q, k) == q,
    decreases q.len(),
{
    if q.len() > 0 {
        lemma_transmitted_past_end(q.drop_first(), (k - 1) as nat);
        assert(seq![q[0]] + q.drop_first() =~= q);
    }
}

} // verus!

verus! {

/// A write never disturbs what is already waiting: the buffer after it starts with the old
/// contents and continues with a prefix of the written bytes; all of them are taken when the
/// write succeeds, and when it fails the buffer is full.
pub proof fn lemma_write_appends_prefix(q: Seq<u8>, bytes: Seq<u8>)
    requires
        q.len() <= SERIAL_BUF_SIZE,
    ensures
        spec_write(q, bytes).take(q.len() as int) == q,
        bytes.take(spec_write(q, bytes).len() - q.len()) == spec_write(q, bytes).skip(
            q.len() as int,
        ),
        spec_write(q, bytes).len() <= SERIAL_BUF_SIZE,
        spec_write_fits(q, bytes) ==> spec_write(q, bytes).len() == q.len() + bytes.len(),
        !spec_write_fits(q, bytes) ==> spec_write(q, bytes).len() == SERIAL_BUF_SIZE,
{
    let w = spec_write(q, bytes);
    assert(w.take(q.len() as int) =~= q);
    assert(bytes.take(w.len() - q.len()) =~= w.skip(q.len() as int));
}

} // verus!
