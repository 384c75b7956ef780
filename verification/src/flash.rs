//! Flash command transport, modelled as a state machine. The protocol is
//! strictly ordered: leave cached execute-in-place mode, assert the chip
//! select, exchange the buffer byte for byte (send one, then wait for and
//! store the response in the same slot), deassert the chip select, and
//! restore cached execution. The caller performs each returned action
//! against the hardware and hands each received byte back, so the
//! sequencing and the buffer bookkeeping are checked here while the bus
//! access itself stays with the caller.

use vstd::prelude::*;

verus! {

/// The next hardware action the caller must perform.
#[derive(Clone, Copy, Debug, PartialEq, Eq, Structural)]
pub enum FlashAction {
    /// Disengage the flash from cached execute-in-place and switch the bus
    /// to raw command mode
    EnterCmdMode,
    /// Assert the chip select
    SelectChip,
    /// Busy-wait until the transmit queue accepts a byte, then enqueue this
    /// byte
    SendByte(u8),
    /// Busy-wait until a response byte is available, dequeue it, and hand it
    /// to `give_byte`
    ReadByte,
    /// Deassert the chip select
    DeselectChip,
    /// Invalidate the execution cache and restore cached execute-in-place
    RestoreXip,
    /// The exchange is complete; take the buffer
    Done,
}

/// Where the transport stands in the protocol.
#[derive(Clone, Copy, Debug, PartialEq, Eq, Structural)]
pub enum FlashPhase {
    /// Nothing happened yet
    Start,
    /// The bus is in raw command mode
    Raw,
    /// The chip is selected; bytes up to `exchanged()` are done
    Selected,
    /// A byte was sent and its response is still owed
    Waiting,
    /// The chip select was released again
    Deselected,
    /// Cached execution is restored; the exchange is over
    Restored,
}

/// One in-flight flash command exchange.
pub struct FlashTransport {
    buf: Vec<u8>,
    idx: usize,
    phase: FlashPhase,
    orig: Ghost<Seq<u8>>,
    sent: Ghost<Seq<u8>>,
}

impl FlashTransport {
    /// The command bytes this exchange was started with.
    pub closed spec fn command(&self) -> Seq<u8> {
        self.orig@
    }

    /// The buffer: response bytes so far, then the not-yet-exchanged tail of
    /// the command.
    pub closed spec fn buffer(&self) -> Seq<u8> {
        self.buf@
    }

    /// How many bytes have been exchanged (sent, for the one in flight).
    pub closed spec fn exchanged(&self) -> nat {
        self.idx as nat
    }

    /// The bytes enqueued to the device so far, in order.
    pub closed spec fn sent(&self) -> Seq<u8> {
        self.sent@
    }

    /// The response bytes received so far, in order.
    pub open spec fn responses(&self) -> Seq<u8> {
        self.buffer().take(self.exchanged() as int)
    }

    pub closed spec fn state(&self) -> FlashPhase {
        self.phase
    }

    /// The bookkeeping invariant: the buffer keeps the command's length, its
    /// prefix holds the responses, its tail the command bytes still to send,
    /// and the phase agrees with the exchange count.
    pub closed spec fn wf(&self) -> bool {
        &&& self.buf@.len() == self.orig@.len()
        &&& self.idx <= self.buf@.len()
        &&& self.buf@.skip(self.idx as int) == self.orig@.skip(self.idx as int)
        &&& (self.phase is Waiting ==> self.idx < self.buf@.len() && self.sent@ == self.orig@.take(
            self.idx + 1,
        ))
        &&& (!(self.phase is Waiting) ==> self.sent@ == self.orig@.take(self.idx as int))
        &&& ((self.phase is Start || self.phase is Raw) ==> self.idx == 0)
        &&& ((self.phase is Deselected || self.phase is Restored) ==> self.idx == self.buf@.len())
    }

    /// Begin an exchange for the given command bytes.
    pub fn new(cmd: Vec<u8>) -> (r: FlashTransport)
        ensures
            r.wf(),
            r.state() == FlashPhase::Start,
            r.command() == cmd@,
            r.buffer() == cmd@,
            r.exchanged() == 0,
            r.sent() == Seq::<u8>::empty(),
    {
        let ghost orig = cmd@;
        let r = FlashTransport {
            buf: cmd,
            idx: 0,
            phase: FlashPhase::Start,
            orig: Ghost(orig),
            sent: Ghost(Seq::empty()),
        };
        proof {
            assert(r.buf@.skip(0) =~= r.orig@.skip(0));
            assert(r.sent@ =~= r.orig@.take(0));
        }
        r
    }

    /// Ask for the next action, advancing the protocol. In the `Waiting`
    /// phase the answer stays `ReadByte` until `give_byte` supplies the
    /// response; after `Done` the machine stays done.
    pub fn step(&mut self) -> (a: FlashAction)
        requires
            old(self).wf(),
        ensures
            final(self).wf(),
            final(self).command() == old(self).command(),
            final(self).buffer() == old(self).buffer(),
            final(self).exchanged() == old(self).exchanged(),
            match old(self).state() {
                FlashPhase::Start => a == FlashAction::EnterCmdMode && final(self).state()
                    == FlashPhase::Raw,
                FlashPhase::Raw => a == FlashAction::SelectChip && final(self).state()
                    == FlashPhase::Selected,
                FlashPhase::Selected => if old(self).exchanged() < old(self).command().len() {
                    a == FlashAction::SendByte(old(self).command()[old(self).exchanged() as int])
                        && final(self).state() == FlashPhase::Waiting && final(self).sent()
                        == old(self).sent().push(
                        old(self).command()[old(self).exchanged() as int],
                    )
                } else {
                    a == FlashAction::DeselectChip && final(self).state() == FlashPhase::Deselected
                        && final(self).sent() == old(self).sent()
                },
                FlashPhase::Waiting => a == FlashAction::ReadByte && final(self).state()
                    == FlashPhase::Waiting && final(self).sent() == old(self).sent(),
                FlashPhase::Deselected => a == FlashAction::RestoreXip && final(self).state()
                    == FlashPhase::Restored && final(self).sent() == old(self).sent(),
                FlashPhase::Restored => a == FlashAction::Done && final(self).state()
                    == FlashPhase::Restored && final(self).sent() == old(self).sent(),
            },
    {
        match self.phase {
            FlashPhase::Start => {
                self.phase = FlashPhase::Raw;
                FlashAction::EnterCmdMode
            },
            FlashPhase::Raw => {
                self.phase = FlashPhase::Selected;
                FlashAction::SelectChip
            },
            FlashPhase::Selected => {
                if self.idx < self.buf.len() {
                    let b = self.buf[self.idx];
                    proof {
                        assert(self.buf@.skip(self.idx as int)[0] == b);
                        assert(self.orig@.skip(self.idx as int)[0] == self.orig@[self.idx as int]);
                        assert(b == self.orig@[self.idx as int]);
                    }
                    self.phase = FlashPhase::Waiting;
                    self.sent = Ghost(self.sent@.push(b));
                    proof {
                        assert(self.sent@ =~= self.orig@.take(self.idx + 1));
                    }
                    FlashAction::SendByte(b)
                } else {
                    self.phase = FlashPhase::Deselected;
                    FlashAction::DeselectChip
                }
            },
            FlashPhase::Waiting => FlashAction::ReadByte,
            FlashPhase::Deselected => {
                self.phase = FlashPhase::Restored;
                FlashAction::RestoreXip
            },
            FlashPhase::Restored => FlashAction::Done,
        }
    }

    /// Hand back the response byte for the byte in flight. It overwrites the
    /// slot of the byte it answers. Outside the `Waiting` phase there is no
    /// byte in flight and nothing changes.
    pub fn give_byte(&mut self, x: u8)
        requires
            old(self).wf(),
        ensures
            final(self).wf(),
            final(self).command() == old(self).command(),
            final(self).sent() == old(self).sent(),
            final(self).buffer().len() == old(self).buffer().len(),
            old(self).state() is Waiting ==> {
                &&& final(self).state() == FlashPhase::Selected
                &&& final(self).exchanged() == old(self).exchanged() + 1
                &&& final(self).buffer() == old(self).buffer().update(
                    old(self).exchanged() as int,
                    x,
                )
            },
            !(old(self).state() is Waiting) ==> {
                &&& final(self).state() == old(self).state()
                &&& final(self).exchanged() == old(self).exchanged()
                &&& final(self).buffer() == old(self).buffer()
            },
    {
        match self.phase {
            FlashPhase::Waiting => {
                let n = self.buf.len();
                proof {
                    assert(self.idx < n);
                }
                self.buf.set(self.idx, x);
                self.idx = self.idx + 1;
                self.phase = FlashPhase::Selected;
                proof {
                    let ob = old(self).buf@;
                    let oi = old(self).idx as int;
                    assert(ob.skip(oi) == old(self).orig@.skip(oi));
                    assert forall|j: int| 0 <= j < self.buf@.len() - self.idx implies self.buf@.skip(
                        self.idx as int,
                    )[j] == self.orig@.skip(self.idx as int)[j] by {
                        assert(ob.skip(oi)[j + 1] == old(self).orig@.skip(oi)[j + 1]);
                    };
                    assert(self.buf@.skip(self.idx as int) =~= self.orig@.skip(self.idx as int));
                    assert(self.sent@ =~= self.orig@.take(self.idx as int));
                }
            },
            _ => {},
        }
    }

    /// Take the buffer out once the exchange is over: it now holds the
    /// device's response bytes.
    pub fn into_buffer(self) -> (r: Vec<u8>)
        ensures
            r@ == self.buffer(),
    {
        self.buf
    }
}

/// Law of the finished exchange: once the transport is `Restored`, exactly
/// as many exchanges happened as the command had bytes — every command byte
/// was sent, in order — and the buffer's final contents are exactly the
/// device's response bytes.
pub proof fn lemma_flash_exchange_complete(t: &FlashTransport)
    requires
        t.wf(),
        t.state() is Restored,
    ensures
        t.sent() == t.command(),
        t.responses().len() == t.command().len(),
        t.buffer() == t.responses(),
{
    assert(t.sent() =~= t.command());
    assert(t.buffer() =~= t.responses());
}

} // verus!
