//! The session: receiving packets byte by byte, and the decision that each
//! command calls for.

use vstd::prelude::*;
use crate::command::{CommandView, GdbCommand};
use crate::hex::{byte_hex, checksum_of, lemma_checksum_push, push_byte_hex};
use crate::reply::{push_word_hex, words_hex};
use crate::text::lit;

verus! {

/// Where the receiver stands within a packet.
#[derive(Debug, Clone, Copy, PartialEq, Eq, Structural)]
pub enum Phase {
    /// Between packets, waiting for `$`.
    AwaitStart,
    /// Inside a packet, collecting its payload until `#`.
    Payload,
    /// Waiting for the first checksum digit.
    ChecksumHigh,
    /// Waiting for the second checksum digit.
    ChecksumLow,
}

/// The state of one debugging session.
pub struct GdbServer {
    no_ack_mode: bool,
    is_alive: bool,
    last_signal: u8,
    phase: Phase,
    buffer: Vec<u8>,
    running: u8,
    remote_high: u8,
}

/// A session's state as plain values.
pub struct ServerView {
    pub no_ack_mode: bool,
    pub is_alive: bool,
    pub last_signal: u8,
    pub phase: Phase,
    pub buffer: Seq<u8>,
    pub remote_high: u8,
}

impl View for GdbServer {
    type V = ServerView;

    closed spec fn view(&self) -> ServerView {
        ServerView {
            no_ack_mode: self.no_ack_mode,
            is_alive: self.is_alive,
            last_signal: self.last_signal,
            phase: self.phase,
            buffer: self.buffer@,
            remote_high: self.remote_high,
        }
    }
}

/// What one received byte produced.
#[derive(Debug, PartialEq, Eq)]
pub enum Received {
    /// Nothing yet.
    Pending,
    /// The out-of-band interrupt byte arrived between packets.
    Interrupt,
    /// A whole packet arrived: its payload, and the byte to answer it with,
    /// if any (`+` to acknowledge, `-` for a checksum mismatch).
    Packet(Vec<u8>, Option<u8>),
}

pub enum ReceivedView {
    Pending,
    Interrupt,
    Packet(Seq<u8>, Option<u8>),
}

impl View for Received {
    type V = ReceivedView;

    open spec fn view(&self) -> ReceivedView {
        match self {
            Received::Pending => ReceivedView::Pending,
            Received::Interrupt => ReceivedView::Interrupt,
            Received::Packet(p, a) => ReceivedView::Packet(p@, *a),
        }
    }
}

/// The state of a freshly accepted session.
pub open spec fn initial_view() -> ServerView {
    ServerView {
        no_ack_mode: false,
        is_alive: true,
        last_signal: 0,
        phase: Phase::AwaitStart,
        buffer: seq![],
        remote_high: 0,
    }
}

/// The answer to a completed packet: `-` where the checksum digits differ
/// from the payload's, else `+` unless acknowledgments were switched off.
pub open spec fn ack_reply(no_ack_mode: bool, payload: Seq<u8>, hi: u8, lo: u8) -> Option<u8> {
    if byte_hex(checksum_of(payload)) == seq![hi, lo] {
        if no_ack_mode {
            None
        } else {
            Some(43u8)
        }
    } else {
        Some(45u8)
    }
}

/// One step of the receiver.
pub open spec fn receive_step(s: ServerView, b: u8) -> (ServerView, ReceivedView) {
    match s.phase {
        Phase::AwaitStart => {
            if b == 36 {
                (ServerView { phase: Phase::Payload, buffer: seq![], ..s }, ReceivedView::Pending)
            } else if b == 3 {
                (s, ReceivedView::Interrupt)
            } else {
                (s, ReceivedView::Pending)
            }
        },
        Phase::Payload => {
            if b == 35 {
                (ServerView { phase: Phase::ChecksumHigh, ..s }, ReceivedView::Pending)
            } else {
                (ServerView { buffer: s.buffer.push(b), ..s }, ReceivedView::Pending)
            }
        },
        Phase::ChecksumHigh => (
            ServerView { phase: Phase::ChecksumLow, remote_high: b, ..s },
            ReceivedView::Pending,
        ),
        Phase::ChecksumLow => (
            ServerView { phase: Phase::AwaitStart, buffer: seq![], ..s },
            ReceivedView::Packet(s.buffer, ack_reply(s.no_ack_mode, s.buffer, s.remote_high, b)),
        ),
    }
}

/// What the session asks of its surroundings after a command.
#[derive(Debug, PartialEq, Eq)]
pub enum Action {
    /// Send this payload as a packet.
    Reply(Vec<u8>),
    /// Read four bytes of target memory at each address, in order, then send
    /// `memory_reply` of the values.
    ReadMemory(Vec<u32>),
    /// Resume the target; nothing is sent.
    Resume,
    /// Single-step the target, then send `signal_reply`.
    Step,
    /// Halt the target, then send `signal_reply`.
    Halt,
    /// Fetch the named target feature, then send `transfer_window` of it.
    ReadFeature(Vec<u8>, u32, u32),
    /// Fetch the thread list, then send `transfer_window` of it.
    ReadThreads(u32, u32),
}

pub enum ActionView {
    Reply(Seq<u8>),
    ReadMemory(Seq<u32>),
    Resume,
    Step,
    Halt,
    ReadFeature(Seq<u8>, u32, u32),
    ReadThreads(u32, u32),
}

impl View for Action {
    type V = ActionView;

    open spec fn view(&self) -> ActionView {
        match self {
            Action::Reply(p) => ActionView::Reply(p@),
            Action::ReadMemory(a) => ActionView::ReadMemory(a@),
            Action::Resume => ActionView::Resume,
            Action::Step => ActionView::Step,
            Action::Halt => ActionView::Halt,
            Action::ReadFeature(n, o, l) => ActionView::ReadFeature(n@, *o, *l),
            Action::ReadThreads(o, l) => ActionView::ReadThreads(*o, *l),
        }
    }
}

/// `S` and the signal number as two hex digits.
pub open spec fn signal_payload(sig: u8) -> Seq<u8> {
    seq![83u8] + byte_hex(sig)
}

/// The synthetic register dump: the numbers 0 to 32, each as eight hex digits.
pub open spec fn register_dump() -> Seq<u8> {
    words_hex(Seq::new(33, |i: int| i as u32))
}

/// One 4-byte read for every started group of four bytes of `len`, at
/// `addr`, `addr + 4`, ..., wrapping round the 32-bit address space.
pub open spec fn read_addresses(addr: u32, len: u32) -> Seq<u32> {
    Seq::new(((len as nat + 3) / 4) as nat, |k: int| ((addr as int + 4 * k) % 0x1_0000_0000) as u32)
}

/// The session's decision for one command: its next state, and what to do.
pub open spec fn process_step(s: ServerView, c: CommandView) -> (ServerView, ActionView) {
    match c {
        CommandView::SupportedQueries(_) => (s, ActionView::Reply(lit(
            "PacketSize=3fff;qXfer:memory-map:read+;qXfer:features:read+;qXfer:threads:read+;QStartNoAckMode+;vContSupported+",
        ))),
        CommandView::StartNoAckMode => (ServerView { no_ack_mode: true, ..s }, ActionView::Reply(lit("OK"))),
        CommandView::SetCurrentThread(_) => (s, ActionView::Reply(lit("OK"))),
        CommandView::ContinueThread(_) => (s, ActionView::Reply(lit("OK"))),
        CommandView::AddBreakpoint(_, _, _) => (s, ActionView::Reply(lit("OK"))),
        CommandView::RemoveBreakpoint(_, _, _) => (s, ActionView::Reply(lit("OK"))),
        CommandView::LastSignalPacket => (
            s,
            ActionView::Reply(if s.is_alive { signal_payload(s.last_signal) } else { lit("W00") }),
        ),
        CommandView::GetThreadInfo => (s, ActionView::Reply(lit("l"))),
        CommandView::GetCurrentThreadId => (s, ActionView::Reply(lit("QC0"))),
        CommandView::CheckIsAttached => (s, ActionView::Reply(lit("1"))),
        CommandView::GetRegisters => (s, ActionView::Reply(register_dump())),
        CommandView::GetRegister(_) => (s, ActionView::Reply(lit("12345678"))),
        CommandView::SymbolsReady => (s, ActionView::Reply(lit("OK"))),
        CommandView::ReadMemory(a, l) => (s, ActionView::ReadMemory(read_addresses(a, l))),
        CommandView::VContQuery => (s, ActionView::Reply(lit("vCont;c;C;s;S"))),
        CommandView::VContContinue => (s, ActionView::Resume),
        CommandView::VContContinueFromSignal(_) => (s, ActionView::Resume),
        CommandView::VContStepFromSignal(_) => (s, ActionView::Step),
        CommandView::GetOffsets => (s, ActionView::Reply(lit("Text=0;Data=0;Bss=0"))),
        CommandView::Continue => (s, ActionView::Resume),
        CommandView::Step => (s, ActionView::Step),
        CommandView::MonitorCommand(_) => (s, ActionView::Reply(lit("OK"))),
        CommandView::ReadFeature(n, o, l) => (s, ActionView::ReadFeature(n, o, l)),
        CommandView::ReadThreads(o, l) => (s, ActionView::ReadThreads(o, l)),
        CommandView::Interrupt => (ServerView { last_signal: 2, ..s }, ActionView::Halt),
        CommandView::Unknown(_) => (s, ActionView::Reply(seq![])),
    }
}

fn text_reply(t: &str) -> (r: Action)
    ensures
        r@ == ActionView::Reply(lit(t)),
{
    Action::Reply(vstd::slice::slice_to_vec(t.as_bytes()))
}

/// The addresses of the 4-byte reads that a memory read of `len` bytes at
/// `addr` takes.
pub fn memory_addresses(addr: u32, len: u32) -> (r: Vec<u32>)
    ensures
        r@ == read_addresses(addr, len),
{
    let n: u64 = (len as u64 + 3) / 4;
    let mut out: Vec<u32> = Vec::new();
    let mut k: u64 = 0;
    while k < n
        invariant
            n == (len as nat + 3) / 4,
            k <= n,
            out@ =~= read_addresses(addr, len).subrange(0, k as int),
        decreases n - k,
    {
        out.push(((addr as u64 + 4 * k) % 0x1_0000_0000) as u32);
        k += 1;
    }
    out
}

/// The synthetic dump of all registers.
pub fn registers_reply() -> (r: Vec<u8>)
    ensures
        r@ == register_dump(),
{
    let mut out: Vec<u8> = Vec::new();
    let mut i: u32 = 0;
    while i < 33
        invariant
            i <= 33,
            out@ == words_hex(Seq::new(i as nat, |k: int| k as u32)),
        decreases 33 - i,
    {
        push_word_hex(&mut out, i);
        proof {
            let next = Seq::new(i as nat + 1, |k: int| k as u32);
            assert(next.drop_last() =~= Seq::new(i as nat, |k: int| k as u32));
        }
        i += 1;
    }
    out
}

impl GdbServer {
    /// The running checksum is that of the payload collected so far.
    pub closed spec fn wf(&self) -> bool {
        self.running == checksum_of(self.buffer@)
    }

    pub fn new() -> (r: GdbServer)
        ensures
            r@ == initial_view(),
            r.wf(),
    {
        let r = GdbServer {
            no_ack_mode: false,
            is_alive: true,
            last_signal: 0,
            phase: Phase::AwaitStart,
            buffer: Vec::new(),
            running: 0,
            remote_high: 0,
        };
        assert(r.buffer@ =~= seq![]);
        r
    }

    /// Decides what a command calls for, updating the session's state.
    pub fn process(&mut self, cmd: GdbCommand) -> (r: Action)
        requires
            old(self).wf(),
        ensures
            final(self).wf(),
            (final(self)@, r@) == process_step(old(self)@, cmd@),
    {
        match cmd {
            GdbCommand::SupportedQueries(_) => text_reply(
                "PacketSize=3fff;qXfer:memory-map:read+;qXfer:features:read+;qXfer:threads:read+;QStartNoAckMode+;vContSupported+",
            ),
            GdbCommand::StartNoAckMode => {
                self.no_ack_mode = true;
                text_reply("OK")
            },
            GdbCommand::SetCurrentThread(_) => text_reply("OK"),
            GdbCommand::ContinueThread(_) => text_reply("OK"),
            GdbCommand::AddBreakpoint(_, _, _) => text_reply("OK"),
            GdbCommand::RemoveBreakpoint(_, _, _) => text_reply("OK"),
            GdbCommand::LastSignalPacket => {
                if self.is_alive {
                    Action::Reply(self.signal_reply())
                } else {
                    text_reply("W00")
                }
            },
            GdbCommand::GetThreadInfo => text_reply("l"),
            GdbCommand::GetCurrentThreadId => text_reply("QC0"),
            GdbCommand::CheckIsAttached => text_reply("1"),
            GdbCommand::GetRegisters => Action::Reply(registers_reply()),
            GdbCommand::GetRegister(_) => text_reply("12345678"),
            GdbCommand::SymbolsReady => text_reply("OK"),
            GdbCommand::ReadMemory(addr, len) => Action::ReadMemory(memory_addresses(addr, len)),
            GdbCommand::VContQuery => text_reply("vCont;c;C;s;S"),
            GdbCommand::VContContinue => Action::Resume,
            GdbCommand::VContContinueFromSignal(_) => Action::Resume,
            GdbCommand::VContStepFromSignal(_) => Action::Step,
            GdbCommand::GetOffsets => text_reply("Text=0;Data=0;Bss=0"),
            GdbCommand::Continue => Action::Resume,
            GdbCommand::Step => Action::Step,
            GdbCommand::MonitorCommand(_) => text_reply("OK"),
            GdbCommand::ReadFeature(name, offset, len) => Action::ReadFeature(name, offset, len),
            GdbCommand::ReadThreads(offset, len) => Action::ReadThreads(offset, len),
            GdbCommand::Interrupt => {
                self.last_signal = 2;
                Action::Halt
            },
            GdbCommand::Unknown(_) => {
                let r = Action::Reply(Vec::new());
                assert(r@ == ActionView::Reply(seq![]));
                r
            },
        }
    }

    /// `S` and the last signal, the reply that follows a step or a halt.
    pub fn signal_reply(&self) -> (r: Vec<u8>)
        ensures
            r@ == signal_payload(self@.last_signal),
    {
        let mut out: Vec<u8> = Vec::new();
        out.push(83);
        push_byte_hex(&mut out, self.last_signal);
        assert(out@ =~= signal_payload(self@.last_signal));
        out
    }

    /// Feeds one byte read from the connection to the receiver.
    pub fn receive_byte(&mut self, b: u8) -> (r: Received)
        requires
            old(self).wf(),
        ensures
            final(self).wf(),
            (final(self)@, r@) == receive_step(old(self)@, b),
    {
        match self.phase {
            Phase::AwaitStart => {
                if b == 36 {
                    self.phase = Phase::Payload;
                    self.buffer = Vec::new();
                    self.running = 0;
                    assert(self.buffer@ =~= seq![]);
                    Received::Pending
                } else if b == 3 {
                    Received::Interrupt
                } else {
                    Received::Pending
                }
            },
            Phase::Payload => {
                if b == 35 {
                    self.phase = Phase::ChecksumHigh;
                } else {
                    proof {
                        lemma_checksum_push(self.buffer@, b);
                    }
                    self.running = self.running.wrapping_add(b);
                    self.buffer.push(b);
                }
                Received::Pending
            },
            Phase::ChecksumHigh => {
                self.phase = Phase::ChecksumLow;
                self.remote_high = b;
                Received::Pending
            },
            Phase::ChecksumLow => {
                let mut local: Vec<u8> = Vec::new();
                push_byte_hex(&mut local, self.running);
                let matches = local[0] == self.remote_high && local[1] == b;
                proof {
                    if matches {
                        assert(local@ =~= seq![self.remote_high, b]);
                    } else {
                        assert(local@ != seq![self.remote_high, b]) by {
                            if local@ == seq![self.remote_high, b] {
                                assert(local@[0] == self.remote_high);
                            }
                        }
                    }
                }
                let reply = if !matches {
                    Some(45u8)
                } else if self.no_ack_mode {
                    None
                } else {
                    Some(43u8)
                };
                let mut payload: Vec<u8> = Vec::new();
                std::mem::swap(&mut payload, &mut self.buffer);
                self.running = 0;
                self.phase = Phase::AwaitStart;
                assert(self.buffer@ =~= seq![]);
                Received::Packet(payload, reply)
            },
        }
    }
}

} // verus!
