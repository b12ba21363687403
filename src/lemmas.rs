//! Laws of the session that span several calls.

use vstd::prelude::*;
use crate::command::CommandView;
use crate::hex::{all_hex, byte_hex, digit_value, hex_value, nybble};
use crate::reply::frame;
use crate::server::{ack_reply, process_step, receive_step, Phase, ReceivedView, ServerView};

verus! {

/// The receiver run over a sequence of bytes: its final state and what each
/// byte produced.
pub open spec fn receive_all(s: ServerView, bytes: Seq<u8>) -> (ServerView, Seq<ReceivedView>)
    decreases bytes.len(),
{
    if bytes.len() == 0 {
        (s, seq![])
    } else {
        let (s1, e) = receive_step(s, bytes[0]);
        let (s2, es) = receive_all(s1, bytes.drop_first());
        (s2, seq![e] + es)
    }
}

/// One input to a session: a byte from the connection, or a parsed command
/// handed to the dispatcher.
pub enum SessionInput {
    Byte(u8),
    Command(CommandView),
}

/// A session run over inputs: its final state and what each byte produced.
pub open spec fn run_session(s: ServerView, inputs: Seq<SessionInput>) -> (ServerView, Seq<ReceivedView>)
    decreases inputs.len(),
{
    if inputs.len() == 0 {
        (s, seq![])
    } else {
        match inputs[0] {
            SessionInput::Byte(b) => {
                let (s1, e) = receive_step(s, b);
                let (s2, es) = run_session(s1, inputs.drop_first());
                (s2, seq![e] + es)
            },
            SessionInput::Command(c) => run_session(process_step(s, c).0, inputs.drop_first()),
        }
    }
}

pub open spec fn pendings(n: nat) -> Seq<ReceivedView> {
    Seq::new(n, |i: int| ReceivedView::Pending)
}

/// Whether a received packet is answered with an acknowledgment byte.
pub open spec fn acknowledged(e: ReceivedView) -> bool {
    match e {
        ReceivedView::Packet(_, reply) => reply == Some(43u8),
        _ => false,
    }
}

/// Two lower-case hex digits that read back as the byte.
pub proof fn lemma_byte_hex(b: u8)
    ensures
        byte_hex(b).len() == 2,
        forall|i: int|
            0 <= i < 2 ==> (48 <= #[trigger] byte_hex(b)[i] <= 57 || 97 <= byte_hex(b)[i] <= 102),
        all_hex(byte_hex(b)),
        hex_value(byte_hex(b)) == b as nat,
{
    let h = byte_hex(b);
    assert(h.drop_last() =~= seq![h[0]]);
    assert(seq![h[0]].drop_last() =~= Seq::<u8>::empty());
    assert(digit_value(h[0]).is_some());
    assert(digit_value(h[1]).is_some());
    assert(hex_value(Seq::<u8>::empty()) == 0);
    assert(hex_value(seq![h[0]]) == nybble(h[0]));
    assert(nybble(h[0]) == (b / 16) as nat);
    assert(nybble(h[1]) == (b % 16) as nat);
    assert(hex_value(h) == hex_value(seq![h[0]]) * 16 + nybble(h[1]));
}

proof fn lemma_payload_bytes(s: ServerView, q: Seq<u8>, rest: Seq<u8>)
    requires
        s.phase == Phase::Payload,
        forall|i: int| 0 <= i < q.len() ==> q[i] != 35,
    ensures
        receive_all(s, q + rest) == ({
            let (s2, es) = receive_all(ServerView { buffer: s.buffer + q, ..s }, rest);
            (s2, pendings(q.len()) + es)
        }),
    decreases q.len(),
{
    if q.len() == 0 {
        assert(q + rest =~= rest);
        assert(s.buffer + q =~= s.buffer);
        assert(pendings(0) + receive_all(s, rest).1 =~= receive_all(s, rest).1);
    } else {
        let s1 = ServerView { buffer: s.buffer.push(q[0]), ..s };
        assert((q + rest)[0] == q[0]);
        assert((q + rest).drop_first() =~= q.drop_first() + rest);
        lemma_payload_bytes(s1, q.drop_first(), rest);
        assert(s1.buffer + q.drop_first() =~= s.buffer + q);
        let es = receive_all(ServerView { buffer: s.buffer + q, ..s }, rest).1;
        assert(seq![ReceivedView::Pending] + (pendings((q.len() - 1) as nat) + es) =~= pendings(q.len()) + es);
    }
}

/// Decoding the framing of a payload that holds no `#` gives the payload back
/// unchanged, once all its bytes are in, and answers it with `+` unless
/// acknowledgments are off; every earlier byte produces nothing.
pub proof fn lemma_round_trip(s: ServerView, p: Seq<u8>)
    requires
        s.phase == Phase::AwaitStart,
        forall|i: int| 0 <= i < p.len() ==> p[i] != 35,
    ensures
        ({
            let (s2, es) = receive_all(s, frame(p));
            &&& es.len() == frame(p).len()
            &&& es.last() == ReceivedView::Packet(p, if s.no_ack_mode { None } else { Some(43u8) })
            &&& forall|i: int| 0 <= i < es.len() - 1 ==> es[i] == ReceivedView::Pending
            &&& s2.phase == Phase::AwaitStart
            &&& s2.no_ack_mode == s.no_ack_mode
        }),
{
    let h = byte_hex(crate::hex::checksum_of(p));
    let tail = seq![35u8, h[0], h[1]];
    let f = frame(p);
    assert(f =~= seq![36u8] + (p + tail));
    assert(f.drop_first() =~= p + tail);
    let s1 = ServerView { phase: Phase::Payload, buffer: seq![], ..s };
    lemma_payload_bytes(s1, p, tail);
    let s2 = ServerView { buffer: seq![] + p, ..s1 };
    assert(seq![] + p =~= p);
    let s3 = ServerView { phase: Phase::ChecksumHigh, ..s2 };
    let s4 = ServerView { phase: Phase::ChecksumLow, remote_high: h[0], ..s3 };
    assert(tail.drop_first() =~= seq![h[0], h[1]]);
    assert(seq![h[0], h[1]].drop_first() =~= seq![h[1]]);
    assert(seq![h[1]].drop_first() =~= Seq::<u8>::empty());
    assert(h =~= seq![h[0], h[1]]);
    let e = ReceivedView::Packet(p, ack_reply(s.no_ack_mode, p, h[0], h[1]));
    let s5 = ServerView { phase: Phase::AwaitStart, buffer: seq![], ..s4 };
    assert(receive_step(s4, h[1]) == (s5, e));
    assert(receive_all(s5, Seq::<u8>::empty()) == (s5, Seq::<ReceivedView>::empty()));
    assert(seq![e] + Seq::<ReceivedView>::empty() =~= seq![e]);
    assert(receive_all(s4, seq![h[1]]) == (s5, seq![e]));
    assert(receive_step(s3, h[0]) == (s4, ReceivedView::Pending));
    assert(receive_all(s3, seq![h[0], h[1]]) == (s5, seq![ReceivedView::Pending] + seq![e]));
    assert(receive_step(s2, 35u8) == (s3, ReceivedView::Pending));
    let es3 = seq![ReceivedView::Pending, ReceivedView::Pending, e];
    assert(seq![ReceivedView::Pending] + (seq![ReceivedView::Pending] + seq![e]) =~= es3);
    assert(receive_all(s2, tail) == (s5, es3));
    let es = receive_all(s, f).1;
    assert(es =~= seq![ReceivedView::Pending] + (pendings(p.len()) + es3));
}

/// Once acknowledgments are off, no packet of the session is acknowledged,
/// and they stay off.
pub proof fn lemma_no_ack_stays(s: ServerView, inputs: Seq<SessionInput>)
    requires
        s.no_ack_mode,
    ensures
        run_session(s, inputs).0.no_ack_mode,
        forall|i: int|
            0 <= i < run_session(s, inputs).1.len() ==> !acknowledged(#[trigger] run_session(s, inputs).1[i]),
    decreases inputs.len(),
{
    if inputs.len() > 0 {
        match inputs[0] {
            SessionInput::Byte(b) => {
                let (s1, e) = receive_step(s, b);
                lemma_no_ack_stays(s1, inputs.drop_first());
                let es = run_session(s1, inputs.drop_first()).1;
                assert forall|i: int| 0 <= i < (seq![e] + es).len() implies !acknowledged(#[trigger] (seq![e] + es)[i]) by {
                    if i > 0 {
                        assert((seq![e] + es)[i] == es[i - 1]);
                    }
                }
            },
            SessionInput::Command(c) => {
                lemma_no_ack_stays(process_step(s, c).0, inputs.drop_first());
            },
        }
    }
}

/// After `QStartNoAckMode` is processed, no later packet of the session is
/// acknowledged, whatever bytes and commands follow.
pub proof fn lemma_no_ack_after_start(s: ServerView, inputs: Seq<SessionInput>)
    ensures
        ({
            let after = process_step(s, CommandView::StartNoAckMode).0;
            let es = run_session(after, inputs).1;
            forall|i: int| 0 <= i < es.len() ==> !acknowledged(#[trigger] es[i])
        }),
{
    lemma_no_ack_stays(process_step(s, CommandView::StartNoAckMode).0, inputs);
}

/// The interrupt byte between packets yields an interrupt at once.
pub proof fn lemma_interrupt_between_packets(s: ServerView)
    requires
        s.phase == Phase::AwaitStart,
    ensures
        receive_step(s, 3).1 == ReceivedView::Interrupt,
        receive_step(s, 3).0 == s,
{
}

} // verus!
