//! Per-connection forwarding decisions: the ingress direction turns client
//! bytes into messages for the controller, the egress direction turns
//! controller responses into frames for the client, and the connection's
//! lifecycle says when reading may happen and when everything closes.
use vstd::prelude::*;

use crate::codec::{
    concat_frames, frame_bytes, lemma_split_concat, split_frames, FrameDecoder, StreamEnd,
    MAX_PAYLOAD_LEN, encode_frame, FrameError,
};

verus! {

/// Profile identifier carried by every message sent to the controller.
pub const C2_PROFILE_NAME: &'static str = "reverse_tcp";

/// A message for the controller, made fresh for each frame received.
pub struct OutboundMessage {
    pub c2_profile_name: String,
    pub remote_ip: String,
    pub payload: Vec<u8>,
}

/// A response from the controller.
pub struct InboundResponse {
    pub success: bool,
    pub error: String,
    pub message: Vec<u8>,
}

/// Whether `msgs` forward `payloads` one for one, in order, from `remote`.
pub open spec fn forwards(
    msgs: Seq<OutboundMessage>,
    remote: Seq<char>,
    payloads: Seq<Seq<u8>>,
) -> bool {
    &&& msgs.len() == payloads.len()
    &&& forall|i: int|
        0 <= i < msgs.len() ==> {
            &&& (#[trigger] msgs[i]).payload@ == payloads[i]
            &&& msgs[i].remote_ip@ == remote
            &&& msgs[i].c2_profile_name@ == C2_PROFILE_NAME@
        }
}

/// The client-to-controller direction of one connection.
pub struct Ingress {
    decoder: FrameDecoder,
    remote_ip: String,
}

impl Ingress {
    /// Client bytes received and not yet part of a whole frame.
    pub closed spec fn pending(&self) -> Seq<u8> {
        self.decoder.pending()
    }

    /// The peer identity stamped on every message.
    pub closed spec fn remote(&self) -> Seq<char> {
        self.remote_ip@
    }

    pub closed spec fn wf(&self) -> bool {
        self.decoder.wf()
    }

    pub fn new(remote_ip: String) -> (r: Ingress)
        ensures
            r.pending() == Seq::<u8>::empty(),
            r.remote() == remote_ip@,
            r.wf(),
    {
        Ingress { decoder: FrameDecoder::new(), remote_ip }
    }

    /// Takes the next bytes from the client and returns one message per frame
    /// that is now whole, in the order the frames arrived.
    pub fn receive(&mut self, bytes: &[u8]) -> (msgs: Vec<OutboundMessage>)
        requires
            old(self).wf(),
        ensures
            forwards(
                msgs@,
                old(self).remote(),
                split_frames(old(self).pending() + bytes@).0,
            ),
            final(self).pending() == split_frames(old(self).pending() + bytes@).1,
            final(self).remote() == old(self).remote(),
            final(self).wf(),
    {
        let frames = self.decoder.receive(bytes);
        let ghost payloads = split_frames(old(self).pending() + bytes@).0;
        let mut msgs: Vec<OutboundMessage> = Vec::new();
        let mut i: usize = 0;
        while i < frames.len()
            invariant
                i <= frames@.len(),
                crate::codec::payload_views(frames@) == payloads,
                self.remote_ip@ == old(self).remote(),
                forwards(msgs@, old(self).remote(), payloads.subrange(0, i as int)),
            decreases frames@.len() - i,
        {
            let mut payload: Vec<u8> = Vec::new();
            payload.extend_from_slice(frames[i].as_slice());
            assert(payload@ =~= frames@[i as int]@);
            let msg = OutboundMessage {
                c2_profile_name: C2_PROFILE_NAME.to_owned(),
                remote_ip: self.remote_ip.clone(),
                payload,
            };
            msgs.push(msg);
            i = i + 1;
            assert(forwards(msgs@, old(self).remote(), payloads.subrange(0, i as int))) by {
                assert forall|j: int| 0 <= j < msgs@.len() implies {
                    &&& (#[trigger] msgs@[j]).payload@ == payloads.subrange(0, i as int)[j]
                    &&& msgs@[j].remote_ip@ == old(self).remote()
                    &&& msgs@[j].c2_profile_name@ == C2_PROFILE_NAME@
                } by {
                    if j < i - 1 {
                        assert(payloads.subrange(0, i - 1)[j] == payloads.subrange(0, i as int)[j]);
                    }
                }
            }
        }
        assert(payloads.subrange(0, frames@.len() as int) =~= payloads);
        msgs
    }

    /// How the client's stream ended, given what is still pending.
    pub fn end_of_stream(&self) -> (r: StreamEnd)
        ensures
            r == StreamEnd::Clean <==> self.pending().len() == 0,
            r == StreamEnd::TruncatedPrefix <==> 0 < self.pending().len() < 4,
            r == StreamEnd::TruncatedPayload <==> self.pending().len() >= 4,
    {
        self.decoder.end_of_stream()
    }
}

/// Two frames sent back to back reach the controller as two messages in the
/// order they were sent, and nothing is left pending.
pub proof fn lemma_back_to_back_in_order(a: Seq<u8>, b: Seq<u8>)
    requires
        a.len() <= MAX_PAYLOAD_LEN,
        b.len() <= MAX_PAYLOAD_LEN,
    ensures
        split_frames(Seq::<u8>::empty() + (frame_bytes(a) + frame_bytes(b))) == (
            seq![a, b],
            Seq::<u8>::empty(),
        ),
{
    let ps = seq![a, b];
    assert(crate::codec::all_encodable(ps));
    assert(concat_frames(ps.drop_first().drop_first()) == Seq::<u8>::empty());
    assert(ps.drop_first() =~= seq![b]);
    assert(concat_frames(ps.drop_first()) =~= frame_bytes(b));
    assert(concat_frames(ps) + Seq::<u8>::empty() =~= Seq::<u8>::empty() + (frame_bytes(a)
        + frame_bytes(b)));
    lemma_split_concat(ps, Seq::empty());
}

/// What the egress direction does with one controller response.
#[derive(Debug)]
pub enum EgressAction {
    /// Write these bytes to the client.
    Write(Vec<u8>),
    /// The controller reported a failure: log it, write nothing, keep going.
    Skip,
    /// The payload cannot be framed: end this direction.
    Stop,
}

/// The bytes that `r` puts on the client socket.
pub open spec fn egress_writes(r: InboundResponse) -> Seq<u8> {
    if r.success && r.message@.len() <= MAX_PAYLOAD_LEN {
        frame_bytes(r.message@)
    } else {
        Seq::empty()
    }
}

/// Whether `r` ends the egress direction.
pub open spec fn egress_stops(r: InboundResponse) -> bool {
    r.success && r.message@.len() > MAX_PAYLOAD_LEN
}

/// The bytes written to the client for the responses `rs`, taken in order
/// until one ends the direction.
pub open spec fn egress_output(rs: Seq<InboundResponse>) -> Seq<u8>
    decreases rs.len(),
{
    if rs.len() == 0 || egress_stops(rs[0]) {
        Seq::empty()
    } else {
        egress_writes(rs[0]) + egress_output(rs.drop_first())
    }
}

/// Whether the egress direction is still running after the responses `rs`.
pub open spec fn egress_open(rs: Seq<InboundResponse>) -> bool {
    forall|i: int| 0 <= i < rs.len() ==> !egress_stops(#[trigger] rs[i])
}

/// Decides what to do with one controller response: a successful one is
/// framed and written, a failed one is skipped, and one whose payload cannot
/// be framed ends the direction.
pub fn egress_action(response: &InboundResponse) -> (r: EgressAction)
    ensures
        !response.success <==> r is Skip,
        egress_stops(*response) <==> r is Stop,
        r matches EgressAction::Write(b) ==> b@ == egress_writes(*response) && b@ == frame_bytes(
            response.message@,
        ),
{
    if !response.success {
        return EgressAction::Skip;
    }
    match encode_frame(response.message.as_slice()) {
        Ok(bytes) => EgressAction::Write(bytes),
        Err(FrameError::PayloadTooLarge { .. }) => EgressAction::Stop,
    }
}

/// A failed response neither closes the egress direction nor writes a byte,
/// and a successful response after it is still written in full.
pub proof fn lemma_failure_keeps_forwarding(
    failed: InboundResponse,
    ok: InboundResponse,
    rs: Seq<InboundResponse>,
)
    requires
        !failed.success,
        ok.success,
        ok.message@.len() <= MAX_PAYLOAD_LEN,
    ensures
        egress_writes(failed) == Seq::<u8>::empty(),
        egress_open(seq![failed]),
        egress_output(seq![failed] + rs) == egress_output(rs),
        egress_output(seq![failed, ok] + rs) == frame_bytes(ok.message@) + egress_output(rs),
{
    assert((seq![failed] + rs).drop_first() =~= rs);
    let s = seq![failed, ok] + rs;
    assert(s.drop_first() =~= seq![ok] + rs);
    assert((seq![ok] + rs).drop_first() =~= rs);
    assert(s[0] == failed);
    assert((seq![ok] + rs)[0] == ok);
    assert(egress_output(seq![ok] + rs) == frame_bytes(ok.message@) + egress_output(rs));
    assert(egress_output(s) == Seq::<u8>::empty() + egress_output(seq![ok] + rs));
    assert(Seq::<u8>::empty() + (frame_bytes(ok.message@) + egress_output(rs)) =~= frame_bytes(
        ok.message@,
    ) + egress_output(rs));
}

/// Where a connection stands.
#[derive(Debug, Clone, Copy, PartialEq, Eq, Structural)]
pub enum ConnectionState {
    /// The controller stream is being requested.
    Opening,
    /// Both directions are running.
    Streaming,
    /// Both directions are gone and the socket is closed.
    Closed,
}

/// What can happen to a connection.
#[derive(Debug, Clone, Copy, PartialEq, Eq, Structural)]
pub enum ConnectionEvent {
    /// The controller stream opened.
    StreamOpened,
    /// The controller stream could not be opened.
    StreamOpenFailed,
    /// One of the two directions ended, for whatever reason.
    DirectionFinished,
}

/// The state after `e` in state `s`: a failed open or the end of either
/// direction closes the connection, and a closed connection stays closed.
pub open spec fn next_state(s: ConnectionState, e: ConnectionEvent) -> ConnectionState {
    match (s, e) {
        (ConnectionState::Opening, ConnectionEvent::StreamOpened) => ConnectionState::Streaming,
        (ConnectionState::Opening, ConnectionEvent::StreamOpenFailed) => ConnectionState::Closed,
        (ConnectionState::Streaming, ConnectionEvent::DirectionFinished) => ConnectionState::Closed,
        _ => s,
    }
}

impl ConnectionState {
    pub fn on_event(self, e: ConnectionEvent) -> (r: ConnectionState)
        ensures
            r == next_state(self, e),
    {
        match (self, e) {
            (ConnectionState::Opening, ConnectionEvent::StreamOpened) => ConnectionState::Streaming,
            (ConnectionState::Opening, ConnectionEvent::StreamOpenFailed) => ConnectionState::Closed,
            (ConnectionState::Streaming, ConnectionEvent::DirectionFinished) => {
                ConnectionState::Closed
            },
            _ => self,
        }
    }

    /// Whether the client socket may be read: only while streaming.
    pub fn reads_client(&self) -> (r: bool)
        ensures
            r <==> *self == ConnectionState::Streaming,
    {
        matches!(self, ConnectionState::Streaming)
    }
}

} // verus!
