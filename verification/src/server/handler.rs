//! Server side handling of a new stream: read the destination, connect to it,
//! report the outcome with a SYNACK frame, then relay data.
//!
//! `ProxyHandshake` makes every decision; the caller performs each action it
//! returns (a read, a connection, a frame to send, the relay) and hands back
//! what came of it.
use vstd::prelude::*;
use vstd::utf8::encode_utf8;
use crate::util::error::AnyTlsError;
use crate::protocol::frame::{Command, Frame, FrameView};
use crate::payload::bytes_copy_from_slice;
use crate::protocol::socks::{
    SocksAddr, SocksAddrView, SocksAddrError, SocksAddrReader, SocksField, SocksRead,
    SocksReadView, ReaderView, spec_advance, spec_need, spec_field, reader_rank, spec_run_reader,
    spec_parse_socks_addr, lemma_reader_reads_socks_addr,
};

verus! {

/// Default stream handler that proxies TCP connections; the destination is read
/// from the stream.
#[derive(Debug, Clone, Copy, PartialEq, Eq, Structural)]
pub struct TcpProxyHandler {}

impl TcpProxyHandler {
    pub fn new() -> (res: Self)
        ensures
            res == (TcpProxyHandler {}),
    {
        Self {}
    }
}

/// Peers from protocol version 2 on expect a SYNACK on every stream.
pub open spec fn spec_should_send_synack(peer_version: u8) -> bool {
    peer_version >= 2
}

/// Whether the server reports the outcome of the outbound connection with a SYNACK.
pub fn should_send_synack(peer_version: u8) -> (res: bool)
    ensures
        res == spec_should_send_synack(peer_version),
{
    peer_version >= 2
}

/// Size of the buffer each direction of the relay reads into.
pub const RELAY_BUFFER_SIZE: usize = 8192;

/// What one direction of the relay does after a read.
#[derive(Debug, Clone, Copy, PartialEq, Eq, Structural)]
pub enum RelayStep {
    /// Write the `n` bytes just read to the other side, then read again.
    Forward(usize),
    /// Stop relaying in this direction: the side read from ended or failed.
    Stop,
}

/// Decides on a read of one relay direction: `Some(n)` for `n` bytes read (0 at
/// the end of the side read from), `None` for a failed read.
pub fn relay_step(read: Option<usize>) -> (res: RelayStep)
    ensures
        res == match read {
            Some(n) => if n == 0 {
                RelayStep::Stop
            } else {
                RelayStep::Forward(n)
            },
            None => RelayStep::Stop,
        },
{
    match read {
        Some(0) => RelayStep::Stop,
        Some(n) => RelayStep::Forward(n),
        None => RelayStep::Stop,
    }
}

/// Why handling a stream failed.
#[derive(Debug)]
pub enum ProxyError {
    /// The destination address is malformed.
    Address(SocksAddrError),
    /// Reading a field of the destination failed, for the given reason.
    ReadFailed(SocksField, String),
    /// The outbound connection failed; the message says to what and why.
    ConnectFailed(String),
    /// Sending the SYNACK that reports a successful connection failed.
    SynAck(AnyTlsError),
}

/// What came of the last action.
#[derive(Debug)]
pub enum ProxyEvent {
    /// The bytes read for the requested field.
    Read(Vec<u8>),
    /// The read failed, for the given reason.
    ReadFailed(String),
    /// The outbound connection is established.
    Connected,
    /// The outbound connection failed; the message says to what and why.
    ConnectFailed(String),
    /// The SYNACK frame was sent.
    SynAckSent,
    /// Sending the SYNACK frame failed.
    SynAckFailed(AnyTlsError),
    /// Relaying ended.
    RelayDone,
}

/// What to do next.
#[derive(Debug)]
pub enum ProxyAction {
    /// Read exactly `len` bytes for `field` (the address type with one plain read).
    Read { field: SocksField, len: usize },
    /// Connect to the destination.
    Connect(SocksAddr),
    /// Send this frame to the peer.
    SendSynAck(Frame),
    /// Relay data between the stream and the connection until both sides end.
    Relay,
    /// Handling is over, with this result.
    Finish(Result<(), ProxyError>),
}

/// Where the handling of a stream stands.
#[derive(Debug)]
pub enum ProxyPhase {
    Address(SocksAddrReader),
    Connecting,
    FailureReported(String),
    SuccessReported,
    Relaying,
    Finished,
}

/// The decisions for one stream.
#[derive(Debug)]
pub struct ProxyHandshake {
    pub stream_id: u32,
    pub peer_version: u8,
    pub phase: ProxyPhase,
}

/// The mathematical value of an error.
pub enum ProxyErrorView {
    Address(SocksAddrError),
    ReadFailed(SocksField, Seq<char>),
    ConnectFailed(Seq<char>),
    SynAck(AnyTlsError),
}

/// The mathematical value of an event.
pub enum ProxyEventView {
    Read(Seq<u8>),
    ReadFailed(Seq<char>),
    Connected,
    ConnectFailed(Seq<char>),
    SynAckSent,
    SynAckFailed(AnyTlsError),
    RelayDone,
}

/// The mathematical value of an action.
pub enum ProxyActionView {
    Read { field: SocksField, len: nat },
    Connect(SocksAddrView),
    SendSynAck(FrameView),
    Relay,
    Finish(Result<(), ProxyErrorView>),
}

/// The mathematical value of a phase.
pub enum PhaseView {
    Address(ReaderView),
    Connecting,
    FailureReported(Seq<char>),
    SuccessReported,
    Relaying,
    Finished,
}

/// The mathematical value of the handling of a stream.
pub struct HandshakeView {
    pub stream_id: u32,
    pub peer_version: u8,
    pub phase: PhaseView,
}

impl View for ProxyError {
    type V = ProxyErrorView;

    open spec fn view(&self) -> ProxyErrorView {
        match self {
            ProxyError::Address(e) => ProxyErrorView::Address(*e),
            ProxyError::ReadFailed(f, r) => ProxyErrorView::ReadFailed(*f, r@),
            ProxyError::ConnectFailed(m) => ProxyErrorView::ConnectFailed(m@),
            ProxyError::SynAck(e) => ProxyErrorView::SynAck(*e),
        }
    }
}

impl View for ProxyEvent {
    type V = ProxyEventView;

    open spec fn view(&self) -> ProxyEventView {
        match self {
            ProxyEvent::Read(b) => ProxyEventView::Read(b@),
            ProxyEvent::ReadFailed(r) => ProxyEventView::ReadFailed(r@),
            ProxyEvent::Connected => ProxyEventView::Connected,
            ProxyEvent::ConnectFailed(m) => ProxyEventView::ConnectFailed(m@),
            ProxyEvent::SynAckSent => ProxyEventView::SynAckSent,
            ProxyEvent::SynAckFailed(e) => ProxyEventView::SynAckFailed(*e),
            ProxyEvent::RelayDone => ProxyEventView::RelayDone,
        }
    }
}

impl View for ProxyAction {
    type V = ProxyActionView;

    open spec fn view(&self) -> ProxyActionView {
        match self {
            ProxyAction::Read { field, len } => ProxyActionView::Read { field: *field, len: *len as nat },
            ProxyAction::Connect(a) => ProxyActionView::Connect(a@),
            ProxyAction::SendSynAck(f) => ProxyActionView::SendSynAck(f@),
            ProxyAction::Relay => ProxyActionView::Relay,
            ProxyAction::Finish(r) => ProxyActionView::Finish(
                match r {
                    Ok(()) => Ok(()),
                    Err(e) => Err(e@),
                },
            ),
        }
    }
}

impl View for ProxyPhase {
    type V = PhaseView;

    open spec fn view(&self) -> PhaseView {
        match self {
            ProxyPhase::Address(r) => PhaseView::Address(r@),
            ProxyPhase::Connecting => PhaseView::Connecting,
            ProxyPhase::FailureReported(m) => PhaseView::FailureReported(m@),
            ProxyPhase::SuccessReported => PhaseView::SuccessReported,
            ProxyPhase::Relaying => PhaseView::Relaying,
            ProxyPhase::Finished => PhaseView::Finished,
        }
    }
}

impl View for ProxyHandshake {
    type V = HandshakeView;

    open spec fn view(&self) -> HandshakeView {
        HandshakeView { stream_id: self.stream_id, peer_version: self.peer_version, phase: self.phase@ }
    }
}

/// Whether an event answers the action that the phase is waiting on.
pub open spec fn spec_accepts(phase: PhaseView, ev: ProxyEventView) -> bool {
    match phase {
        PhaseView::Address(r) => match ev {
            ProxyEventView::Read(chunk) => chunk.len() == spec_need(r),
            ProxyEventView::ReadFailed(_) => true,
            _ => false,
        },
        PhaseView::Connecting => ev is Connected || ev is ConnectFailed,
        PhaseView::FailureReported(_) => ev is SynAckSent || ev is SynAckFailed,
        PhaseView::SuccessReported => ev is SynAckSent || ev is SynAckFailed,
        PhaseView::Relaying => ev is RelayDone,
        PhaseView::Finished => false,
    }
}

/// The SYNACK that reports a connection failure: its payload is the message.
pub open spec fn spec_failure_synack(stream_id: u32, message: Seq<char>) -> FrameView {
    FrameView { cmd: Command::SynAck, stream_id, payload: encode_utf8(message) }
}

/// The SYNACK that reports a successful connection: it has no payload.
pub open spec fn spec_success_synack(stream_id: u32) -> FrameView {
    FrameView { cmd: Command::SynAck, stream_id, payload: Seq::empty() }
}

/// The next phase and action, given an accepted event. (An event that the phase does
/// not wait on, which `spec_accepts` rules out, is given no meaning here.)
pub open spec fn spec_step(h: HandshakeView, ev: ProxyEventView) -> (PhaseView, ProxyActionView) {
    let synack = spec_should_send_synack(h.peer_version);
    match h.phase {
        PhaseView::Address(r) => match ev {
            ProxyEventView::Read(chunk) => match spec_advance(r, chunk) {
                SocksReadView::Next(next) => (
                    PhaseView::Address(next),
                    ProxyActionView::Read { field: spec_field(next), len: spec_need(next) },
                ),
                SocksReadView::Done(a) => (PhaseView::Connecting, ProxyActionView::Connect(a)),
                SocksReadView::Failed(e) => (
                    PhaseView::Finished,
                    ProxyActionView::Finish(Err(ProxyErrorView::Address(e))),
                ),
            },
            ProxyEventView::ReadFailed(reason) => (
                PhaseView::Finished,
                ProxyActionView::Finish(Err(ProxyErrorView::ReadFailed(spec_field(r), reason))),
            ),
            _ => (h.phase, ProxyActionView::Relay),
        },
        PhaseView::Connecting => match ev {
            ProxyEventView::Connected => if synack {
                (PhaseView::SuccessReported, ProxyActionView::SendSynAck(spec_success_synack(h.stream_id)))
            } else {
                (PhaseView::Relaying, ProxyActionView::Relay)
            },
            ProxyEventView::ConnectFailed(m) => if synack {
                (
                    PhaseView::FailureReported(m),
                    ProxyActionView::SendSynAck(spec_failure_synack(h.stream_id, m)),
                )
            } else {
                (PhaseView::Finished, ProxyActionView::Finish(Err(ProxyErrorView::ConnectFailed(m))))
            },
            _ => (h.phase, ProxyActionView::Relay),
        },
        PhaseView::FailureReported(m) => (
            PhaseView::Finished,
            ProxyActionView::Finish(Err(ProxyErrorView::ConnectFailed(m))),
        ),
        PhaseView::SuccessReported => match ev {
            ProxyEventView::SynAckFailed(e) => (
                PhaseView::Finished,
                ProxyActionView::Finish(Err(ProxyErrorView::SynAck(e))),
            ),
            _ => (PhaseView::Relaying, ProxyActionView::Relay),
        },
        PhaseView::Relaying => (PhaseView::Finished, ProxyActionView::Finish(Ok(()))),
        PhaseView::Finished => (h.phase, ProxyActionView::Relay),
    }
}

impl ProxyHandshake {
    /// Starts handling a stream: the first action reads the address type.
    pub fn start(stream_id: u32, peer_version: u8) -> (res: (Self, ProxyAction))
        ensures
            res.0@ == (HandshakeView {
                stream_id,
                peer_version,
                phase: PhaseView::Address(ReaderView::AddressType),
            }),
            res.1@ == (ProxyActionView::Read { field: SocksField::AddressType, len: 1 }),
    {
        let reader = SocksAddrReader::new();
        let action = ProxyAction::Read { field: reader.field(), len: reader.need() };
        (ProxyHandshake { stream_id, peer_version, phase: ProxyPhase::Address(reader) }, action)
    }

    /// Whether the handshake waits on this event.
    pub open spec fn accepts(&self, ev: ProxyEventView) -> bool {
        spec_accepts(self.phase@, ev)
    }

    /// Whether the handshake waits on this event: the events that `step` takes.
    pub fn accepts_event(&self, event: &ProxyEvent) -> (res: bool)
        ensures
            res == self.accepts(event@),
    {
        match &self.phase {
            ProxyPhase::Address(reader) => match event {
                ProxyEvent::Read(chunk) => chunk.len() == reader.need(),
                ProxyEvent::ReadFailed(_) => true,
                _ => false,
            },
            ProxyPhase::Connecting => match event {
                ProxyEvent::Connected => true,
                ProxyEvent::ConnectFailed(_) => true,
                _ => false,
            },
            ProxyPhase::FailureReported(_) | ProxyPhase::SuccessReported => match event {
                ProxyEvent::SynAckSent => true,
                ProxyEvent::SynAckFailed(_) => true,
                _ => false,
            },
            ProxyPhase::Relaying => match event {
                ProxyEvent::RelayDone => true,
                _ => false,
            },
            ProxyPhase::Finished => false,
        }
    }

    /// Decides what to do after the last action came to `event`.
    pub fn step(self, event: ProxyEvent) -> (res: (Self, ProxyAction))
        requires
            self.accepts(event@),
        ensures
            res.0.stream_id == self.stream_id,
            res.0.peer_version == self.peer_version,
            (res.0.phase@, res.1@) == spec_step(self@, event@),
    {
        let ProxyHandshake { stream_id, peer_version, phase } = self;
        let synack = should_send_synack(peer_version);
        let (next, action) = match phase {
            ProxyPhase::Address(reader) => match event {
                ProxyEvent::Read(chunk) => {
                    match reader.advance(chunk.as_slice()) {
                        SocksRead::Next(next) => {
                            let action = ProxyAction::Read { field: next.field(), len: next.need() };
                            (ProxyPhase::Address(next), action)
                        },
                        SocksRead::Done(addr) => (ProxyPhase::Connecting, ProxyAction::Connect(addr)),
                        SocksRead::Failed(e) => (
                            ProxyPhase::Finished,
                            ProxyAction::Finish(Err(ProxyError::Address(e))),
                        ),
                    }
                },
                ProxyEvent::ReadFailed(reason) => {
                    let field = reader.field();
                    (ProxyPhase::Finished, ProxyAction::Finish(Err(ProxyError::ReadFailed(field, reason))))
                },
                _ => (ProxyPhase::Address(reader), ProxyAction::Relay),
            },
            ProxyPhase::Connecting => match event {
                ProxyEvent::Connected => {
                    if synack {
                        (
                            ProxyPhase::SuccessReported,
                            ProxyAction::SendSynAck(Frame::control(Command::SynAck, stream_id)),
                        )
                    } else {
                        (ProxyPhase::Relaying, ProxyAction::Relay)
                    }
                },
                ProxyEvent::ConnectFailed(message) => {
                    if synack {
                        let data = bytes_copy_from_slice(message.as_str().as_bytes());
                        let frame = Frame::with_data(Command::SynAck, stream_id, data);
                        (ProxyPhase::FailureReported(message), ProxyAction::SendSynAck(frame))
                    } else {
                        (
                            ProxyPhase::Finished,
                            ProxyAction::Finish(Err(ProxyError::ConnectFailed(message))),
                        )
                    }
                },
                _ => (ProxyPhase::Connecting, ProxyAction::Relay),
            },
            ProxyPhase::FailureReported(message) => (
                ProxyPhase::Finished,
                ProxyAction::Finish(Err(ProxyError::ConnectFailed(message))),
            ),
            ProxyPhase::SuccessReported => match event {
                ProxyEvent::SynAckFailed(e) => (
                    ProxyPhase::Finished,
                    ProxyAction::Finish(Err(ProxyError::SynAck(e))),
                ),
                _ => (ProxyPhase::Relaying, ProxyAction::Relay),
            },
            ProxyPhase::Relaying => (ProxyPhase::Finished, ProxyAction::Finish(Ok(()))),
            ProxyPhase::Finished => (ProxyPhase::Finished, ProxyAction::Relay),
        };
        (ProxyHandshake { stream_id, peer_version, phase: next }, action)
    }
}

/// How many phases a handshake still has ahead of it, at most.
pub open spec fn phase_rank(p: PhaseView) -> nat {
    match p {
        PhaseView::Address(r) => 4 + reader_rank(r),
        PhaseView::Connecting => 3,
        PhaseView::FailureReported(_) => 2,
        PhaseView::SuccessReported => 2,
        PhaseView::Relaying => 1,
        PhaseView::Finished => 0,
    }
}

/// The actions other than reads that a handshake at `h` takes when its reads are
/// answered from the stream `s` (a read past the end of the stream fails for the
/// reason `eof`; the address type is read with one plain read into a zeroed byte),
/// the outbound connection comes to `connect` (an error carries its message), and
/// every SYNACK send comes to `synack`.
pub open spec fn spec_drive(
    h: HandshakeView,
    s: Seq<u8>,
    connect: Result<(), Seq<char>>,
    synack: Result<(), AnyTlsError>,
    eof: Seq<char>,
) -> Seq<ProxyActionView>
    decreases phase_rank(h.phase),
{
    let ev = match h.phase {
        PhaseView::Address(r) => {
            if r is AddressType && s.len() == 0 {
                ProxyEventView::Read(seq![0u8])
            } else if s.len() < spec_need(r) {
                ProxyEventView::ReadFailed(eof)
            } else {
                ProxyEventView::Read(s.take(spec_need(r) as int))
            }
        },
        PhaseView::Connecting => match connect {
            Ok(()) => ProxyEventView::Connected,
            Err(m) => ProxyEventView::ConnectFailed(m),
        },
        PhaseView::FailureReported(_) => match synack {
            Ok(()) => ProxyEventView::SynAckSent,
            Err(e) => ProxyEventView::SynAckFailed(e),
        },
        PhaseView::SuccessReported => match synack {
            Ok(()) => ProxyEventView::SynAckSent,
            Err(e) => ProxyEventView::SynAckFailed(e),
        },
        PhaseView::Relaying => ProxyEventView::RelayDone,
        PhaseView::Finished => ProxyEventView::RelayDone,
    };
    let took: int = match ev {
        ProxyEventView::Read(chunk) => if s.len() == 0 { 0 } else { chunk.len() as int },
        _ => 0,
    };
    if h.phase is Finished {
        Seq::empty()
    } else {
        let (next, act) = spec_step(h, ev);
        let rest = spec_drive(
            HandshakeView { phase: next, ..h },
            s.skip(took),
            connect,
            synack,
            eof,
        );
        if act is Read {
            rest
        } else {
            seq![act] + rest
        }
    }
}

/// What a handshake does once its address has been read as `a`.
pub open spec fn spec_after_address(
    stream_id: u32,
    peer_version: u8,
    a: SocksAddrView,
    connect: Result<(), Seq<char>>,
    synack: Result<(), AnyTlsError>,
) -> Seq<ProxyActionView> {
    let report = spec_should_send_synack(peer_version);
    match connect {
        Err(m) => if report {
            seq![
                ProxyActionView::Connect(a),
                ProxyActionView::SendSynAck(spec_failure_synack(stream_id, m)),
                ProxyActionView::Finish(Err(ProxyErrorView::ConnectFailed(m))),
            ]
        } else {
            seq![
                ProxyActionView::Connect(a),
                ProxyActionView::Finish(Err(ProxyErrorView::ConnectFailed(m))),
            ]
        },
        Ok(()) => if report {
            match synack {
                Ok(()) => seq![
                    ProxyActionView::Connect(a),
                    ProxyActionView::SendSynAck(spec_success_synack(stream_id)),
                    ProxyActionView::Relay,
                    ProxyActionView::Finish(Ok(())),
                ],
                Err(e) => seq![
                    ProxyActionView::Connect(a),
                    ProxyActionView::SendSynAck(spec_success_synack(stream_id)),
                    ProxyActionView::Finish(Err(ProxyErrorView::SynAck(e))),
                ],
            }
        } else {
            seq![
                ProxyActionView::Connect(a),
                ProxyActionView::Relay,
                ProxyActionView::Finish(Ok(())),
            ]
        },
    }
}

/// Driving the address phase comes to what reading the address comes to.
proof fn lemma_drive_address(
    h: HandshakeView,
    r: ReaderView,
    s: Seq<u8>,
    used: nat,
    connect: Result<(), Seq<char>>,
    synack: Result<(), AnyTlsError>,
    eof: Seq<char>,
)
    requires
        h.phase == PhaseView::Address(r),
    ensures
        spec_drive(h, s, connect, synack, eof) == match spec_run_reader(r, s, used) {
            Ok((a, _)) => spec_after_address(h.stream_id, h.peer_version, a, connect, synack),
            Err(SocksAddrError::Truncated(f)) => seq![
                ProxyActionView::Finish(Err(ProxyErrorView::ReadFailed(f, eof))),
            ],
            Err(e) => seq![ProxyActionView::Finish(Err(ProxyErrorView::Address(e)))],
        },
    decreases reader_rank(r),
{
    let at_type = r is AddressType;
    if !at_type && s.len() < spec_need(r) {
        let h2 = HandshakeView { phase: PhaseView::Finished, ..h };
        assert(spec_drive(h2, s, connect, synack, eof) == Seq::<ProxyActionView>::empty());
        let step = spec_step(h, ProxyEventView::ReadFailed(eof));
        assert(step.0 == PhaseView::Finished);
        assert(step.1 == ProxyActionView::Finish(
            Err(ProxyErrorView::ReadFailed(spec_field(r), eof)),
        ));
        assert(spec_drive(h2, s.skip(0), connect, synack, eof) == Seq::<ProxyActionView>::empty());
        assert(spec_drive(h, s, connect, synack, eof) =~= seq![
            ProxyActionView::Finish(Err(ProxyErrorView::ReadFailed(spec_field(r), eof))),
        ]);
    } else {
        let took: nat = if at_type && s.len() == 0 { 0 } else { spec_need(r) };
        let chunk = if at_type && s.len() == 0 { seq![0u8] } else { s.take(spec_need(r) as int) };
        match spec_advance(r, chunk) {
            SocksReadView::Next(next) => {
                let h2 = HandshakeView { phase: PhaseView::Address(next), ..h };
                lemma_drive_address(h2, next, s.skip(took as int), used + took, connect, synack, eof);
                assert(spec_drive(h, s, connect, synack, eof) == spec_drive(h2, s.skip(took as int), connect, synack, eof));
            },
            SocksReadView::Done(a) => {
                let h2 = HandshakeView { phase: PhaseView::Connecting, ..h };
                reveal_with_fuel(spec_drive, 5);
                assert(spec_drive(h, s, connect, synack, eof) =~= spec_after_address(h.stream_id, h.peer_version, a, connect, synack));
            },
            SocksReadView::Failed(e) => {
                let h2 = HandshakeView { phase: PhaseView::Finished, ..h };
                assert(spec_drive(h2, s.skip(took as int), connect, synack, eof) == Seq::<ProxyActionView>::empty());
                assert(spec_drive(h, s, connect, synack, eof) =~= seq![ProxyActionView::Finish(Err(ProxyErrorView::Address(e)))]);
            },
        }
    }
}

/// The whole handling of a stream: a malformed or cut-off address ends it with that
/// error, before any connection; otherwise the server connects to the address the
/// stream names, reports the outcome with a SYNACK exactly when the peer's version
/// is at least 2 (with the failure message as payload,
/// or no payload on success), relays only after a successful connection whose
/// report (if any) was sent, and ends with the connection's error, the SYNACK's
/// send error, or success.
pub proof fn lemma_handshake_actions(
    stream_id: u32,
    peer_version: u8,
    s: Seq<u8>,
    connect: Result<(), Seq<char>>,
    synack: Result<(), AnyTlsError>,
    eof: Seq<char>,
)
    ensures
        spec_drive(
            HandshakeView { stream_id, peer_version, phase: PhaseView::Address(ReaderView::AddressType) },
            s,
            connect,
            synack,
            eof,
        ) == match spec_parse_socks_addr(s) {
            Ok((a, _)) => spec_after_address(stream_id, peer_version, a, connect, synack),
            Err(SocksAddrError::Truncated(f)) => seq![
                ProxyActionView::Finish(Err(ProxyErrorView::ReadFailed(f, eof))),
            ],
            Err(e) => seq![ProxyActionView::Finish(Err(ProxyErrorView::Address(e)))],
        },
{
    lemma_reader_reads_socks_addr(s);
    lemma_drive_address(
        HandshakeView { stream_id, peer_version, phase: PhaseView::Address(ReaderView::AddressType) },
        ReaderView::AddressType,
        s,
        0,
        connect,
        synack,
        eof,
    );
}

} // verus!
