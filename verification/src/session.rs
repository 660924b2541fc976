//! The per-connection state machine.  One session runs from socket
//! acceptance to tunnel teardown; every failure is terminal.  The
//! surrounding program feeds events in (handshake outcome, bytes read,
//! connect and write outcomes) and performs the returned actions.

use vstd::prelude::*;
use vstd::utf8::valid_utf8;
use crate::request::{
    auth_from, connect_method, ends_with_terminator, first_line, method_of,
    process_request, request_decision, Decision, SpecDecision, MAX_HEADER_BYTES,
};
use crate::scan::line_end_at;

verus! {

#[derive(Clone, Copy, PartialEq, Eq, Structural, Debug)]
pub enum SessionState {
    /// Socket accepted; TLS handshake under way.
    Accepted,
    /// Handshake done; header bytes being accumulated.
    ReadingHeader,
    /// Request parsed and credentials verified; upstream leg under way.
    Authorized,
    /// Upstream leg open; the success response is being written.
    Connected,
    /// Tunnel running; bytes relayed both ways.
    Relaying,
    /// Connection over, by success or by any failure.
    Terminated,
}

/// One thing the outside world reports to the session.
#[derive(Clone, Copy, PartialEq, Eq, Structural, Debug)]
pub enum SessionEvent {
    /// TLS handshake finished, successfully or not.
    TlsResult(bool),
    /// One byte read off the client stream.
    ByteRead(u8),
    /// The client closed before the header block was complete.
    PeerClosed,
    /// Reading from the client failed.
    ReadFailed,
    /// The outbound leg (direct or through the forward proxy) finished.
    ConnectResult(bool),
    /// Writing the success response finished.
    EstablishedSent(bool),
    /// The relay phase ended, by EOF or by error.
    RelayEnded,
}

/// A status response the session orders written before closing.
#[derive(Clone, Copy, PartialEq, Eq, Structural, Debug)]
pub enum StatusResponse {
    MethodNotAllowed,
    AuthRequired,
    BadGateway,
}

/// What the caller must do next.
#[derive(Clone, Copy, PartialEq, Eq, Structural, Debug)]
pub enum SessionAction {
    /// Read one more byte from the client.
    ReadByte,
    /// Write the given status response, then close.
    Respond(StatusResponse),
    /// Open the outbound leg to the session's target.
    ConnectUpstream,
    /// Write the `200 Connection Established` response.
    SendEstablished,
    /// Copy bytes both ways until either side ends.
    StartRelay,
    /// Close the connection without writing anything.
    Close,
}

/// Mathematical image of a session.
#[verifier::ext_equal]
pub struct SessionView {
    pub state: SessionState,
    pub buf: Seq<u8>,
    pub user: Seq<u8>,
    pub pass: Seq<u8>,
    pub target: Seq<u8>,
}

/// The transition table: next session and required action for each
/// state and event.  Any pairing outside the table terminates silently.
pub open spec fn spec_step(v: SessionView, ev: SessionEvent) -> (SessionView, SessionAction) {
    match (v.state, ev) {
        (SessionState::Accepted, SessionEvent::TlsResult(ok)) => if ok {
            (SessionView { state: SessionState::ReadingHeader, ..v }, SessionAction::ReadByte)
        } else {
            (SessionView { state: SessionState::Terminated, ..v }, SessionAction::Close)
        },
        (SessionState::ReadingHeader, SessionEvent::ByteRead(b)) => {
            let nb = v.buf + seq![b];
            let nv = SessionView { buf: nb, ..v };
            if ends_with_terminator(nb) {
                match request_decision(nb, v.user, v.pass) {
                    SpecDecision::BadEncoding => (
                        SessionView { state: SessionState::Terminated, ..nv },
                        SessionAction::Close,
                    ),
                    SpecDecision::MethodNotAllowed => (
                        SessionView { state: SessionState::Terminated, ..nv },
                        SessionAction::Respond(StatusResponse::MethodNotAllowed),
                    ),
                    SpecDecision::AuthRequired => (
                        SessionView { state: SessionState::Terminated, ..nv },
                        SessionAction::Respond(StatusResponse::AuthRequired),
                    ),
                    SpecDecision::Tunnel(t) => (
                        SessionView { state: SessionState::Authorized, target: t, ..nv },
                        SessionAction::ConnectUpstream,
                    ),
                }
            } else if nb.len() > MAX_HEADER_BYTES {
                (SessionView { state: SessionState::Terminated, ..nv }, SessionAction::Close)
            } else {
                (nv, SessionAction::ReadByte)
            }
        },
        (SessionState::ReadingHeader, SessionEvent::PeerClosed) => (
            SessionView { state: SessionState::Terminated, ..v },
            SessionAction::Close,
        ),
        (SessionState::ReadingHeader, SessionEvent::ReadFailed) => (
            SessionView { state: SessionState::Terminated, ..v },
            SessionAction::Close,
        ),
        (SessionState::Authorized, SessionEvent::ConnectResult(ok)) => if ok {
            (SessionView { state: SessionState::Connected, ..v }, SessionAction::SendEstablished)
        } else {
            (
                SessionView { state: SessionState::Terminated, ..v },
                SessionAction::Respond(StatusResponse::BadGateway),
            )
        },
        (SessionState::Connected, SessionEvent::EstablishedSent(ok)) => if ok {
            (SessionView { state: SessionState::Relaying, ..v }, SessionAction::StartRelay)
        } else {
            (SessionView { state: SessionState::Terminated, ..v }, SessionAction::Close)
        },
        (SessionState::Relaying, SessionEvent::RelayEnded) => (
            SessionView { state: SessionState::Terminated, ..v },
            SessionAction::Close,
        ),
        _ => (SessionView { state: SessionState::Terminated, ..v }, SessionAction::Close),
    }
}

/// One client connection's protocol state, from acceptance to teardown.
pub struct Session {
    state: SessionState,
    buf: Vec<u8>,
    user: Vec<u8>,
    pass: Vec<u8>,
    target: Vec<u8>,
}

impl View for Session {
    type V = SessionView;

    closed spec fn view(&self) -> SessionView {
        SessionView {
            state: self.state,
            buf: self.buf@,
            user: self.user@,
            pass: self.pass@,
            target: self.target@,
        }
    }
}

impl Session {
    /// While the header is being read, the buffer stays within bound.
    pub open spec fn wf(&self) -> bool {
        (self@.state == SessionState::Accepted || self@.state == SessionState::ReadingHeader)
            ==> self@.buf.len() <= MAX_HEADER_BYTES
    }

    /// A fresh session for one accepted socket, holding the configured
    /// credential pair.
    pub fn new(user: Vec<u8>, pass: Vec<u8>) -> (r: Session)
        ensures
            r@.state == SessionState::Accepted,
            r@.buf == Seq::<u8>::empty(),
            r@.user == user@,
            r@.pass == pass@,
            r.wf(),
    {
        let r = Session { state: SessionState::Accepted, buf: Vec::new(), user, pass, target: Vec::new() };
        proof {
            assert(r@.buf =~= Seq::<u8>::empty());
        }
        r
    }

    /// The target of the authenticated `CONNECT`, as raw bytes.
    pub fn target(&self) -> (r: &Vec<u8>)
        ensures
            r@ == self@.target,
    {
        &self.target
    }

    /// Feeds one event in and moves the machine exactly as the
    /// transition table says, handing back the action to perform.
    pub fn step(&mut self, ev: SessionEvent) -> (act: SessionAction)
        requires
            old(self).wf(),
        ensures
            final(self)@ == spec_step(old(self)@, ev).0,
            act == spec_step(old(self)@, ev).1,
            final(self).wf(),
    {
        let st = self.state;
        match (st, ev) {
            (SessionState::Accepted, SessionEvent::TlsResult(ok)) => {
                if ok {
                    self.state = SessionState::ReadingHeader;
                    proof {
                        assert(self@ =~= spec_step(old(self)@, ev).0);
                    }
                    SessionAction::ReadByte
                } else {
                    self.state = SessionState::Terminated;
                    proof {
                        assert(self@ =~= spec_step(old(self)@, ev).0);
                    }
                    SessionAction::Close
                }
            },
            (SessionState::ReadingHeader, SessionEvent::ByteRead(b)) => {
                self.buf.push(b);
                proof {
                    assert(self.buf@ =~= old(self).buf@ + seq![b]);
                }
                let n = self.buf.len();
                let done = n >= 4 && self.buf[n - 4] == 13 && self.buf[n - 3] == 10
                    && self.buf[n - 2] == 13 && self.buf[n - 1] == 10;
                if done {
                    let d = process_request(
                        self.buf.as_slice(),
                        self.user.as_slice(),
                        self.pass.as_slice(),
                    );
                    match d {
                        Decision::BadEncoding => {
                            self.state = SessionState::Terminated;
                            proof {
                                assert(self@ =~= spec_step(old(self)@, ev).0);
                            }
                            SessionAction::Close
                        },
                        Decision::MethodNotAllowed => {
                            self.state = SessionState::Terminated;
                            proof {
                                assert(self@ =~= spec_step(old(self)@, ev).0);
                            }
                            SessionAction::Respond(StatusResponse::MethodNotAllowed)
                        },
                        Decision::AuthRequired => {
                            self.state = SessionState::Terminated;
                            proof {
                                assert(self@ =~= spec_step(old(self)@, ev).0);
                            }
                            SessionAction::Respond(StatusResponse::AuthRequired)
                        },
                        Decision::Tunnel { target } => {
                            self.state = SessionState::Authorized;
                            self.target = target;
                            proof {
                                assert(self@ =~= spec_step(old(self)@, ev).0);
                            }
                            SessionAction::ConnectUpstream
                        },
                    }
                } else if n > MAX_HEADER_BYTES {
                    self.state = SessionState::Terminated;
                    proof {
                        assert(self@ =~= spec_step(old(self)@, ev).0);
                    }
                    SessionAction::Close
                } else {
                    proof {
                        assert(self@ =~= spec_step(old(self)@, ev).0);
                    }
                    SessionAction::ReadByte
                }
            },
            (SessionState::ReadingHeader, SessionEvent::PeerClosed) => {
                self.state = SessionState::Terminated;
                proof {
                    assert(self@ =~= spec_step(old(self)@, ev).0);
                }
                SessionAction::Close
            },
            (SessionState::ReadingHeader, SessionEvent::ReadFailed) => {
                self.state = SessionState::Terminated;
                proof {
                    assert(self@ =~= spec_step(old(self)@, ev).0);
                }
                SessionAction::Close
            },
            (SessionState::Authorized, SessionEvent::ConnectResult(ok)) => {
                if ok {
                    self.state = SessionState::Connected;
                    proof {
                        assert(self@ =~= spec_step(old(self)@, ev).0);
                    }
                    SessionAction::SendEstablished
                } else {
                    self.state = SessionState::Terminated;
                    proof {
                        assert(self@ =~= spec_step(old(self)@, ev).0);
                    }
                    SessionAction::Respond(StatusResponse::BadGateway)
                }
            },
            (SessionState::Connected, SessionEvent::EstablishedSent(ok)) => {
                if ok {
                    self.state = SessionState::Relaying;
                    proof {
                        assert(self@ =~= spec_step(old(self)@, ev).0);
                    }
                    SessionAction::StartRelay
                } else {
                    self.state = SessionState::Terminated;
                    proof {
                        assert(self@ =~= spec_step(old(self)@, ev).0);
                    }
                    SessionAction::Close
                }
            },
            (SessionState::Relaying, SessionEvent::RelayEnded) => {
                self.state = SessionState::Terminated;
                proof {
                    assert(self@ =~= spec_step(old(self)@, ev).0);
                }
                SessionAction::Close
            },
            _ => {
                self.state = SessionState::Terminated;
                proof {
                    assert(self@ =~= spec_step(old(self)@, ev).0);
                }
                SessionAction::Close
            },
        }
    }
}

/// The response written when the tunnel is up.
pub fn established_response() -> (s: &'static str)
    ensures
        s@ == "HTTP/1.1 200 Connection Established\r\n\r\n"@,
{
    "HTTP/1.1 200 Connection Established\r\n\r\n"
}

/// The wire form of each failure response: 405 and 502 are bare status
/// lines; 407 carries the `Proxy-Authenticate` challenge.
pub open spec fn spec_response(r: StatusResponse) -> Seq<char> {
    match r {
        StatusResponse::MethodNotAllowed => "HTTP/1.1 405 Method Not Allowed\r\n\r\n"@,
        StatusResponse::AuthRequired =>
            "HTTP/1.1 407 Proxy Authentication Required\r\nProxy-Authenticate: Basic realm=\"EasyProxy\"\r\n\r\n"@,
        StatusResponse::BadGateway => "HTTP/1.1 502 Bad Gateway\r\n\r\n"@,
    }
}

/// The bytes to write for a `Respond` action.
pub fn response_text(r: StatusResponse) -> (s: &'static str)
    ensures
        s@ == spec_response(r),
{
    match r {
        StatusResponse::MethodNotAllowed => "HTTP/1.1 405 Method Not Allowed\r\n\r\n",
        StatusResponse::AuthRequired =>
            "HTTP/1.1 407 Proxy Authentication Required\r\nProxy-Authenticate: Basic realm=\"EasyProxy\"\r\n\r\n",
        StatusResponse::BadGateway => "HTTP/1.1 502 Bad Gateway\r\n\r\n",
    }
}

/// One connection-log record: timestamp, client address and target,
/// separated by single spaces and ending in a newline.
pub open spec fn spec_log_line(now: Seq<u8>, ip: Seq<u8>, target: Seq<u8>) -> Seq<u8> {
    now + seq![32u8] + ip + seq![32u8] + target + seq![10u8]
}

/// Builds the record appended to the connection log for one
/// authenticated connection.
pub fn connection_log_line(now: &[u8], ip: &[u8], target: &[u8]) -> (r: Vec<u8>)
    ensures
        r@ == spec_log_line(now@, ip@, target@),
{
    let mut v: Vec<u8> = Vec::new();
    crate::scan::append_bytes(&mut v, now);
    v.push(32);
    crate::scan::append_bytes(&mut v, ip);
    v.push(32);
    crate::scan::append_bytes(&mut v, target);
    v.push(10);
    proof {
        assert(v@ =~= spec_log_line(now@, ip@, target@));
    }
    v
}

/// Law: over a complete, well-encoded header block whose method is not
/// `CONNECT`, the session orders exactly the 405 response and terminates;
/// it never orders an upstream connection.
pub proof fn lemma_non_connect_rejected(v: SessionView, b: u8)
    requires
        v.state == SessionState::ReadingHeader,
        ends_with_terminator(v.buf + seq![b]),
        valid_utf8(v.buf + seq![b]),
        method_of(first_line(v.buf + seq![b])) != connect_method(),
    ensures
        spec_step(v, SessionEvent::ByteRead(b)).1 == SessionAction::Respond(
            StatusResponse::MethodNotAllowed,
        ),
        spec_step(v, SessionEvent::ByteRead(b)).0.state == SessionState::Terminated,
{
}

/// Law: over a complete, well-encoded `CONNECT` block none of whose
/// header lines carries credentials that verify — a missing header and a
/// wrong password alike — the session orders exactly the 407 response
/// (whose text carries the `Proxy-Authenticate` challenge) and
/// terminates; it never orders an upstream connection.
pub proof fn lemma_unauthenticated_connect_rejected(v: SessionView, b: u8)
    requires
        v.state == SessionState::ReadingHeader,
        ends_with_terminator(v.buf + seq![b]),
        valid_utf8(v.buf + seq![b]),
        method_of(first_line(v.buf + seq![b])) == connect_method(),
        !(line_end_at(v.buf + seq![b], 0) < (v.buf + seq![b]).len() && auth_from(
            v.buf + seq![b],
            line_end_at(v.buf + seq![b], 0) + 1,
            v.user,
            v.pass,
        )),
    ensures
        spec_step(v, SessionEvent::ByteRead(b)).1 == SessionAction::Respond(
            StatusResponse::AuthRequired,
        ),
        spec_step(v, SessionEvent::ByteRead(b)).0.state == SessionState::Terminated,
{
}

/// Law: a header block that grows past the bound without completing the
/// blank-line terminator closes the connection with no response at all.
pub proof fn lemma_oversized_header_aborts_silently(v: SessionView, b: u8)
    requires
        v.state == SessionState::ReadingHeader,
        !ends_with_terminator(v.buf + seq![b]),
        (v.buf + seq![b]).len() > MAX_HEADER_BYTES,
    ensures
        spec_step(v, SessionEvent::ByteRead(b)).1 == SessionAction::Close,
        spec_step(v, SessionEvent::ByteRead(b)).0.state == SessionState::Terminated,
{
}

/// Law: an authenticated `CONNECT` runs the whole success path: the
/// session orders the upstream connection for the request's own target,
/// then the `200 Connection Established` response, then the relay.
pub proof fn lemma_authenticated_connect_tunnels(v: SessionView, b: u8, t: Seq<u8>)
    requires
        v.state == SessionState::ReadingHeader,
        ends_with_terminator(v.buf + seq![b]),
        request_decision(v.buf + seq![b], v.user, v.pass) == SpecDecision::Tunnel(t),
    ensures
        spec_step(v, SessionEvent::ByteRead(b)).1 == SessionAction::ConnectUpstream,
        spec_step(v, SessionEvent::ByteRead(b)).0.state == SessionState::Authorized,
        spec_step(v, SessionEvent::ByteRead(b)).0.target == t,
        spec_step(
            spec_step(v, SessionEvent::ByteRead(b)).0,
            SessionEvent::ConnectResult(true),
        ).1 == SessionAction::SendEstablished,
        spec_step(
            spec_step(
                spec_step(v, SessionEvent::ByteRead(b)).0,
                SessionEvent::ConnectResult(true),
            ).0,
            SessionEvent::EstablishedSent(true),
        ).1 == SessionAction::StartRelay,
        spec_step(
            spec_step(
                spec_step(v, SessionEvent::ByteRead(b)).0,
                SessionEvent::ConnectResult(true),
            ).0,
            SessionEvent::EstablishedSent(true),
        ).0.state == SessionState::Relaying,
{
}

/// Law: the phases of a connection are strictly sequential, and no
/// session ever relays bytes before both the TLS handshake and the
/// credential check have succeeded: a step ends in `Relaying` only from
/// `Connected` after the success response went out; in `Connected` only
/// from `Authorized` after the outbound leg opened; in `Authorized`
/// only from `ReadingHeader` on a byte completing a block whose
/// decision was an authenticated tunnel.
pub proof fn lemma_phases_are_sequential(v: SessionView, ev: SessionEvent)
    ensures
        spec_step(v, ev).0.state == SessionState::Relaying ==> v.state == SessionState::Connected
            && ev == SessionEvent::EstablishedSent(true),
        spec_step(v, ev).0.state == SessionState::Connected ==> v.state
            == SessionState::Authorized && ev == SessionEvent::ConnectResult(true),
        spec_step(v, ev).0.state == SessionState::Authorized ==> v.state
            == SessionState::ReadingHeader && (exists|b: u8|
            ev == SessionEvent::ByteRead(b) && request_decision(v.buf + seq![b], v.user, v.pass)
                is Tunnel),
{
    match ev {
        SessionEvent::ByteRead(b) => {
            if spec_step(v, ev).0.state == SessionState::Authorized {
                assert(ev == SessionEvent::ByteRead(b) && request_decision(
                    v.buf + seq![b],
                    v.user,
                    v.pass,
                ) is Tunnel);
            }
        },
        _ => {},
    }
}

/// Law: every failure is terminal: a terminated session never moves
/// again and never orders anything but a silent close.
pub proof fn lemma_terminated_is_terminal(v: SessionView, ev: SessionEvent)
    requires
        v.state == SessionState::Terminated,
    ensures
        spec_step(v, ev).0.state == SessionState::Terminated,
        spec_step(v, ev).1 == SessionAction::Close,
{
}

/// Law: once a session is authorized, failure of the outbound leg — the
/// direct and the chained mode feed the same event — yields exactly the
/// 502 response, and the session terminates.
pub proof fn lemma_connect_failure_yields_502(v: SessionView)
    requires
        v.state == SessionState::Authorized,
    ensures
        spec_step(v, SessionEvent::ConnectResult(false)).1 == SessionAction::Respond(
            StatusResponse::BadGateway,
        ),
        spec_step(v, SessionEvent::ConnectResult(false)).0.state == SessionState::Terminated,
{
}

} // verus!
