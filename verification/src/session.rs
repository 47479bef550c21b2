//! The session state machine and the game-session facade.
//!
//! A session endpoint owns its role, the turn state and a receive
//! buffer. The transport itself lives outside this crate: the driver
//! hands every chunk of bytes read from the transport to
//! [`Connection::receive_bytes`], calls [`Connection::on_tick`] once
//! per iteration, writes whatever bytes the session returns, and
//! applies a returned opponent move to the board collaborator.

use vstd::prelude::*;

use crate::codec::{
    c2h_encoding, h2c_encoding, ClientToHost, DecodeError, HostToClient, MoveMessage, PieceKind,
};
use crate::codec::{lemma_c2h_encoding_injective, lemma_h2c_encoding_injective};
use crate::wire::{after_frame, first_frame, frame_ready, FrameBuffer};

verus! {

/// Turn-taking status: whether this peer may send a move now or must
/// wait for the remote peer's move.
#[derive(Clone, Copy, Debug, PartialEq, Eq)]
pub enum State {
    Playing,
    WaitingForOpponent,
}

/// Which side of the handshake this process plays; fixed for the
/// lifetime of a session.
#[derive(Clone, Copy, Debug, PartialEq, Eq)]
pub enum ConnectionType {
    Host,
    Client,
}

/// An error surfaced by polling: the incoming bytes do not decode, or
/// a peer broke the handshake discipline. Both are fatal to the
/// session; there is no resynchronization.
#[derive(Clone, Copy, Debug, PartialEq, Eq)]
pub enum PollError {
    Decode(DecodeError),
    ProtocolViolation,
}

/// An error surfaced by the transport when a write does not complete.
///
/// The transport is driven outside this crate, so this value is
/// produced by the driver, not by the session functions.
#[derive(Clone, Copy, Debug, PartialEq, Eq)]
pub enum SendError {
    TransportWrite,
}

/// What one poll of the session produced.
#[derive(Debug, PartialEq, Eq)]
pub enum PollEvent {
    /// Nothing to act on: no complete frame, or a handshake message
    /// that needs no reply.
    Idle,
    /// The host's one-time handshake reply; the driver must write
    /// these bytes to the transport.
    HandshakeReply(Vec<u8>),
    /// The opponent's move; the driver must apply it to the board.
    OpponentMove(MoveMessage),
}

/// The turn state a fresh session starts in: the host's side moves
/// first by convention.
pub open spec fn initial_state(role: ConnectionType) -> State {
    if role is Host {
        State::Playing
    } else {
        State::WaitingForOpponent
    }
}

/// The wire bytes of a move envelope in the direction `role` sends.
pub open spec fn move_encoding_for(role: ConnectionType, mm: MoveMessage) -> Seq<u8> {
    if role is Host {
        h2c_encoding(HostToClient::Move(mm))
    } else {
        c2h_encoding(ClientToHost::Move(mm))
    }
}

/// The host's one-time handshake reply to a connect request.
pub open spec fn ack_for(game_id: u64) -> HostToClient {
    HostToClient::ConnectAck {
        success: true,
        game_id: Option::Some(game_id),
        starting_position: Option::None,
        client_is_white: Option::None,
    }
}

/// One endpoint of a session: role, turn state, handshake progress and
/// the receive buffer. The transport handle stays with the driver.
pub struct Connection {
    pub role: ConnectionType,
    pub state: State,
    pub game_id: u64,
    /// Host: the connect request has been received and answered.
    /// Client: a successful connect acknowledgement has arrived.
    pub handshake_done: bool,
    /// Client: the prepared connect request has been handed out for
    /// sending. Hosts have nothing to send first, so they start `true`.
    pub request_sent: bool,
    pub inbox: FrameBuffer,
}

/// What `poll_incoming` leaves unchanged in every case.
pub open spec fn poll_fixed(pre: Connection, post: Connection) -> bool {
    &&& post.role == pre.role
    &&& post.game_id == pre.game_id
    &&& post.request_sent == pre.request_sent
}

/// How the host reacts to one decoded envelope.
pub open spec fn host_msg_post(
    pre: Connection,
    post: Connection,
    r: Result<PollEvent, PollError>,
    m: ClientToHost,
) -> bool {
    match m {
        ClientToHost::ConnectRequest { .. } => {
            &&& post.state == pre.state
            &&& (!pre.handshake_done ==> post.handshake_done && (r matches Result::Ok(
                PollEvent::HandshakeReply(w),
            ) && w@ == h2c_encoding(ack_for(pre.game_id))))
            &&& (pre.handshake_done ==> r == Result::<PollEvent, PollError>::Err(
                PollError::ProtocolViolation,
            ) && post.handshake_done)
        },
        ClientToHost::Move(mm) => {
            &&& (pre.handshake_done ==> r == Result::<PollEvent, PollError>::Ok(
                PollEvent::OpponentMove(mm),
            ) && post.state is Playing && post.handshake_done)
            &&& (!pre.handshake_done ==> r == Result::<PollEvent, PollError>::Err(
                PollError::ProtocolViolation,
            ) && post.state == pre.state && !post.handshake_done)
        },
    }
}

/// How the client reacts to one decoded envelope.
pub open spec fn client_msg_post(
    pre: Connection,
    post: Connection,
    r: Result<PollEvent, PollError>,
    m: HostToClient,
) -> bool {
    match m {
        HostToClient::ConnectAck { success, .. } => {
            &&& r == Result::<PollEvent, PollError>::Ok(PollEvent::Idle)
            &&& post.state == pre.state
            &&& post.handshake_done == (pre.handshake_done || success)
        },
        HostToClient::Move(mm) => {
            &&& (pre.handshake_done ==> r == Result::<PollEvent, PollError>::Ok(
                PollEvent::OpponentMove(mm),
            ) && post.state is Playing && post.handshake_done)
            &&& (!pre.handshake_done ==> r == Result::<PollEvent, PollError>::Err(
                PollError::ProtocolViolation,
            ) && post.state == pre.state && !post.handshake_done)
        },
        HostToClient::MoveAck => {
            &&& r == Result::<PollEvent, PollError>::Ok(PollEvent::Idle)
            &&& post.state == pre.state
            &&& post.handshake_done == pre.handshake_done
        },
    }
}

/// What `poll_incoming` does: consume at most the first complete frame
/// of the receive buffer and react to the envelope it holds.
pub open spec fn poll_post(
    pre: Connection,
    post: Connection,
    r: Result<PollEvent, PollError>,
) -> bool {
    let b = pre.inbox.contents();
    &&& poll_fixed(pre, post)
    &&& (!frame_ready(b) ==> post.state == pre.state && post.handshake_done == pre.handshake_done
        && post.inbox.contents() == b && r == Result::<PollEvent, PollError>::Ok(PollEvent::Idle))
    &&& (frame_ready(b) ==> ({
        let fb = first_frame(b);
        &&& post.inbox.contents() == after_frame(b)
        &&& (pre.role is Host ==> {
            &&& ((forall|m: ClientToHost| m.wf() ==> fb != c2h_encoding(m)) ==> r
                == Result::<PollEvent, PollError>::Err(PollError::Decode(DecodeError::Malformed))
                && post.state == pre.state && post.handshake_done == pre.handshake_done)
            &&& (forall|m: ClientToHost|
                m.wf() && fb == c2h_encoding(m) ==> host_msg_post(pre, post, r, m))
        })
        &&& (pre.role is Client ==> {
            &&& ((forall|m: HostToClient| m.wf() ==> fb != h2c_encoding(m)) ==> r
                == Result::<PollEvent, PollError>::Err(PollError::Decode(DecodeError::Malformed))
                && post.state == pre.state && post.handshake_done == pre.handshake_done)
            &&& (forall|m: HostToClient|
                m.wf() && fb == h2c_encoding(m) ==> client_msg_post(pre, post, r, m))
        })
    }))
}

impl Connection {
    /// Create a session endpoint for the given role.
    ///
    /// The host starts with the turn; the client starts waiting. The
    /// client holds a prepared connect request, still to be sent.
    pub fn new(role: ConnectionType, game_id: u64) -> (c: Connection)
        ensures
            c.role == role,
            c.game_id == game_id,
            c.state == initial_state(role),
            !c.handshake_done,
            c.request_sent == (role is Host),
            c.inbox.contents() == Seq::<u8>::empty(),
    {
        let state = match role {
            ConnectionType::Host => State::Playing,
            ConnectionType::Client => State::WaitingForOpponent,
        };
        let request_sent = match role {
            ConnectionType::Host => true,
            ConnectionType::Client => false,
        };
        Connection { role, state, game_id, handshake_done: false, request_sent, inbox: FrameBuffer::new() }
    }

    /// Hand the session a chunk of bytes read from the transport.
    pub fn receive_bytes(&mut self, chunk: &[u8])
        ensures
            final(self).role == old(self).role,
            final(self).state == old(self).state,
            final(self).game_id == old(self).game_id,
            final(self).handshake_done == old(self).handshake_done,
            final(self).request_sent == old(self).request_sent,
            final(self).inbox.contents() == old(self).inbox.contents() + chunk@,
    {
        self.inbox.push_bytes(chunk);
    }

    /// The client's prepared connect request, the first time anything
    /// is to be sent; `None` afterwards and for hosts.
    pub fn take_pending_request(&mut self) -> (r: Option<Vec<u8>>)
        ensures
            final(self).role == old(self).role,
            final(self).state == old(self).state,
            final(self).game_id == old(self).game_id,
            final(self).handshake_done == old(self).handshake_done,
            final(self).inbox == old(self).inbox,
            final(self).request_sent == (old(self).request_sent || old(self).role is Client),
            (old(self).role is Client && !old(self).request_sent) <==> r is Some,
            r matches Option::Some(w) ==> w@ == c2h_encoding(
                ClientToHost::ConnectRequest { game_id: old(self).game_id, spectate: false },
            ),
    {
        match self.role {
            ConnectionType::Client => {
                if !self.request_sent {
                    self.request_sent = true;
                    let req = ClientToHost::ConnectRequest {
                        game_id: self.game_id,
                        spectate: false,
                    };
                    Option::Some(req.encode())
                } else {
                    Option::None
                }
            },
            ConnectionType::Host => Option::None,
        }
    }

    /// Encode and hand out this peer's move, yielding the turn.
    ///
    /// Sending transitions the sender to `WaitingForOpponent`. Calling
    /// while not `Playing` is a caller contract violation: the facade
    /// gates on the turn state, and this function does not re-check.
    pub fn send_move(&mut self, from: u8, to: u8, promotion: Option<PieceKind>) -> (wire: Vec<u8>)
        requires
            old(self).state is Playing,
            from <= 63,
            to <= 63,
            from != to,
        ensures
            final(self).state is WaitingForOpponent,
            final(self).role == old(self).role,
            final(self).game_id == old(self).game_id,
            final(self).handshake_done == old(self).handshake_done,
            final(self).request_sent == old(self).request_sent,
            final(self).inbox == old(self).inbox,
            wire@ == move_encoding_for(old(self).role, MoveMessage { from, to, promotion }),
    {
        let mm = MoveMessage { from, to, promotion };
        self.state = State::WaitingForOpponent;
        match self.role {
            ConnectionType::Host => HostToClient::Move(mm).encode(),
            ConnectionType::Client => ClientToHost::Move(mm).encode(),
        }
    }

    /// Make exactly one poll attempt on the receive buffer.
    ///
    /// With no complete frame buffered this returns `Idle` and changes
    /// nothing. Otherwise the first frame is consumed and decoded in
    /// the direction this peer receives: an opponent move turns the
    /// state to `Playing` and is handed out to be applied; a connect
    /// request (host side, first time) produces the one-time handshake
    /// reply to be written back, with no turn change; a successful
    /// connect acknowledgement (client side) completes the handshake
    /// but keeps the client waiting until an actual move arrives; bytes
    /// that do not decode, a second connect request, and a move before
    /// the handshake are fatal errors.
    pub fn poll_incoming(&mut self) -> (r: Result<PollEvent, PollError>)
        ensures
            poll_post(*old(self), *final(self), r),
    {
        if !self.inbox.has_frame() {
            return Result::Ok(PollEvent::Idle);
        }
        let fr: Vec<u8> = self.inbox.take_frame();
        let ghost pre = *old(self);
        let ghost fb = first_frame(pre.inbox.contents());
        match self.role {
            ConnectionType::Host => {
                match ClientToHost::decode(fr.as_slice()) {
                    Result::Err(_) => Result::Err(PollError::Decode(DecodeError::Malformed)),
                    Result::Ok(ClientToHost::ConnectRequest { game_id: rq_gid, spectate: rq_sp }) => {
                        let ghost m0 = (ClientToHost::ConnectRequest {
                            game_id: rq_gid,
                            spectate: rq_sp,
                        });
                        if self.handshake_done {
                            let r0 = Result::<PollEvent, PollError>::Err(
                                PollError::ProtocolViolation,
                            );
                            proof {
                                assert forall|m: ClientToHost|
                                    m.wf() && fb == c2h_encoding(m) implies host_msg_post(
                                    pre,
                                    *self,
                                    r0,
                                    m,
                                ) by {
                                    lemma_c2h_encoding_injective(m, m0);
                                };
                            }
                            r0
                        } else {
                            self.handshake_done = true;
                            let ack = HostToClient::ConnectAck {
                                success: true,
                                game_id: Option::Some(self.game_id),
                                starting_position: Option::None,
                                client_is_white: Option::None,
                            };
                            let w = ack.encode();
                            let r0 = Result::<PollEvent, PollError>::Ok(
                                PollEvent::HandshakeReply(w),
                            );
                            proof {
                                assert forall|m: ClientToHost|
                                    m.wf() && fb == c2h_encoding(m) implies host_msg_post(
                                    pre,
                                    *self,
                                    r0,
                                    m,
                                ) by {
                                    lemma_c2h_encoding_injective(m, m0);
                                };
                            }
                            r0
                        }
                    },
                    Result::Ok(ClientToHost::Move(mm)) => {
                        if self.handshake_done {
                            self.state = State::Playing;
                            let r0 = Result::<PollEvent, PollError>::Ok(
                                PollEvent::OpponentMove(mm),
                            );
                            proof {
                                assert forall|m: ClientToHost|
                                    m.wf() && fb == c2h_encoding(m) implies host_msg_post(
                                    pre,
                                    *self,
                                    r0,
                                    m,
                                ) by {
                                    lemma_c2h_encoding_injective(m, ClientToHost::Move(mm));
                                };
                            }
                            r0
                        } else {
                            let r0 = Result::<PollEvent, PollError>::Err(
                                PollError::ProtocolViolation,
                            );
                            proof {
                                assert forall|m: ClientToHost|
                                    m.wf() && fb == c2h_encoding(m) implies host_msg_post(
                                    pre,
                                    *self,
                                    r0,
                                    m,
                                ) by {
                                    lemma_c2h_encoding_injective(m, ClientToHost::Move(mm));
                                };
                            }
                            r0
                        }
                    },
                }
            },
            ConnectionType::Client => {
                match HostToClient::decode(fr.as_slice()) {
                    Result::Err(_) => Result::Err(PollError::Decode(DecodeError::Malformed)),
                    Result::Ok(
                        HostToClient::ConnectAck {
                            success,
                            game_id: ack_game_id,
                            starting_position,
                            client_is_white,
                        },
                    ) => {
                        let ghost m0 = (HostToClient::ConnectAck {
                            success,
                            game_id: ack_game_id,
                            starting_position,
                            client_is_white,
                        });
                        if success {
                            self.handshake_done = true;
                        }
                        let r0 = Result::<PollEvent, PollError>::Ok(PollEvent::Idle);
                        proof {
                            assert forall|m: HostToClient|
                                m.wf() && fb == h2c_encoding(m) implies client_msg_post(
                                pre,
                                *self,
                                r0,
                                m,
                            ) by {
                                lemma_h2c_encoding_injective(m, m0);
                            };
                        }
                        r0
                    },
                    Result::Ok(HostToClient::Move(mm)) => {
                        if self.handshake_done {
                            self.state = State::Playing;
                            let r0 = Result::<PollEvent, PollError>::Ok(
                                PollEvent::OpponentMove(mm),
                            );
                            proof {
                                assert forall|m: HostToClient|
                                    m.wf() && fb == h2c_encoding(m) implies client_msg_post(
                                    pre,
                                    *self,
                                    r0,
                                    m,
                                ) by {
                                    lemma_h2c_encoding_injective(m, HostToClient::Move(mm));
                                };
                            }
                            r0
                        } else {
                            let r0 = Result::<PollEvent, PollError>::Err(
                                PollError::ProtocolViolation,
                            );
                            proof {
                                assert forall|m: HostToClient|
                                    m.wf() && fb == h2c_encoding(m) implies client_msg_post(
                                    pre,
                                    *self,
                                    r0,
                                    m,
                                ) by {
                                    lemma_h2c_encoding_injective(m, HostToClient::Move(mm));
                                };
                            }
                            r0
                        }
                    },
                    Result::Ok(HostToClient::MoveAck) => {
                        // Reserved message kind: nothing reacts to it.
                        let r0 = Result::<PollEvent, PollError>::Ok(PollEvent::Idle);
                        proof {
                            assert forall|m: HostToClient|
                                m.wf() && fb == h2c_encoding(m) implies client_msg_post(
                                pre,
                                *self,
                                r0,
                                m,
                            ) by {
                                lemma_h2c_encoding_injective(m, HostToClient::MoveAck);
                            };
                        }
                        r0
                    },
                }
            },
        }
    }

    /// The facade's gate for a local move request: send only when it is
    /// this peer's turn and the squares name a real move.
    ///
    /// On `Some`, the driver applies the move to the board collaborator
    /// and writes the returned bytes; the turn passes to the opponent.
    /// Out of turn, or for squares no move message may carry, the
    /// request is ignored and nothing changes.
    pub fn on_local_move_request(
        &mut self,
        from: u8,
        to: u8,
        promotion: Option<PieceKind>,
    ) -> (wire: Option<Vec<u8>>)
        ensures
            final(self).role == old(self).role,
            final(self).game_id == old(self).game_id,
            final(self).handshake_done == old(self).handshake_done,
            final(self).request_sent == old(self).request_sent,
            final(self).inbox == old(self).inbox,
            (old(self).state is Playing && from <= 63 && to <= 63 && from != to) ==> (
            wire matches Option::Some(w) && w@ == move_encoding_for(
                old(self).role,
                MoveMessage { from, to, promotion },
            ) && final(self).state is WaitingForOpponent),
            !(old(self).state is Playing && from <= 63 && to <= 63 && from != to) ==> wire is None
                && *final(self) == *old(self),
    {
        let playing = match self.state {
            State::Playing => true,
            State::WaitingForOpponent => false,
        };
        if !playing || from > 63 || to > 63 || from == to {
            return Option::None;
        }
        Option::Some(self.send_move(from, to, promotion))
    }

    /// One driver tick: poll the receive buffer once; then, if this is
    /// a client that has not sent its prepared connect request yet,
    /// hand the request out to be written.
    ///
    /// The second component is the connect request to write, in
    /// addition to whatever bytes the poll event itself carries.
    pub fn on_tick(&mut self) -> (r: (Result<PollEvent, PollError>, Option<Vec<u8>>))
        ensures
            r.0 is Err ==> poll_post(*old(self), *final(self), r.0) && r.1 is None,
            r.0 is Ok ==> ({
                let mid = (Connection { request_sent: old(self).request_sent, ..*final(self) });
                &&& poll_post(*old(self), mid, r.0)
                &&& final(self).request_sent == (old(self).request_sent || old(
                    self,
                ).role is Client)
                &&& ((old(self).role is Client && !old(self).request_sent) <==> r.1 is Some)
                &&& (r.1 matches Option::Some(w) ==> w@ == c2h_encoding(
                    ClientToHost::ConnectRequest { game_id: old(self).game_id, spectate: false },
                ))
            }),
    {
        let ev = self.poll_incoming();
        match ev {
            Result::Err(e) => (Result::Err(e), Option::None),
            Result::Ok(ev0) => {
                let req = self.take_pending_request();
                (Result::Ok(ev0), req)
            },
        }
    }
}

} // verus!
