//! The turn-taking state machine: initial states, polling, the lazy
//! handshake reply, and the facade's send gate.

use chessnet::codec::{ClientToHost, DecodeError, HostToClient, MoveMessage, PieceKind};
use chessnet::session::{Connection, ConnectionType, PollError, PollEvent, State};

fn host(game_id: u64) -> Connection {
    Connection::new(ConnectionType::Host, game_id)
}

fn client(game_id: u64) -> Connection {
    Connection::new(ConnectionType::Client, game_id)
}

#[test]
fn initial_states() {
    let h = host(1);
    assert_eq!(h.state, State::Playing);
    assert!(!h.handshake_done);
    assert!(h.request_sent);
    let c = client(1);
    assert_eq!(c.state, State::WaitingForOpponent);
    assert!(!c.handshake_done);
    assert!(!c.request_sent);
}

#[test]
fn poll_on_empty_buffer_returns_idle_without_mutation() {
    let mut h = host(1);
    assert_eq!(h.poll_incoming(), Ok(PollEvent::Idle));
    assert_eq!(h.state, State::Playing);
    assert!(!h.handshake_done);
    let mut c = client(1);
    assert_eq!(c.poll_incoming(), Ok(PollEvent::Idle));
    assert_eq!(c.state, State::WaitingForOpponent);
    assert!(!c.handshake_done);
}

#[test]
fn poll_on_partial_frame_returns_idle() {
    let mut c = client(1);
    let ack = HostToClient::ConnectAck {
        success: true,
        game_id: Some(1),
        starting_position: None,
        client_is_white: None,
    }
    .encode();
    c.receive_bytes(ack.as_slice());
    assert_eq!(c.poll_incoming(), Ok(PollEvent::Idle));
    let wire = HostToClient::Move(MoveMessage { from: 12, to: 28, promotion: None }).encode();
    c.receive_bytes(&wire[..3]);
    assert_eq!(c.poll_incoming(), Ok(PollEvent::Idle));
    assert_eq!(c.state, State::WaitingForOpponent);
    // The missing bytes complete the frame.
    c.receive_bytes(&wire[3..]);
    assert_eq!(
        c.poll_incoming(),
        Ok(PollEvent::OpponentMove(MoveMessage { from: 12, to: 28, promotion: None }))
    );
    assert_eq!(c.state, State::Playing);
}

#[test]
fn host_answers_connect_request_with_one_ack() {
    let mut h = host(7);
    let req = ClientToHost::ConnectRequest { game_id: 7, spectate: false }.encode();
    h.receive_bytes(req.as_slice());
    let ev = h.poll_incoming().expect("handshake reply expected");
    match ev {
        PollEvent::HandshakeReply(w) => {
            let ack = HostToClient::decode(w.as_slice()).expect("ack must decode");
            assert_eq!(
                ack,
                HostToClient::ConnectAck {
                    success: true,
                    game_id: Some(7),
                    starting_position: None,
                    client_is_white: None,
                }
            );
        }
        other => panic!("expected a handshake reply, got {:?}", other),
    }
    // No turn change: the host still has the move.
    assert_eq!(h.state, State::Playing);
    assert!(h.handshake_done);
    // Nothing further buffered: no second ack.
    assert_eq!(h.poll_incoming(), Ok(PollEvent::Idle));
}

#[test]
fn host_rejects_second_connect_request() {
    let mut h = host(7);
    let req = ClientToHost::ConnectRequest { game_id: 7, spectate: false }.encode();
    h.receive_bytes(req.as_slice());
    h.poll_incoming().expect("first request is answered");
    h.receive_bytes(req.as_slice());
    assert_eq!(h.poll_incoming(), Err(PollError::ProtocolViolation));
}

#[test]
fn client_ack_failure_does_not_hand_over_turn() {
    let mut c = client(1);
    let nack = HostToClient::ConnectAck {
        success: false,
        game_id: None,
        starting_position: None,
        client_is_white: None,
    }
    .encode();
    c.receive_bytes(nack.as_slice());
    assert_eq!(c.poll_incoming(), Ok(PollEvent::Idle));
    assert_eq!(c.state, State::WaitingForOpponent);
    assert!(!c.handshake_done);
}

#[test]
fn client_ack_success_completes_handshake_but_keeps_waiting() {
    let mut c = client(1);
    let ack = HostToClient::ConnectAck {
        success: true,
        game_id: Some(1),
        starting_position: None,
        client_is_white: None,
    }
    .encode();
    c.receive_bytes(ack.as_slice());
    assert_eq!(c.poll_incoming(), Ok(PollEvent::Idle));
    // The ack alone does not hand the turn to the client.
    assert_eq!(c.state, State::WaitingForOpponent);
    assert!(c.handshake_done);
}

#[test]
fn receiving_a_move_transitions_receiver_to_playing() {
    let mut c = client(1);
    let ack = HostToClient::ConnectAck {
        success: true,
        game_id: Some(1),
        starting_position: None,
        client_is_white: None,
    }
    .encode();
    c.receive_bytes(ack.as_slice());
    c.poll_incoming().expect("ack consumed");
    let mv = HostToClient::Move(MoveMessage { from: 12, to: 28, promotion: None }).encode();
    c.receive_bytes(mv.as_slice());
    assert_eq!(
        c.poll_incoming(),
        Ok(PollEvent::OpponentMove(MoveMessage { from: 12, to: 28, promotion: None }))
    );
    assert_eq!(c.state, State::Playing);
}

#[test]
fn move_before_handshake_is_a_protocol_violation() {
    // Client side: no successful ack yet.
    let mut c = client(1);
    let mv = HostToClient::Move(MoveMessage { from: 12, to: 28, promotion: None }).encode();
    c.receive_bytes(mv.as_slice());
    assert_eq!(c.poll_incoming(), Err(PollError::ProtocolViolation));
    // Host side: no connect request yet.
    let mut h = host(1);
    let mv_c = ClientToHost::Move(MoveMessage { from: 12, to: 28, promotion: None }).encode();
    h.receive_bytes(mv_c.as_slice());
    assert_eq!(h.poll_incoming(), Err(PollError::ProtocolViolation));
}

#[test]
fn malformed_bytes_are_a_fatal_decode_error() {
    let mut h = host(1);
    // A complete frame whose payload carries an unknown tag.
    h.receive_bytes(&[0, 0, 0, 4, 9, 1, 2, 3]);
    assert_eq!(h.poll_incoming(), Err(PollError::Decode(DecodeError::Malformed)));
}

#[test]
fn sending_a_move_yields_the_turn() {
    let mut h = host(1);
    let wire = h.send_move(12, 28, None);
    assert_eq!(h.state, State::WaitingForOpponent);
    assert_eq!(
        HostToClient::decode(wire.as_slice()),
        Ok(HostToClient::Move(MoveMessage { from: 12, to: 28, promotion: None }))
    );
}

#[test]
fn client_sends_moves_in_its_own_direction() {
    let mut c = client(1);
    c.state = State::Playing;
    let wire = c.send_move(52, 36, Some(PieceKind::Queen));
    assert_eq!(c.state, State::WaitingForOpponent);
    assert_eq!(
        ClientToHost::decode(wire.as_slice()),
        Ok(ClientToHost::Move(MoveMessage { from: 52, to: 36, promotion: Some(PieceKind::Queen) }))
    );
}

#[test]
fn local_move_request_is_gated_on_turn_and_squares() {
    let mut c = client(1);
    // Not this peer's turn: ignored.
    assert_eq!(c.on_local_move_request(12, 28, None), None);
    assert_eq!(c.state, State::WaitingForOpponent);
    let mut h = host(1);
    // A move from a square to itself: ignored.
    assert_eq!(h.on_local_move_request(12, 12, None), None);
    // A square off the board: ignored.
    assert_eq!(h.on_local_move_request(64, 12, None), None);
    assert_eq!(h.state, State::Playing);
    // A real move while playing: sent, turn passes.
    let wire = h.on_local_move_request(12, 28, None).expect("move accepted");
    assert_eq!(h.state, State::WaitingForOpponent);
    assert_eq!(
        HostToClient::decode(wire.as_slice()),
        Ok(HostToClient::Move(MoveMessage { from: 12, to: 28, promotion: None }))
    );
}

#[test]
fn client_hands_out_its_connect_request_exactly_once() {
    let mut c = client(9);
    let req = c.take_pending_request().expect("first request");
    assert_eq!(
        ClientToHost::decode(req.as_slice()),
        Ok(ClientToHost::ConnectRequest { game_id: 9, spectate: false })
    );
    assert!(c.request_sent);
    assert_eq!(c.take_pending_request(), None);
    let mut h = host(9);
    assert_eq!(h.take_pending_request(), None);
}

#[test]
fn on_tick_emits_the_connect_request_once() {
    let mut c = client(3);
    let (ev, req) = c.on_tick();
    assert_eq!(ev, Ok(PollEvent::Idle));
    let req = req.expect("first tick sends the request");
    assert_eq!(
        ClientToHost::decode(req.as_slice()),
        Ok(ClientToHost::ConnectRequest { game_id: 3, spectate: false })
    );
    let (ev2, req2) = c.on_tick();
    assert_eq!(ev2, Ok(PollEvent::Idle));
    assert_eq!(req2, None);
}

#[test]
fn two_frames_buffered_are_polled_one_per_tick() {
    let mut c = client(1);
    let ack = HostToClient::ConnectAck {
        success: true,
        game_id: Some(1),
        starting_position: None,
        client_is_white: None,
    }
    .encode();
    let mv = HostToClient::Move(MoveMessage { from: 6, to: 21, promotion: None }).encode();
    let mut both = ack.clone();
    both.extend_from_slice(mv.as_slice());
    c.receive_bytes(both.as_slice());
    assert_eq!(c.poll_incoming(), Ok(PollEvent::Idle));
    assert_eq!(c.state, State::WaitingForOpponent);
    assert_eq!(
        c.poll_incoming(),
        Ok(PollEvent::OpponentMove(MoveMessage { from: 6, to: 21, promotion: None }))
    );
    assert_eq!(c.state, State::Playing);
}
