//! An end-to-end session between two endpoints, with the transport
//! simulated by handing each peer's outgoing bytes to the other.
//! Binding, connecting and the socket reads and writes belong to the
//! driver outside the library; everything in between is exercised here.

use chessnet::codec::{ClientToHost, HostToClient, MoveMessage};
use chessnet::session::{Connection, ConnectionType, PollEvent, State};

#[test]
fn end_to_end_session() {
    // The host listens, the client connects; both sides agree on game 1.
    let mut host = Connection::new(ConnectionType::Host, 1);
    let mut client = Connection::new(ConnectionType::Client, 1);
    assert_eq!(host.state, State::Playing);
    assert_eq!(client.state, State::WaitingForOpponent);

    // The client's first tick hands out its connect request.
    let (ev, request) = client.on_tick();
    assert_eq!(ev, Ok(PollEvent::Idle));
    let request = request.expect("the client sends its request first");
    assert_eq!(
        ClientToHost::decode(request.as_slice()),
        Ok(ClientToHost::ConnectRequest { game_id: 1, spectate: false })
    );

    // The host's next poll answers it and stays in `Playing`.
    host.receive_bytes(request.as_slice());
    let (ev, none) = host.on_tick();
    assert_eq!(none, None);
    let reply = match ev.expect("the host replies") {
        PollEvent::HandshakeReply(w) => w,
        other => panic!("expected the handshake reply, got {:?}", other),
    };
    assert_eq!(
        HostToClient::decode(reply.as_slice()),
        Ok(HostToClient::ConnectAck {
            success: true,
            game_id: Some(1),
            starting_position: None,
            client_is_white: None,
        })
    );
    assert_eq!(host.state, State::Playing);

    // The ack completes the client's handshake; the client still waits.
    client.receive_bytes(reply.as_slice());
    let (ev, none) = client.on_tick();
    assert_eq!(ev, Ok(PollEvent::Idle));
    assert_eq!(none, None);
    assert!(client.handshake_done);
    assert_eq!(client.state, State::WaitingForOpponent);

    // The host moves; the turn passes to the client.
    let wire = host
        .on_local_move_request(12, 28, None)
        .expect("the host has the turn");
    assert_eq!(host.state, State::WaitingForOpponent);

    client.receive_bytes(wire.as_slice());
    let (ev, none) = client.on_tick();
    assert_eq!(none, None);
    assert_eq!(
        ev,
        Ok(PollEvent::OpponentMove(MoveMessage { from: 12, to: 28, promotion: None }))
    );
    assert_eq!(client.state, State::Playing);

    // Never both playing once the wire is quiet: the turn went over.
    assert_eq!(host.state, State::WaitingForOpponent);

    // And back: the client answers with its own move.
    let wire = client
        .on_local_move_request(52, 36, None)
        .expect("now the client has the turn");
    assert_eq!(client.state, State::WaitingForOpponent);
    host.receive_bytes(wire.as_slice());
    let (ev, none) = host.on_tick();
    assert_eq!(none, None);
    assert_eq!(
        ev,
        Ok(PollEvent::OpponentMove(MoveMessage { from: 52, to: 36, promotion: None }))
    );
    assert_eq!(host.state, State::Playing);
    assert_eq!(client.state, State::WaitingForOpponent);
}
