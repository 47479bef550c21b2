//! Round trips, exact wire bytes, and malformed-input rejection for the
//! message codec.

use chessnet::codec::{ClientToHost, DecodeError, HostToClient, MoveMessage, PieceKind};

fn move_msg(from: u8, to: u8, promotion: Option<PieceKind>) -> MoveMessage {
    MoveMessage { from, to, promotion }
}

#[test]
fn move_round_trip_all_squares() {
    for from in 0u8..64 {
        for to in 0u8..64 {
            if from == to {
                continue;
            }
            let m = ClientToHost::Move(move_msg(from, to, None));
            let e = m.encode();
            let d = ClientToHost::decode(e.as_slice()).expect("encoded move must decode");
            assert_eq!(d, m);
        }
    }
}

#[test]
fn move_round_trip_promotions() {
    let kinds = [
        None,
        Some(PieceKind::Knight),
        Some(PieceKind::Bishop),
        Some(PieceKind::Rook),
        Some(PieceKind::Queen),
    ];
    for promotion in kinds {
        let c = ClientToHost::Move(move_msg(8, 0, promotion));
        assert_eq!(ClientToHost::decode(c.encode().as_slice()), Ok(c));
        let h = HostToClient::Move(move_msg(55, 63, promotion));
        assert_eq!(HostToClient::decode(h.encode().as_slice()), Ok(h));
    }
}

#[test]
fn connect_request_round_trip() {
    let m = ClientToHost::ConnectRequest { game_id: 0xDEAD_BEEF_0123_4567, spectate: true };
    assert_eq!(ClientToHost::decode(m.encode().as_slice()), Ok(m));
    let m2 = ClientToHost::ConnectRequest { game_id: 0, spectate: false };
    assert_eq!(ClientToHost::decode(m2.encode().as_slice()), Ok(m2));
}

#[test]
fn connect_ack_round_trip_variants() {
    let game_ids = [None, Some(7u64)];
    let positions: [Option<Vec<u8>>; 2] = [None, Some(vec![1u8, 2, 3, 255])];
    let whites = [None, Some(true), Some(false)];
    for success in [false, true] {
        for game_id in game_ids {
            for starting_position in &positions {
                for client_is_white in whites {
                    let m = HostToClient::ConnectAck {
                        success,
                        game_id,
                        starting_position: starting_position.clone(),
                        client_is_white,
                    };
                    let e = m.encode();
                    assert_eq!(HostToClient::decode(e.as_slice()), Ok(m));
                }
            }
        }
    }
}

#[test]
fn connect_ack_empty_position_round_trip() {
    let m = HostToClient::ConnectAck {
        success: true,
        game_id: Some(1),
        starting_position: Some(Vec::new()),
        client_is_white: None,
    };
    assert_eq!(HostToClient::decode(m.encode().as_slice()), Ok(m));
}

#[test]
fn move_ack_round_trip() {
    let m = HostToClient::MoveAck;
    let e = m.encode();
    assert_eq!(e, vec![0, 0, 0, 1, 4]);
    assert_eq!(HostToClient::decode(e.as_slice()), Ok(HostToClient::MoveAck));
}

#[test]
fn encode_move_exact_bytes() {
    let e = ClientToHost::Move(move_msg(12, 28, None)).encode();
    assert_eq!(e, vec![0, 0, 0, 4, 2, 12, 28, 0]);
    let e2 = HostToClient::Move(move_msg(48, 56, Some(PieceKind::Queen))).encode();
    assert_eq!(e2, vec![0, 0, 0, 4, 2, 48, 56, 4]);
}

#[test]
fn encode_connect_request_exact_bytes() {
    let e = ClientToHost::ConnectRequest { game_id: 7, spectate: false }.encode();
    assert_eq!(e, vec![0, 0, 0, 10, 1, 0, 0, 0, 0, 0, 0, 0, 7, 0]);
}

#[test]
fn encode_connect_ack_exact_bytes() {
    let e = HostToClient::ConnectAck {
        success: true,
        game_id: Some(7),
        starting_position: None,
        client_is_white: None,
    }
    .encode();
    assert_eq!(e, vec![0, 0, 0, 13, 3, 1, 1, 0, 0, 0, 0, 0, 0, 0, 7, 0, 0]);
}

#[test]
fn encode_connect_ack_with_position_exact_bytes() {
    let e = HostToClient::ConnectAck {
        success: false,
        game_id: None,
        starting_position: Some(vec![9, 8]),
        client_is_white: Some(true),
    }
    .encode();
    assert_eq!(e, vec![0, 0, 0, 12, 3, 0, 0, 1, 0, 0, 0, 2, 9, 8, 1, 1]);
}

#[test]
fn decode_empty_and_short_inputs_malformed() {
    for n in 0..5 {
        let b = vec![0u8; n];
        assert_eq!(ClientToHost::decode(&b), Err(DecodeError::Malformed));
        assert_eq!(HostToClient::decode(&b), Err(DecodeError::Malformed));
    }
}

#[test]
fn decode_truncated_envelope_malformed() {
    let full = ClientToHost::ConnectRequest { game_id: 7, spectate: false }.encode();
    for n in 0..full.len() {
        assert_eq!(ClientToHost::decode(&full[..n]), Err(DecodeError::Malformed));
    }
    let full_h = HostToClient::ConnectAck {
        success: true,
        game_id: Some(7),
        starting_position: Some(vec![1, 2, 3]),
        client_is_white: Some(false),
    }
    .encode();
    for n in 0..full_h.len() {
        assert_eq!(HostToClient::decode(&full_h[..n]), Err(DecodeError::Malformed));
    }
}

#[test]
fn decode_prefix_mismatch_malformed() {
    // A valid move payload under a length prefix that promises one byte
    // more than is present.
    let b = vec![0, 0, 0, 5, 2, 12, 28, 0];
    assert_eq!(ClientToHost::decode(&b), Err(DecodeError::Malformed));
    // Trailing byte beyond the announced payload.
    let b2 = vec![0, 0, 0, 4, 2, 12, 28, 0, 0];
    assert_eq!(ClientToHost::decode(&b2), Err(DecodeError::Malformed));
}

#[test]
fn decode_unknown_tag_malformed() {
    let b = vec![0, 0, 0, 4, 9, 12, 28, 0];
    assert_eq!(ClientToHost::decode(&b), Err(DecodeError::Malformed));
    assert_eq!(HostToClient::decode(&b), Err(DecodeError::Malformed));
    // Direction separation: each decoder rejects the other side's tags.
    let ack = HostToClient::ConnectAck {
        success: true,
        game_id: Some(7),
        starting_position: None,
        client_is_white: None,
    }
    .encode();
    assert_eq!(ClientToHost::decode(ack.as_slice()), Err(DecodeError::Malformed));
    let req = ClientToHost::ConnectRequest { game_id: 7, spectate: false }.encode();
    assert_eq!(HostToClient::decode(req.as_slice()), Err(DecodeError::Malformed));
}

#[test]
fn decode_bad_move_fields_malformed() {
    // Promotion byte out of range.
    let b = vec![0, 0, 0, 4, 2, 12, 28, 5];
    assert_eq!(ClientToHost::decode(&b), Err(DecodeError::Malformed));
    // Square off the board.
    let b2 = vec![0, 0, 0, 4, 2, 64, 28, 0];
    assert_eq!(ClientToHost::decode(&b2), Err(DecodeError::Malformed));
    let b3 = vec![0, 0, 0, 4, 2, 12, 200, 0];
    assert_eq!(HostToClient::decode(&b3), Err(DecodeError::Malformed));
    // A move from a square to itself.
    let b4 = vec![0, 0, 0, 4, 2, 28, 28, 0];
    assert_eq!(ClientToHost::decode(&b4), Err(DecodeError::Malformed));
}

#[test]
fn decode_bad_bool_and_flag_bytes_malformed() {
    // Spectate byte out of range.
    let b = vec![0, 0, 0, 10, 1, 0, 0, 0, 0, 0, 0, 0, 7, 2];
    assert_eq!(ClientToHost::decode(&b), Err(DecodeError::Malformed));
    // Success byte out of range.
    let b2 = vec![0, 0, 0, 5, 3, 2, 0, 0, 0];
    assert_eq!(HostToClient::decode(&b2), Err(DecodeError::Malformed));
    // Presence flag out of range.
    let b3 = vec![0, 0, 0, 5, 3, 1, 2, 0, 0];
    assert_eq!(HostToClient::decode(&b3), Err(DecodeError::Malformed));
}

#[test]
fn decode_bad_ack_layout_malformed() {
    // Position length pointing past the end of the payload.
    let b = vec![0, 0, 0, 10, 3, 1, 0, 1, 0, 0, 0, 99, 1, 0];
    assert_eq!(HostToClient::decode(&b), Err(DecodeError::Malformed));
    // Trailing byte after the last field.
    let b2 = vec![0, 0, 0, 6, 3, 1, 0, 0, 0, 0];
    assert_eq!(HostToClient::decode(&b2), Err(DecodeError::Malformed));
    // Payload ending in the middle of the game identifier.
    let b3 = vec![0, 0, 0, 7, 3, 1, 1, 0, 0, 0, 7];
    assert_eq!(HostToClient::decode(&b3), Err(DecodeError::Malformed));
    // A move-acknowledgement payload with an extra byte.
    let b4 = vec![0, 0, 0, 2, 4, 0];
    assert_eq!(HostToClient::decode(&b4), Err(DecodeError::Malformed));
}

#[test]
fn decode_arbitrary_patterns_do_not_panic() {
    for seed in 0u32..200 {
        let len = (seed % 24) as usize;
        let mut b = Vec::with_capacity(len);
        for i in 0..len {
            b.push((seed.wrapping_mul(31).wrapping_add(i as u32 * 17) % 256) as u8);
        }
        let _ = ClientToHost::decode(&b);
        let _ = HostToClient::decode(&b);
    }
}
