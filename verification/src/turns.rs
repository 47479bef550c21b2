//! The turn-token model: why the two peers never both hold the turn.
//!
//! Think of the turn as a single token. A peer in `Playing` holds it;
//! a move envelope in flight (sent and not yet polled) carries it.
//! `send_move` requires the sender to be `Playing` and leaves it
//! `WaitingForOpponent` with one more move in flight; a delivered move
//! leaves `poll_incoming`'s receiver `Playing` with one move fewer in
//! flight; the handshake messages touch neither the turn state nor the
//! moves in flight. Every step keeps the token count at one, so
//! whenever no move is in flight — in particular once the handshake is
//! complete and the wire is quiet — exactly one peer is `Playing`,
//! never both.

use vstd::prelude::*;

use crate::session::{initial_state, ConnectionType, State};

verus! {

/// How many turn tokens a peer in state `s` holds.
pub open spec fn turn_tokens(s: State) -> int {
    if s is Playing {
        1
    } else {
        0
    }
}

/// The turn invariant: between the two peers' states and the moves in
/// flight, exactly one turn token exists.
pub open spec fn turn_inv(host: State, client: State, in_flight: int) -> bool {
    in_flight >= 0 && turn_tokens(host) + turn_tokens(client) + in_flight == 1
}

/// Law: a fresh session pair satisfies the turn invariant. The host
/// starts `Playing`, the client starts `WaitingForOpponent`, and no
/// move is in flight.
pub proof fn lemma_turn_inv_initial()
    ensures
        turn_inv(
            initial_state(ConnectionType::Host),
            initial_state(ConnectionType::Client),
            0,
        ),
{
}

/// Law: sending a move preserves the turn invariant. `send_move`
/// requires its caller to be `Playing` and leaves it
/// `WaitingForOpponent`, with the encoded move now in flight.
///
/// `turn_inv` is symmetric in its two peers, so this covers the host
/// and the client alike.
pub proof fn lemma_turn_inv_send(sender: State, other: State, in_flight: int)
    requires
        turn_inv(sender, other, in_flight),
        sender is Playing,
    ensures
        turn_inv(State::WaitingForOpponent, other, in_flight + 1),
{
}

/// Law: delivering a move preserves the turn invariant. When a move in
/// flight reaches `poll_incoming`, the receiver transitions to
/// `Playing` and the move leaves the wire. The invariant also shows
/// both peers were waiting while the move was in flight.
pub proof fn lemma_turn_inv_deliver(receiver: State, other: State, in_flight: int)
    requires
        turn_inv(receiver, other, in_flight),
        in_flight >= 1,
    ensures
        turn_inv(State::Playing, other, in_flight - 1),
        receiver is WaitingForOpponent,
        other is WaitingForOpponent,
{
}

/// Law: with no move in flight, the turn invariant forbids both peers
/// from being `Playing` at once.
pub proof fn lemma_turn_inv_exclusive(host: State, client: State)
    requires
        turn_inv(host, client, 0),
    ensures
        !(host is Playing && client is Playing),
{
}

} // verus!
