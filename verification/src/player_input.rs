//! What the player's keys mean while the game awaits input.

use vstd::prelude::*;
use crate::entities::{EntityId, WantsToMove};
use crate::position::Position;
use crate::turn_state::{TurnEvent, TurnState};

verus! {

/// The keys that the game knows, and one for all the others.
#[derive(Clone, Copy, Debug, PartialEq, Eq, Hash, Structural)]
pub enum Key {
    W,
    A,
    S,
    D,
    Space,
    Escape,
    Other,
}

/// The step that a key asks for: north for `W`, west for `A`, south for
/// `S`, east for `D`, none for any other key. North is up the `y` axis.
pub open spec fn spec_key_delta(key: Key) -> Option<Position> {
    match key {
        Key::W => Some(Position { x: 0, y: 1 }),
        Key::A => Some(Position { x: -1i32, y: 0 }),
        Key::S => Some(Position { x: 0, y: -1i32 }),
        Key::D => Some(Position { x: 1, y: 0 }),
        _ => None,
    }
}

/// What a key asks of the scheduler: a step or a wait is the player's
/// action, escape asks for a pause, any other key for nothing.
pub open spec fn spec_key_event(key: Key) -> Option<TurnEvent> {
    match key {
        Key::W | Key::A | Key::S | Key::D | Key::Space => Some(TurnEvent::PlayerActed),
        Key::Escape => Some(TurnEvent::PauseRequested),
        Key::Other => None,
    }
}

/// The step that `key` asks for, if any, leads from `from` to a position.
pub open spec fn step_fits(key: Key, from: Position) -> bool {
    spec_key_delta(key) matches Some(delta) ==> i32::MIN <= from.x + delta.x <= i32::MAX
        && i32::MIN <= from.y + delta.y <= i32::MAX
}

/// The step that a key asks for.
pub fn key_delta(key: Key) -> (delta: Option<Position>)
    ensures
        delta == spec_key_delta(key),
{
    match key {
        Key::W => Some(Position { x: 0, y: 1 }),
        Key::A => Some(Position { x: -1, y: 0 }),
        Key::S => Some(Position { x: 0, y: -1 }),
        Key::D => Some(Position { x: 1, y: 0 }),
        _ => None,
    }
}

/// What a key pressed while the game awaits input brings about: for a key
/// that the game knows, the request to move that goes with it, if any, and
/// the phase that follows; for any other key, nothing.
///
/// Where the key asks for a step, the tile that the step leads to must be a
/// position: the step must not leave the range of `i32`.
pub fn player_input(key: Key, player_entity: EntityId, player_pos: Position) -> (r: Option<
    (Option<WantsToMove>, TurnState),
>)
    requires
        step_fits(key, player_pos),
    ensures
        r.is_some() <==> spec_key_event(key).is_some(),
        r matches Some((msg, next)) ==> {
            &&& next == TurnState::AwaitingInput.spec_after(spec_key_event(key)->0)
            &&& msg.is_some() <==> spec_key_delta(key).is_some()
            &&& msg matches Some(m) ==> m.entity == player_entity && m.destination.x == player_pos.x
                + spec_key_delta(key)->0.x && m.destination.y == player_pos.y + spec_key_delta(
                key,
            )->0.y
        },
{
    match key {
        Key::W | Key::A | Key::S | Key::D => {
            let delta = match key_delta(key) {
                Some(d) => d,
                None => Position { x: 0, y: 0 },
            };
            let destination = Position { x: player_pos.x + delta.x, y: player_pos.y + delta.y };
            Some(
                (
                    Some(WantsToMove { entity: player_entity, destination }),
                    TurnState::AwaitingInput.after(TurnEvent::PlayerActed),
                ),
            )
        },
        Key::Space => Some((None, TurnState::AwaitingInput.after(TurnEvent::PlayerActed))),
        Key::Escape => Some((None, TurnState::AwaitingInput.after(TurnEvent::PauseRequested))),
        Key::Other => None,
    }
}

} // verus!
