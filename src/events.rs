use vstd::prelude::*;
use crate::coordinates::Coordinates;

verus! {

/// A tile became uncovered.
#[derive(Debug, Clone, Copy, PartialEq, Eq, Structural)]
pub struct TileTriggerEvent(pub Coordinates);

/// Every safe tile is uncovered: the game is won.
#[derive(Debug, Clone, Copy, PartialEq, Eq, Structural)]
pub struct BoardCompletedEvent;

/// A bomb was uncovered: the game is lost.
#[derive(Debug, Clone, Copy, PartialEq, Eq, Structural)]
pub struct BoardExplosionEvent;

/// A flag was put on a tile or taken off it.
#[derive(Debug, Clone, Copy, PartialEq, Eq, Structural)]
pub struct TileMarkEvent(pub Coordinates);

/// Any of the notifications a session emits.
#[derive(Debug, Clone, Copy, PartialEq, Eq, Structural)]
pub enum GameEvent {
    TileTrigger(TileTriggerEvent),
    TileMark(TileMarkEvent),
    BoardCompleted(BoardCompletedEvent),
    BoardExplosion(BoardExplosionEvent),
}

} // verus!
