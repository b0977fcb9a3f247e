//! The single entry to level generation: one of two architects makes the
//! level, and a level is made whatever the random source gives.

use vstd::prelude::*;
use crate::automata::{smoothed_times, CellularAutomataArchitect, ITERATIONS};
use crate::grid::Grid;
use crate::map::TileType;
use crate::map_builder::MapBuilder;
use crate::rect::Rect;
use crate::rooms::{
    attempts_made, level_of, on_floor, room_drawn, rooms_apart, starts_chosen, RoomsArchitect,
    NUM_ROOMS,
};

verus! {

/// The ways to make a level.
#[derive(Clone, Copy, Debug, PartialEq, Eq, Hash, Structural)]
pub enum ArchitectKind {
    /// Random noise, smoothed by a cellular automaton.
    CellularAutomata,
    /// Rooms that do not touch, joined by corridors.
    Rooms,
}

/// How often the architect of rooms starts a level anew, with fresh
/// randomness, before the cellular automaton takes over.
pub const MAX_GENERATION_RETRIES: usize = 10;

/// The level is one of the cellular automaton: some noise, smoothed, and
/// nothing chosen besides the tiles.
pub open spec fn made_by_automaton(mb: &MapBuilder) -> bool {
    &&& mb.player_start.is_none()
    &&& mb.amulet_start.is_none()
    &&& mb.spawn_locations@.len() == 0
    &&& exists|noise: Seq<TileType>|
        noise.len() == mb.grid.spec_len() && mb.map_data@ == #[trigger] smoothed_times(
            mb.grid,
            noise,
            ITERATIONS as nat,
        )
}

/// The level is one of rooms and corridors: `NUM_ROOMS` rooms as the
/// architect draws them, no two of which touch, carved and joined, with the
/// starts chosen by them, both of them floors.
pub open spec fn made_of_rooms(mb: &MapBuilder) -> bool {
    exists|rooms: Seq<Rect>, flips: Seq<bool>|
        {
            &&& rooms.len() == NUM_ROOMS
            &&& flips.len() + 1 == NUM_ROOMS
            &&& rooms_apart(rooms)
            &&& forall|k: int| 0 <= k < rooms.len() ==> room_drawn(mb.grid, #[trigger] rooms[k])
            &&& mb.map_data@ == #[trigger] level_of(mb.grid, rooms, flips)
            &&& starts_chosen(rooms, mb)
            &&& on_floor(mb.grid, mb.map_data@, mb.player_start)
            &&& on_floor(mb.grid, mb.map_data@, mb.amulet_start)
        }
}

/// The rooms are what a full run of the architect's attempts left, and they
/// are too few for a level.
pub open spec fn attempt_failed(grid: Grid, rooms: Seq<Rect>) -> bool {
    rooms.len() < NUM_ROOMS && exists|candidates: Seq<Rect>| #[trigger]
        attempts_made(grid, candidates, rooms)
}

/// The architect of rooms has failed `MAX_GENERATION_RETRIES` times, each
/// time with a full run of attempts.
pub open spec fn rooms_given_up(grid: Grid) -> bool {
    exists|failed: Seq<Seq<Rect>>|
        failed.len() == MAX_GENERATION_RETRIES && forall|k: int|
            0 <= k < failed.len() ==> attempt_failed(grid, #[trigger] failed[k])
}

/// Makes a level of the given size. The architect of rooms may fail to
/// place its rooms: it then starts anew, and after
/// `MAX_GENERATION_RETRIES` failures the cellular automaton makes the
/// level. So a level is always returned, with one tile type for each tile
/// of the grid: one of the cellular automaton where that was asked for;
/// where rooms were asked for, one of rooms, or one of the cellular
/// automaton after the architect of rooms has failed that often.
pub fn generate(kind: ArchitectKind, grid: Grid) -> (mb: MapBuilder)
    requires
        grid.wf(),
    ensures
        mb.wf(),
        mb.grid == grid,
        kind == ArchitectKind::CellularAutomata ==> made_by_automaton(&mb),
        kind == ArchitectKind::Rooms ==> made_of_rooms(&mb) || (made_by_automaton(&mb)
            && rooms_given_up(grid)),
{
    let ghost mut failed: Seq<Seq<Rect>> = Seq::empty();
    match kind {
        ArchitectKind::CellularAutomata => {},
        ArchitectKind::Rooms => {
            let mut attempt: usize = 0;
            while attempt < MAX_GENERATION_RETRIES
                invariant
                    grid.wf(),
                    kind == ArchitectKind::Rooms,
                    attempt <= MAX_GENERATION_RETRIES,
                    failed.len() == attempt,
                    forall|k: int|
                        0 <= k < failed.len() ==> attempt_failed(grid, #[trigger] failed[k]),
                decreases MAX_GENERATION_RETRIES - attempt,
            {
                let mut architect = RoomsArchitect::new();
                let made = architect.architect(grid);
                proof {
                    if made.is_none() {
                        let before = failed;
                        failed = failed.push(architect.rooms@);
                        assert(attempt_failed(grid, architect.rooms@));
                        assert forall|k: int| 0 <= k < failed.len() implies attempt_failed(
                            grid,
                            #[trigger] failed[k],
                        ) by {
                            if k < before.len() {
                                assert(failed[k] == before[k]);
                            }
                        }
                    }
                }
                if let Some(mb) = made {
                    proof {
                        let rooms = architect.rooms@;
                        let flips = choose|flips: Seq<bool>|
                            flips.len() + 1 == NUM_ROOMS && mb.map_data@ == #[trigger] level_of(
                                grid,
                                rooms,
                                flips,
                            );
                        assert(mb.map_data@ == level_of(mb.grid, rooms, flips));
                    }
                    return mb;
                }
                attempt = attempt + 1;
            }
        },
    }
    let mut architect = CellularAutomataArchitect {  };
    architect.architect(grid)
}

} // verus!
