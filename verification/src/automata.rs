//! The cellular automaton that grows a level out of random noise.

use vstd::prelude::*;
use rand::rngs::ThreadRng;
use crate::combinations::cartesian_product;
use crate::grid::Grid;
use crate::map::{wall_at, TileType};
use crate::map_builder::MapBuilder;
use crate::position::Position;
use crate::rng::gen_range;

verus! {

/// How often the automaton smooths the noise.
pub const ITERATIONS: usize = 10;

/// The architect that fills a level with random noise and lets a cellular
/// automaton smooth it.
#[derive(Clone, Copy, Debug)]
pub struct CellularAutomataArchitect {}

/// One if the tile at `(x, y)` is a wall of the grid, zero if it is not.
pub open spec fn wall_count(grid: Grid, tiles: Seq<TileType>, x: int, y: int) -> nat {
    if wall_at(grid, tiles, x, y) {
        1
    } else {
        0
    }
}

/// The number of walls among the eight neighbours of the tile at `(x, y)`.
/// Neighbours off the grid do not count.
pub open spec fn wall_neighbors(grid: Grid, tiles: Seq<TileType>, x: int, y: int) -> nat {
    wall_count(grid, tiles, x - 1, y - 1) + wall_count(grid, tiles, x - 1, y) + wall_count(
        grid,
        tiles,
        x - 1,
        y + 1,
    ) + wall_count(grid, tiles, x, y - 1) + wall_count(grid, tiles, x, y + 1) + wall_count(
        grid,
        tiles,
        x + 1,
        y - 1,
    ) + wall_count(grid, tiles, x + 1, y) + wall_count(grid, tiles, x + 1, y + 1)
}

/// What a tile with `walls` walls among its neighbours becomes: a floor
/// with one to four of them, a wall with none or with five and more.
pub open spec fn spec_smoothed_tile(walls: nat) -> TileType {
    if 1 <= walls <= 4 {
        TileType::Floor
    } else {
        TileType::Wall
    }
}

/// The level after one step of the automaton: every tile goes by the walls
/// among its neighbours in the level before the step.
pub open spec fn smoothed(grid: Grid, tiles: Seq<TileType>) -> Seq<TileType> {
    Seq::new(
        tiles.len(),
        |i: int|
            spec_smoothed_tile(
                wall_neighbors(
                    grid,
                    tiles,
                    grid.spec_coord(i).x as int,
                    grid.spec_coord(i).y as int,
                ),
            ),
    )
}

/// The level after `n` steps of the automaton.
pub open spec fn smoothed_times(grid: Grid, tiles: Seq<TileType>, n: nat) -> Seq<TileType>
    decreases n,
{
    if n == 0 {
        tiles
    } else {
        smoothed(grid, smoothed_times(grid, tiles, (n - 1) as nat))
    }
}

/// The tile that a draw from `0..100` stands for in the noise: a floor
/// above 55, a wall up to it.
pub open spec fn spec_noise_tile(draw: int) -> TileType {
    if draw > 55 {
        TileType::Floor
    } else {
        TileType::Wall
    }
}

/// Every draw is one from `0..100`.
pub open spec fn draws_in_range(draws: Seq<i32>) -> bool {
    forall|i: int| 0 <= i < draws.len() ==> 0 <= #[trigger] draws[i] < 100
}

/// The noise that a sequence of draws stands for.
pub open spec fn noise_of(draws: Seq<i32>) -> Seq<TileType> {
    Seq::new(draws.len(), |i: int| spec_noise_tile(draws[i] as int))
}

/// The level that the automaton makes of the given draws.
pub open spec fn generated(grid: Grid, draws: Seq<i32>) -> Seq<TileType> {
    smoothed_times(grid, noise_of(draws), ITERATIONS as nat)
}

/// The walls among the first `k` of the given neighbours of `(x, y)`; the
/// tile itself is no neighbour.
spec fn walls_among(
    grid: Grid,
    tiles: Seq<TileType>,
    x: int,
    y: int,
    deltas: Seq<(i32, i32)>,
    k: nat,
) -> nat
    decreases k,
{
    if k == 0 {
        0
    } else {
        let d = deltas[k - 1];
        walls_among(grid, tiles, x, y, deltas, (k - 1) as nat) + (if d.0 != 0 || d.1 != 0 {
            wall_count(grid, tiles, x + d.0, y + d.1)
        } else {
            0
        })
    }
}

/// The tile that a draw from `0..100` stands for in the noise.
pub fn noise_tile(draw: i32) -> (t: TileType)
    ensures
        t == spec_noise_tile(draw as int),
{
    if draw > 55 {
        TileType::Floor
    } else {
        TileType::Wall
    }
}

/// What a tile with `walls` walls among its neighbours becomes.
pub fn smoothed_tile(walls: usize) -> (t: TileType)
    ensures
        t == spec_smoothed_tile(walls as nat),
{
    if 1 <= walls && walls <= 4 {
        TileType::Floor
    } else {
        TileType::Wall
    }
}

impl CellularAutomataArchitect {
    /// Fills the level with noise: each tile is a floor or a wall by a draw
    /// of its own from `0..100`. Whatever is drawn, the tiles are the noise
    /// that the draws stand for, one draw for each tile.
    fn random_noise_map(&mut self, rng: &mut ThreadRng, mb: &mut MapBuilder)
        requires
            old(mb).wf(),
        ensures
            final(mb).wf(),
            final(mb).grid == old(mb).grid,
            final(mb).player_start == old(mb).player_start,
            final(mb).amulet_start == old(mb).amulet_start,
            final(mb).spawn_locations == old(mb).spawn_locations,
            exists|draws: Seq<i32>|
                draws_in_range(draws) && final(mb).map_data@ == #[trigger] noise_of(draws),
    {
        let ghost mut draws: Seq<i32> = Seq::empty();
        let mut i: usize = 0;
        while i < mb.map_data.len()
            invariant
                mb.wf(),
                mb.grid == old(mb).grid,
                mb.player_start == old(mb).player_start,
                mb.amulet_start == old(mb).amulet_start,
                mb.spawn_locations == old(mb).spawn_locations,
                i <= mb.map_data@.len(),
                draws.len() == i,
                draws_in_range(draws),
                forall|k: int|
                    0 <= k < i ==> #[trigger] mb.map_data@[k] == spec_noise_tile(draws[k] as int),
            decreases mb.map_data@.len() - i,
        {
            let draw: i32 = gen_range(rng, 0, 100);
            mb.map_data.set(i, noise_tile(draw));
            proof {
                draws = draws.push(draw);
            }
            i = i + 1;
        }
        assert(mb.map_data@ =~= noise_of(draws));
    }

    /// The number of walls among the eight neighbours of `p`. Neighbours
    /// off the grid do not count.
    pub fn count_neighbors(&self, p: &Position, mb: &MapBuilder) -> (count: usize)
        requires
            mb.wf(),
        ensures
            count == wall_neighbors(mb.grid, mb.map_data@, p.x as int, p.y as int),
    {
        let ghost grid = mb.grid;
        let ghost tiles = mb.map_data@;
        let ghost x = p.x as int;
        let ghost y = p.y as int;
        assert((1 - (-1) + 1) * (1 - (-1) + 1) == 9) by (nonlinear_arith);
        let deltas = cartesian_product(-1, 1, -1, 1);
        let mut count: usize = 0;
        let mut k: usize = 0;
        while k < deltas.len()
            invariant
                mb.wf(),
                grid == mb.grid,
                tiles == mb.map_data@,
                x == p.x,
                y == p.y,
                deltas@.len() == 9,
                forall|j: int|
                    0 <= j < 9 ==> (#[trigger] deltas@[j]).0 == -1 + j / 3 && deltas@[j].1 == -1 + j
                        % 3,
                k <= 9,
                count <= k,
                count == walls_among(grid, tiles, x, y, deltas@, k as nat),
            decreases 9 - k,
        {
            let d = deltas[k];
            assert(-1 <= d.0 <= 1 && -1 <= d.1 <= 1);
            if d.0 != 0 || d.1 != 0 {
                let nx: i64 = p.x as i64 + d.0 as i64;
                let ny: i64 = p.y as i64 + d.1 as i64;
                if 0 <= nx && nx < mb.grid.width as i64 && 0 <= ny && ny < mb.grid.height as i64 {
                    let q = Position { x: nx as i32, y: ny as i32 };
                    if let Some(idx) = mb.try_idx(q) {
                        match mb.map_data[idx] {
                            TileType::Wall => {
                                count = count + 1;
                            },
                            TileType::Floor => {},
                        }
                    }
                }
            }
            k = k + 1;
        }
        proof {
            let ds = deltas@;
            assert(ds[0] == (-1i32, -1i32));
            assert(ds[1] == (-1i32, 0i32));
            assert(ds[2] == (-1i32, 1i32));
            assert(ds[3] == (0i32, -1i32));
            assert(ds[4] == (0i32, 0i32));
            assert(ds[5] == (0i32, 1i32));
            assert(ds[6] == (1i32, -1i32));
            assert(ds[7] == (1i32, 0i32));
            assert(ds[8] == (1i32, 1i32));
            reveal_with_fuel(walls_among, 10);
        }
        count
    }

    /// One step of the automaton on the whole level.
    pub fn iteration(&mut self, mb: &mut MapBuilder)
        requires
            old(mb).wf(),
        ensures
            final(mb).wf(),
            final(mb).grid == old(mb).grid,
            final(mb).player_start == old(mb).player_start,
            final(mb).amulet_start == old(mb).amulet_start,
            final(mb).spawn_locations == old(mb).spawn_locations,
            final(mb).map_data@ == smoothed(old(mb).grid, old(mb).map_data@),
    {
        let mut new_tiles: Vec<TileType> = Vec::new();
        let n: usize = mb.map_data.len();
        let mut idx: usize = 0;
        while idx < n
            invariant
                mb.wf(),
                *mb == *old(mb),
                n == mb.map_data@.len(),
                idx <= n,
                new_tiles@.len() == idx,
                forall|i: int|
                    0 <= i < idx ==> new_tiles@[i] == smoothed(mb.grid, mb.map_data@)[i],
            decreases n - idx,
        {
            let p = mb.grid.index_to_point2d(idx);
            let walls = self.count_neighbors(&p, mb);
            new_tiles.push(smoothed_tile(walls));
            idx = idx + 1;
        }
        assert(new_tiles@ =~= smoothed(mb.grid, mb.map_data@));
        mb.map_data = new_tiles;
    }

    /// Lets the automaton smooth the given noise.
    pub fn architect_from_noise(&mut self, grid: Grid, noise: Vec<TileType>) -> (mb: MapBuilder)
        requires
            grid.wf(),
            noise@.len() == grid.spec_len(),
        ensures
            mb.wf(),
            mb.grid == grid,
            mb.map_data@ == smoothed_times(grid, noise@, ITERATIONS as nat),
            mb.player_start.is_none(),
            mb.amulet_start.is_none(),
            mb.spawn_locations@.len() == 0,
    {
        let mut mb = MapBuilder {
            map_data: noise,
            grid,
            player_start: None,
            amulet_start: None,
            spawn_locations: Vec::new(),
        };
        let ghost start = mb.map_data@;
        let mut round: usize = 0;
        while round < ITERATIONS
            invariant
                mb.wf(),
                mb.grid == grid,
                mb.player_start.is_none(),
                mb.amulet_start.is_none(),
                mb.spawn_locations@.len() == 0,
                round <= ITERATIONS,
                mb.map_data@ == smoothed_times(grid, start, round as nat),
            decreases ITERATIONS - round,
        {
            self.iteration(&mut mb);
            round = round + 1;
        }
        mb
    }

    /// The level that the automaton makes of the given draws from `0..100`,
    /// one for each tile.
    pub fn architect_from_draws(&mut self, grid: Grid, draws: &Vec<i32>) -> (mb: MapBuilder)
        requires
            grid.wf(),
            draws@.len() == grid.spec_len(),
        ensures
            mb.wf(),
            mb.grid == grid,
            mb.map_data@ == generated(grid, draws@),
    {
        let mut noise: Vec<TileType> = Vec::new();
        let mut i: usize = 0;
        while i < draws.len()
            invariant
                i <= draws@.len(),
                noise@.len() == i,
                forall|k: int| 0 <= k < i ==> noise@[k] == spec_noise_tile(draws@[k] as int),
            decreases draws@.len() - i,
        {
            noise.push(noise_tile(draws[i]));
            i = i + 1;
        }
        assert(noise@ =~= noise_of(draws@));
        self.architect_from_noise(grid, noise)
    }

    /// Makes a level of the given size: noise from the random source of the
    /// thread, smoothed by the automaton. Whatever the noise, the level has
    /// one tile type for each tile of the grid and is what the automaton
    /// makes of some noise.
    pub fn architect(&mut self, grid: Grid) -> (mb: MapBuilder)
        requires
            grid.wf(),
        ensures
            mb.wf(),
            mb.grid == grid,
            mb.player_start.is_none(),
            mb.amulet_start.is_none(),
            mb.spawn_locations@.len() == 0,
            exists|noise: Seq<TileType>|
                noise.len() == grid.spec_len() && mb.map_data@ == #[trigger] smoothed_times(
                    grid,
                    noise,
                    ITERATIONS as nat,
                ),
    {
        let mut mb = MapBuilder::walls(grid);
        let mut rng = rand::thread_rng();
        self.random_noise_map(&mut rng, &mut mb);
        let ghost noise = mb.map_data@;
        let made = self.architect_from_noise(grid, mb.map_data);
        assert(made.map_data@ == smoothed_times(grid, noise, ITERATIONS as nat));
        made
    }
}

/// The automaton is deterministic: two runs on draws that stand for the
/// same noise, and so two runs on the same draws, make the same level.
pub proof fn lemma_generation_deterministic(grid: Grid, first: Seq<i32>, second: Seq<i32>)
    requires
        first.len() == second.len(),
        forall|i: int|
            0 <= i < first.len() ==> spec_noise_tile(first[i] as int) == spec_noise_tile(
                second[i] as int,
            ),
    ensures
        generated(grid, first) == generated(grid, second),
{
    assert(noise_of(first) =~= noise_of(second));
}

/// Smoothing keeps the number of tiles.
pub proof fn lemma_smoothed_times_len(grid: Grid, tiles: Seq<TileType>, n: nat)
    ensures
        smoothed_times(grid, tiles, n).len() == tiles.len(),
    decreases n,
{
    if n > 0 {
        lemma_smoothed_times_len(grid, tiles, (n - 1) as nat);
    }
}

} // verus!
