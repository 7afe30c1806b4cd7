//! The click-command handler: turns a destination tile into a fresh route
//! for one agent and re-arms its movement state machine.

use vstd::prelude::*;
use crate::constants::GRID_MAX_DIM;
use crate::constants::POS_LIMIT;
use crate::constants::TILE_FX;
use crate::entities::state_wf;
use crate::entities::vec_in_bounds;
use crate::entities::wf_route_w;
use crate::entities::world_tile_index_spec;
use crate::entities::Moving;
use crate::entities::State;
use crate::math::div_trunc;
use crate::pathfind::find_route;
use crate::pathfind::reaches;
use crate::pathfind::route_nodes;
use crate::pathfind::valid_route;
use crate::steps::Werfs;
use crate::tiles::Tiles;

verus! {

/// The tile an agent's position stands on, as a linear index of the grid.
pub open spec fn agent_tile_spec(w: Werfs, id: int, width: int) -> int {
    world_tile_index_spec(w.pos@[id], width, true)
}

/// The command can be served: the agent exists, the destination is a grid
/// tile, the agent stands on a grid tile, and a traversable path connects
/// the two.
pub open spec fn command_ok(w: Werfs, id: int, g: Tiles, dest: int) -> bool {
    &&& 0 <= id < w.pos@.len()
    &&& 0 <= dest < g.tiles@.len()
    &&& 0 <= agent_tile_spec(w, id, g.width as int) < g.tiles@.len()
    &&& exists|k: nat| reaches(g, agent_tile_spec(w, id, g.width as int), dest, k)
}

/// Serves one click command: finds a shortest route from the tile under the
/// agent to the destination tile and re-arms the agent's state machine with
/// it. A command naming a missing agent, a destination off the grid, an
/// agent standing off the grid, or an unreachable destination is dropped
/// without any change.
pub fn click_command(w: &mut Werfs, id: usize, tiles: &Tiles, dest_index: usize) -> (installed:
    bool)
    requires
        tiles.wf(),
        old(w).wf(tiles.width as int),
    ensures
        final(w).wf(tiles.width as int),
        final(w).pos@ == old(w).pos@,
        final(w).vel@ == old(w).vel@,
        final(w).anim@ == old(w).anim@,
        final(w).state@.len() == old(w).state@.len(),
        installed <==> command_ok(*old(w), id as int, *tiles, dest_index as int),
        !installed ==> final(w).state@ == old(w).state@,
        forall|j: int|
            0 <= j < old(w).state@.len() && j != id ==> final(w).state@[j] == old(w).state@[j],
        installed ==> match final(w).state@[id as int] {
            State::Moving(m) => {
                let s = agent_tile_spec(*old(w), id as int, tiles.width as int);
                &&& m.curr == 0
                &&& valid_route(*tiles, s, dest_index as int, route_nodes(m.path@))
                &&& forall|k: nat|
                    k < m.path@.len() - 1 ==> !#[trigger] reaches(*tiles, s, dest_index as int, k)
            },
            State::Idle => false,
        },
{
    if id >= w.pos.len() {
        return false;
    }
    if dest_index >= tiles.tiles.len() {
        return false;
    }
    let p = w.pos[id];
    proof {
        assert(vec_in_bounds(p.p, POS_LIMIT as int));
    }
    let tx = div_trunc(p.p.x, TILE_FX);
    let ty = div_trunc(p.p.y, TILE_FX);
    proof {
        assert(-62500 <= tx <= 62500 && -62500 <= ty <= 62500);
        vstd::arithmetic::mul::lemma_mul_inequality(ty as int, 62500, tiles.width as int);
        vstd::arithmetic::mul::lemma_mul_inequality(-62500, ty as int, tiles.width as int);
    }
    let idx: i64 = tx + ty * (tiles.width as i64);
    proof {
        assert(idx == world_tile_index_spec(p, tiles.width as int, true));
    }
    if idx < 0 || idx >= tiles.tiles.len() as i64 {
        return false;
    }
    let start = p.to_world_index(tiles.width, true);
    match find_route(tiles, start, dest_index) {
        Some(route) => {
            proof {
                assert(reaches(*tiles, start.0 as int, dest_index as int, (route@.len() - 1)
                    as nat));
                assert(wf_route_w(route@, tiles.width as int)) by {
                    assert forall|j: int| 0 <= j < route@.len() implies 0 <= (
                    #[trigger] route@[j]).0 && (route@[j].0 as int) <= tiles.width as int * (
                    GRID_MAX_DIM as int) by {
                        assert(0 <= route@[j].0 && (route@[j].0 as int) < tiles.tiles@.len());
                    }
                }
            }
            let st = State::Moving(Moving { path: route, curr: 0 });
            w.state.set(id, st);
            proof {
                assert forall|j: int| 0 <= j < w.state@.len() implies state_wf(
                    #[trigger] w.state@[j], tiles.width as int) by {
                    if j != id {
                        assert(w.state@[j] == old(w).state@[j]);
                        assert(state_wf(old(w).state@[j], tiles.width as int));
                    }
                }
            }
            true
        },
        None => {
            proof {
                assert(forall|k: nat|
                    !#[trigger] reaches(*tiles, start.0 as int, dest_index as int, k));
            }
            false
        },
    }
}

} // verus!
