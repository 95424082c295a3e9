//! Occupancy: which cells are blocked, and which blocking entities stand on
//! each cell. Both are rebuilt from the entities' positions every turn.

use vstd::prelude::*;
use crate::lists::lemma_prefix_step;
use crate::map::{GameMap, TileType};
use crate::position::Position;
use crate::state::{State, same_but_world_and_map};
use crate::world::{BlocksTile, Entity, Record, ascending, contents, fetch, sorted_entities};

verus! {

/// The entity blocks the cell `(x, y)`.
pub open spec fn stands_at(r: Record, x: int, y: int) -> bool {
    r.blocks && r.position.is_some() && r.position.unwrap().x == x && r.position.unwrap().y == y
}

/// One of the entities `who` blocks the cell `(x, y)`.
pub open spec fn blocked_by(c: Map<Entity, Record>, who: Set<Entity>, x: int, y: int) -> bool {
    exists|e: Entity| who.contains(e) && #[trigger] stands_at(c[e], x, y)
}

/// `list` holds exactly those of the entities `who` that block `(x, y)`.
pub open spec fn lists_blockers(c: Map<Entity, Record>, who: Set<Entity>, list: Seq<Entity>, x: int, y: int) -> bool {
    forall|e: Entity| list.contains(e) <==> who.contains(e) && stands_at(c[e], x, y)
}

/// The occupancy of the cell `(x, y)` agrees with the entities `who`: the
/// cell is blocked exactly when it is a wall or one of them stands on it,
/// and its entity list holds, in ascending order, exactly those of them that
/// stand on it.
pub open spec fn cell_synced(c: Map<Entity, Record>, map: GameMap, who: Set<Entity>, x: int, y: int) -> bool {
    &&& map.blocked.cell(x, y) == (map.tiles.cell(x, y) == TileType::Wall || blocked_by(c, who, x, y))
    &&& ascending(map.entities.cell(x, y)@)
    &&& lists_blockers(c, who, map.entities.cell(x, y)@, x, y)
}

/// The occupancy grids of `map` agree with the live entities `c`, cell by
/// cell.
pub open spec fn occupancy_synced(c: Map<Entity, Record>, map: GameMap) -> bool {
    forall|x: int, y: int| map.in_bounds(x, y) ==> #[trigger] cell_synced(c, map, c.dom(), x, y)
}

/// Placing a blocking entity on its cell keeps every cell in agreement.
proof fn lemma_cell_placed(
    c: Map<Entity, Record>,
    before: GameMap,
    after: GameMap,
    who: Set<Entity>,
    e: Entity,
    x: int,
    y: int,
)
    requires
        cell_synced(c, before, who, x, y),
        forall|o: Entity| who.contains(o) ==> o < e,
        c[e].blocks,
        c[e].position.is_some(),
        after.tiles == before.tiles,
        after.blocked.cell(x, y) == (stands_at(c[e], x, y) || before.blocked.cell(x, y)),
        after.entities.cell(x, y)@ == (if stands_at(c[e], x, y) {
            before.entities.cell(x, y)@.push(e)
        } else {
            before.entities.cell(x, y)@
        }),
    ensures
        cell_synced(c, after, who.insert(e), x, y),
{
    let was = before.entities.cell(x, y)@;
    let now = after.entities.cell(x, y)@;
    let more = who.insert(e);
    if stands_at(c[e], x, y) {
        assert forall|a: int, b: int| 0 <= a < b < now.len() implies now[a] < now[b] by {
            if b == was.len() {
                assert(was.contains(was[a]));
            }
        }
        assert forall|o: Entity| now.contains(o) <==> more.contains(o) && stands_at(c[o], x, y) by {
            if more.contains(o) && stands_at(c[o], x, y) {
                if o == e {
                    assert(now[now.len() - 1] == o);
                } else {
                    let k = choose|k: int| 0 <= k < was.len() && was[k] == o;
                    assert(now[k] == o);
                }
            }
        }
    }
}

/// An entity that blocks no cell of the map leaves every cell in agreement.
proof fn lemma_cell_passed(c: Map<Entity, Record>, map: GameMap, who: Set<Entity>, e: Entity, x: int, y: int)
    requires
        cell_synced(c, map, who, x, y),
        !stands_at(c[e], x, y),
    ensures
        cell_synced(c, map, who.insert(e), x, y),
{
}

impl State {
    /// Rebuilds the occupancy grids from the entities: the blocked grid is
    /// reset to the walls, the entity lists are emptied, and then every
    /// blocking entity that stands inside the map blocks its cell and is
    /// listed there.
    pub fn update_map(&mut self)
        requires
            old(self).map.wf(),
        ensures
            final(self).map.wf(),
            contents(final(self).world) == contents(old(self).world),
            same_but_world_and_map(*old(self), *final(self)),
            final(self).map.width == old(self).map.width,
            final(self).map.height == old(self).map.height,
            final(self).map.tiles == old(self).map.tiles,
            final(self).map.revealed == old(self).map.revealed,
            final(self).map.visible == old(self).map.visible,
            final(self).map.rooms == old(self).map.rooms,
            occupancy_synced(contents(final(self).world), final(self).map),
    {
        self.map.block_walls();
        self.map.clear_entities();
        let ids = sorted_entities(&mut self.world);
        let ghost c = contents(self.world);
        proof {
            assert(ids@.subrange(0, 0).to_set() =~= Set::<Entity>::empty());
            assert forall|x: int, y: int| self.map.in_bounds(x, y) implies #[trigger] cell_synced(
                c,
                self.map,
                Set::<Entity>::empty(),
                x,
                y,
            ) by {
                self.map.entities.lemma_idx_bounds(x, y);
            }
        }
        let mut i: usize = 0;
        while i < ids.len()
            invariant
                i <= ids@.len(),
                c == contents(self.world),
                c == contents(old(self).world),
                ascending(ids@),
                forall|id: Entity| ids@.contains(id) <==> c.contains_key(id),
                self.map.wf(),
                same_but_world_and_map(*old(self), *self),
                self.map.width == old(self).map.width,
                self.map.height == old(self).map.height,
                self.map.tiles == old(self).map.tiles,
                self.map.revealed == old(self).map.revealed,
                self.map.visible == old(self).map.visible,
                self.map.rooms == old(self).map.rooms,
                forall|x: int, y: int|
                    self.map.in_bounds(x, y) ==> #[trigger] cell_synced(
                        c,
                        self.map,
                        ids@.subrange(0, i as int).to_set(),
                        x,
                        y,
                    ),
            decreases ids@.len() - i,
        {
            let e = ids[i];
            let ghost who = ids@.subrange(0, i as int).to_set();
            let ghost more = ids@.subrange(0, i + 1).to_set();
            let ghost before = self.map;
            proof {
                lemma_prefix_step(ids@, i as int);
                assert forall|o: Entity| more.contains(o) <==> who.insert(e).contains(o) by {
                    assert(more.contains(o) <==> ids@.subrange(0, i + 1).contains(o));
                    assert(who.contains(o) <==> ids@.subrange(0, i as int).contains(o));
                }
                assert(more =~= who.insert(e));
                assert forall|o: Entity| who.contains(o) implies o < e by {
                    let done = ids@.subrange(0, i as int);
                }
            }
            let blocks = fetch::<BlocksTile>(&mut self.world, e);
            let pos = fetch::<Position>(&mut self.world, e);
            let ghost mut placed = false;
            match (blocks, pos) {
                (Some(_), Some(pos)) => {
                    if (pos.x as usize) < self.map.width && (pos.y as usize) < self.map.height {
                        self.map.blocked.set(pos.x as i32, pos.y as i32, true);
                        match self.map.entities.get_mut(pos.x as i32, pos.y as i32) {
                            Some(list) => {
                                list.push(e);
                            },
                            None => {},
                        }
                        proof {
                            placed = true;
                            let list_after = self.map.entities.cell(pos.x as int, pos.y as int);
                            before.entities.lemma_idx_bounds(pos.x as int, pos.y as int);
                            before.entities.lemma_update_cells(
                                &self.map.entities,
                                pos.x as int,
                                pos.y as int,
                                list_after,
                            );
                            assert forall|x: int, y: int| self.map.in_bounds(x, y) implies #[trigger] cell_synced(
                                c,
                                self.map,
                                more,
                                x,
                                y,
                            ) by {
                                lemma_cell_placed(c, before, self.map, who, e, x, y);
                            }
                        }
                    }
                },
                _ => {},
            }
            proof {
                if !placed {
                    assert forall|x: int, y: int| self.map.in_bounds(x, y) implies #[trigger] cell_synced(
                        c,
                        self.map,
                        more,
                        x,
                        y,
                    ) by {
                        lemma_cell_passed(c, before, who, e, x, y);
                    }
                }
            }
            i += 1;
        }
        proof {
            assert(ids@.subrange(0, ids@.len() as int) == ids@);
            assert(ids@.to_set() =~= c.dom());
        }
    }
}

/// `after` is `before` with the occupancy grids rebuilt from the entities.
pub open spec fn resynced(before: State, after: State) -> bool {
    &&& contents(after.world) == contents(before.world)
    &&& same_but_world_and_map(before, after)
    &&& after.map.wf()
    &&& after.map.width == before.map.width
    &&& after.map.height == before.map.height
    &&& after.map.tiles == before.map.tiles
    &&& after.map.revealed == before.map.revealed
    &&& after.map.visible == before.map.visible
    &&& after.map.rooms == before.map.rooms
    &&& occupancy_synced(contents(after.world), after.map)
}

} // verus!
