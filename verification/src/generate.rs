use vstd::prelude::*;

use crate::grid::WorldMap;
use crate::rng::Rand;
use crate::room::Room;
use crate::search::lemma_passable_iff;
use crate::tile::{Location, Terrain};

verus! {

/// How many random room proposals one generation run makes.
pub const ROOM_ATTEMPTS: u32 = 60;

/// The outcome of a successful generation run: the finished map, the chosen
/// starting cell, and whether the carved connection between the two chosen
/// rooms was actually found.
pub struct Generated {
    pub map: WorldMap,
    pub start: Location,
    pub connected: bool,
}

/// Every accepted room is well formed, between three and fourteen cells on
/// each side, fits inside a w-by-h grid, and overlaps no other accepted room.
pub open spec fn rooms_ok(rooms: Seq<Room>, w: int, h: int) -> bool {
    &&& forall|i: int|
        0 <= i < rooms.len() ==> {
            let r = #[trigger] rooms[i];
            &&& r.wf()
            &&& 3 <= r.spec_width() <= 14
            &&& 3 <= r.spec_height() <= 14
            &&& r.spec_x() + r.spec_width() <= w
            &&& r.spec_y() + r.spec_height() <= h
        }
    &&& forall|i: int, j: int|
        0 <= i < rooms.len() && 0 <= j < rooms.len() && i != j ==> !(#[trigger] rooms[i]).spec_overlaps(
            #[trigger] rooms[j],
        )
}

/// The interior of every accepted room is carved as floor.
pub open spec fn floors_intact(w: WorldMap, rooms: Seq<Room>) -> bool {
    forall|i: int, c: Location|
        0 <= i < rooms.len() && #[trigger] rooms[i].is_floor_cell(c) ==> w.terrain_at(c)
            == Terrain::Floor
}

/// The cell lies strictly inside some well-formed room of accepted
/// proportions that fits inside a w-by-h grid.
pub open spec fn start_in_room(start: Location, w: int, h: int) -> bool {
    exists|room: Room|
        {
            &&& (#[trigger] room.is_floor_cell(start))
            &&& room.wf()
            &&& 3 <= room.spec_width() <= 14
            &&& 3 <= room.spec_height() <= 14
            &&& room.spec_x() + room.spec_width() <= w
            &&& room.spec_y() + room.spec_height() <= h
        }
}

/// A non-empty chain of in-bounds cells, each adjacent to the one before it,
/// every one marked as carved path.
pub open spec fn trail_marked(w: WorldMap, p: Seq<Location>) -> bool {
    &&& p.len() >= 1
    &&& forall|k: int|
        0 <= k < p.len() ==> w.in_bounds(#[trigger] p[k]) && w.terrain_at(p[k]) == Terrain::Debug
    &&& forall|i: int| 1 <= i < p.len() ==> (#[trigger] p[i - 1]).manhattan_spec(p[i]) == 1
}

/// Some carved trail stands in the map.
pub open spec fn has_debug_trail(w: WorldMap) -> bool {
    exists|p: Seq<Location>| #[trigger] trail_marked(w, p)
}

/// A single-cell terrain write touches no entity list and, when it writes
/// something other than `Debug`, marks no new path cell.
proof fn lemma_write_preserves(pre: WorldMap, post: WorldMap, loc: Location, t: Terrain)
    requires
        pre.wf(),
        post.wf(),
        pre.in_bounds(loc),
        post.spec_width() == pre.spec_width(),
        post.spec_height() == pre.spec_height(),
        post.spec_tile(loc).entities == pre.spec_tile(loc).entities,
        post.terrain_at(loc) == t,
        forall|c: Location|
            pre.in_bounds(c) && c != loc ==> #[trigger] post.spec_tile(c) == pre.spec_tile(c),
    ensures
        pre.no_entities() ==> post.no_entities(),
        t != Terrain::Debug && pre.no_debug() ==> post.no_debug(),
{
    if pre.no_entities() {
        assert forall|c: Location| post.in_bounds(c) implies (#[trigger] post.spec_tile(
            c,
        )).entities@.len() == 0 by {
            if c != loc {
                assert(post.spec_tile(c) == pre.spec_tile(c));
            }
            assert(pre.spec_tile(c).entities@.len() == 0);
        }
    }
    if t != Terrain::Debug && pre.no_debug() {
        assert forall|c: Location| post.in_bounds(c) implies #[trigger] post.terrain_at(c)
            != Terrain::Debug by {
            if c != loc {
                assert(post.spec_tile(c) == pre.spec_tile(c));
                assert(pre.terrain_at(c) != Terrain::Debug);
            }
        }
    }
}

/// The room proposal loop: draws `ROOM_ATTEMPTS` random rooms that fit in the
/// grid and keeps each one that overlaps none accepted before it.
pub fn place_rooms(rng: &mut Rand, width: i32, height: i32) -> (rooms: Vec<Room>)
    requires
        15 <= width,
        15 <= height,
    ensures
        rooms_ok(rooms@, width as int, height as int),
        rooms@.len() >= 1,
{
    let mut rooms: Vec<Room> = Vec::new();
    let mut attempt: u32 = 0;
    while attempt < ROOM_ATTEMPTS
        invariant
            15 <= width,
            15 <= height,
            rooms_ok(rooms@, width as int, height as int),
            attempt == 0 ==> rooms@.len() == 0,
            attempt > 0 ==> rooms@.len() >= 1,
        decreases ROOM_ATTEMPTS - attempt,
    {
        let room_width = rng.gen_range(3, 15);
        let room_height = rng.gen_range(3, 15);
        let room_x = rng.gen_range(0, width - room_width);
        let room_y = rng.gen_range(0, height - room_height);
        let room = Room::new(room_x, room_y, room_width, room_height);
        let mut available = true;
        let mut i: usize = 0;
        while i < rooms.len()
            invariant
                rooms_ok(rooms@, width as int, height as int),
                room.wf(),
                i <= rooms@.len(),
                available <==> forall|j: int|
                    0 <= j < i ==> !(#[trigger] rooms@[j]).spec_overlaps(room),
            decreases rooms@.len() - i,
        {
            if rooms[i].overlaps(&room) {
                available = false;
            }
            i = i + 1;
        }
        if available {
            let ghost prev = rooms@;
            rooms.push(room);
            proof {
                assert forall|a: int, b: int|
                    0 <= a < rooms@.len() && 0 <= b < rooms@.len() && a != b implies !(
                #[trigger] rooms@[a]).spec_overlaps(#[trigger] rooms@[b]) by {
                    if a < prev.len() && b < prev.len() {
                        assert(!prev[a].spec_overlaps(prev[b]));
                    } else if a == prev.len() {
                        assert(!prev[b].spec_overlaps(room));
                    } else {
                        assert(!prev[a].spec_overlaps(room));
                    }
                }
            }
        }
        attempt = attempt + 1;
    }
    rooms
}

/// Writes one room into the map: `Wall` on its border, `Floor` strictly
/// inside; every cell outside the room keeps its tile.
fn stamp_room(world: &mut WorldMap, room: &Room)
    requires
        old(world).wf(),
        room.wf(),
        room.spec_x() + room.spec_width() <= old(world).spec_width(),
        room.spec_y() + room.spec_height() <= old(world).spec_height(),
    ensures
        final(world).wf(),
        final(world).spec_width() == old(world).spec_width(),
        final(world).spec_height() == old(world).spec_height(),
        forall|c: Location|
            #[trigger] room.is_wall_cell(c) ==> final(world).terrain_at(c) == Terrain::Wall,
        forall|c: Location|
            #[trigger] room.is_floor_cell(c) ==> final(world).terrain_at(c) == Terrain::Floor,
        forall|c: Location|
            old(world).in_bounds(c) && !(#[trigger] room.contains_cell(c)) ==> final(world).spec_tile(c) == old(world).spec_tile(c),
        old(world).no_entities() ==> final(world).no_entities(),
        old(world).no_debug() ==> final(world).no_debug(),
{
    let walls = room.walls();
    proof {
        assert forall|j: int| 0 <= j < walls@.len() implies room.is_wall_cell(
            #[trigger] walls@[j],
        ) by {
            assert(room.walls_spec().contains(walls@[j]));
            room.lemma_walls_spec_iff(walls@[j]);
        }
    }
    let mut k: usize = 0;
    while k < walls.len()
        invariant
            world.wf(),
            world.spec_width() == old(world).spec_width(),
            world.spec_height() == old(world).spec_height(),
            room.wf(),
            room.spec_x() + room.spec_width() <= old(world).spec_width(),
            room.spec_y() + room.spec_height() <= old(world).spec_height(),
            walls@ == room.walls_spec(),
            forall|j: int| 0 <= j < walls@.len() ==> room.is_wall_cell(#[trigger] walls@[j]),
            k <= walls@.len(),
            forall|j: int|
                0 <= j < k ==> world.terrain_at(#[trigger] walls@[j]) == Terrain::Wall,
            forall|c: Location|
                old(world).in_bounds(c) && !(#[trigger] room.contains_cell(c)) ==> world.spec_tile(
                    c,
                ) == old(world).spec_tile(c),
            old(world).no_entities() ==> world.no_entities(),
            old(world).no_debug() ==> world.no_debug(),
        decreases walls@.len() - k,
    {
        let ghost before = *world;
        let c = walls[k];
        let t = world.get_tile_mut(c);
        t.terrain = Terrain::Wall;
        proof {
            lemma_write_preserves(before, *world, c, Terrain::Wall);
        }
        k = k + 1;
    }
    proof {
        assert forall|c: Location| room.is_wall_cell(c) implies world.terrain_at(c)
            == Terrain::Wall by {
            room.lemma_walls_spec_iff(c);
            let j = choose|j: int| 0 <= j < walls@.len() && walls@[j] == c;
            assert(world.terrain_at(walls@[j]) == Terrain::Wall);
        }
    }
    let floors = room.floors();
    proof {
        assert forall|j: int| 0 <= j < floors@.len() implies room.is_floor_cell(
            #[trigger] floors@[j],
        ) by {
            assert(room.floors_spec().contains(floors@[j]));
            room.lemma_floors_spec_iff(floors@[j]);
        }
    }
    let mut k2: usize = 0;
    while k2 < floors.len()
        invariant
            world.wf(),
            world.spec_width() == old(world).spec_width(),
            world.spec_height() == old(world).spec_height(),
            room.wf(),
            room.spec_x() + room.spec_width() <= old(world).spec_width(),
            room.spec_y() + room.spec_height() <= old(world).spec_height(),
            floors@ == room.floors_spec(),
            forall|j: int| 0 <= j < floors@.len() ==> room.is_floor_cell(#[trigger] floors@[j]),
            k2 <= floors@.len(),
            forall|c: Location|
                #[trigger] room.is_wall_cell(c) ==> world.terrain_at(c) == Terrain::Wall,
            forall|j: int|
                0 <= j < k2 ==> world.terrain_at(#[trigger] floors@[j]) == Terrain::Floor,
            forall|c: Location|
                old(world).in_bounds(c) && !(#[trigger] room.contains_cell(c)) ==> world.spec_tile(
                    c,
                ) == old(world).spec_tile(c),
            old(world).no_entities() ==> world.no_entities(),
            old(world).no_debug() ==> world.no_debug(),
        decreases floors@.len() - k2,
    {
        let ghost before = *world;
        let c = floors[k2];
        let t = world.get_tile_mut(c);
        t.terrain = Terrain::Floor;
        proof {
            lemma_write_preserves(before, *world, c, Terrain::Floor);
        }
        k2 = k2 + 1;
    }
    proof {
        assert forall|c: Location| room.is_floor_cell(c) implies world.terrain_at(c)
            == Terrain::Floor by {
            room.lemma_floors_spec_iff(c);
            let j = choose|j: int| 0 <= j < floors@.len() && floors@[j] == c;
            assert(world.terrain_at(floors@[j]) == Terrain::Floor);
        }
    }
}

/// Writes every accepted room into the map, in acceptance order.
pub fn stamp_rooms(world: &mut WorldMap, rooms: &Vec<Room>)
    requires
        old(world).wf(),
        rooms_ok(rooms@, old(world).spec_width(), old(world).spec_height()),
    ensures
        final(world).wf(),
        final(world).spec_width() == old(world).spec_width(),
        final(world).spec_height() == old(world).spec_height(),
        forall|i: int, c: Location|
            0 <= i < rooms@.len() && #[trigger] rooms@[i].is_wall_cell(c) ==> final(world).terrain_at(c) == Terrain::Wall,
        forall|i: int, c: Location|
            0 <= i < rooms@.len() && #[trigger] rooms@[i].is_floor_cell(c) ==> final(world).terrain_at(c) == Terrain::Floor,
        old(world).no_entities() ==> final(world).no_entities(),
        old(world).no_debug() ==> final(world).no_debug(),
{
    let mut i: usize = 0;
    while i < rooms.len()
        invariant
            world.wf(),
            world.spec_width() == old(world).spec_width(),
            world.spec_height() == old(world).spec_height(),
            rooms_ok(rooms@, old(world).spec_width(), old(world).spec_height()),
            i <= rooms@.len(),
            forall|j: int, c: Location|
                0 <= j < i && #[trigger] rooms@[j].is_wall_cell(c) ==> world.terrain_at(c)
                    == Terrain::Wall,
            forall|j: int, c: Location|
                0 <= j < i && #[trigger] rooms@[j].is_floor_cell(c) ==> world.terrain_at(c)
                    == Terrain::Floor,
            old(world).no_entities() ==> world.no_entities(),
            old(world).no_debug() ==> world.no_debug(),
        decreases rooms@.len() - i,
    {
        let ghost pre = *world;
        stamp_room(world, &rooms[i]);
        proof {
            let room = rooms@[i as int];
            assert forall|j: int, c: Location|
                0 <= j < i + 1 && #[trigger] rooms@[j].is_wall_cell(c) implies world.terrain_at(c)
                == Terrain::Wall by {
                if j < i {
                    Room::lemma_disjoint_cells(rooms@[j], room, c);
                    assert(pre.spec_tile(c) == world.spec_tile(c));
                }
            }
            assert forall|j: int, c: Location|
                0 <= j < i + 1 && #[trigger] rooms@[j].is_floor_cell(c) implies world.terrain_at(c)
                == Terrain::Floor by {
                if j < i {
                    Room::lemma_disjoint_cells(rooms@[j], room, c);
                    assert(pre.spec_tile(c) == world.spec_tile(c));
                }
            }
        }
        i = i + 1;
    }
}

/// Marks every cell of a found path as carved; every cell that was not still
/// unexcavated keeps its tile.
pub fn mark_path(world: &mut WorldMap, path: &Vec<Location>)
    requires
        old(world).wf(),
        forall|k: int|
            0 <= k < path@.len() ==> old(world).in_bounds(#[trigger] path@[k]) && old(
                world,
            ).terrain_at(path@[k]) == Terrain::Nothing,
    ensures
        final(world).wf(),
        final(world).spec_width() == old(world).spec_width(),
        final(world).spec_height() == old(world).spec_height(),
        forall|k: int|
            0 <= k < path@.len() ==> final(world).terrain_at(#[trigger] path@[k])
                == Terrain::Debug,
        forall|c: Location|
            old(world).in_bounds(c) && #[trigger] old(world).terrain_at(c) != Terrain::Nothing
                ==> final(world).spec_tile(c) == old(world).spec_tile(c),
        old(world).no_entities() ==> final(world).no_entities(),
{
    let mut k: usize = 0;
    while k < path.len()
        invariant
            world.wf(),
            world.spec_width() == old(world).spec_width(),
            world.spec_height() == old(world).spec_height(),
            k <= path@.len(),
            forall|j: int|
                0 <= j < path@.len() ==> old(world).in_bounds(#[trigger] path@[j]) && old(
                    world,
                ).terrain_at(path@[j]) == Terrain::Nothing,
            forall|j: int|
                0 <= j < k ==> world.terrain_at(#[trigger] path@[j]) == Terrain::Debug,
            forall|c: Location|
                old(world).in_bounds(c) && #[trigger] old(world).terrain_at(c) != Terrain::Nothing
                    ==> world.spec_tile(c) == old(world).spec_tile(c),
            old(world).no_entities() ==> world.no_entities(),
        decreases path@.len() - k,
    {
        let ghost before = *world;
        let c = path[k];
        let t = world.get_tile_mut(c);
        t.terrain = Terrain::Debug;
        proof {
            lemma_write_preserves(before, *world, c, Terrain::Debug);
        }
        k = k + 1;
    }
}

impl WorldMap {
    /// One full generation run: an empty map, the room proposal loop, the
    /// stamp phase, one carved connection between two randomly chosen room
    /// walls, and a random interior starting cell. `None` when not a single
    /// room was accepted; otherwise the starting cell always carries floor.
    pub fn generate(rng: &mut Rand, width: i32, height: i32) -> (r: Option<Generated>)
        requires
            15 <= width,
            15 <= height,
            width * height <= i32::MAX,
        ensures
            r is Some,
            r matches Some(g) ==> {
                &&& g.map.wf()
                &&& g.map.spec_width() == width
                &&& g.map.spec_height() == height
                &&& g.map.spec_tiles().len() == width * height
                &&& g.map.no_entities()
                &&& g.map.in_bounds(g.start)
                &&& g.map.terrain_at(g.start) == Terrain::Floor
                &&& start_in_room(g.start, width as int, height as int)
                &&& (!g.connected ==> g.map.no_debug())
                &&& (g.connected ==> has_debug_trail(g.map))
            },
    {
        let mut world = WorldMap::new(width, height);
        let rooms = place_rooms(rng, width, height);
        if rooms.len() == 0 {
            return None;
        }
        assert(world.no_debug());
        stamp_rooms(&mut world, &rooms);
        assert(floors_intact(world, rooms@));

        // Pick one random wall cell from each of two random rooms and open
        // those doorways.
        let w1 = pick_wall(rng, &rooms, &world);
        let w2 = pick_wall(rng, &rooms, &world);
        let ghost pre1 = world;
        let t1 = world.get_tile_mut(w1);
        t1.terrain = Terrain::Nothing;
        proof {
            preserve_floors_after_wall_write(pre1, world, rooms@, w1);
            lemma_write_preserves(pre1, world, w1, Terrain::Nothing);
        }
        let ghost pre2 = world;
        let t2 = world.get_tile_mut(w2);
        t2.terrain = Terrain::Nothing;
        proof {
            preserve_floors_after_wall_write(pre2, world, rooms@, w2);
            lemma_write_preserves(pre2, world, w2, Terrain::Nothing);
        }
        assert(world.terrain_at(w1) == Terrain::Nothing);
        assert(world.terrain_at(w2) == Terrain::Nothing);

        // Search for a connecting path through unexcavated space and mark it.
        let ghost searched = world;
        let path = world.find_connection(w1, w2);
        let connected: bool = match path {
            Some(p) => {
                mark_path(&mut world, &p);
                proof {
                    assert forall|i: int, c: Location|
                        0 <= i < rooms@.len() && #[trigger] rooms@[i].is_floor_cell(c)
                            implies world.terrain_at(c) == Terrain::Floor by {
                        assert(searched.terrain_at(c) == Terrain::Floor);
                        assert(searched.in_bounds(c));
                    }
                    assert forall|i: int| 1 <= i < p@.len() implies (#[trigger] p@[i
                        - 1]).manhattan_spec(p@[i]) == 1 by {
                        lemma_passable_iff(searched, p@[i - 1], p@[i]);
                    }
                    assert(trail_marked(world, p@));
                    assert(has_debug_trail(world));
                }
                true
            },
            None => false,
        };
        assert(floors_intact(world, rooms@));

        // Pick a random floor cell of a random room to start on.
        let r3 = rng.gen_index(rooms.len());
        let floors3 = rooms[r3].floors();
        proof {
            let room = rooms@[r3 as int];
            let inner = Location { x: (room.spec_x() + 1) as i32, y: (room.spec_y() + 1) as i32 };
            assert(room.is_floor_cell(inner));
            room.lemma_floors_spec_iff(inner);
            assert(floors3@.len() > 0);
        }
        let f = rng.gen_index(floors3.len());
        let start = floors3[f];
        proof {
            let room = rooms@[r3 as int];
            assert(floors3@.contains(floors3@[f as int]));
            room.lemma_floors_spec_iff(start);
            assert(rooms@[r3 as int].is_floor_cell(start));
            assert(start_in_room(start, width as int, height as int));
        }
        Some(Generated { map: world, start, connected })
    }
}

/// Opening a doorway in one room's wall never touches any room's floor.
proof fn preserve_floors_after_wall_write(
    pre: WorldMap,
    post: WorldMap,
    rooms: Seq<Room>,
    w: Location,
)
    requires
        pre.wf(),
        post.wf(),
        rooms_ok(rooms, pre.spec_width(), pre.spec_height()),
        floors_intact(pre, rooms),
        exists|i: int| 0 <= i < rooms.len() && #[trigger] rooms[i].is_wall_cell(w),
        forall|c: Location|
            pre.in_bounds(c) && c != w ==> #[trigger] post.spec_tile(c) == pre.spec_tile(c),
    ensures
        floors_intact(post, rooms),
{
    let iw = choose|i: int| 0 <= i < rooms.len() && #[trigger] rooms[i].is_wall_cell(w);
    assert forall|i: int, c: Location|
        0 <= i < rooms.len() && #[trigger] rooms[i].is_floor_cell(c) implies post.terrain_at(c)
        == Terrain::Floor by {
        if i != iw {
            Room::lemma_disjoint_cells(rooms[i], rooms[iw], w);
        }
        assert(c != w);
        assert(pre.in_bounds(c));
    }
}

/// A uniformly random wall cell of a uniformly random accepted room.
pub fn pick_wall(rng: &mut Rand, rooms: &Vec<Room>, world: &WorldMap) -> (w: Location)
    requires
        world.wf(),
        rooms@.len() > 0,
        rooms_ok(rooms@, world.spec_width(), world.spec_height()),
    ensures
        world.in_bounds(w),
        exists|i: int| 0 <= i < rooms@.len() && #[trigger] rooms@[i].is_wall_cell(w),
{
    let r = rng.gen_index(rooms.len());
    let walls = rooms[r].walls();
    proof {
        let room = rooms@[r as int];
        let corner = Location { x: room.spec_x() as i32, y: room.spec_y() as i32 };
        assert(room.is_wall_cell(corner));
        room.lemma_walls_spec_iff(corner);
        assert(walls@.len() > 0);
    }
    let k = rng.gen_index(walls.len());
    let w = walls[k];
    proof {
        let room = rooms@[r as int];
        assert(walls@.contains(walls@[k as int]));
        room.lemma_walls_spec_iff(w);
        assert(room.is_wall_cell(w));
    }
    w
}

} // verus!
