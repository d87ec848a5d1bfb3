use world_map::generate::place_rooms;
use world_map::{
    ConnectRooms, Location, NeighborIterator, Rand, Room, Terrain, WorldMap,
};

#[test]
fn test_accepted_rooms_never_overlap() {
    let mut rng = Rand::from_seed(42);
    let rooms = place_rooms(&mut rng, 40, 40);
    assert!(rooms.len() > 0);
    for i in 0..rooms.len() {
        for j in 0..rooms.len() {
            if i != j {
                assert!(!rooms[i].overlaps(&rooms[j]));
            }
        }
    }
}

#[test]
fn test_walls_floors_partition_cells() {
    let room = Room::new(2, 3, 4, 3);
    let walls = room.walls();
    let floors = room.floors();
    // A 4x3 room covers 12 cells: 10 on the border, 2 strictly inside.
    assert_eq!(walls.len(), 10);
    assert_eq!(floors.len(), 2);
    for w in walls.iter() {
        assert!(!floors.contains(w));
    }
    for x in 2..6 {
        for y in 3..6 {
            let c = Location::new(x, y);
            let in_walls = walls.contains(&c);
            let in_floors = floors.contains(&c);
            assert!(in_walls != in_floors);
        }
    }
    assert_eq!(floors, vec![Location::new(3, 4), Location::new(4, 4)]);
}

#[test]
fn test_overlap_is_inclusive_on_edges() {
    let a = Room::new(0, 0, 3, 3);
    let touching = Room::new(3, 0, 3, 3);
    let separated = Room::new(4, 0, 3, 3);
    let inside = Room::new(1, 1, 2, 2);
    // Edge-adjacent boxes still count as overlapping.
    assert!(a.overlaps(&touching));
    assert!(touching.overlaps(&a));
    assert!(!a.overlaps(&separated));
    assert!(!separated.overlaps(&a));
    assert!(a.overlaps(&inside));
}

#[test]
fn test_get_adjacent_corner_and_center() {
    let map = WorldMap::new(5, 4);
    assert_eq!(
        map.get_adjacent(Location::new(0, 0)),
        vec![Location::new(1, 0), Location::new(0, 1)]
    );
    assert_eq!(
        map.get_adjacent(Location::new(2, 2)),
        vec![
            Location::new(1, 2),
            Location::new(2, 1),
            Location::new(3, 2),
            Location::new(2, 3),
        ]
    );
}

#[test]
fn test_tile_iterator_row_major() {
    let map = WorldMap::new(3, 2);
    let mut it = map.tiles();
    let mut locs: Vec<Location> = Vec::new();
    while let Some((tile, loc)) = it.next() {
        assert_eq!(tile.terrain, Terrain::Nothing);
        locs.push(loc);
    }
    assert_eq!(
        locs,
        vec![
            Location::new(0, 0),
            Location::new(1, 0),
            Location::new(2, 0),
            Location::new(0, 1),
            Location::new(1, 1),
            Location::new(2, 1),
        ]
    );
    // A fresh call restarts from the beginning.
    let mut again = map.tiles();
    let first = again.next().expect("fresh iterator yields the first tile");
    assert_eq!(first.1, Location::new(0, 0));
}

#[test]
fn test_neighbor_iterator_skips_built_cells() {
    let mut map = WorldMap::new(6, 6);
    map.get_tile_mut(Location::new(3, 2)).terrain = Terrain::Wall;
    map.get_tile_mut(Location::new(2, 3)).terrain = Terrain::Floor;
    let mut it = NeighborIterator::new(&map, Location::new(2, 2));
    let mut found: Vec<(Location, i32)> = Vec::new();
    while let Some(p) = it.next() {
        found.push(p);
    }
    // Left and up stay passable; right hit a wall, down a floor.
    assert_eq!(found, vec![(Location::new(1, 2), 1), (Location::new(2, 1), 1)]);
}

#[test]
fn test_connect_rooms_adapter() {
    let map = WorldMap::new(10, 10);
    let start = Location::new(1, 1);
    let end = Location::new(7, 4);
    let problem = ConnectRooms::new(&map, start, end);
    assert_eq!(problem.start(), start);
    assert!(problem.is_goal(&end));
    assert!(!problem.is_goal(&start));
    assert_eq!(problem.heuristic_cost(&start), 9);
    assert_eq!(problem.heuristic_cost(&end), 0);
    for pair in problem.neighbor_pairs(&start).iter() {
        assert_eq!(pair.1, 1);
        assert_eq!(pair.0.manhattan(&start), 1);
    }
}

#[test]
fn test_path_length_equals_manhattan_on_open_grid() {
    let map = WorldMap::new(20, 20);
    let start = Location::new(2, 3);
    let end = Location::new(7, 9);
    let path = map
        .find_connection(start, end)
        .expect("an unobstructed grid must be connected");
    assert_eq!(path[0], start);
    assert_eq!(*path.last().unwrap(), end);
    // Edge count equals the Manhattan distance.
    assert_eq!(path.len() as i32 - 1, start.manhattan(&end));
}

#[test]
fn test_no_path_through_built_terrain() {
    let mut map = WorldMap::new(15, 15);
    for y in 0..15 {
        map.get_tile_mut(Location::new(7, y)).terrain = Terrain::Wall;
    }
    let blocked = map.find_connection(Location::new(2, 2), Location::new(12, 2));
    assert!(blocked.is_none());
}

#[test]
fn test_generate_fixed_seed() {
    let mut rng = Rand::from_seed(7);
    let generated = WorldMap::generate(&mut rng, 40, 40)
        .expect("forty by forty leaves room for at least one accepted room");
    let mut count = 0usize;
    let mut it = generated.map.tiles();
    while let Some(_) = it.next() {
        count += 1;
    }
    assert_eq!(count, 1600);
    assert_eq!(
        generated.map.get_tile(generated.start).terrain,
        Terrain::Floor
    );
}

#[test]
fn test_tile_at_idempotent() {
    let mut rng = Rand::from_seed(99);
    let generated = WorldMap::generate(&mut rng, 40, 40).expect("generation succeeds");
    let loc = Location::new(17, 23);
    let first = generated.map.get_tile(loc);
    let t1 = first.terrain;
    let e1 = first.entities.clone();
    let second = generated.map.get_tile(loc);
    assert_eq!(t1, second.terrain);
    assert_eq!(e1, second.entities);
}

#[test]
fn test_rand_draws_stay_in_range() {
    let mut rng = Rand::from_seed(1);
    for _ in 0..200 {
        let v = rng.gen_range(3, 15);
        assert!((3..15).contains(&v));
        let i = rng.gen_index(5);
        assert!(i < 5);
    }
}
