use werfs::entities::Position;
use werfs::entities::Vec2Fx;
use werfs::entities::WorldIndex;
use werfs::tile::Tile;
use werfs::tiles::Tiles;
use werfs::utils::index_to_v2;
use werfs::utils::v2_to_index;
use werfs::utils::xy_to_index;

fn ground_grid(width: usize, len: usize) -> Tiles {
    let mut rng = rand::rng();
    Tiles::new(&mut rng, vec![0u8; len], width)
}

#[test]
fn tile_classification() {
    assert!(Tile::WallTop03.is_wall());
    assert!(Tile::WallSide05.is_wall());
    assert!(!Tile::Ground02.is_wall());
    assert!(Tile::Ground01.is_ground());
    assert!(!Tile::Red.is_ground());
    assert!(!Tile::Red.is_wall());
    assert!(Tile::WallSide01.is_blocked());
    assert!(!Tile::Ground03.is_blocked());
}

#[test]
fn sheet_indices() {
    assert_eq!(Tile::Ground01.sheet_index(), 0);
    assert_eq!(Tile::Ground03.sheet_index(), 2);
    assert_eq!(Tile::WallTop01.sheet_index(), 16);
    assert_eq!(Tile::WallSide01.sheet_index(), 32);
    assert_eq!(Tile::Red.sheet_index(), 96);
}

#[test]
fn new_keeps_wall_classification() {
    let mut rng = rand::rng();
    let codes = vec![0u8, 1, 0, 1, 1, 0, 0, 0, 1, 0];
    let t = Tiles::new(&mut rng, codes.clone(), 5);
    assert_eq!(t.tiles.len(), 10);
    assert_eq!(t.width, 5);
    for i in 0..10 {
        assert_eq!(t.tiles[i].is_wall(), codes[i] == 1);
    }
}

#[test]
fn wall_above_ground_becomes_side() {
    let mut rng = rand::rng();
    // a wall in the top row with ground right below it
    let t = Tiles::new(&mut rng, vec![1u8, 0, 0, 0], 2);
    let s = t.tiles[0].sheet_index();
    assert!((32..=36).contains(&s), "expected a wall-side variant, got {s}");
}

#[test]
fn wall_above_wall_stays_top() {
    let mut rng = rand::rng();
    let t = Tiles::new(&mut rng, vec![1u8, 0, 1, 0], 2);
    let s = t.tiles[0].sheet_index();
    assert!((16..=20).contains(&s), "expected a wall-top variant, got {s}");
}

#[test]
fn neighbor_probes() {
    let t = ground_grid(10, 100);
    assert!(t.tile_above(5).is_none());
    assert!(t.tile_above(15).is_some());
    assert!(t.tile_at_left(0).is_none());
    assert!(t.tile_at_left(1).is_some());
    assert!(t.tile_below(95).is_none());
    assert!(t.tile_below(85).is_some());
    assert!(t.tile_at_right(99).is_none());
    // the raw probes run along the flat vector, across row boundaries
    assert!(t.tile_at_right(9).is_some());
    assert!(t.tile_at_left(10).is_some());
}

#[test]
fn successors_guard_row_edges() {
    let t = ground_grid(10, 100);
    // the raw probe sees the next row's first tile, the adjacency does not
    assert!(t.tile_at_right(9).is_some());
    let s = WorldIndex(9).successors(&t);
    let ids: Vec<i32> = s.iter().map(|w| w.0).collect();
    assert_eq!(ids.len(), 2);
    assert!(ids.contains(&8));
    assert!(ids.contains(&19));
    assert!(!ids.contains(&10));
    let s0 = WorldIndex(10).successors(&t);
    let ids0: Vec<i32> = s0.iter().map(|w| w.0).collect();
    assert!(!ids0.contains(&9));
    assert!(ids0.contains(&0));
    assert!(ids0.contains(&11));
    assert!(ids0.contains(&20));
}

#[test]
fn successors_skip_walls() {
    let mut rng = rand::rng();
    let mut codes = vec![0u8; 100];
    codes[12] = 1;
    let t = Tiles::new(&mut rng, codes, 10);
    let s = WorldIndex(22).successors(&t);
    let ids: Vec<i32> = s.iter().map(|w| w.0).collect();
    assert!(!ids.contains(&12));
    assert!(ids.contains(&21));
    assert!(ids.contains(&23));
    assert!(ids.contains(&32));
}

#[test]
fn update_neighbours_retags_without_reclassifying() {
    let mut rng = rand::rng();
    // a wall over ground: re-tagging the ground cell turns the wall above
    // it into a side variant and leaves every blocking decision alone
    let mut t = Tiles::new(&mut rng, vec![1u8, 0, 0, 0], 2);
    t.update_neighbours(&mut rng, 2);
    assert!(t.tiles[0].is_wall());
    assert!((32..=36).contains(&t.tiles[0].sheet_index()));
    assert!(t.tiles[2].is_ground());
    assert!(!t.tiles[2].is_blocked());
    // a wall cell itself is left entirely alone
    let before = t.tiles.clone();
    t.update_neighbours(&mut rng, 0);
    assert_eq!(format!("{:?}", before), format!("{:?}", t.tiles));
}

#[test]
fn set_square_stamps_blocking() {
    let mut rng = rand::rng();
    let mut t = ground_grid(5, 25);
    t.set_square(&mut rng, 1, 1, 2, Tile::WallTop01);
    for y in 0..5usize {
        for x in 0..5usize {
            let idx = x + y * 5;
            let expect = (1..3).contains(&x) && (1..3).contains(&y);
            assert_eq!(t.tiles[idx].is_blocked(), expect, "tile {idx}");
        }
    }
}

#[test]
fn index_conversions() {
    assert_eq!(xy_to_index(3, 2, 10), 23);
    let v = index_to_v2(23, 10);
    assert_eq!(v, Vec2Fx { x: 3000, y: 2000 });
    assert_eq!(v2_to_index(Vec2Fx { x: 3500, y: 2900 }, 10), 23);
}

#[test]
fn world_index_of_position() {
    let p = Position { p: Vec2Fx { x: 33000, y: 17000 } };
    assert_eq!(p.to_world_index(10, true).0, 12);
    assert_eq!(p.to_world_index(10, false).0, 33 + 17 * 10);
    let w = WorldIndex(12);
    assert_eq!(w.to_vec(10), Vec2Fx { x: 2000, y: 1000 });
}
