use werfs::commands::click_command;
use werfs::constants::NEAR_SQ;
use werfs::entities::Animated;
use werfs::entities::Position;
use werfs::entities::State;
use werfs::entities::Vec2Fx;
use werfs::entities::Velocity;
use werfs::steps::collision;
use werfs::steps::integrate;
use werfs::steps::state;
use werfs::steps::Werfs;
use werfs::tiles::Tiles;

fn walker_at(x: i64, y: i64) -> Werfs {
    Werfs {
        pos: vec![Position { p: Vec2Fx { x, y } }],
        vel: vec![Velocity { v: Vec2Fx { x: 0, y: 0 } }],
        anim: vec![Animated { sprite: 0, step: 0 }],
        state: vec![State::Idle],
    }
}

fn run_until_idle(w: &mut Werfs, tiles: &Tiles, max_frames: usize) -> Option<usize> {
    for frame in 0..max_frames {
        let mut positions: Vec<Position> = Vec::with_capacity(w.len());
        integrate(w, &mut positions);
        collision(w, positions);
        state(w, tiles.width, 16);
        if w.state[0].cursor().is_none() {
            return Some(frame);
        }
    }
    None
}

#[test]
fn walk_across_an_open_row() {
    let mut rng = rand::rng();
    let tiles = Tiles::new(&mut rng, vec![0u8; 100], 10);
    let mut w = walker_at(0, 0);

    assert!(click_command(&mut w, 0, &tiles, 9));
    assert_eq!(w.state[0].route_len(), Some(10));
    assert_eq!(w.state[0].cursor(), Some(0));

    let frames = run_until_idle(&mut w, &tiles, 20000);
    assert!(frames.is_some(), "the agent never went idle");
    // at the frame the route finished, the agent stood within the waypoint
    // threshold of the goal tile's center (152000, 8000)
    let dx = w.pos[0].p.x - 152000;
    let dy = w.pos[0].p.y - 8000;
    assert!(
        dx * dx + dy * dy < NEAR_SQ,
        "stopped too far from the goal: ({}, {})",
        w.pos[0].p.x,
        w.pos[0].p.y
    );
}

#[test]
fn walk_around_a_wall() {
    let mut rng = rand::rng();
    let mut codes = vec![0u8; 100];
    codes[5] = 1;
    let tiles = Tiles::new(&mut rng, codes, 10);
    let mut w = walker_at(0, 0);

    assert!(click_command(&mut w, 0, &tiles, 9));
    assert_eq!(w.state[0].route_len(), Some(12));

    let frames = run_until_idle(&mut w, &tiles, 40000);
    assert!(frames.is_some(), "the agent never went idle");
    let dx = w.pos[0].p.x - 152000;
    let dy = w.pos[0].p.y - 8000;
    assert!(dx * dx + dy * dy < NEAR_SQ);
}

#[test]
fn unreachable_click_is_dropped() {
    let mut rng = rand::rng();
    let mut codes = vec![0u8; 100];
    codes[8] = 1;
    codes[19] = 1;
    let tiles = Tiles::new(&mut rng, codes, 10);
    let mut w = walker_at(0, 0);
    assert!(!click_command(&mut w, 0, &tiles, 9));
    assert!(matches!(w.state[0], State::Idle));
    assert_eq!(w.pos[0].p, Vec2Fx { x: 0, y: 0 });
}

#[test]
fn click_for_a_missing_agent_is_dropped() {
    let mut rng = rand::rng();
    let tiles = Tiles::new(&mut rng, vec![0u8; 100], 10);
    let mut w = walker_at(0, 0);
    assert!(!click_command(&mut w, 5, &tiles, 9));
    assert!(matches!(w.state[0], State::Idle));
}

#[test]
fn new_click_replaces_the_route() {
    let mut rng = rand::rng();
    let tiles = Tiles::new(&mut rng, vec![0u8; 100], 10);
    let mut w = walker_at(0, 0);
    assert!(click_command(&mut w, 0, &tiles, 99));
    assert_eq!(w.state[0].route_len(), Some(19));
    assert!(click_command(&mut w, 0, &tiles, 3));
    assert_eq!(w.state[0].route_len(), Some(4));
    assert_eq!(w.state[0].cursor(), Some(0));
}
