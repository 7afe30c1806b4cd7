use werfs::entities::Animated;
use werfs::entities::Position;
use werfs::entities::State;
use werfs::entities::Vec2Fx;
use werfs::entities::Velocity;
use werfs::steps::collision;
use werfs::steps::Werfs;

fn table(points: &[(i64, i64)], vels: &[(i64, i64)]) -> Werfs {
    Werfs {
        pos: points.iter().map(|&(x, y)| Position { p: Vec2Fx { x, y } }).collect(),
        vel: vels.iter().map(|&(x, y)| Velocity { v: Vec2Fx { x, y } }).collect(),
        anim: points.iter().map(|_| Animated { sprite: 0, step: 0 }).collect(),
        state: points.iter().map(|_| State::Idle).collect(),
    }
}

fn snapshot(w: &Werfs) -> Vec<Position> {
    w.pos.clone()
}

#[test]
fn distant_agents_are_untouched() {
    let mut w = table(&[(0, 0), (100000, 0)], &[(50, 60), (-70, 80)]);
    let snap = snapshot(&w);
    let flags = collision(&mut w, snap);
    assert_eq!(flags, vec![false, false]);
    assert_eq!(w.pos[0].p, Vec2Fx { x: 0, y: 0 });
    assert_eq!(w.pos[1].p, Vec2Fx { x: 100000, y: 0 });
    assert_eq!(w.vel[0].v, Vec2Fx { x: 50, y: 60 });
    assert_eq!(w.vel[1].v, Vec2Fx { x: -70, y: 80 });
}

#[test]
fn agents_exactly_at_the_range_edge_are_untouched() {
    // separation exactly 2R: the query is strict, so no collision
    let mut w = table(&[(0, 0), (8000, 0)], &[(100, 0), (0, 0)]);
    let snap = snapshot(&w);
    let flags = collision(&mut w, snap);
    assert_eq!(flags, vec![false, false]);
    assert_eq!(w.pos[0].p, Vec2Fx { x: 0, y: 0 });
    assert_eq!(w.vel[0].v, Vec2Fx { x: 100, y: 0 });
}

#[test]
fn close_pair_is_set_back_symmetrically() {
    let mut w = table(&[(0, 0), (5000, 0)], &[(100, -100), (40, 0)]);
    let snap = snapshot(&w);
    let flags = collision(&mut w, snap);
    assert_eq!(flags, vec![true, true]);
    // midpoint 2500; push = (+-5000 * 5) / 9 = +-2777 truncated
    assert_eq!(w.pos[0].p, Vec2Fx { x: 2500 - 2777, y: 0 });
    assert_eq!(w.pos[1].p, Vec2Fx { x: 2500 + 2777, y: 0 });
    // displacements from the midpoint are equal and opposite
    let d0 = w.pos[0].p.x - 2500;
    let d1 = w.pos[1].p.x - 2500;
    assert_eq!(d0, -d1);
    assert_eq!(w.pos[0].p.y - 0, -(w.pos[1].p.y - 0));
    // velocities are damped by 85 / 100
    assert_eq!(w.vel[0].v, Vec2Fx { x: 85, y: -85 });
    assert_eq!(w.vel[1].v, Vec2Fx { x: 34, y: 0 });
}

#[test]
fn coincident_agents_keep_position_and_damp() {
    let mut w = table(&[(400, 400), (400, 400)], &[(200, 0), (0, 200)]);
    let snap = snapshot(&w);
    let flags = collision(&mut w, snap);
    assert_eq!(flags, vec![true, true]);
    assert_eq!(w.pos[0].p, Vec2Fx { x: 400, y: 400 });
    assert_eq!(w.pos[1].p, Vec2Fx { x: 400, y: 400 });
    assert_eq!(w.vel[0].v, Vec2Fx { x: 170, y: 0 });
    assert_eq!(w.vel[1].v, Vec2Fx { x: 0, y: 170 });
}

#[test]
fn only_the_close_pair_reacts() {
    let mut w = table(
        &[(0, 0), (4000, 0), (500000, 500000)],
        &[(0, 0), (0, 0), (10, 10)],
    );
    let snap = snapshot(&w);
    let flags = collision(&mut w, snap);
    assert_eq!(flags, vec![true, true, false]);
    assert_eq!(w.pos[2].p, Vec2Fx { x: 500000, y: 500000 });
    assert_eq!(w.vel[2].v, Vec2Fx { x: 10, y: 10 });
    // the near pair separates along the x axis around midpoint 2000
    assert!(w.pos[0].p.x < 2000);
    assert!(w.pos[1].p.x > 2000);
}

#[test]
fn diagonal_pair_resolves_both_axes() {
    let mut w = table(&[(0, 0), (3000, 3000)], &[(0, 0), (0, 0)]);
    let snap = snapshot(&w);
    let flags = collision(&mut w, snap);
    assert_eq!(flags, vec![true, true]);
    // midpoint (1500, 1500), push (+-1666, +-1666)
    assert_eq!(w.pos[0].p, Vec2Fx { x: 1500 - 1666, y: 1500 - 1666 });
    assert_eq!(w.pos[1].p, Vec2Fx { x: 1500 + 1666, y: 1500 + 1666 });
}

#[test]
fn empty_table_is_fine() {
    let mut w = Werfs::new();
    let flags = collision(&mut w, Vec::new());
    assert!(flags.is_empty());
}
