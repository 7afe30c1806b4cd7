use werfs::entities::Animated;
use werfs::entities::Position;
use werfs::entities::State;
use werfs::entities::Vec2Fx;
use werfs::entities::Velocity;
use werfs::entities::WorldIndex;
use werfs::spawn::many_werfs;
use werfs::spawn::two_werfs;
use werfs::spawn::werf;
use werfs::steps::animation;
use werfs::steps::integrate;
use werfs::steps::position_for;
use werfs::steps::state;
use werfs::steps::Werfs;

fn one_agent(pos: Vec2Fx, vel: Vec2Fx, st: State) -> Werfs {
    Werfs {
        pos: vec![Position { p: pos }],
        vel: vec![Velocity { v: vel }],
        anim: vec![Animated { sprite: 0, step: 0 }],
        state: vec![st],
    }
}

#[test]
fn idle_update_changes_nothing() {
    let mut w = one_agent(Vec2Fx { x: 123, y: 456 }, Vec2Fx { x: 7, y: -9 }, State::Idle);
    state(&mut w, 10, 16);
    assert_eq!(w.pos[0].p, Vec2Fx { x: 123, y: 456 });
    assert_eq!(w.vel[0].v, Vec2Fx { x: 7, y: -9 });
    assert!(w.state[0].cursor().is_none());
}

#[test]
fn cursor_is_monotonic_and_bounded() {
    let path = vec![WorldIndex(0), WorldIndex(1), WorldIndex(2)];
    let mut w = one_agent(
        Vec2Fx { x: 0, y: 0 },
        Vec2Fx { x: 0, y: 0 },
        State::new_moving(path),
    );
    assert_eq!(w.state[0].cursor(), Some(0));
    assert_eq!(w.state[0].route_len(), Some(3));
    let mut last = 0usize;
    for _ in 0..2000 {
        let mut positions: Vec<Position> = Vec::new();
        integrate(&mut w, &mut positions);
        state(&mut w, 10, 16);
        match w.state[0].cursor() {
            Some(c) => {
                assert!(c >= last, "cursor went backward");
                assert!(c <= last + 1, "cursor skipped a waypoint");
                let len = w.state[0].route_len().unwrap();
                assert!(c < len, "a live cursor stays under the route length");
                last = c;
            }
            None => return, // went idle exactly once the route was exhausted
        }
    }
    panic!("the agent never finished its three-waypoint route");
}

#[test]
fn first_impulse_is_exact() {
    // the target is the center of tile 1, (24000, 8000); the offset's
    // squared length is 640000000, whose floor square root is 25298, so the
    // impulse is (24000 * 400 / 25298, 8000 * 400 / 25298)
    let path = vec![WorldIndex(1)];
    let mut w = one_agent(
        Vec2Fx { x: 0, y: 0 },
        Vec2Fx { x: 0, y: 0 },
        State::new_moving(path),
    );
    state(&mut w, 10, 100);
    assert_eq!(w.vel[0].v, Vec2Fx { x: 379, y: 126 });
    assert_eq!(w.state[0].cursor(), Some(0));
}

#[test]
fn degenerate_routes_finish_immediately() {
    let mut w = one_agent(
        Vec2Fx { x: 5, y: 5 },
        Vec2Fx { x: 1, y: 1 },
        State::new_moving(Vec::new()),
    );
    state(&mut w, 10, 16);
    assert!(w.state[0].cursor().is_none());
    assert_eq!(w.vel[0].v, Vec2Fx { x: 1, y: 1 });

    // a one-waypoint route whose tile center the agent already stands on
    // also goes idle at once
    let mut w2 = one_agent(
        Vec2Fx { x: 8000, y: 8000 },
        Vec2Fx { x: 0, y: 0 },
        State::new_moving(vec![WorldIndex(0)]),
    );
    state(&mut w2, 10, 16);
    assert!(w2.state[0].cursor().is_none());
}

#[test]
fn integration_moves_and_decays() {
    let mut w = one_agent(Vec2Fx { x: 1000, y: 2000 }, Vec2Fx { x: 500, y: -300 }, State::Idle);
    let mut positions: Vec<Position> = Vec::new();
    integrate(&mut w, &mut positions);
    assert_eq!(w.pos[0].p, Vec2Fx { x: 1500, y: 1700 });
    assert_eq!(w.vel[0].v, Vec2Fx { x: 480, y: -288 });
    assert_eq!(positions.len(), 1);
    assert_eq!(positions[0].p, Vec2Fx { x: 1500, y: 1700 });
}

#[test]
fn slow_velocity_is_zeroed() {
    let mut w = one_agent(Vec2Fx { x: 0, y: 0 }, Vec2Fx { x: 10, y: 10 }, State::Idle);
    let mut positions: Vec<Position> = Vec::new();
    integrate(&mut w, &mut positions);
    assert_eq!(w.pos[0].p, Vec2Fx { x: 10, y: 10 });
    assert_eq!(w.vel[0].v, Vec2Fx { x: 0, y: 0 });
}

#[test]
fn animation_steps_only_in_motion() {
    let mut w = one_agent(Vec2Fx { x: 0, y: 0 }, Vec2Fx { x: 100, y: 0 }, State::Idle);
    animation(&mut w);
    assert_eq!(w.anim[0].step, 1);
    animation(&mut w);
    assert_eq!(w.anim[0].step, 0);
    w.vel[0] = Velocity { v: Vec2Fx { x: 1, y: 1 } };
    w.anim[0] = Animated { sprite: 0, step: 1 };
    animation(&mut w);
    assert_eq!(w.anim[0].step, 0);
}

#[test]
fn werf_builds_idle_components() {
    let mut counter = 0i32;
    let (p, v, a, s) = werf(
        &mut counter,
        Position { p: Vec2Fx { x: 1, y: 2 } },
        Velocity { v: Vec2Fx { x: 3, y: 4 } },
        2,
    );
    assert_eq!(counter, 1);
    assert_eq!(p.p, Vec2Fx { x: 1, y: 2 });
    assert_eq!(v.v, Vec2Fx { x: 3, y: 4 });
    assert_eq!(a.sprite, 2);
    assert_eq!(a.step, 0);
    assert!(matches!(s, State::Idle));
}

#[test]
fn two_werfs_flank_the_base() {
    let mut rng = rand::rng();
    let mut counter = 0i32;
    let mut w = Werfs::new();
    let id = two_werfs(
        &mut counter,
        &mut w,
        &mut rng,
        Position { p: Vec2Fx { x: 500000, y: 600000 } },
    );
    assert_eq!(id, 0);
    assert_eq!(counter, 2);
    assert_eq!(w.len(), 2);
    assert_eq!(w.pos[0].p, Vec2Fx { x: 372000, y: 600000 });
    assert_eq!(w.pos[1].p, Vec2Fx { x: 628000, y: 600000 });
    assert_eq!(w.vel[0].v, Vec2Fx { x: 0, y: 0 });
    assert!(w.anim[0].sprite <= 3);
    assert!(w.anim[1].sprite <= 3);
    assert!(matches!(w.state[0], State::Idle));
    assert!(matches!(w.state[1], State::Idle));
}

#[test]
fn many_werfs_scatter_in_bounds() {
    let mut rng = rand::rng();
    let mut counter = 0i32;
    let mut w = Werfs::new();
    many_werfs(&mut counter, &mut w, 20, &mut rng, 200000, 150000);
    assert_eq!(counter, 20);
    assert_eq!(w.len(), 20);
    for i in 0..20 {
        assert!(w.pos[i].p.x >= 16000 && w.pos[i].p.x < 200000);
        assert!(w.pos[i].p.y >= 16000 && w.pos[i].p.y < 150000);
        assert!(w.vel[i].v.x >= -700 && w.vel[i].v.x < 700);
        assert!(w.vel[i].v.y >= -700 && w.vel[i].v.y < 700);
        assert!(matches!(w.state[i], State::Idle));
    }
}

#[test]
fn position_lookup() {
    let w = one_agent(Vec2Fx { x: 8, y: 9 }, Vec2Fx { x: 0, y: 0 }, State::Idle);
    assert_eq!(position_for(&w, 0).unwrap().p, Vec2Fx { x: 8, y: 9 });
    assert!(position_for(&w, 1).is_none());
}
