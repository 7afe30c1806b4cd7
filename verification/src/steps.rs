//! The per-frame systems: velocity integration with decay, the spatial
//! collision resolver over a kd-tree rebuilt each frame, sprite animation,
//! and the state-machine pass.

use vstd::prelude::*;
use vstd::multiset::Multiset;
use vstd::seq_lib::group_to_multiset_ensures;
use crate::constants::ANIM_SQ;
use crate::constants::COLLIDE_RANGE_FX;
use crate::constants::COLLIDE_RANGE_SQ;
use crate::constants::DAMP_DEN;
use crate::constants::DAMP_NUM;
use crate::constants::DECAY_DEN;
use crate::constants::DECAY_NUM;
use crate::constants::DT_MAX;
use crate::constants::GRID_MAX_DIM;
use crate::constants::POS_LIMIT;
use crate::constants::PUSH_DEN;
use crate::constants::PUSH_NUM;
use crate::constants::VEL_LIMIT;
use crate::constants::VEL_STOP_SQ;
use crate::entities::state_step_spec;
use crate::entities::state_wf;
use crate::entities::vec_in_bounds;
use crate::entities::Animated;
use crate::entities::Position;
use crate::entities::State;
use crate::entities::Vec2Fx;
use crate::entities::Velocity;
use crate::math::clamp_spec;
use crate::math::clamp_to;
use crate::math::dist_sq;
use crate::math::div_to_zero;
use crate::math::div_trunc;

verus! {

/// The agent table: one column per component, indexed by agent id.
pub struct Werfs {
    pub pos: Vec<Position>,
    pub vel: Vec<Velocity>,
    pub anim: Vec<Animated>,
    pub state: Vec<State>,
}

impl Werfs {
    /// All columns agree in length, kinematics stay within the fixed-point
    /// bounds, and every held route fits a grid of the given width.
    pub open spec fn wf(self, width: int) -> bool {
        &&& self.vel@.len() == self.pos@.len()
        &&& self.anim@.len() == self.pos@.len()
        &&& self.state@.len() == self.pos@.len()
        &&& forall|i: int|
            0 <= i < self.pos@.len() ==> vec_in_bounds((#[trigger] self.pos@[i]).p, POS_LIMIT as int)
        &&& forall|i: int|
            0 <= i < self.pos@.len() ==> vec_in_bounds((#[trigger] self.vel@[i]).v, VEL_LIMIT as int)
        &&& forall|i: int| 0 <= i < self.pos@.len() ==> state_wf(#[trigger] self.state@[i], width)
    }

    pub fn new() -> (r: Werfs)
        ensures
            r.pos@.len() == 0,
            forall|width: int| r.wf(width),
    {
        Werfs { pos: Vec::new(), vel: Vec::new(), anim: Vec::new(), state: Vec::new() }
    }

    pub fn len(&self) -> (r: usize)
        ensures
            r == self.pos@.len(),
    {
        self.pos.len()
    }
}

/// One velocity component after the ambient per-frame decay.
pub open spec fn decay_component(v: int) -> int {
    div_to_zero(v * (DECAY_NUM as int), DECAY_DEN as int)
}

/// A velocity after one frame, as coordinates: zeroed below the stopping
/// threshold, else multiplicatively decayed.
pub open spec fn decay_vel_spec(v: Vec2Fx) -> (int, int) {
    if v.x * v.x + v.y * v.y < VEL_STOP_SQ {
        (0int, 0int)
    } else {
        (decay_component(v.x as int), decay_component(v.y as int))
    }
}

/// A position after one integration step, saturated at the world bound.
pub open spec fn move_pos_spec(p: Vec2Fx, v: Vec2Fx) -> (int, int) {
    (
        clamp_spec(p.x + v.x, POS_LIMIT as int),
        clamp_spec(p.y + v.y, POS_LIMIT as int),
    )
}

/// The vector has exactly the given coordinates.
pub open spec fn vec_is(v: Vec2Fx, c: (int, int)) -> bool {
    v.x == c.0 && v.y == c.1
}

/// Applies each agent's velocity to its position, decays or zeroes the
/// velocity, and appends the resulting position to the frame snapshot.
pub fn integrate(w: &mut Werfs, positions: &mut Vec<Position>)
    requires
        old(w).vel@.len() == old(w).pos@.len(),
        forall|i: int|
            0 <= i < old(w).pos@.len() ==> vec_in_bounds((#[trigger] old(w).pos@[i]).p,
                POS_LIMIT as int),
        forall|i: int|
            0 <= i < old(w).vel@.len() ==> vec_in_bounds((#[trigger] old(w).vel@[i]).v,
                VEL_LIMIT as int),
    ensures
        final(w).pos@.len() == old(w).pos@.len(),
        final(w).vel@.len() == old(w).vel@.len(),
        final(w).anim@ == old(w).anim@,
        final(w).state@ == old(w).state@,
        forall|i: int|
            0 <= i < old(w).pos@.len() ==> vec_is((#[trigger] final(w).pos@[i]).p, move_pos_spec(
                old(w).pos@[i].p, old(w).vel@[i].v)),
        forall|i: int|
            0 <= i < old(w).pos@.len() ==> vec_is((#[trigger] final(w).vel@[i]).v, decay_vel_spec(
                old(w).vel@[i].v)),
        final(positions)@ == old(positions)@ + final(w).pos@,
        forall|i: int|
            0 <= i < old(w).pos@.len() ==> vec_in_bounds((#[trigger] final(w).pos@[i]).p,
                POS_LIMIT as int),
        forall|i: int|
            0 <= i < old(w).pos@.len() ==> vec_in_bounds((#[trigger] final(w).vel@[i]).v,
                VEL_LIMIT as int),
{
    let n = w.pos.len();
    let mut i: usize = 0;
    while i < n
        invariant
            n == w.pos@.len(),
            w.pos@.len() == old(w).pos@.len(),
            w.vel@.len() == old(w).vel@.len(),
            w.vel@.len() == w.pos@.len(),
            w.anim@ == old(w).anim@,
            w.state@ == old(w).state@,
            i <= n,
            forall|j: int|
                0 <= j < n ==> vec_in_bounds((#[trigger] old(w).pos@[j]).p, POS_LIMIT as int)
                    && vec_in_bounds(old(w).vel@[j].v, VEL_LIMIT as int),
            forall|j: int| i <= j < n ==> w.pos@[j] == old(w).pos@[j] && w.vel@[j] == old(w).vel@[j],
            forall|j: int|
                0 <= j < i ==> vec_is((#[trigger] w.pos@[j]).p, move_pos_spec(old(w).pos@[j].p,
                    old(w).vel@[j].v)),
            forall|j: int|
                0 <= j < i ==> vec_is((#[trigger] w.vel@[j]).v, decay_vel_spec(old(w).vel@[j].v)),
            forall|j: int|
                0 <= j < i ==> vec_in_bounds((#[trigger] w.pos@[j]).p, POS_LIMIT as int)
                    && vec_in_bounds(w.vel@[j].v, VEL_LIMIT as int),
            positions@ == old(positions)@ + w.pos@.take(i as int),
        decreases n - i,
    {
        let p = w.pos[i];
        let v = w.vel[i];
        proof {
            assert(vec_in_bounds(v.v, VEL_LIMIT as int));
            assert(0 <= v.v.x * v.v.x <= 1000000000000 && 0 <= v.v.y * v.v.y
                <= 1000000000000) by (nonlinear_arith)
                requires
                    -1000000 <= v.v.x <= 1000000,
                    -1000000 <= v.v.y <= 1000000,
            ;
        }
        let nx = clamp_to(p.p.x + v.v.x, POS_LIMIT);
        let ny = clamp_to(p.p.y + v.v.y, POS_LIMIT);
        let np = Position { p: Vec2Fx { x: nx, y: ny } };
        w.pos.set(i, np);
        let ls = v.v.x * v.v.x + v.v.y * v.v.y;
        let nv = if ls < VEL_STOP_SQ {
            Vec2Fx { x: 0, y: 0 }
        } else {
            Vec2Fx {
                x: div_trunc(v.v.x * DECAY_NUM, DECAY_DEN),
                y: div_trunc(v.v.y * DECAY_NUM, DECAY_DEN),
            }
        };
        proof {
            assert(-1000000 <= decay_component(v.v.x as int) <= 1000000 && -1000000
                <= decay_component(v.v.y as int) <= 1000000) by (nonlinear_arith)
                requires
                    -1000000 <= v.v.x <= 1000000,
                    -1000000 <= v.v.y <= 1000000,
                    decay_component(v.v.x as int) == div_to_zero(v.v.x * 24, 25),
                    decay_component(v.v.y as int) == div_to_zero(v.v.y * 24, 25),
            ;
        }
        w.vel.set(i, Velocity { v: nv });
        positions.push(np);
        proof {
            assert(positions@ =~= old(positions)@ + w.pos@.take(i + 1));
        }
        i = i + 1;
    }
    proof {
        assert(w.pos@.take(n as int) =~= w.pos@);
    }
}

/// Advances each agent's sprite step while it moves fast enough, and parks
/// the animation otherwise.
pub fn animation(w: &mut Werfs)
    requires
        old(w).anim@.len() == old(w).vel@.len(),
        forall|i: int|
            0 <= i < old(w).vel@.len() ==> vec_in_bounds((#[trigger] old(w).vel@[i]).v,
                VEL_LIMIT as int),
    ensures
        final(w).pos@ == old(w).pos@,
        final(w).vel@ == old(w).vel@,
        final(w).state@ == old(w).state@,
        final(w).anim@.len() == old(w).anim@.len(),
        forall|i: int|
            0 <= i < old(w).anim@.len() ==> {
                let v = old(w).vel@[i].v;
                let a0 = old(w).anim@[i];
                (#[trigger] final(w).anim@[i]) == Animated {
                    sprite: a0.sprite,
                    step: if v.x * v.x + v.y * v.y > ANIM_SQ {
                        ((a0.step + 1) % 2) as u8
                    } else {
                        0u8
                    },
                }
            },
{
    let n = w.anim.len();
    let mut i: usize = 0;
    while i < n
        invariant
            n == w.anim@.len(),
            w.anim@.len() == old(w).anim@.len(),
            w.vel@.len() == old(w).vel@.len(),
            w.anim@.len() == w.vel@.len(),
            w.pos@ == old(w).pos@,
            w.vel@ == old(w).vel@,
            w.state@ == old(w).state@,
            i <= n,
            forall|j: int|
                0 <= j < old(w).vel@.len() ==> vec_in_bounds((#[trigger] old(w).vel@[j]).v,
                    VEL_LIMIT as int),
            forall|j: int| i <= j < n ==> w.anim@[j] == old(w).anim@[j],
            forall|j: int|
                0 <= j < i ==> {
                    let v = old(w).vel@[j].v;
                    let a0 = old(w).anim@[j];
                    (#[trigger] w.anim@[j]) == Animated {
                        sprite: a0.sprite,
                        step: if v.x * v.x + v.y * v.y > ANIM_SQ {
                            ((a0.step + 1) % 2) as u8
                        } else {
                            0u8
                        },
                    }
                },
        decreases n - i,
    {
        let v = w.vel[i];
        let a = w.anim[i];
        proof {
            assert(vec_in_bounds(v.v, VEL_LIMIT as int));
            assert(0 <= v.v.x * v.v.x <= 1000000000000 && 0 <= v.v.y * v.v.y
                <= 1000000000000) by (nonlinear_arith)
                requires
                    -1000000 <= v.v.x <= 1000000,
                    -1000000 <= v.v.y <= 1000000,
            ;
        }
        let ls = v.v.x * v.v.x + v.v.y * v.v.y;
        let step: u8 = if ls > ANIM_SQ {
            ((a.step as u32 + 1) % 2) as u8
        } else {
            0
        };
        w.anim.set(i, Animated { sprite: a.sprite, step });
        i = i + 1;
    }
}

/// Runs the movement state machine for every agent.
pub fn state(w: &mut Werfs, world_width: usize, dt: u32)
    requires
        old(w).wf(world_width as int),
        1 <= world_width <= GRID_MAX_DIM,
        dt <= DT_MAX,
    ensures
        final(w).wf(world_width as int),
        final(w).pos@ == old(w).pos@,
        final(w).anim@ == old(w).anim@,
        final(w).vel@.len() == old(w).vel@.len(),
        final(w).state@.len() == old(w).state@.len(),
        forall|i: int|
            0 <= i < old(w).state@.len() ==> state_step_spec(
                old(w).state@[i],
                #[trigger] final(w).state@[i],
                world_width as int,
                old(w).pos@[i],
                old(w).vel@[i],
                final(w).vel@[i],
                dt as int,
            ),
{
    let n = w.state.len();
    let mut i: usize = 0;
    while i < n
        invariant
            n == w.state@.len(),
            w.state@.len() == old(w).state@.len(),
            w.vel@.len() == old(w).vel@.len(),
            w.pos@.len() == old(w).pos@.len(),
            w.state@.len() == w.pos@.len(),
            w.vel@.len() == w.pos@.len(),
            w.pos@ == old(w).pos@,
            w.anim@ == old(w).anim@,
            1 <= world_width <= GRID_MAX_DIM,
            dt <= DT_MAX,
            i <= n,
            old(w).wf(world_width as int),
            forall|j: int|
                i <= j < n ==> w.state@[j] == old(w).state@[j] && w.vel@[j] == old(w).vel@[j],
            forall|j: int|
                0 <= j < i ==> state_step_spec(
                    old(w).state@[j],
                    #[trigger] w.state@[j],
                    world_width as int,
                    old(w).pos@[j],
                    old(w).vel@[j],
                    w.vel@[j],
                    dt as int,
                ),
            forall|j: int|
                0 <= j < i ==> state_wf(#[trigger] w.state@[j], world_width as int)
                    && vec_in_bounds(w.vel@[j].v, VEL_LIMIT as int),
        decreases n - i,
    {
        let p = w.pos[i];
        let mut v = w.vel[i];
        let st = &mut w.state[i];
        st.update(world_width, &p, &mut v, dt);
        w.vel.set(i, v);
        i = i + 1;
    }
    proof {
        assert forall|j: int| 0 <= j < w.pos@.len() implies vec_in_bounds(
            (#[trigger] w.pos@[j]).p, POS_LIMIT as int) by {
            assert(w.pos@[j] == old(w).pos@[j]);
        }
        assert forall|j: int| 0 <= j < w.pos@.len() implies vec_in_bounds(
            (#[trigger] w.vel@[j]).v, VEL_LIMIT as int) by {
            assert(state_wf(w.state@[j], world_width as int) && vec_in_bounds(w.vel@[j].v,
                VEL_LIMIT as int));
        }
        assert(w.wf(world_width as int));
    }
}

/// The position component of the agent with the given id, when it exists.
pub fn position_for(w: &Werfs, id: usize) -> (r: Option<Position>)
    ensures
        r == (if id < w.pos@.len() {
            Some(w.pos@[id as int])
        } else {
            Option::<Position>::None
        }),
{
    if id < w.pos.len() {
        Some(w.pos[id])
    } else {
        None
    }
}

// ---------------------------------------------------------------------------
// The spatial index, taken from the kd_tree crate behind trusted items.

/// The planar spatial index of one frame, wrapping the kd-tree of the
/// `kd_tree` crate. Verus sees it only through `kd_points` and the trusted
/// build and query wrappers below.
#[verifier::external_body]
pub struct SpatialIndex {
    tree: kd_tree::KdTree2<[i64; 2]>,
}

/// The coordinates of a stored point.
pub open spec fn arr_pair(a: [i64; 2]) -> (int, int) {
    (a@[0] as int, a@[1] as int)
}

/// The coordinates of an agent position.
pub open spec fn pos_pair(p: Position) -> (int, int) {
    (p.p.x as int, p.p.y as int)
}

/// The coordinates of every position of a snapshot.
pub open spec fn snap_pairs(s: Seq<Position>) -> Seq<(int, int)> {
    s.map_values(|p: Position| pos_pair(p))
}

/// The coordinates of every stored point of a query result.
pub open spec fn pairs_of(s: Seq<[i64; 2]>) -> Seq<(int, int)> {
    s.map_values(|a: [i64; 2]| arr_pair(a))
}

/// The multiset of points stored in a planar `i64` kd-tree.
pub uninterp spec fn kd_points(t: SpatialIndex) -> Multiset<(int, int)>;

/// The point lies strictly within distance `sqrt(rr)` of `q`.
pub open spec fn in_range_of(q: (int, int), rr: int) -> spec_fn((int, int)) -> bool {
    |c: (int, int)| dist_sq(c.0, c.1, q.0, q.1) < rr
}

/// Relies on `kd_tree::KdTreeN::build`: the tree stores exactly the points
/// it was built from, reordered into kd order.
#[verifier::external_body]
fn kd_build(pts: Vec<[i64; 2]>) -> (t: SpatialIndex)
    ensures
        kd_points(t) == pairs_of(pts@).to_multiset(),
{
    SpatialIndex { tree: kd_tree::KdTree2::build(pts) }
}

/// Relies on `kd_tree::KdSliceN::within_radius`: it returns exactly the
/// stored points whose squared Euclidean distance to the query is strictly
/// below `radius * radius`, in unspecified order. The bounds keep its
/// internal squared-distance arithmetic within `i64`.
#[verifier::external_body]
fn kd_within(t: &SpatialIndex, qx: i64, qy: i64, radius: i64) -> (r: Vec<[i64; 2]>)
    requires
        0 < radius <= 100000,
        -(POS_LIMIT as int) <= qx <= POS_LIMIT as int,
        -(POS_LIMIT as int) <= qy <= POS_LIMIT as int,
        forall|c: (int, int)|
            kd_points(*t).contains(c) ==> -(POS_LIMIT as int) <= c.0 <= POS_LIMIT as int
                && -(POS_LIMIT as int) <= c.1 <= POS_LIMIT as int,
    ensures
        pairs_of(r@).to_multiset() == kd_points(*t).filter(
            in_range_of((qx as int, qy as int), (radius * radius) as int)),
{
    let q: [i64; 2] = [qx, qy];
    let found = t.tree.within_radius(&q, radius);
    let mut out: Vec<[i64; 2]> = Vec::with_capacity(found.len());
    for p in found {
        out.push(*p);
    }
    out
}

// ---------------------------------------------------------------------------
// The resolution rule and its specification.

/// Two positions stand closer than the collision query range.
pub open spec fn within_collide(a: Position, b: Position) -> bool {
    dist_sq(a.p.x as int, a.p.y as int, b.p.x as int, b.p.y as int) < COLLIDE_RANGE_SQ
}

/// Some other agent of the snapshot stands within collision range of agent
/// `i`.
pub open spec fn near_other(s: Seq<Position>, i: int) -> bool {
    exists|j: int| 0 <= j < s.len() && j != i && #[trigger] within_collide(s[j], s[i])
}

/// The coordinate `b` names a snapshot point of an agent other than `i`
/// within collision range of agent `i`.
pub open spec fn partner_ok(s: Seq<Position>, i: int, b: (int, int)) -> bool {
    exists|j: int|
        0 <= j < s.len() && j != i && pos_pair(#[trigger] s[j]) == b && within_collide(s[j], s[i])
}

/// One coordinate of a resolved position: the pair's midpoint plus the
/// push-back ratio of the offset, saturated at the world bound.
pub open spec fn resolved_coord(p: int, o: int) -> int {
    let mid = div_to_zero(p + o, 2);
    clamp_spec(mid + div_to_zero((p - o) * (PUSH_NUM as int), PUSH_DEN as int), POS_LIMIT as int)
}

/// One velocity coordinate after collision damping.
pub open spec fn damped_coord(v: int) -> int {
    div_to_zero(v * (DAMP_NUM as int), DAMP_DEN as int)
}

/// What the resolver does to one agent: nothing at all without a neighbor in
/// range; with one, the agent is flagged, set back from the midpoint with
/// some in-range partner, and its velocity damped.
pub open spec fn collision_post(
    snap: Seq<Position>,
    i: int,
    p0: Position,
    v0: Velocity,
    p1: Position,
    v1: Velocity,
    f: bool,
) -> bool {
    if near_other(snap, i) {
        &&& f
        &&& exists|b: (int, int)|
            #[trigger] partner_ok(snap, i, b) && p1.p.x == resolved_coord(snap[i].p.x as int, b.0)
                && p1.p.y == resolved_coord(snap[i].p.y as int, b.1)
        &&& v1.v.x == damped_coord(v0.v.x as int)
        &&& v1.v.y == damped_coord(v0.v.y as int)
    } else {
        &&& !f
        &&& p1 == p0
        &&& v1 == v0
    }
}

/// Links a radius query's result back to the snapshot it was built from.
proof fn lemma_neighbors(snap: Seq<Position>, i: int, rp: Seq<(int, int)>)
    requires
        0 <= i < snap.len(),
        forall|j: int|
            0 <= j < snap.len() ==> vec_in_bounds((#[trigger] snap[j]).p, POS_LIMIT as int),
        rp.to_multiset() == snap_pairs(snap).to_multiset().filter(
            in_range_of(pos_pair(snap[i]), COLLIDE_RANGE_SQ as int)),
    ensures
        rp.to_multiset().count(pos_pair(snap[i])) >= 1,
        rp.len() >= 2 <==> near_other(snap, i),
        forall|jr: int|
            0 <= jr < rp.len() ==> -(POS_LIMIT as int) <= (#[trigger] rp[jr]).0 <= POS_LIMIT as int
                && -(POS_LIMIT as int) <= rp[jr].1 <= POS_LIMIT as int
                && dist_sq(rp[jr].0, rp[jr].1, snap[i].p.x as int, snap[i].p.y as int)
                < COLLIDE_RANGE_SQ,
        forall|j1: int, j2: int|
            0 <= j1 < rp.len() && 0 <= j2 < rp.len() && j1 != j2 && (#[trigger] rp[j1])
                == pos_pair(snap[i]) ==> partner_ok(snap, i, #[trigger] rp[j2]),
{
    broadcast use group_to_multiset_ensures;
    broadcast use vstd::multiset::group_multiset_axioms;

    let own = pos_pair(snap[i]);
    let sp = snap_pairs(snap);
    let ms_sp = sp.to_multiset();
    let ms_rp = rp.to_multiset();
    let f = in_range_of(own, COLLIDE_RANGE_SQ as int);

    assert(sp[i] == own);
    assert(sp.contains(own));
    assert(ms_sp.count(own) >= 1);
    assert(f(own));
    assert(ms_rp == ms_sp.filter(f));
    assert forall|c: (int, int)| true implies #[trigger] ms_rp.count(c) == (if f(c) {
        ms_sp.count(c)
    } else {
        0
    }) by {
        assert(ms_sp.filter(f).count(c) == if f(c) {
            ms_sp.count(c)
        } else {
            0
        });
    }
    assert(ms_rp.count(own) == ms_sp.count(own));

    // every query result is a snapshot point within range
    assert forall|jr: int| 0 <= jr < rp.len() implies -(POS_LIMIT as int) <= (#[trigger] rp[jr]).0
        <= POS_LIMIT as int && -(POS_LIMIT as int) <= rp[jr].1 <= POS_LIMIT as int && dist_sq(
        rp[jr].0, rp[jr].1, snap[i].p.x as int, snap[i].p.y as int) < COLLIDE_RANGE_SQ by {
        let b = rp[jr];
        assert(rp.contains(b));
        assert(ms_rp.count(b) > 0);
        assert(f(b));
        assert(ms_sp.count(b) > 0);
        assert(sp.contains(b));
        let js = choose|js: int| 0 <= js < sp.len() && sp[js] == b;
        assert(vec_in_bounds(snap[js].p, POS_LIMIT as int));
        assert(pos_pair(snap[js]) == b);
    }

    // a second result entry names a partner other than agent i
    assert forall|j1: int, j2: int|
        0 <= j1 < rp.len() && 0 <= j2 < rp.len() && j1 != j2 && (#[trigger] rp[j1]) == own implies
        partner_ok(snap, i, #[trigger] rp[j2]) by {
        let b = rp[j2];
        assert(rp.contains(b));
        assert(ms_rp.count(b) > 0);
        assert(f(b));
        if b != own {
            assert(ms_sp.count(b) > 0);
            assert(sp.contains(b));
            let js = choose|js: int| 0 <= js < sp.len() && sp[js] == b;
            assert(pos_pair(snap[js]) == b);
            assert(js != i);
            assert(within_collide(snap[js], snap[i]));
            assert(partner_ok(snap, i, b));
        } else {
            // two occurrences in the result force two snapshot agents there
            let rp2 = rp.remove(j1);
            assert(rp2.to_multiset() == ms_rp.remove(own));
            let j2b = if j2 < j1 { j2 } else { j2 - 1 };
            assert(rp2[j2b] == own);
            assert(rp2.contains(own));
            assert(rp2.to_multiset().count(own) > 0);
            assert(ms_rp.count(own) >= 2);
            assert(ms_rp.count(own) == ms_sp.count(own));
            assert(ms_sp.count(own) >= 2);
            let sp2 = sp.remove(i);
            assert(sp2.to_multiset() == ms_sp.remove(own));
            assert(sp2.to_multiset().count(own) >= 1);
            assert(sp2.contains(own));
            let js2 = choose|js2: int| 0 <= js2 < sp2.len() && sp2[js2] == own;
            let js = if js2 < i { js2 } else { js2 + 1 };
            assert(sp[js] == own);
            assert(pos_pair(snap[js]) == own);
            assert(js != i);
            assert(within_collide(snap[js], snap[i]));
            assert(partner_ok(snap, i, own));
        }
    }

    // at least two results exactly when a distinct agent stands in range
    if rp.len() >= 2 {
        let ms2 = ms_rp.remove(own);
        assert(ms_rp =~= ms2.insert(own));
        assert(ms_rp.len() == ms2.len() + 1);
        assert(ms2.len() >= 1);
        let b = ms2.choose();
        assert(ms2.count(b) > 0);
        if b != own {
            assert(ms_rp.count(b) > 0);
            assert(f(b));
            assert(ms_sp.count(b) > 0);
            assert(sp.contains(b));
            let js = choose|js: int| 0 <= js < sp.len() && sp[js] == b;
            assert(pos_pair(snap[js]) == b && js != i);
            assert(within_collide(snap[js], snap[i]));
            assert(near_other(snap, i));
        } else {
            assert(ms_rp.count(own) >= 2);
            assert(ms_rp.count(own) == ms_sp.count(own));
            assert(ms_sp.count(own) >= 2);
            let sp2 = sp.remove(i);
            assert(sp2.to_multiset() == ms_sp.remove(own));
            assert(sp2.to_multiset().count(own) >= 1);
            assert(sp2.contains(own));
            let js2 = choose|js2: int| 0 <= js2 < sp2.len() && sp2[js2] == own;
            let js = if js2 < i { js2 } else { js2 + 1 };
            assert(sp[js] == own && js != i);
            assert(within_collide(snap[js], snap[i]));
            assert(near_other(snap, i));
        }
    }
    if near_other(snap, i) {
        let j = choose|j: int| 0 <= j < snap.len() && j != i && #[trigger] within_collide(
            snap[j], snap[i]);
        let b = pos_pair(snap[j]);
        assert(sp[j] == b);
        if b != own {
            assert(sp.contains(b));
            assert(ms_sp.count(b) >= 1);
            assert(f(b));
            assert(ms_rp.count(b) >= 1);
            let ms2 = ms_rp.remove(own);
            assert(ms2.count(b) == ms_rp.count(b));
            vstd::multiset::axiom_count_le_len(ms2, b);
            assert(ms_rp =~= ms2.insert(own));
            assert(ms_rp.len() == ms2.len() + 1);
            assert(ms_rp.len() >= 2);
        } else {
            let sp2 = sp.remove(j);
            assert(sp2.to_multiset() == ms_sp.remove(own));
            let i2 = if i < j { i } else { i - 1 };
            assert(sp2[i2] == own);
            assert(sp2.contains(own));
            assert(sp2.to_multiset().count(own) > 0);
            assert(ms_sp.count(own) >= 2);
            assert(ms_rp.count(own) >= 2);
            vstd::multiset::axiom_count_le_len(ms_rp, own);
            assert(ms_rp.len() >= 2);
        }
        assert(rp.len() == ms_rp.len());
        assert(rp.len() >= 2);
    }
}

/// Rebuilds the spatial index from the frame's position snapshot, queries
/// each agent's neighborhood, and where another agent stands within `2R`
/// sets the agent back from the pair's midpoint and damps its velocity. The
/// partner taken is the first non-self entry the query returns. Returns one
/// collision flag per agent.
#[verifier::rlimit(100)]
pub fn collision(w: &mut Werfs, positions: Vec<Position>) -> (flags: Vec<bool>)
    requires
        old(w).vel@.len() == old(w).pos@.len(),
        positions@.len() == old(w).pos@.len(),
        forall|i: int| 0 <= i < positions@.len() ==> #[trigger] positions@[i] == old(w).pos@[i],
        forall|i: int|
            0 <= i < positions@.len() ==> vec_in_bounds((#[trigger] positions@[i]).p,
                POS_LIMIT as int),
        forall|i: int|
            0 <= i < old(w).vel@.len() ==> vec_in_bounds((#[trigger] old(w).vel@[i]).v,
                VEL_LIMIT as int),
    ensures
        final(w).pos@.len() == old(w).pos@.len(),
        final(w).vel@.len() == old(w).vel@.len(),
        final(w).anim@ == old(w).anim@,
        final(w).state@ == old(w).state@,
        flags@.len() == old(w).pos@.len(),
        forall|i: int|
            0 <= i < old(w).pos@.len() ==> collision_post(
                positions@,
                i,
                old(w).pos@[i],
                old(w).vel@[i],
                #[trigger] final(w).pos@[i],
                final(w).vel@[i],
                flags@[i],
            ),
        forall|i: int|
            0 <= i < old(w).pos@.len() ==> vec_in_bounds((#[trigger] final(w).pos@[i]).p,
                POS_LIMIT as int),
        forall|i: int|
            0 <= i < old(w).vel@.len() ==> vec_in_bounds((#[trigger] final(w).vel@[i]).v,
                VEL_LIMIT as int),
{
    broadcast use group_to_multiset_ensures;
    broadcast use vstd::multiset::group_multiset_axioms;

    let n = w.pos.len();
    let mut pts: Vec<[i64; 2]> = Vec::new();
    let mut b: usize = 0;
    while b < n
        invariant
            n == positions@.len(),
            pts@.len() == b,
            b <= n,
            forall|j: int|
                0 <= j < b ==> arr_pair(#[trigger] pts@[j]) == pos_pair(positions@[j]),
            forall|j: int|
                0 <= j < positions@.len() ==> vec_in_bounds((#[trigger] positions@[j]).p,
                    POS_LIMIT as int),
        decreases n - b,
    {
        let p = positions[b];
        let a: [i64; 2] = [p.p.x, p.p.y];
        proof {
            assert(a@[0] == p.p.x && a@[1] == p.p.y);
        }
        pts.push(a);
        b = b + 1;
    }
    proof {
        assert(pairs_of(pts@) =~= snap_pairs(positions@));
    }
    let tree = kd_build(pts);
    let ghost ms_sp = snap_pairs(positions@).to_multiset();

    let mut flags: Vec<bool> = Vec::new();
    let mut i: usize = 0;
    while i < n
        invariant
            n == positions@.len(),
            w.pos@.len() == n,
            w.vel@.len() == n,
            old(w).pos@.len() == n,
            old(w).vel@.len() == n,
            w.anim@ == old(w).anim@,
            w.state@ == old(w).state@,
            i <= n,
            flags@.len() == i,
            kd_points(tree) == snap_pairs(positions@).to_multiset(),
            forall|j: int| 0 <= j < positions@.len() ==> #[trigger] positions@[j] == old(w).pos@[j],
            forall|j: int|
                0 <= j < positions@.len() ==> vec_in_bounds((#[trigger] positions@[j]).p,
                    POS_LIMIT as int),
            forall|j: int|
                0 <= j < old(w).vel@.len() ==> vec_in_bounds((#[trigger] old(w).vel@[j]).v,
                    VEL_LIMIT as int),
            forall|j: int| i <= j < n ==> w.pos@[j] == old(w).pos@[j] && w.vel@[j] == old(w).vel@[j],
            forall|j: int|
                0 <= j < i ==> collision_post(
                    positions@,
                    j,
                    old(w).pos@[j],
                    old(w).vel@[j],
                    #[trigger] w.pos@[j],
                    w.vel@[j],
                    flags@[j],
                ),
        decreases n - i,
    {
        let p = w.pos[i];
        let v = w.vel[i];
        proof {
            broadcast use group_to_multiset_ensures;
            broadcast use vstd::multiset::group_multiset_axioms;
            assert(p == positions@[i as int]);
            assert(vec_in_bounds(p.p, POS_LIMIT as int));
            assert(v == old(w).vel@[i as int]);
            assert(vec_in_bounds(v.v, VEL_LIMIT as int));
        }
        proof {
            assert forall|c: (int, int)| kd_points(tree).contains(c) implies -(POS_LIMIT as int)
                <= c.0 <= POS_LIMIT as int && -(POS_LIMIT as int) <= c.1 <= POS_LIMIT as int by {
                assert(snap_pairs(positions@).to_multiset().count(c) > 0);
                assert(snap_pairs(positions@).contains(c));
                let j = choose|j: int|
                    0 <= j < snap_pairs(positions@).len() && snap_pairs(positions@)[j] == c;
                assert(vec_in_bounds(positions@[j].p, POS_LIMIT as int));
                assert(pos_pair(positions@[j]) == c);
            }
        }
        let res = kd_within(&tree, p.p.x, p.p.y, COLLIDE_RANGE_FX);
        let ghost rp = pairs_of(res@);
        proof {
            assert(COLLIDE_RANGE_FX * COLLIDE_RANGE_FX == COLLIDE_RANGE_SQ);
            assert((p.p.x as int, p.p.y as int) == pos_pair(positions@[i as int]));
            lemma_neighbors(positions@, i as int, rp);
        }

        if res.len() > 1 {
            // locate one occurrence of this agent's own coordinates
            let mut j_self: usize = 0;
            let mut found = false;
            let mut js: usize = 0;
            while js < res.len()
                invariant
                    rp == pairs_of(res@),
                    js <= res@.len(),
                    0 <= i < positions@.len(),
                    p == positions@[i as int],
                    found ==> j_self < res@.len() && rp[j_self as int] == pos_pair(
                        positions@[i as int]),
                    !found ==> forall|jj: int|
                        0 <= jj < js ==> #[trigger] rp[jj] != pos_pair(positions@[i as int]),
                decreases res@.len() - js,
            {
                proof {
                    assert(rp[js as int] == arr_pair(res@[js as int]));
                }
                if !found && res[js][0] == p.p.x && res[js][1] == p.p.y {
                    j_self = js;
                    found = true;
                }
                js = js + 1;
            }
            proof {
                broadcast use group_to_multiset_ensures;
                broadcast use vstd::multiset::group_multiset_axioms;
                if !found {
                    assert(forall|jj: int|
                        0 <= jj < rp.len() ==> #[trigger] rp[jj] != pos_pair(
                            positions@[i as int]));
                    assert(!rp.contains(pos_pair(positions@[i as int])));
                    assert(rp.to_multiset().count(pos_pair(positions@[i as int])) == 0);
                    assert(false);
                }
            }
            let j_other: usize = if j_self == 0 {
                1
            } else {
                0
            };
            let o = res[j_other];
            proof {
                assert(rp[j_other as int] == arr_pair(o));
                assert(partner_ok(positions@, i as int, rp[j_other as int]));
            }
            let ox = o[0];
            let oy = o[1];
            proof {
                assert(-(POS_LIMIT as int) <= ox <= POS_LIMIT as int);
                assert(-(POS_LIMIT as int) <= oy <= POS_LIMIT as int);
                assert(dist_sq(ox as int, oy as int, p.p.x as int, p.p.y as int)
                    < COLLIDE_RANGE_SQ);
                assert(-8000 <= p.p.x - ox <= 8000 && -8000 <= p.p.y - oy
                    <= 8000) by (nonlinear_arith)
                    requires
                        dist_sq(ox as int, oy as int, p.p.x as int, p.p.y as int) < 64000000,
                ;
            }
            let mid_x = div_trunc(p.p.x + ox, 2);
            let mid_y = div_trunc(p.p.y + oy, 2);
            let push_x = div_trunc((p.p.x - ox) * PUSH_NUM, PUSH_DEN);
            let push_y = div_trunc((p.p.y - oy) * PUSH_NUM, PUSH_DEN);
            proof {
                assert(-(POS_LIMIT as int) <= mid_x <= POS_LIMIT as int && -40000 <= push_x
                    <= 40000 && -(POS_LIMIT as int) <= mid_y <= POS_LIMIT as int && -40000
                    <= push_y <= 40000) by (nonlinear_arith)
                    requires
                        mid_x == div_to_zero(p.p.x + ox, 2),
                        mid_y == div_to_zero(p.p.y + oy, 2),
                        push_x == div_to_zero((p.p.x - ox) * 5, 9),
                        push_y == div_to_zero((p.p.y - oy) * 5, 9),
                        -1000000000 <= p.p.x <= 1000000000,
                        -1000000000 <= p.p.y <= 1000000000,
                        -1000000000 <= ox <= 1000000000,
                        -1000000000 <= oy <= 1000000000,
                        -8000 <= p.p.x - ox <= 8000,
                        -8000 <= p.p.y - oy <= 8000,
                ;
            }
            let nx = clamp_to(mid_x + push_x, POS_LIMIT);
            let ny = clamp_to(mid_y + push_y, POS_LIMIT);
            w.pos.set(i, Position { p: Vec2Fx { x: nx, y: ny } });
            let dvx = div_trunc(v.v.x * DAMP_NUM, DAMP_DEN);
            let dvy = div_trunc(v.v.y * DAMP_NUM, DAMP_DEN);
            proof {
                assert(-1000000 <= dvx <= 1000000 && -1000000 <= dvy
                    <= 1000000) by (nonlinear_arith)
                    requires
                        dvx == div_to_zero(v.v.x * 85, 100),
                        dvy == div_to_zero(v.v.y * 85, 100),
                        -1000000 <= v.v.x <= 1000000,
                        -1000000 <= v.v.y <= 1000000,
                ;
            }
            w.vel.set(i, Velocity { v: Vec2Fx { x: dvx, y: dvy } });
            flags.push(true);
            proof {
                assert(near_other(positions@, i as int));
                assert(w.pos@[i as int].p.x == resolved_coord(positions@[i as int].p.x as int,
                    rp[j_other as int].0));
                assert(w.pos@[i as int].p.y == resolved_coord(positions@[i as int].p.y as int,
                    rp[j_other as int].1));
                assert(collision_post(positions@, i as int, old(w).pos@[i as int],
                    old(w).vel@[i as int], w.pos@[i as int], w.vel@[i as int],
                    flags@[i as int]));
                assert(vec_in_bounds(w.pos@[i as int].p, POS_LIMIT as int));
                assert(vec_in_bounds(w.vel@[i as int].v, VEL_LIMIT as int));
            }
        } else {
            flags.push(false);
            proof {
                assert(!near_other(positions@, i as int));
                assert(w.pos@[i as int] == positions@[i as int]);
                assert(vec_in_bounds(w.pos@[i as int].p, POS_LIMIT as int));
                assert(vec_in_bounds(w.vel@[i as int].v, VEL_LIMIT as int));
            }
        }
        i = i + 1;
    }
    proof {
        assert forall|j: int| 0 <= j < n implies vec_in_bounds((#[trigger] w.pos@[j]).p,
            POS_LIMIT as int) && vec_in_bounds(w.vel@[j].v, VEL_LIMIT as int) by {
            assert(collision_post(positions@, j, old(w).pos@[j], old(w).vel@[j], w.pos@[j],
                w.vel@[j], flags@[j]));
            if near_other(positions@, j) {
                let v0 = old(w).vel@[j];
                assert(vec_in_bounds(v0.v, VEL_LIMIT as int));
                assert(-1000000 <= damped_coord(v0.v.x as int) <= 1000000 && -1000000
                    <= damped_coord(v0.v.y as int) <= 1000000) by (nonlinear_arith)
                    requires
                        damped_coord(v0.v.x as int) == div_to_zero(v0.v.x * 85, 100),
                        damped_coord(v0.v.y as int) == div_to_zero(v0.v.y * 85, 100),
                        -1000000 <= v0.v.x <= 1000000,
                        -1000000 <= v0.v.y <= 1000000,
                ;
            } else {
                assert(w.pos@[j] == positions@[j]);
            }
        }
        assert forall|j: int| 0 <= j < n implies vec_in_bounds((#[trigger] w.vel@[j]).v,
            VEL_LIMIT as int) by {
            assert(vec_in_bounds(w.pos@[j].p, POS_LIMIT as int) && vec_in_bounds(w.vel@[j].v,
                VEL_LIMIT as int));
        }
    }
    flags
}

/// Law: resolving a close pair moves the two agents by exactly opposite
/// offsets from their common midpoint, so the separation stays symmetric.
/// Stated away from the world's saturation bound, where the clamp is the
/// identity.
pub proof fn lemma_collision_symmetry(a: Position, b: Position)
    requires
        vec_in_bounds(a.p, (POS_LIMIT - COLLIDE_RANGE_FX) as int),
        vec_in_bounds(b.p, (POS_LIMIT - COLLIDE_RANGE_FX) as int),
        within_collide(a, b),
    ensures
        resolved_coord(a.p.x as int, b.p.x as int) - div_to_zero(a.p.x + b.p.x, 2) == -(
        resolved_coord(b.p.x as int, a.p.x as int) - div_to_zero(a.p.x + b.p.x, 2)),
        resolved_coord(a.p.y as int, b.p.y as int) - div_to_zero(a.p.y + b.p.y, 2) == -(
        resolved_coord(b.p.y as int, a.p.y as int) - div_to_zero(a.p.y + b.p.y, 2)),
{
    let dx = a.p.x - b.p.x;
    let dy = a.p.y - b.p.y;
    assert(-8000 <= dx <= 8000 && -8000 <= dy <= 8000) by (nonlinear_arith)
        requires
            dx == a.p.x - b.p.x,
            dy == a.p.y - b.p.y,
            dx * dx + dy * dy < 64000000,
    ;
    lemma_resolve_component(a.p.x as int, b.p.x as int);
    lemma_resolve_component(a.p.y as int, b.p.y as int);
}

/// One coordinate of the symmetry argument: away from the saturation bound
/// the two resolved coordinates mirror each other across the midpoint.
proof fn lemma_resolve_component(p: int, o: int)
    requires
        -(POS_LIMIT as int) + COLLIDE_RANGE_FX <= p <= POS_LIMIT as int - COLLIDE_RANGE_FX,
        -(POS_LIMIT as int) + COLLIDE_RANGE_FX <= o <= POS_LIMIT as int - COLLIDE_RANGE_FX,
        -8000 <= p - o <= 8000,
    ensures
        resolved_coord(p, o) - div_to_zero(p + o, 2) == -(resolved_coord(o, p) - div_to_zero(
            p + o, 2)),
{
    let mid = div_to_zero(p + o, 2);
    let fwd = div_to_zero((p - o) * (PUSH_NUM as int), PUSH_DEN as int);
    let bwd = div_to_zero((o - p) * (PUSH_NUM as int), PUSH_DEN as int);
    assert(bwd == -fwd && -4500 <= fwd <= 4500 && -(POS_LIMIT as int) <= mid + fwd <= POS_LIMIT
        as int && -(POS_LIMIT as int) <= mid + bwd <= POS_LIMIT as int) by (nonlinear_arith)
        requires
            mid == div_to_zero(p + o, 2),
            fwd == div_to_zero((p - o) * 5, 9),
            bwd == div_to_zero((o - p) * 5, 9),
            -8000 <= p - o <= 8000,
            -(POS_LIMIT as int) + 8000 <= p <= POS_LIMIT as int - 8000,
            -(POS_LIMIT as int) + 8000 <= o <= POS_LIMIT as int - 8000,
    ;
}

} // verus!
