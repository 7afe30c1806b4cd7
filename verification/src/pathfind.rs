//! The grid pathfinder: breadth-first search over the adjacency model,
//! proved to return a shortest route exactly when one exists.

use vstd::prelude::*;
use crate::constants::GRID_MAX_LEN;
use crate::entities::WorldIndex;
use crate::tiles::Tiles;

verus! {

/// Tile `v` exists and does not block movement.
pub open spec fn open_at(g: Tiles, v: int) -> bool {
    0 <= v < g.tiles@.len() && !g.tiles@[v].is_blocked_spec()
}

/// One step of the adjacency model: from tile `u` the walker may move to the
/// cardinal neighbor `v` when `v` is in the flat vector and unblocked. The
/// sideways cases are guarded against crossing a row boundary, so a row's
/// edge tile is never adjacent to the next row's edge tile.
pub open spec fn edge(g: Tiles, u: int, v: int) -> bool {
    &&& 0 <= u < g.tiles@.len()
    &&& open_at(g, v)
    &&& {
        ||| (u >= g.width && v == u - g.width)
        ||| (u % (g.width as int) + 1 < g.width && u + 1 < g.tiles@.len() && v == u + 1)
        ||| (u + g.width < g.tiles@.len() && v == u + g.width)
        ||| (u % (g.width as int) >= 1 && v == u - 1)
    }
}

/// Tile `v` can be reached from tile `s` in at most `n` steps.
#[verifier::opaque]
pub open spec fn reaches(g: Tiles, s: int, v: int, n: nat) -> bool
    decreases n,
{
    if n == 0 {
        v == s
    } else {
        reaches(g, s, v, (n - 1) as nat) || exists|u: int|
            reaches(g, s, u, (n - 1) as nat) && #[trigger] edge(g, u, v)
    }
}

/// A route is a walk along edges from `s` to `t`, both included.
pub open spec fn valid_route(g: Tiles, s: int, t: int, r: Seq<int>) -> bool {
    &&& r.len() >= 1
    &&& r[0] == s
    &&& r[r.len() - 1] == t
    &&& forall|i: int| 0 <= i < r.len() - 1 ==> #[trigger] edge(g, r[i], r[i + 1])
}

/// The linear indices of a sequence of waypoints.
pub open spec fn route_nodes(r: Seq<WorldIndex>) -> Seq<int> {
    r.map_values(|w: WorldIndex| w.0 as int)
}

/// The start reaches itself in no steps.
pub proof fn lemma_reaches_self(g: Tiles, s: int)
    ensures
        reaches(g, s, s, 0),
{
    reveal(reaches);
}

/// Reaching in no steps means standing at the start.
pub proof fn lemma_reaches_zero_only(g: Tiles, s: int, v: int)
    requires
        reaches(g, s, v, 0),
    ensures
        v == s,
{
    reveal(reaches);
}

/// One edge extends reachability by one step.
pub proof fn lemma_reaches_step(g: Tiles, s: int, u: int, v: int, n: nat)
    requires
        reaches(g, s, u, n),
        edge(g, u, v),
    ensures
        reaches(g, s, v, (n + 1) as nat),
{
    reveal(reaches);
}

/// A tile reached in `n` but not `n - 1` steps has a predecessor reached in
/// `n - 1` steps.
pub proof fn lemma_reaches_unfold(g: Tiles, s: int, v: int, n: nat)
    requires
        n >= 1,
        reaches(g, s, v, n),
        !reaches(g, s, v, (n - 1) as nat),
    ensures
        exists|u: int| reaches(g, s, u, (n - 1) as nat) && #[trigger] edge(g, u, v),
{
    reveal(reaches);
}

/// Reachability in `n` steps also holds for any larger step budget.
pub proof fn lemma_reaches_mono(g: Tiles, s: int, v: int, n1: nat, n2: nat)
    requires
        n1 <= n2,
        reaches(g, s, v, n1),
    ensures
        reaches(g, s, v, n2),
    decreases n2,
{
    reveal(reaches);
    if n1 < n2 {
        lemma_reaches_mono(g, s, v, n1, (n2 - 1) as nat);
    }
}

/// When one more step reaches nothing new, no number of steps does.
pub proof fn lemma_reaches_fixpoint(g: Tiles, s: int, d: nat, m: nat)
    requires
        forall|v: int| reaches(g, s, v, (d + 1) as nat) ==> #[trigger] reaches(g, s, v, d),
    ensures
        forall|v: int| reaches(g, s, v, m) ==> #[trigger] reaches(g, s, v, d),
    decreases m,
{
    if m == 0 {
        assert forall|v: int| reaches(g, s, v, m) implies #[trigger] reaches(g, s, v, d) by {
            lemma_reaches_zero_only(g, s, v);
            lemma_reaches_self(g, s);
            lemma_reaches_mono(g, s, v, 0, d);
        }
    } else {
        lemma_reaches_fixpoint(g, s, d, (m - 1) as nat);
        assert forall|v: int| reaches(g, s, v, m) implies #[trigger] reaches(g, s, v, d) by {
            if reaches(g, s, v, (m - 1) as nat) {
            } else {
                lemma_reaches_unfold(g, s, v, m);
                let u = choose|u: int| reaches(g, s, u, (m - 1) as nat) && #[trigger] edge(g, u, v);
                assert(reaches(g, s, u, d));
                lemma_reaches_step(g, s, u, v, d);
                assert(reaches(g, s, v, (d + 1) as nat));
            }
        }
    }
}

/// A walk of `k` edges witnesses reachability in `k` steps.
pub proof fn lemma_valid_route_reaches(g: Tiles, s: int, t: int, r: Seq<int>)
    requires
        valid_route(g, s, t, r),
    ensures
        reaches(g, s, t, (r.len() - 1) as nat),
    decreases r.len(),
{
    if r.len() == 1 {
        lemma_reaches_self(g, s);
    } else {
        let r2 = r.take(r.len() - 1);
        assert(valid_route(g, s, r[r.len() - 2], r2)) by {
            assert forall|i: int| 0 <= i < r2.len() - 1 implies #[trigger] edge(g, r2[i], r2[i + 1]) by {
                assert(edge(g, r[i], r[i + 1]));
            }
        }
        lemma_valid_route_reaches(g, s, r[r.len() - 2], r2);
        assert(edge(g, r[(r.len() - 2) as int], r[(r.len() - 2) as int + 1]));
        lemma_reaches_step(g, s, r[r.len() - 2], t, (r.len() - 2) as nat);
    }
}

/// Law: a route found under the pathfinder's no-shorter-reachability bound is
/// optimal — every valid route between the same tiles has at least `m + 1`
/// waypoints when no path of fewer than `m` steps exists.
pub proof fn lemma_route_shortest(g: Tiles, s: int, t: int, m: nat, q: Seq<int>)
    requires
        valid_route(g, s, t, q),
        forall|k: nat| k < m ==> !#[trigger] reaches(g, s, t, k),
    ensures
        q.len() >= m + 1,
{
    lemma_valid_route_reaches(g, s, t, q);
    if q.len() < m + 1 {
        assert(!reaches(g, s, t, (q.len() - 1) as nat));
    }
}

/// The tiles not yet discovered by the search, per the distance table.
#[verifier::opaque]
pub open spec fn undisc(ds: Seq<usize>) -> Set<int> {
    Set::new(|v: int| 0 <= v < ds.len() && ds[v] == usize::MAX)
}

proof fn lemma_undisc_finite(ds: Seq<usize>)
    ensures
        undisc(ds).finite(),
        undisc(ds).len() <= ds.len(),
{
    reveal(undisc);
    let r = vstd::set_lib::set_int_range(0, ds.len() as int);
    vstd::set_lib::lemma_int_range(0, ds.len() as int);
    assert(undisc(ds).subset_of(r));
    vstd::set_lib::lemma_len_subset(undisc(ds), r);
}


/// The successor list of one tile, narrowed to the two facts the search
/// needs: soundness and completeness against the adjacency model.
fn succ_of(tiles: &Tiles, u: usize) -> (r: Vec<WorldIndex>)
    requires
        tiles.wf(),
        u < tiles.tiles@.len(),
    ensures
        forall|k: int|
            0 <= k < r@.len() ==> edge(*tiles, u as int, (#[trigger] r@[k]).0 as int),
        forall|v: int|
            edge(*tiles, u as int, v) ==> exists|k: int|
                0 <= k < r@.len() && (#[trigger] r@[k]).0 as int == v,
{
    let widx = WorldIndex(u as i32);
    let r = widx.successors(tiles);
    proof {
        assert(widx.0 as int == u as int);
        assert forall|v: int| edge(*tiles, u as int, v) implies exists|k: int|
            0 <= k < r@.len() && (#[trigger] r@[k]).0 as int == v by {
            assert(edge(*tiles, widx.0 as int, v));
        }
    }
    r
}


/// Breadth-first search from `start` to the tile with linear index `goal`.
/// Returns a shortest route, both endpoints included, or `None` exactly when
/// no number of steps reaches the goal.
#[verifier::rlimit(100)]
pub fn find_route(tiles: &Tiles, start: WorldIndex, goal: usize) -> (r: Option<Vec<WorldIndex>>)
    requires
        tiles.wf(),
        0 <= start.0,
        (start.0 as int) < tiles.tiles@.len(),
        goal < tiles.tiles@.len(),
    ensures
        match r {
            Some(route) => {
                &&& valid_route(*tiles, start.0 as int, goal as int, route_nodes(route@))
                &&& reaches(*tiles, start.0 as int, goal as int, (route@.len() - 1) as nat)
                &&& forall|k: nat|
                    k < route@.len() - 1 ==> !#[trigger] reaches(*tiles, start.0 as int, goal as int, k)
                &&& forall|i: int|
                    0 <= i < route@.len() ==> 0 <= (#[trigger] route@[i]).0 && (route@[i].0 as int) < tiles.tiles@.len()
            },
            None => forall|k: nat| !#[trigger] reaches(*tiles, start.0 as int, goal as int, k),
        },
{
    let n = tiles.tiles.len();
    let s = start.0 as usize;
    let ghost g = *tiles;
    let ghost si = s as int;

    let mut dist: Vec<usize> = Vec::new();
    let mut parent: Vec<usize> = Vec::new();
    let mut fi: usize = 0;
    while fi < n
        invariant
            fi <= n,
            dist@.len() == fi,
            parent@.len() == fi,
            forall|v: int| 0 <= v < fi ==> dist@[v] == usize::MAX,
        decreases n - fi,
    {
        dist.push(usize::MAX);
        parent.push(0);
        fi = fi + 1;
    }

    dist.set(s, 0);
    parent.set(s, s);
    let mut current: Vec<usize> = Vec::new();
    current.push(s);
    let ghost mut d: int = 0;
    let ghost mut done: Set<int> = Set::empty();
    proof {
        reveal(undisc);
        vstd::set_lib::lemma_int_range(0, n as int);
        assert(undisc(dist@) =~= vstd::set_lib::set_int_range(0, n as int).remove(si));
        lemma_undisc_finite(dist@);
        assert(vstd::set_lib::set_int_range(0, n as int).contains(si));
        assert(undisc(dist@).len() == n - 1);
        assert(current@[0] == s);
        assert(current@.contains(s));
        lemma_reaches_self(g, si);
        assert forall|v: int| 0 <= v < n && reaches(g, si, v, 0) implies #[trigger] dist@[v]
            != usize::MAX by {
            lemma_reaches_zero_only(g, si, v);
        }
    }

    while current.len() > 0
        invariant
            g == *tiles,
            g.wf(),
            n == g.tiles@.len(),
            n <= GRID_MAX_LEN,
            0 <= si < n,
            si == start.0 as int,
            goal < n,
            dist@.len() == n,
            parent@.len() == n,
            d >= 0,
            current@.len() == 0 ==> d >= 1,
            d + undisc(dist@).len() + current@.len() <= n + 1,
            undisc(dist@).finite(),
            // discovered entries carry a witnessed distance at most d
            forall|v: int|
                0 <= v < n && #[trigger] dist@[v] != usize::MAX ==> dist@[v] <= d && reaches(
                    g, si, v, dist@[v] as nat),
            // discovered entries are locally minimal
            forall|v: int|
                0 <= v < n && #[trigger] dist@[v] != usize::MAX && dist@[v] >= 1 ==> !reaches(
                    g, si, v, (dist@[v] - 1) as nat),
            // everything reachable within d steps is discovered
            forall|v: int|
                0 <= v < n && reaches(g, si, v, d as nat) ==> #[trigger] dist@[v] != usize::MAX,
            // the start is the one tile at distance zero
            dist@[si] == 0,
            forall|v: int| 0 <= v < n && #[trigger] dist@[v] == 0 ==> v == si,
            // expanded tiles have all their successors discovered
            forall|u: int, v: int|
                done.contains(u) && #[trigger] edge(g, u, v) ==> dist@[v] != usize::MAX,
            // every tile strictly inside the frontier distance is expanded
            forall|v: int|
                0 <= v < n && #[trigger] dist@[v] != usize::MAX && dist@[v] < d ==> done.contains(
                    v),
            // the frontier holds exactly the tiles at distance d
            forall|k0: int|
                #![trigger current@[k0]]
                0 <= k0 < current@.len() ==> 0 <= current@[k0] < n && dist@[current@[k0] as int]
                    == d,
            forall|v: int|
                0 <= v < n && #[trigger] dist@[v] == d ==> current@.contains(v as usize),
            // parents walk one step back toward the start
            forall|v: int|
                0 <= v < n && #[trigger] dist@[v] != usize::MAX && v != si ==> {
                    let p = parent@[v] as int;
                    &&& 0 <= p < n
                    &&& dist@[p] as int + 1 == dist@[v]
                    &&& edge(g, p, v)
                },
        decreases undisc(dist@).len(), current@.len(),
    {
        let ghost dist0 = dist@;
        let ghost current_snap = current@;
        proof {
            lemma_undisc_finite(dist0);
        }
        let mut next: Vec<usize> = Vec::new();
        let mut i: usize = 0;
        while i < current.len()
            invariant
                g == *tiles,
                g.wf(),
                n == g.tiles@.len(),
                n <= GRID_MAX_LEN,
                0 <= si < n,
                dist@.len() == n,
                parent@.len() == n,
                d >= 0,
                i <= current@.len(),
                current@ == current_snap,
                undisc(dist0).finite(),
                undisc(dist@).finite(),
                undisc(dist@).subset_of(undisc(dist0)),
                next@.len() == 0 ==> dist@ == dist0,
                undisc(dist@).len() + next@.len() == undisc(dist0).len(),
                d + undisc(dist0).len() + current@.len() <= n + 1,
                forall|v: int|
                    0 <= v < n && #[trigger] dist@[v] != usize::MAX ==> dist@[v] <= d + 1
                        && reaches(g, si, v, dist@[v] as nat),
                forall|v: int|
                    0 <= v < n && #[trigger] dist@[v] != usize::MAX && dist@[v] >= 1 ==> !reaches(
                        g, si, v, (dist@[v] - 1) as nat),
                forall|v: int|
                    0 <= v < n && reaches(g, si, v, d as nat) ==> #[trigger] dist@[v]
                        != usize::MAX,
                dist@[si] == 0,
                forall|v: int| 0 <= v < n && #[trigger] dist@[v] == 0 ==> v == si,
                forall|u: int, v: int|
                    done.contains(u) && #[trigger] edge(g, u, v) ==> dist@[v] != usize::MAX,
                forall|v: int|
                    0 <= v < n && #[trigger] dist@[v] != usize::MAX && dist@[v] < d
                        ==> done.contains(v),
                forall|k0: int|
                    #![trigger current@[k0]]
                    0 <= k0 < current@.len() ==> 0 <= current@[k0] < n && dist@[current@[k0]
                        as int] == d,
                forall|k0: int|
                    #![trigger current@[k0]]
                    0 <= k0 < i ==> done.contains(current@[k0] as int),
                forall|v: int|
                    0 <= v < n && #[trigger] dist@[v] == d ==> current@.contains(v as usize),
                forall|v: int|
                    0 <= v < n && #[trigger] dist@[v] != usize::MAX && v != si ==> {
                        let p = parent@[v] as int;
                        &&& 0 <= p < n
                        &&& dist@[p] as int + 1 == dist@[v]
                        &&& edge(g, p, v)
                    },
                // the next frontier holds exactly the tiles at distance d + 1
                forall|k0: int|
                    #![trigger next@[k0]]
                    0 <= k0 < next@.len() ==> 0 <= next@[k0] < n && dist@[next@[k0] as int] == d
                        + 1,
                forall|v: int|
                    0 <= v < n && #[trigger] dist@[v] == d + 1 ==> next@.contains(v as usize),
            decreases current@.len() - i,
        {
            let u = current[i];
            proof {
                assert(0 <= current@[i as int] < n);
            }
            let succ = succ_of(tiles, u);
            let ghost ui = u as int;
            let mut k: usize = 0;
            while k < succ.len()
                invariant
                    g == *tiles,
                    g.wf(),
                    n == g.tiles@.len(),
                    n <= GRID_MAX_LEN,
                    0 <= si < n,
                    dist@.len() == n,
                    parent@.len() == n,
                    d >= 0,
                    k <= succ@.len(),
                    0 <= ui < n,
                    ui == u as int,
                    u < n,
                    dist@[ui] == d,
                    i < current@.len(),
                    current@ == current_snap,
                    undisc(dist0).finite(),
                    undisc(dist@).finite(),
                    undisc(dist@).subset_of(undisc(dist0)),
                    next@.len() == 0 ==> dist@ == dist0,
                    undisc(dist@).len() + next@.len() == undisc(dist0).len(),
                    d + undisc(dist0).len() + current@.len() <= n + 1,
                    forall|k2: int|
                        0 <= k2 < succ@.len() ==> edge(g, ui, (#[trigger] succ@[k2]).0 as int),
                    forall|v: int|
                        edge(g, ui, v) ==> exists|k2: int|
                            0 <= k2 < succ@.len() && (#[trigger] succ@[k2]).0 as int == v,
                    // successors seen so far are discovered
                    forall|k2: int|
                        0 <= k2 < k ==> dist@[(#[trigger] succ@[k2]).0 as int] != usize::MAX,
                    forall|v: int|
                        0 <= v < n && #[trigger] dist@[v] != usize::MAX ==> dist@[v] <= d + 1
                            && reaches(g, si, v, dist@[v] as nat),
                    forall|v: int|
                        0 <= v < n && #[trigger] dist@[v] != usize::MAX && dist@[v] >= 1
                            ==> !reaches(g, si, v, (dist@[v] - 1) as nat),
                    forall|v: int|
                        0 <= v < n && reaches(g, si, v, d as nat) ==> #[trigger] dist@[v]
                            != usize::MAX,
                    dist@[si] == 0,
                    forall|v: int| 0 <= v < n && #[trigger] dist@[v] == 0 ==> v == si,
                    forall|u2: int, v: int|
                        done.contains(u2) && #[trigger] edge(g, u2, v) ==> dist@[v]
                            != usize::MAX,
                    forall|v: int|
                        0 <= v < n && #[trigger] dist@[v] != usize::MAX && dist@[v] < d
                            ==> done.contains(v),
                    forall|k0: int|
                        #![trigger current@[k0]]
                        0 <= k0 < current@.len() ==> 0 <= current@[k0] < n && dist@[current@[k0]
                            as int] == d,
                    forall|k0: int|
                        #![trigger current@[k0]]
                        0 <= k0 < i ==> done.contains(current@[k0] as int),
                    forall|v: int|
                        0 <= v < n && #[trigger] dist@[v] == d ==> current@.contains(v as usize),
                    forall|v: int|
                        0 <= v < n && #[trigger] dist@[v] != usize::MAX && v != si ==> {
                            let p = parent@[v] as int;
                            &&& 0 <= p < n
                            &&& dist@[p] as int + 1 == dist@[v]
                            &&& edge(g, p, v)
                        },
                    forall|k0: int|
                        #![trigger next@[k0]]
                        0 <= k0 < next@.len() ==> 0 <= next@[k0] < n && dist@[next@[k0] as int]
                            == d + 1,
                    forall|v: int|
                        0 <= v < n && #[trigger] dist@[v] == d + 1 ==> next@.contains(
                            v as usize),
                decreases succ@.len() - k,
            {
                let w = succ[k];
                let v = w.0 as usize;
                assert(edge(g, ui, v as int));
                assert(0 <= v < n);
                if dist[v] == usize::MAX {
                    proof {
                        assert(d <= n);
                    }
                    let du = dist[u];
                    let dd = du + 1;
                    let ghost pre = dist@;
                    dist.set(v, dd);
                    parent.set(v, u);
                    let ghost next_pre = next@;
                    next.push(v);
                    proof {
                        assert(next@[next@.len() - 1] == v);
                        assert(next@.contains(v));
                        assert forall|v2: int| 0 <= v2 < n && #[trigger] dist@[v2] == d + 1
                            implies next@.contains(v2 as usize) by {
                            if v2 != v as int {
                                assert(pre[v2] == dist@[v2]);
                                assert(next_pre.contains(v2 as usize));
                                let i2 = choose|i2: int|
                                    0 <= i2 < next_pre.len() && next_pre[i2] == v2 as usize;
                                assert(next@[i2] == v2 as usize);
                            }
                        }
                        assert(reaches(g, si, ui, d as nat));
                        lemma_reaches_step(g, si, ui, v as int, d as nat);
                        assert(reaches(g, si, v as int, (d + 1) as nat));
                        // the new tile was not reachable within d steps
                        assert(!reaches(g, si, v as int, d as nat));
                        lemma_undisc_finite(pre);
                        reveal(undisc);
                        assert(undisc(pre).contains(v as int));
                        assert(undisc(dist@) =~= undisc(pre).remove(v as int));
                        assert(undisc(dist@).len() == undisc(pre).len() - 1);
                    }
                }
                k = k + 1;
            }
            proof {
                assert forall|v: int| #[trigger] edge(g, ui, v) implies dist@[v] != usize::MAX by {
                    let k2 = choose|k2: int|
                        0 <= k2 < succ@.len() && (#[trigger] succ@[k2]).0 as int == v;
                    assert(dist@[succ@[k2].0 as int] != usize::MAX);
                }
                done = done.insert(ui);
            }
            i = i + 1;
        }
        // every tile reachable within d + 1 steps is now discovered
        proof {
            assert forall|v: int| 0 <= v < n && reaches(g, si, v, (d + 1) as nat) implies dist@[v]
                != usize::MAX by {
                if reaches(g, si, v, d as nat) {
                } else {
                    lemma_reaches_unfold(g, si, v, (d + 1) as nat);
                    let u = choose|u: int| reaches(g, si, u, d as nat) && #[trigger] edge(g, u, v);
                    assert(0 <= u < n);
                    assert(dist@[u] != usize::MAX);
                    if dist@[u] < d {
                        assert(done.contains(u));
                    } else {
                        assert(dist@[u] == d);
                        assert(current_snap.contains(u as usize));
                        let k0 = choose|k0: int|
                            0 <= k0 < current_snap.len() && current_snap[k0] == u as usize;
                        assert(done.contains(current@[k0] as int));
                    }
                    assert(dist@[v] != usize::MAX);
                }
            }
            assert forall|v: int|
                0 <= v < n && #[trigger] dist@[v] != usize::MAX && dist@[v] < d + 1 implies done
                .contains(v) by {
                if dist@[v] == d {
                    assert(current_snap.contains(v as usize));
                    let k0 = choose|k0: int|
                        0 <= k0 < current_snap.len() && current_snap[k0] == v as usize;
                    assert(done.contains(current@[k0] as int));
                }
            }
        }
        current = next;
        proof {
            d = d + 1;
        }
    }

    // the search saturated: nothing reachable is undiscovered
    proof {
        assert(d >= 1);
        assert forall|v: int| reaches(g, si, v, ((d - 1) + 1) as nat) implies #[trigger] reaches(
            g, si, v, (d - 1) as nat) by {
            if v == si {
                lemma_reaches_self(g, si);
                lemma_reaches_mono(g, si, v, 0, (d - 1) as nat);
            } else {
                assert(reaches(g, si, v, d as nat));
                if 0 <= v < n {
                    assert(dist@[v] != usize::MAX);
                    assert(dist@[v] != d);
                    assert(dist@[v] <= d - 1);
                    lemma_reaches_mono(g, si, v, dist@[v] as nat, (d - 1) as nat);
                } else {
                    lemma_reaches_out_of_grid(g, si, v, d as nat);
                }
            }
        }
    }

    if dist[goal] == usize::MAX {
        proof {
            assert forall|k: nat| !#[trigger] reaches(g, si, goal as int, k) by {
                if reaches(g, si, goal as int, k) {
                    lemma_reaches_fixpoint(g, si, (d - 1) as nat, k);
                    assert(reaches(g, si, goal as int, (d - 1) as nat));
                    lemma_reaches_mono(g, si, goal as int, (d - 1) as nat, d as nat);
                    assert(dist@[goal as int] != usize::MAX);
                }
            }
        }
        return None;
    }

    // walk the parent links back from the goal
    let ghost dg = dist@[goal as int] as int;
    let rev = trace_route(tiles, &dist, &parent, s, goal);

    let m = rev.len();
    let mut route: Vec<WorldIndex> = Vec::new();
    let mut j: usize = 0;
    while j < m
        invariant
            m == rev@.len(),
            rev@.len() >= 1,
            j <= m,
            n <= GRID_MAX_LEN,
            forall|j2: int| #![trigger rev@[j2]] 0 <= j2 < rev@.len() ==> 0 <= rev@[j2] < n,
            route@.len() == j,
            forall|j2: int|
                0 <= j2 < j ==> (#[trigger] route@[j2]).0 == rev@[m - 1 - j2] as int,
        decreases m - j,
    {
        let v = rev[m - 1 - j];
        route.push(WorldIndex(v as i32));
        j = j + 1;
    }

    proof {
        let rn = route_nodes(route@);
        assert(rn.len() == m);
        assert(rn[0] == si);
        assert(rn[m - 1] == goal as int);
        assert forall|i2: int| 0 <= i2 < rn.len() - 1 implies #[trigger] edge(g, rn[i2], rn[i2 + 1]) by {
            assert(route@[i2].0 == rev@[m - 1 - i2] as int);
            assert(route@[i2 + 1].0 == rev@[m - 1 - (i2 + 1)] as int);
            assert(edge(g, rev@[(m - 2 - i2) + 1] as int, rev@[m - 2 - i2] as int));
        }
        assert(valid_route(g, si, goal as int, rn));
        assert(m - 1 == dg);
        assert(reaches(g, si, goal as int, (m - 1) as nat));
        assert forall|k: nat| k < m - 1 implies !#[trigger] reaches(g, si, goal as int, k) by {
            if reaches(g, si, goal as int, k) {
                lemma_reaches_mono(g, si, goal as int, k, (dg - 1) as nat);
                assert(dg >= 1);
            }
        }
    }
    Some(route)
}


/// Walks the parent links of a finished search back from the goal to the
/// start, yielding the route in reverse order.
#[verifier::rlimit(100)]
fn trace_route(tiles: &Tiles, dist: &Vec<usize>, parent: &Vec<usize>, s: usize, goal: usize) -> (rev: Vec<
    usize>)
    requires
        dist@.len() == tiles.tiles@.len(),
        parent@.len() == tiles.tiles@.len(),
        s < tiles.tiles@.len(),
        goal < tiles.tiles@.len(),
        dist@[goal as int] != usize::MAX,
        dist@[s as int] == 0,
        forall|v: int|
            0 <= v < dist@.len() && #[trigger] dist@[v] == 0 ==> v == s as int,
        forall|v: int|
            0 <= v < dist@.len() && #[trigger] dist@[v] != usize::MAX && v != s as int ==> {
                let p = parent@[v] as int;
                &&& 0 <= p < dist@.len()
                &&& dist@[p] as int + 1 == dist@[v]
                &&& edge(*tiles, p, v)
            },
    ensures
        rev@.len() == dist@[goal as int] + 1,
        rev@[0] == goal,
        rev@[rev@.len() - 1] == s,
        forall|j: int|
            #![trigger rev@[j]]
            0 <= j < rev@.len() ==> 0 <= rev@[j] < dist@.len(),
        forall|j: int|
            0 <= j < rev@.len() - 1 ==> edge(*tiles, rev@[j + 1] as int, (#[trigger] rev@[j])
                as int),
{
    let ghost n = dist@.len() as int;
    let ghost si = s as int;
    let ghost dg = dist@[goal as int] as int;
    let mut rev: Vec<usize> = Vec::new();
    rev.push(goal);
    let mut cur = goal;
    while cur != s
        invariant
            n == dist@.len(),
            n == tiles.tiles@.len(),
            parent@.len() == n,
            0 <= si < n,
            si == s as int,
            goal < n,
            dist@[goal as int] == dg,
            0 <= cur < n,
            dist@[cur as int] != usize::MAX,
            rev@.len() >= 1,
            rev@[0] == goal,
            rev@[rev@.len() - 1] == cur,
            dist@[cur as int] as int == dg - (rev@.len() - 1),
            forall|j: int|
                #![trigger rev@[j]]
                0 <= j < rev@.len() ==> 0 <= rev@[j] < n && dist@[rev@[j] as int] != usize::MAX,
            forall|j: int|
                0 <= j < rev@.len() - 1 ==> edge(*tiles, rev@[j + 1] as int, (#[trigger] rev@[j])
                    as int),
            dist@[si] == 0,
            forall|v: int| 0 <= v < n && #[trigger] dist@[v] == 0 ==> v == si,
            forall|v: int|
                0 <= v < n && #[trigger] dist@[v] != usize::MAX && v != si ==> {
                    let p = parent@[v] as int;
                    &&& 0 <= p < n
                    &&& dist@[p] as int + 1 == dist@[v]
                    &&& edge(*tiles, p, v)
                },
        decreases dist@[cur as int],
    {
        let p = parent[cur];
        rev.push(p);
        cur = p;
    }
    rev
}

/// A tile outside the grid is reached only when it is the start itself.
proof fn lemma_reaches_out_of_grid(g: Tiles, s: int, v: int, n: nat)
    requires
        reaches(g, s, v, n),
        v != s,
    ensures
        0 <= v < g.tiles@.len(),
    decreases n,
{
    if n == 0 {
        lemma_reaches_zero_only(g, s, v);
    } else {
        if reaches(g, s, v, (n - 1) as nat) {
            lemma_reaches_out_of_grid(g, s, v, (n - 1) as nat);
        } else {
            lemma_reaches_unfold(g, s, v, n);
            let u = choose|u: int| reaches(g, s, u, (n - 1) as nat) && #[trigger] edge(g, u, v);
            assert(open_at(g, v));
        }
    }
}

} // verus!
