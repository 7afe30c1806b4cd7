use werfs::entities::WorldIndex;
use werfs::pathfind::find_route;
use werfs::tiles::Tiles;

fn grid(codes: Vec<u8>, width: usize) -> Tiles {
    let mut rng = rand::rng();
    Tiles::new(&mut rng, codes, width)
}

fn route_ids(r: &[WorldIndex]) -> Vec<i32> {
    r.iter().map(|w| w.0).collect()
}

#[test]
fn straight_row_is_shortest() {
    let t = grid(vec![0u8; 100], 10);
    let r = find_route(&t, WorldIndex(0), 9).expect("a route must exist");
    assert_eq!(route_ids(&r), vec![0, 1, 2, 3, 4, 5, 6, 7, 8, 9]);
}

#[test]
fn shortest_hop_counts_on_small_grids() {
    // a 3 x 3 open grid: the corner-to-corner route takes 4 hops
    let t = grid(vec![0u8; 9], 3);
    let r = find_route(&t, WorldIndex(0), 8).expect("a route must exist");
    assert_eq!(r.len(), 5);
    assert_eq!(r[0].0, 0);
    assert_eq!(r[4].0, 8);

    // with the center walled the corner-to-corner length is unchanged
    let mut codes = vec![0u8; 9];
    codes[4] = 1;
    let t2 = grid(codes, 3);
    let r2 = find_route(&t2, WorldIndex(0), 8).expect("a route must exist");
    assert_eq!(r2.len(), 5);
    assert!(!route_ids(&r2).contains(&4));
}

#[test]
fn trivial_route_is_the_start_itself() {
    let t = grid(vec![0u8; 100], 10);
    let r = find_route(&t, WorldIndex(37), 37).expect("a route must exist");
    assert_eq!(route_ids(&r), vec![37]);
}

#[test]
fn walled_off_goal_has_no_route() {
    // tile 9 sits in the top-right corner; its only neighbors are 8 and 19
    let mut codes = vec![0u8; 100];
    codes[8] = 1;
    codes[19] = 1;
    let t = grid(codes, 10);
    assert!(find_route(&t, WorldIndex(0), 9).is_none());
}

#[test]
fn route_leaves_a_walled_start_but_never_enters_walls() {
    // the start tile itself is a wall; walking off it is allowed
    let mut codes = vec![0u8; 100];
    codes[0] = 1;
    let t = grid(codes, 10);
    let r = find_route(&t, WorldIndex(0), 5).expect("a route must exist");
    let ids = route_ids(&r);
    assert_eq!(ids[0], 0);
    assert_eq!(*ids.last().unwrap(), 5);
    for id in ids.iter().skip(1) {
        assert!(!t.tiles[*id as usize].is_blocked());
    }
}

// a plain reference search over the same adjacency, used to cross-check
// route lengths exhaustively on small grids
fn reference_hops(t: &Tiles, start: usize, goal: usize) -> Option<usize> {
    let n = t.tiles.len();
    let w = t.width;
    let mut dist = vec![usize::MAX; n];
    dist[start] = 0;
    let mut queue = vec![start];
    let mut head = 0;
    while head < queue.len() {
        let u = queue[head];
        head += 1;
        let mut cand: Vec<usize> = Vec::new();
        if u >= w {
            cand.push(u - w);
        }
        if u % w + 1 < w && u + 1 < n {
            cand.push(u + 1);
        }
        if u + w < n {
            cand.push(u + w);
        }
        if u % w >= 1 {
            cand.push(u - 1);
        }
        for v in cand {
            if !t.tiles[v].is_blocked() && dist[v] == usize::MAX {
                dist[v] = dist[u] + 1;
                queue.push(v);
            }
        }
    }
    if dist[goal] == usize::MAX {
        None
    } else {
        Some(dist[goal])
    }
}

#[test]
fn matches_reference_search_on_every_pair() {
    let layouts: [(usize, Vec<u8>); 3] = [
        (4, vec![0, 0, 0, 0, 0, 1, 1, 0, 0, 0, 1, 0, 0, 0, 0, 0]),
        (4, vec![0, 1, 0, 0, 0, 1, 0, 1, 0, 1, 0, 1, 0, 0, 0, 1]),
        (3, vec![0, 0, 0, 1, 1, 0, 0, 0, 0]),
    ];
    let mut rng = rand::rng();
    for (width, codes) in layouts {
        let t = Tiles::new(&mut rng, codes, width);
        let n = t.tiles.len();
        for s in 0..n {
            for g in 0..n {
                if t.tiles[g].is_blocked() && s != g {
                    continue;
                }
                let want = reference_hops(&t, s, g);
                let got = find_route(&t, WorldIndex(s as i32), g);
                match (want, got) {
                    (None, None) => {}
                    (Some(h), Some(route)) => {
                        assert_eq!(route.len(), h + 1, "length differs for {s} -> {g}");
                    }
                    (a, b) => panic!("reachability differs for {s} -> {g}: {a:?} vs {}", b.is_some()),
                }
            }
        }
    }
}

#[test]
fn blocked_tile_is_routed_around() {
    let mut codes = vec![0u8; 100];
    codes[5] = 1;
    let t = grid(codes, 10);
    let r = find_route(&t, WorldIndex(0), 9).expect("a route must exist");
    let ids = route_ids(&r);
    assert_eq!(ids[0], 0);
    assert_eq!(*ids.last().unwrap(), 9);
    assert!(!ids.contains(&5));
    // one detour through the second row costs exactly two extra hops
    assert_eq!(r.len(), 12);
    for win in ids.windows(2) {
        let d = (win[1] - win[0]).abs();
        assert!(d == 1 || d == 10, "steps must be cardinal: {win:?}");
    }
}
