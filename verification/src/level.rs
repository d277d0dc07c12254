//! The map: a cell grid and the waypoint-chained path enemies walk.
//!
//! A level is generated by picking a random start, end and a list of
//! intermediate waypoints, then routing consecutive pairs with an
//! orthogonal stepping rule (move one cell toward the target in x
//! while not aligned, else in y).  A segment that revisits a cell
//! already on the path fails the attempt and the whole level is
//! regenerated, so a finished level always carries a simple path:
//! non-empty, in bounds, cardinally connected and free of duplicates.

use vstd::prelude::*;
use crate::rng::{rng_from_seed, rand_below};
use crate::settings::{Settings, MAX_DIM};

verus! {

/// A grid cell, addressed by column `x` and row `y`.
#[derive(Clone, Copy, Debug, PartialEq, Eq, Structural)]
pub struct Point {
    pub x: usize,
    pub y: usize,
}

pub open spec fn in_bounds(p: Point, width: usize, height: usize) -> bool {
    p.x < width && p.y < height
}

/// The two cells share an edge: they differ by exactly one step in
/// exactly one axis.
pub open spec fn cardinal_adjacent(a: Point, b: Point) -> bool {
    ||| (a.x == b.x && (a.y + 1 == b.y || b.y + 1 == a.y))
    ||| (a.y == b.y && (a.x + 1 == b.x || b.x + 1 == a.x))
}

pub open spec fn path_in_bounds(path: Seq<Point>, width: usize, height: usize) -> bool {
    forall|i: int| 0 <= i < path.len() ==> in_bounds(#[trigger] path[i], width, height)
}

pub open spec fn path_connected(path: Seq<Point>) -> bool {
    forall|i: int| 0 <= i < path.len() - 1 ==> cardinal_adjacent(#[trigger] path[i], path[i + 1])
}

pub open spec fn path_distinct(path: Seq<Point>) -> bool {
    forall|i: int, j: int| 0 <= i < j < path.len() ==> #[trigger] path[i] != #[trigger] path[j]
}

/// The contract every consumer of a path relies on: a non-empty
/// ordered sequence of distinct, cardinally adjacent cells inside the
/// grid.
pub open spec fn path_ok(path: Seq<Point>, width: usize, height: usize) -> bool {
    &&& path.len() > 0
    &&& path_in_bounds(path, width, height)
    &&& path_connected(path)
    &&& path_distinct(path)
}

pub open spec fn abs_diff(a: int, b: int) -> int {
    if a >= b {
        a - b
    } else {
        b - a
    }
}

/// Number of orthogonal steps between two cells.
pub open spec fn taxicab_dist(a: Point, b: Point) -> int {
    abs_diff(a.x as int, b.x as int) + abs_diff(a.y as int, b.y as int)
}

/// One step of the routing rule: move toward the goal in x while not
/// aligned, else in y; a cell already at the goal stays put.
pub open spec fn taxicab_step(cur: Point, goal: Point) -> Point {
    if cur.x < goal.x {
        Point { x: (cur.x + 1) as usize, y: cur.y }
    } else if cur.x > goal.x {
        Point { x: (cur.x - 1) as usize, y: cur.y }
    } else if cur.y < goal.y {
        Point { x: cur.x, y: (cur.y + 1) as usize }
    } else if cur.y > goal.y {
        Point { x: cur.x, y: (cur.y - 1) as usize }
    } else {
        cur
    }
}

/// The cells the routing rule visits after `cur`, through `goal`
/// inclusive; empty when the two coincide.
pub open spec fn route_between(cur: Point, goal: Point) -> Seq<Point>
    decreases taxicab_dist(cur, goal),
{
    if cur == goal || taxicab_dist(cur, goal) <= 0 {
        Seq::empty()
    } else {
        let next = taxicab_step(cur, goal);
        seq![next] + route_between(next, goal)
    }
}

/// No cell of the route from `start` to `goal` already lies on
/// `path`: the condition under which a segment can be appended.
pub open spec fn route_clear(path: Seq<Point>, start: Point, goal: Point) -> bool {
    forall|k: int|
        0 <= k < route_between(start, goal).len() ==> !path.contains(
            #[trigger] route_between(start, goal)[k],
        )
}

/// The cells of the whole waypoint chain `cur -> w1 -> ... -> wn ->
/// end`, routed segment by segment; `cur` itself is excluded, as in
/// `route_between`.
pub open spec fn routes_through(cur: Point, waypoints: Seq<Point>, end: Point) -> Seq<Point>
    decreases waypoints.len(),
{
    if waypoints.len() == 0 {
        route_between(cur, end)
    } else {
        route_between(cur, waypoints[0]) + routes_through(waypoints[0], waypoints.drop_first(), end)
    }
}

/// Appending one waypoint to the chain reroutes only its tail.
proof fn lemma_routes_through_push(cur: Point, waypoints: Seq<Point>, w: Point, end: Point)
    ensures
        routes_through(cur, waypoints.push(w), end) == routes_through(cur, waypoints, w)
            + route_between(w, end),
    decreases waypoints.len(),
{
    if waypoints.len() == 0 {
        assert(waypoints.push(w)[0] == w);
        assert(waypoints.push(w).drop_first() =~= Seq::<Point>::empty());
        assert(routes_through(w, Seq::<Point>::empty(), end) == route_between(w, end));
        assert(routes_through(cur, waypoints, w) == route_between(cur, w));
    } else {
        assert(waypoints.push(w)[0] == waypoints[0]);
        assert(waypoints.push(w).drop_first() =~= waypoints.drop_first().push(w));
        lemma_routes_through_push(waypoints[0], waypoints.drop_first(), w, end);
        assert(route_between(cur, waypoints[0]) + (routes_through(
            waypoints[0],
            waypoints.drop_first(),
            w,
        ) + route_between(w, end)) =~= (route_between(cur, waypoints[0]) + routes_through(
            waypoints[0],
            waypoints.drop_first(),
            w,
        )) + route_between(w, end));
    }
}

/// How many leading route cells avoid the path: the length of the
/// prefix a colliding segment call leaves appended.
pub open spec fn clear_prefix_len(path: Seq<Point>, route: Seq<Point>) -> int
    decreases route.len(),
{
    if route.len() == 0 {
        0
    } else if path.contains(route[0]) {
        0
    } else {
        1 + clear_prefix_len(path, route.drop_first())
    }
}

proof fn lemma_clear_prefix(path: Seq<Point>, route: Seq<Point>, m: int)
    requires
        0 <= m <= route.len(),
        forall|k: int| 0 <= k < m ==> !path.contains(#[trigger] route[k]),
        m < route.len() ==> path.contains(route[m]),
    ensures
        clear_prefix_len(path, route) == m,
    decreases route.len(),
{
    if route.len() > 0 && m > 0 {
        assert(!path.contains(route[0]));
        assert forall|k: int| 0 <= k < m - 1 implies !path.contains(
            #[trigger] route.drop_first()[k],
        ) by {
            assert(route.drop_first()[k] == route[k + 1]);
        }
        if m - 1 < route.drop_first().len() {
            assert(route.drop_first()[m - 1] == route[m]);
        }
        lemma_clear_prefix(path, route.drop_first(), m - 1);
    }
}

/// Each route cell is one step closer to the goal than the last, so
/// the route is as long as the distance and never revisits a cell.
proof fn lemma_route_shape(s: Point, g: Point)
    ensures
        route_between(s, g).len() == taxicab_dist(s, g),
        forall|k: int|
            0 <= k < route_between(s, g).len() ==> taxicab_dist(
                #[trigger] route_between(s, g)[k],
                g,
            ) == taxicab_dist(s, g) - (k + 1),
    decreases taxicab_dist(s, g),
{
    if s != g && taxicab_dist(s, g) > 0 {
        let n = taxicab_step(s, g);
        lemma_route_shape(n, g);
        assert forall|k: int| 0 <= k < route_between(s, g).len() implies taxicab_dist(
            #[trigger] route_between(s, g)[k],
            g,
        ) == taxicab_dist(s, g) - (k + 1) by {
            if k > 0 {
                assert(route_between(s, g)[k] == route_between(n, g)[k - 1]);
            }
        }
    }
}

/// Distinct route positions hold distinct cells.
proof fn lemma_route_distinct(s: Point, g: Point)
    ensures
        path_distinct(route_between(s, g)),
{
    lemma_route_shape(s, g);
    assert forall|i: int, j: int|
        0 <= i < j < route_between(s, g).len() implies #[trigger] route_between(s, g)[i]
        != #[trigger] route_between(s, g)[j] by {
        assert(taxicab_dist(route_between(s, g)[i], g) != taxicab_dist(route_between(s, g)[j], g));
    }
}

/// `p` lies in the axis-aligned box spanned by `a` and `b`.
pub open spec fn in_box(p: Point, a: Point, b: Point) -> bool {
    &&& (p.x >= a.x || p.x >= b.x)
    &&& (p.x <= a.x || p.x <= b.x)
    &&& (p.y >= a.y || p.y >= b.y)
    &&& (p.y <= a.y || p.y <= b.y)
}

/// Linear scan for membership; `Point` equality is structural.
pub fn point_in_vec(v: &Vec<Point>, p: Point) -> (r: bool)
    ensures
        r == v@.contains(p),
{
    let mut i: usize = 0;
    while i < v.len()
        invariant
            i <= v@.len(),
            forall|k: int| 0 <= k < i ==> v@[k] != p,
        decreases v@.len() - i,
    {
        if v[i] == p {
            return true;
        }
        i = i + 1;
    }
    false
}

/// Runtime check of the full path contract, usable to validate a path
/// built by hand.
pub fn check_path(path: &Vec<Point>, width: usize, height: usize) -> (r: bool)
    requires
        width <= MAX_DIM,
        height <= MAX_DIM,
    ensures
        r == path_ok(path@, width, height),
{
    if path.len() == 0 {
        return false;
    }
    let mut i: usize = 0;
    while i < path.len()
        invariant
            i <= path@.len(),
            width <= MAX_DIM,
            height <= MAX_DIM,
            forall|k: int| 0 <= k < i ==> in_bounds(#[trigger] path@[k], width, height),
        decreases path@.len() - i,
    {
        if !(path[i].x < width && path[i].y < height) {
            return false;
        }
        i = i + 1;
    }
    let mut i: usize = 0;
    while i < path.len() - 1
        invariant
            i <= path@.len(),
            path@.len() > 0,
            path_in_bounds(path@, width, height),
            width <= MAX_DIM,
            height <= MAX_DIM,
            forall|k: int| 0 <= k < i ==> cardinal_adjacent(#[trigger] path@[k], path@[k + 1]),
        decreases path@.len() - i,
    {
        let a = path[i];
        let b = path[i + 1];
        let adjacent = (a.x == b.x && (a.y + 1 == b.y || b.y + 1 == a.y)) || (a.y == b.y && (a.x
            + 1 == b.x || b.x + 1 == a.x));
        if !adjacent {
            return false;
        }
        i = i + 1;
    }
    let mut i: usize = 0;
    while i < path.len()
        invariant
            i <= path@.len(),
            forall|k: int, l: int|
                0 <= k < l < path@.len() && k < i ==> #[trigger] path@[k] != #[trigger] path@[l],
        decreases path@.len() - i,
    {
        let mut j: usize = i + 1;
        while j < path.len()
            invariant
                i < j <= path@.len() || (i >= path@.len() && j >= i),
                i < path@.len(),
                forall|l: int| i < l < j ==> path@[i as int] != #[trigger] path@[l],
            decreases path@.len() - j,
        {
            if path[i] == path[j] {
                return false;
            }
            j = j + 1;
        }
        i = i + 1;
    }
    true
}

/// Why level generation gave up.
#[derive(Clone, Copy, Debug, PartialEq, Eq, Structural)]
pub enum LevelGenError {
    /// No attempt produced a collision-free path within the retry cap,
    /// e.g. because the waypoint count is too dense for the grid.
    RetriesExhausted,
}

/// Attempts at a whole level before generation reports a
/// configuration error.
pub const GEN_RETRY_CAP: u32 = 100;

/// Draws of a single random cell before a candidate search gives up.
pub const CANDIDATE_TRIES: u32 = 1000;

/// The static map of a run: dimensions, endpoints, the forced
/// waypoints and the concrete path routed through them.
pub struct Level {
    pub width: usize,
    pub height: usize,
    pub start: Point,
    pub end: Point,
    pub waypoints: Vec<Point>,
    pub path: Vec<Point>,
}

impl Level {
    /// Everything the simulation assumes of a finished level.
    pub open spec fn wf(self) -> bool {
        &&& 1 <= self.width <= MAX_DIM
        &&& 1 <= self.height <= MAX_DIM
        &&& path_ok(self.path@, self.width, self.height)
        &&& self.path@[0] == self.start
        &&& self.path@.last() == self.end
        &&& forall|i: int|
            0 <= i < self.waypoints@.len() ==> self.path@.contains(#[trigger] self.waypoints@[i])
    }

    /// Routes from `start` (already the last path cell) to `goal` with
    /// the orthogonal stepping rule, appending every visited cell.
    /// Succeeds exactly when no cell of the route already lies on the
    /// path; a collision fails the call, leaving exactly the route
    /// prefix before the first colliding cell appended, for the caller
    /// to discard.
    #[verifier::rlimit(50)]
    pub fn generate_path_segment(&mut self, start: Point, goal: Point) -> (ok: bool)
        requires
            old(self).path@.len() > 0,
            old(self).path@.last() == start,
            path_in_bounds(old(self).path@, old(self).width, old(self).height),
            path_connected(old(self).path@),
            path_distinct(old(self).path@),
            in_bounds(goal, old(self).width, old(self).height),
        ensures
            final(self).width == old(self).width,
            final(self).height == old(self).height,
            final(self).start == old(self).start,
            final(self).end == old(self).end,
            final(self).waypoints == old(self).waypoints,
            path_in_bounds(final(self).path@, old(self).width, old(self).height),
            path_connected(final(self).path@),
            path_distinct(final(self).path@),
            final(self).path@.len() >= old(self).path@.len(),
            final(self).path@.take(old(self).path@.len() as int) == old(self).path@,
            ok == route_clear(old(self).path@, start, goal),
            ok ==> final(self).path@ == old(self).path@ + route_between(start, goal),
            ok ==> final(self).path@.last() == goal,
            !ok ==> final(self).path@ == old(self).path@ + route_between(start, goal).take(
                clear_prefix_len(old(self).path@, route_between(start, goal)),
            ),
    {
        let ghost old_path = self.path@;
        let ghost route_full = route_between(start, goal);
        let mut cur = start;
        proof {
            lemma_route_distinct(start, goal);
            assert(old_path + route_full.take(0) =~= old_path);
            assert(route_full.skip(0) =~= route_full);
            assert(old_path.take(old_path.len() as int) =~= old_path);
        }
        while !(cur.x == goal.x && cur.y == goal.y)
            invariant
                self.width == old(self).width,
                self.height == old(self).height,
                self.start == old(self).start,
                self.end == old(self).end,
                self.waypoints == old(self).waypoints,
                self.path@.len() > 0,
                self.path@.last() == cur,
                path_in_bounds(self.path@, self.width, self.height),
                path_connected(self.path@),
                path_distinct(self.path@),
                in_bounds(goal, self.width, self.height),
                in_box(cur, start, goal),
                in_bounds(cur, self.width, self.height),
                self.path@.len() >= old_path.len(),
                self.path@.take(old_path.len() as int) == old_path,
                route_full == route_between(start, goal),
                path_distinct(route_full),
                0 <= self.path@.len() - old_path.len() <= route_full.len(),
                self.path@ == old_path + route_full.take(self.path@.len() - old_path.len()),
                route_between(cur, goal) == route_full.skip(self.path@.len() - old_path.len()),
                forall|k: int|
                    0 <= k < self.path@.len() - old_path.len() ==> !old_path.contains(
                        #[trigger] route_full[k],
                    ),
                old_path == old(self).path@,
            decreases taxicab_dist(cur, goal),
        {
            let ghost consumed = self.path@.len() - old_path.len();
            let next = if cur.x < goal.x {
                Point { x: cur.x + 1, y: cur.y }
            } else if cur.x > goal.x {
                Point { x: cur.x - 1, y: cur.y }
            } else if cur.y < goal.y {
                Point { x: cur.x, y: cur.y + 1 }
            } else {
                Point { x: cur.x, y: cur.y - 1 }
            };
            proof {
                assert(next == taxicab_step(cur, goal));
                assert(cardinal_adjacent(cur, next));
                assert(route_between(cur, goal) == seq![next] + route_between(next, goal));
                assert(route_between(cur, goal).len() > 0);
                assert(route_full.skip(consumed).len() == route_full.len() - consumed);
                assert(0 <= consumed < route_full.len());
                assert(route_full[consumed] == route_full.skip(consumed)[0]);
                assert(next == route_full[consumed]);
            }
            if point_in_vec(&self.path, next) {
                proof {
                    // The colliding cell cannot be one this call added:
                    // those are earlier route cells, and the route never
                    // revisits a cell.  So it was on the path already,
                    // and it is the first route cell that was.
                    let wi = choose|wi: int|
                        0 <= wi < self.path@.len() && self.path@[wi] == next;
                    if wi >= old_path.len() {
                        assert(self.path@[wi] == route_full.take(consumed)[wi - old_path.len()]);
                        assert(route_full[wi - old_path.len()] == route_full[consumed]);
                        assert(false);
                    }
                    assert(old_path[wi] == next);
                    assert(old_path.contains(route_full[consumed]));
                    lemma_clear_prefix(old_path, route_full, consumed);
                }
                return false;
            }
            let ghost pre = self.path@;
            self.path.push(next);
            proof {
                assert(self.path@.take(old_path.len() as int) =~= pre.take(old_path.len() as int));
                assert(self.path@ =~= old_path + route_full.take(consumed + 1));
                assert((seq![next] + route_between(next, goal)).drop_first() =~= route_between(
                    next,
                    goal,
                ));
                assert(route_full.skip(consumed).drop_first() =~= route_full.skip(consumed + 1));
                assert(route_between(next, goal) =~= route_full.skip(consumed + 1));
                assert forall|k: int| 0 <= k < consumed + 1 implies !old_path.contains(
                    #[trigger] route_full[k],
                ) by {
                    if k == consumed {
                        if old_path.contains(next) {
                            let wi = choose|wi: int|
                                0 <= wi < old_path.len() && old_path[wi] == next;
                            assert(pre[wi] == next);
                            assert(pre.contains(next));
                        }
                    }
                }
            }
            cur = next;
        }
        proof {
            assert(cur == goal);
            assert(route_between(cur, goal) == Seq::<Point>::empty());
            assert(self.path@.len() - old_path.len() == route_full.len());
            assert(self.path@ =~= old_path + route_full);
            assert(route_clear(old_path, start, goal));
        }
        true
    }

    /// Picks `num_waypoints` random cells (distinct from each other,
    /// from the running endpoint and from `end`) and routes the path
    /// `start -> w1 -> ... -> end` segment by segment.  Any collision
    /// or exhausted candidate search fails the attempt.
    #[verifier::rlimit(100)]
    pub fn generate_waypoints(
        &mut self,
        rng: &mut rand::rngs::StdRng,
        num_waypoints: usize,
    ) -> (ok: bool)
        requires
            1 <= old(self).width <= MAX_DIM,
            1 <= old(self).height <= MAX_DIM,
            in_bounds(old(self).start, old(self).width, old(self).height),
            in_bounds(old(self).end, old(self).width, old(self).height),
            old(self).start != old(self).end,
        ensures
            final(self).width == old(self).width,
            final(self).height == old(self).height,
            final(self).start == old(self).start,
            final(self).end == old(self).end,
            ok ==> final(self).wf(),
            ok ==> final(self).waypoints@.len() == num_waypoints,
            ok ==> forall|i: int, j: int|
                0 <= i < j < final(self).waypoints@.len()
                    ==> #[trigger] final(self).waypoints@[i] != #[trigger] final(self).waypoints@[j],
            ok ==> forall|i: int|
                0 <= i < final(self).waypoints@.len() ==> #[trigger] final(self).waypoints@[i]
                    != old(self).start && final(self).waypoints@[i] != old(self).end,
            ok ==> final(self).path@ == seq![old(self).start] + routes_through(
                old(self).start,
                final(self).waypoints@,
                old(self).end,
            ),
            num_waypoints == 0 ==> ok,
    {
        self.waypoints = Vec::new();
        self.path = Vec::new();
        let start = self.start;
        self.path.push(start);
        let mut current = start;
        let mut k: usize = 0;
        proof {
            assert(self.path@ =~= seq![start]);
            assert forall|g: Point| seq![self.start] + routes_through(
                self.start,
                self.waypoints@,
                g,
            ) == self.path@ + route_between(current, g) by {
                assert(routes_through(self.start, self.waypoints@, g) == route_between(start, g));
            }
        }
        while k < num_waypoints
            invariant
                self.width == old(self).width,
                self.height == old(self).height,
                self.start == old(self).start,
                self.end == old(self).end,
                1 <= self.width <= MAX_DIM,
                1 <= self.height <= MAX_DIM,
                in_bounds(self.start, self.width, self.height),
                in_bounds(self.end, self.width, self.height),
                self.start != self.end,
                self.path@.len() > 0,
                self.path@[0] == self.start,
                self.path@.last() == current,
                path_in_bounds(self.path@, self.width, self.height),
                path_connected(self.path@),
                path_distinct(self.path@),
                self.waypoints@.len() == k,
                k <= num_waypoints,
                forall|i: int|
                    0 <= i < self.waypoints@.len() ==> self.path@.contains(
                        #[trigger] self.waypoints@[i],
                    ),
                forall|i: int, j: int|
                    0 <= i < j < self.waypoints@.len() ==> #[trigger] self.waypoints@[i]
                        != #[trigger] self.waypoints@[j],
                forall|i: int|
                    0 <= i < self.waypoints@.len() ==> #[trigger] self.waypoints@[i] != self.start
                        && self.waypoints@[i] != self.end,
                forall|g: Point|
                    seq![self.start] + #[trigger] routes_through(self.start, self.waypoints@, g)
                        == self.path@ + route_between(current, g),
                k == 0 ==> self.path@ == seq![self.start] && current == self.start,
            decreases num_waypoints - k,
        {
            let mut tries: u32 = 0;
            let mut found = false;
            let mut cand = Point { x: 0, y: 0 };
            while tries < CANDIDATE_TRIES && !found
                invariant
                    1 <= self.width <= MAX_DIM,
                    1 <= self.height <= MAX_DIM,
                    found ==> in_bounds(cand, self.width, self.height) && cand != current && cand
                        != self.end && !self.waypoints@.contains(cand),
                decreases CANDIDATE_TRIES - tries, (if found { 0int } else { 1int }),
            {
                let c = Point {
                    x: rand_below(rng, self.width),
                    y: rand_below(rng, self.height),
                };
                if !(c == current) && !(c == self.end) && !point_in_vec(&self.waypoints, c) {
                    cand = c;
                    found = true;
                }
                tries = tries + 1;
            }
            if !found {
                return false;
            }
            let ghost pre_path = self.path@;
            let ghost pre_wps = self.waypoints@;
            self.waypoints.push(cand);
            if !self.generate_path_segment(current, cand) {
                return false;
            }
            proof {
                assert forall|i: int| 0 <= i < self.waypoints@.len() implies self.path@.contains(
                    #[trigger] self.waypoints@[i],
                ) by {
                    if i < pre_wps.len() {
                        assert(pre_wps[i] == self.waypoints@[i]);
                        let w = pre_wps[i];
                        assert(pre_path.contains(w));
                        let wi = choose|wi: int| 0 <= wi < pre_path.len() && pre_path[wi] == w;
                        assert(self.path@.take(pre_path.len() as int)[wi] == w);
                        assert(self.path@[wi] == w);
                    } else {
                        assert(self.waypoints@[i] == cand);
                        assert(self.path@.last() == cand);
                        assert(self.path@[self.path@.len() - 1] == cand);
                    }
                }
                // The fresh segment is non-empty and collision-free,
                // so its endpoint cannot be the start cell.
                assert(self.path@[0] == self.start) by {
                    assert(self.path@.take(pre_path.len() as int)[0] == pre_path[0]);
                }
                assert(taxicab_dist(current, cand) > 0);
                lemma_route_shape(current, cand);
                assert(self.path@.len() > pre_path.len());
                assert(cand != self.start) by {
                    assert(self.path@[self.path@.len() - 1] == cand);
                    if cand == self.start {
                        assert(self.path@[0] == self.path@[self.path@.len() - 1]);
                        assert(false);
                    }
                }
                assert forall|g: Point| seq![self.start] + #[trigger] routes_through(
                    self.start,
                    self.waypoints@,
                    g,
                ) == self.path@ + route_between(cand, g) by {
                    lemma_routes_through_push(self.start, pre_wps, cand, g);
                    assert(seq![self.start] + routes_through(self.start, pre_wps, cand)
                        == pre_path + route_between(current, cand));
                    assert(seq![self.start] + (routes_through(self.start, pre_wps, cand)
                        + route_between(cand, g)) =~= (seq![self.start] + routes_through(
                        self.start,
                        pre_wps,
                        cand,
                    )) + route_between(cand, g));
                    assert((pre_path + route_between(current, cand)) + route_between(cand, g)
                        =~= self.path@ + route_between(cand, g));
                }
            }
            current = cand;
            k = k + 1;
        }
        let ghost pre_path = self.path@;
        let ghost exit_wps = self.waypoints@;
        let goal = self.end;
        proof {
            if num_waypoints == 0 {
                // With no waypoints the single segment cannot collide:
                // the only path cell is the start, and every route cell
                // is strictly closer to the goal than the start is.
                lemma_route_shape(current, goal);
                assert forall|kk: int|
                    0 <= kk < route_between(current, goal).len() implies !self.path@.contains(
                    #[trigger] route_between(current, goal)[kk],
                ) by {
                    if self.path@.contains(route_between(current, goal)[kk]) {
                        let wi = choose|wi: int|
                            0 <= wi < self.path@.len() && self.path@[wi] == route_between(
                                current,
                                goal,
                            )[kk];
                        assert(self.path@ == seq![self.start]);
                        assert(route_between(current, goal)[kk] == current);
                        assert(false);
                    }
                }
                assert(route_clear(self.path@, current, goal));
            }
        }
        if !self.generate_path_segment(current, goal) {
            return false;
        }
        proof {
            assert forall|i: int| 0 <= i < self.waypoints@.len() implies self.path@.contains(
                #[trigger] self.waypoints@[i],
            ) by {
                let w = self.waypoints@[i];
                assert(pre_path.contains(w));
                let wi = choose|wi: int| 0 <= wi < pre_path.len() && pre_path[wi] == w;
                assert(self.path@.take(pre_path.len() as int)[wi] == w);
                assert(self.path@[wi] == w);
            }
            assert(self.path@[0] == self.start) by {
                assert(self.path@.take(pre_path.len() as int)[0] == pre_path[0]);
            }
            assert(seq![self.start] + routes_through(self.start, exit_wps, goal) == pre_path
                + route_between(current, goal));
            assert(self.path@ == pre_path + route_between(current, goal));
        }
        true
    }

    /// Generates a fresh level from a seed: random distinct start and
    /// end, then waypoint-chained routing, retrying the whole level on
    /// collision up to `GEN_RETRY_CAP` times.  Exhausting the cap is a
    /// configuration error, not a loop.
    pub fn new(settings: &Settings, seed: u64) -> (r: Result<Level, LevelGenError>)
        requires
            settings.valid(),
        ensures
            match r {
                Ok(level) => {
                    &&& level.wf()
                    &&& level.width == settings.grid_width
                    &&& level.height == settings.grid_height
                    &&& level.waypoints@.len() == settings.num_waypoints
                    &&& forall|i: int, j: int|
                        0 <= i < j < level.waypoints@.len()
                            ==> #[trigger] level.waypoints@[i] != #[trigger] level.waypoints@[j]
                    &&& forall|i: int|
                        0 <= i < level.waypoints@.len() ==> #[trigger] level.waypoints@[i]
                            != level.start && level.waypoints@[i] != level.end
                    &&& level.path@ == seq![level.start] + routes_through(
                        level.start,
                        level.waypoints@,
                        level.end,
                    )
                },
                Err(e) => e == LevelGenError::RetriesExhausted,
            },
    {
        let mut rng = rng_from_seed(seed);
        let mut attempt: u32 = 0;
        while attempt < GEN_RETRY_CAP
            invariant
                settings.valid(),
            decreases GEN_RETRY_CAP - attempt,
        {
            let start = Point {
                x: rand_below(&mut rng, settings.grid_width),
                y: rand_below(&mut rng, settings.grid_height),
            };
            let mut tries: u32 = 0;
            let mut found = false;
            let mut end = Point { x: 0, y: 0 };
            while tries < CANDIDATE_TRIES && !found
                invariant
                    settings.valid(),
                    in_bounds(start, settings.grid_width, settings.grid_height),
                    found ==> in_bounds(end, settings.grid_width, settings.grid_height) && end
                        != start,
                decreases CANDIDATE_TRIES - tries, (if found { 0int } else { 1int }),
            {
                let c = Point {
                    x: rand_below(&mut rng, settings.grid_width),
                    y: rand_below(&mut rng, settings.grid_height),
                };
                if !(c == start) {
                    end = c;
                    found = true;
                }
                tries = tries + 1;
            }
            if found {
                let mut level = Level {
                    width: settings.grid_width,
                    height: settings.grid_height,
                    start,
                    end,
                    waypoints: Vec::new(),
                    path: Vec::new(),
                };
                if level.generate_waypoints(&mut rng, settings.num_waypoints) {
                    return Ok(level);
                }
            }
            attempt = attempt + 1;
        }
        Err(LevelGenError::RetriesExhausted)
    }

    /// Builds a level from explicit parts, validating the full path
    /// contract at runtime; start and end are read off the path.
    pub fn from_parts(
        width: usize,
        height: usize,
        path: Vec<Point>,
        waypoints: Vec<Point>,
    ) -> (r: Option<Level>)
        ensures
            match r {
                Some(level) => {
                    &&& level.wf()
                    &&& level.width == width
                    &&& level.height == height
                    &&& level.path@ == path@
                    &&& level.waypoints@ == waypoints@
                    &&& level.start == path@[0]
                    &&& level.end == path@.last()
                },
                None => !({
                    &&& 1 <= width <= MAX_DIM
                    &&& 1 <= height <= MAX_DIM
                    &&& path_ok(path@, width, height)
                    &&& forall|i: int|
                        0 <= i < waypoints@.len() ==> path@.contains(#[trigger] waypoints@[i])
                }),
            },
    {
        if !(1 <= width && width <= MAX_DIM && 1 <= height && height <= MAX_DIM) {
            return None;
        }
        if !check_path(&path, width, height) {
            return None;
        }
        let mut i: usize = 0;
        while i < waypoints.len()
            invariant
                i <= waypoints@.len(),
                forall|k: int| 0 <= k < i ==> path@.contains(#[trigger] waypoints@[k]),
            decreases waypoints@.len() - i,
        {
            if !point_in_vec(&path, waypoints[i]) {
                return None;
            }
            i = i + 1;
        }
        let start = path[0];
        let end = path[path.len() - 1];
        Some(Level { width, height, start, end, waypoints, path })
    }
}

} // verus!
