//! Directional nearest-node search.
//!
//! A candidate at displacement `d` from the current node, with forward
//! component `f > 0` along the requested direction, scores
//! `|d| * (1 + (1 - f / |d|))`, which is `2 * |d| - f`. The lowest score wins;
//! among equal scores the first candidate in storage order wins.
use vstd::prelude::*;
use crate::graph::{Node, Point};

verus! {

/// One of the four arrow directions of the canvas (y grows downwards).
#[derive(Clone, Copy, Debug, PartialEq, Eq, Structural)]
pub enum Direction {
    Up,
    Down,
    Left,
    Right,
}

/// Largest magnitude of a coordinate difference between two points.
pub const DELTA_MAX: i64 = 65536;

/// Largest squared length of a displacement between two points.
pub const LEN2_MAX: i64 = 8589934592;

/// Component of the displacement `(dx, dy)` along `d`.
pub open spec fn forward(d: Direction, dx: int, dy: int) -> int {
    match d {
        Direction::Up => -dy,
        Direction::Down => dy,
        Direction::Left => -dx,
        Direction::Right => dx,
    }
}

/// `sqrt(a) - sqrt(b) < u`, for `a, b >= 0`, decided without roots: for
/// `u >= 0` it reads `a - b - u*u < 2*u*sqrt(b)`, for `u < 0` it reads
/// `2*|u|*sqrt(a) < b - a - u*u`, and each side is squared where both are
/// known to be non-negative.
pub open spec fn root_diff_below(a: int, b: int, u: int) -> bool {
    if u >= 0 {
        let w = a - b - u * u;
        w < 0 || w * w < 4 * u * u * b
    } else {
        let z = b - a - u * u;
        z > 0 && 4 * u * u * a < z * z
    }
}

/// The score `2 * sqrt(la) - fa` is below the score `2 * sqrt(lb) - fb`,
/// where `la`, `lb` are squared lengths and `fa`, `fb` forward components.
pub open spec fn score_below(la: int, fa: int, lb: int, fb: int) -> bool {
    root_diff_below(4 * la, 4 * lb, fa - fb)
}

/// Horizontal displacement from `c` to `p`.
pub open spec fn dx_of(c: Point, p: Point) -> int {
    p.x - c.x
}

/// Vertical displacement from `c` to `p`.
pub open spec fn dy_of(c: Point, p: Point) -> int {
    p.y - c.y
}

/// Squared length of the displacement from `c` to `p`.
pub open spec fn len2_of(c: Point, p: Point) -> int {
    dx_of(c, p) * dx_of(c, p) + dy_of(c, p) * dy_of(c, p)
}

/// Forward component along `d` of the displacement from `c` to `p`.
pub open spec fn fwd_of(d: Direction, c: Point, p: Point) -> int {
    forward(d, dx_of(c, p), dy_of(c, p))
}

/// Node `i` of `s` is another node than `cur` and lies strictly ahead of it.
pub open spec fn is_candidate(s: Seq<Node>, cur: Node, d: Direction, i: int) -> bool {
    s[i].id != cur.id && fwd_of(d, cur.position, s[i].position) > 0
}

/// Node `i` scores strictly below node `j`, seen from `cur`.
pub open spec fn beats(s: Seq<Node>, cur: Node, d: Direction, i: int, j: int) -> bool {
    let c = cur.position;
    score_below(
        len2_of(c, s[i].position),
        fwd_of(d, c, s[i].position),
        len2_of(c, s[j].position),
        fwd_of(d, c, s[j].position),
    )
}

/// Index of the first lowest-scoring candidate among the first `n` nodes.
pub open spec fn best_in_prefix(s: Seq<Node>, cur: Node, d: Direction, n: int) -> Option<int>
    decreases n,
{
    if n <= 0 {
        None
    } else {
        let prev = best_in_prefix(s, cur, d, n - 1);
        if is_candidate(s, cur, d, n - 1) && match prev {
            None => true,
            Some(b) => beats(s, cur, d, n - 1, b),
        } {
            Some(n - 1)
        } else {
            prev
        }
    }
}

/// Index of the node that a move from `cur` in direction `d` selects.
pub open spec fn nearest_in_direction(s: Seq<Node>, cur: Node, d: Direction) -> Option<int> {
    best_in_prefix(s, cur, d, s.len() as int)
}

/// The search finds a candidate exactly when one exists.
pub proof fn lemma_best_is_candidate(s: Seq<Node>, cur: Node, d: Direction, n: int)
    requires
        0 <= n <= s.len(),
    ensures
        match best_in_prefix(s, cur, d, n) {
            Some(b) => 0 <= b < n && is_candidate(s, cur, d, b),
            None => forall|i: int| 0 <= i < n ==> !is_candidate(s, cur, d, i),
        },
    decreases n,
{
    if n > 0 {
        lemma_best_is_candidate(s, cur, d, n - 1);
    }
}

/// With no other node strictly ahead in direction `d`, the search finds
/// nothing, so the selection stays where it is.
pub proof fn lemma_nothing_ahead_finds_nothing(s: Seq<Node>, cur: Node, d: Direction)
    requires
        forall|i: int| 0 <= i < s.len() ==> (#[trigger] s[i]).id == cur.id || fwd_of(d, cur.position, s[i].position) <= 0,
    ensures
        nearest_in_direction(s, cur, d) is None,
{
    lemma_best_is_candidate(s, cur, d, s.len() as int);
}

/// Whatever the search finds is another node that lies strictly ahead of
/// the current node.
pub proof fn lemma_nearest_is_ahead(s: Seq<Node>, cur: Node, d: Direction)
    ensures
        nearest_in_direction(s, cur, d) matches Some(b) ==> 0 <= b < s.len() && s[b].id != cur.id
            && fwd_of(d, cur.position, s[b].position) > 0,
{
    lemma_best_is_candidate(s, cur, d, s.len() as int);
}

fn score_is_below(la: i64, fa: i64, lb: i64, fb: i64) -> (r: bool)
    requires
        0 <= la <= LEN2_MAX,
        0 <= lb <= LEN2_MAX,
        -DELTA_MAX <= fa <= DELTA_MAX,
        -DELTA_MAX <= fb <= DELTA_MAX,
    ensures
        r == score_below(la as int, fa as int, lb as int, fb as int),
{
    let a: i128 = 4 * (la as i128);
    let b: i128 = 4 * (lb as i128);
    let u: i128 = (fa as i128) - (fb as i128);
    assert(0 <= u * u <= 4 * DELTA_MAX * DELTA_MAX) by (nonlinear_arith)
        requires
            -2 * DELTA_MAX <= u <= 2 * DELTA_MAX,
    ;
    let uu: i128 = u * u;
    assert(4 * uu * b == 4 * u * u * b && 4 * uu * a == 4 * u * u * a) by (nonlinear_arith)
        requires
            uu == u * u,
    ;
    if u >= 0 {
        let w: i128 = a - b - uu;
        if w < 0 {
            true
        } else {
            assert(w * w <= 0x1_0000_0000_0000_0000_00) by (nonlinear_arith)
                requires
                    0 <= w <= 4 * LEN2_MAX,
            ;
            assert(4 * uu * b <= 0x1_0000_0000_0000_0000_00) by (nonlinear_arith)
                requires
                    0 <= uu <= 4 * DELTA_MAX * DELTA_MAX,
                    0 <= b <= 4 * LEN2_MAX,
            ;
            w * w < 4 * uu * b
        }
    } else {
        let z: i128 = b - a - uu;
        if z <= 0 {
            false
        } else {
            assert(z * z <= 0x1_0000_0000_0000_0000_00) by (nonlinear_arith)
                requires
                    0 < z <= 4 * LEN2_MAX,
            ;
            assert(4 * uu * a <= 0x1_0000_0000_0000_0000_00) by (nonlinear_arith)
                requires
                    0 <= uu <= 4 * DELTA_MAX * DELTA_MAX,
                    0 <= a <= 4 * LEN2_MAX,
            ;
            4 * uu * a < z * z
        }
    }
}

/// Displacement from `c` to `p` as squared length and forward component.
fn measure(d: Direction, c: Point, p: Point) -> (r: (i64, i64))
    ensures
        r.0 == len2_of(c, p),
        r.1 == fwd_of(d, c, p),
        0 <= r.0 <= LEN2_MAX,
        -DELTA_MAX <= r.1 <= DELTA_MAX,
{
    let dx: i64 = (p.x as i64) - (c.x as i64);
    let dy: i64 = (p.y as i64) - (c.y as i64);
    assert(0 <= dx * dx <= DELTA_MAX * DELTA_MAX) by (nonlinear_arith)
        requires
            -DELTA_MAX < dx < DELTA_MAX,
    ;
    assert(0 <= dy * dy <= DELTA_MAX * DELTA_MAX) by (nonlinear_arith)
        requires
            -DELTA_MAX < dy < DELTA_MAX,
    ;
    let len2: i64 = dx * dx + dy * dy;
    let f: i64 = match d {
        Direction::Up => -dy,
        Direction::Down => dy,
        Direction::Left => -dx,
        Direction::Right => dx,
    };
    (len2, f)
}

/// Storage index of the node that a move from `nodes[current]` in
/// direction `d` selects: the first lowest-scoring node strictly ahead.
pub fn nearest_index(nodes: &Vec<Node>, current: usize, d: Direction) -> (r: Option<usize>)
    requires
        current < nodes@.len(),
    ensures
        match r {
            Some(b) => nearest_in_direction(nodes@, nodes@[current as int], d) == Some(b as int),
            None => nearest_in_direction(nodes@, nodes@[current as int], d) is None,
        },
        match r {
            Some(b) => b < nodes@.len() && is_candidate(nodes@, nodes@[current as int], d, b as int),
            None => forall|i: int| 0 <= i < nodes@.len() ==> !is_candidate(nodes@, nodes@[current as int], d, i),
        },
{
    let ghost s = nodes@;
    let ghost cur = nodes@[current as int];
    let cur_id = nodes[current].id;
    let c = nodes[current].position;
    let mut best: Option<usize> = None;
    let mut best_len2: i64 = 0;
    let mut best_fwd: i64 = 0;
    let mut i: usize = 0;
    while i < nodes.len()
        invariant
            s == nodes@,
            cur == s[current as int],
            cur_id == cur.id,
            c == cur.position,
            i <= s.len(),
            match best {
                Some(b) => best_in_prefix(s, cur, d, i as int) == Some(b as int) && b < s.len()
                    && best_len2 == len2_of(c, s[b as int].position)
                    && best_fwd == fwd_of(d, c, s[b as int].position)
                    && 0 <= best_len2 <= LEN2_MAX
                    && -DELTA_MAX <= best_fwd <= DELTA_MAX,
                None => best_in_prefix(s, cur, d, i as int) is None,
            },
        decreases s.len() - i,
    {
        if nodes[i].id != cur_id {
            let (len2, f) = measure(d, c, nodes[i].position);
            if f > 0 {
                let better = match best {
                    None => true,
                    Some(_) => score_is_below(len2, f, best_len2, best_fwd),
                };
                if better {
                    best = Some(i);
                    best_len2 = len2;
                    best_fwd = f;
                }
            }
        }
        i = i + 1;
    }
    proof {
        lemma_best_is_candidate(s, cur, d, s.len() as int);
    }
    best
}

} // verus!
