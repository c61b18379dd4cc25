//! Choosing a reference view: the mean of the camera positions and the view
//! nearest to a position.

use vstd::prelude::*;
use crate::error::SearchError;
use crate::rounding::{lemma_round_between, lemma_round_exact, round_half_away, round_nearest};
use crate::view::{positions, CameraView, Position};

verus! {

/// The sum of the `x` coordinates of the first `n` positions.
pub open spec fn sum_x(ps: Seq<Position>, n: nat) -> int
    decreases n,
{
    if n == 0 {
        0
    } else {
        sum_x(ps, (n - 1) as nat) + ps[n - 1].x
    }
}

/// The sum of the `y` coordinates of the first `n` positions.
pub open spec fn sum_y(ps: Seq<Position>, n: nat) -> int
    decreases n,
{
    if n == 0 {
        0
    } else {
        sum_y(ps, (n - 1) as nat) + ps[n - 1].y
    }
}

/// The arithmetic mean of the `x` coordinates, rounded to the nearest unit.
pub open spec fn mean_x(ps: Seq<Position>) -> int {
    round_half_away(sum_x(ps, ps.len()), ps.len() as int)
}

/// The arithmetic mean of the `y` coordinates, rounded to the nearest unit.
pub open spec fn mean_y(ps: Seq<Position>) -> int {
    round_half_away(sum_y(ps, ps.len()), ps.len() as int)
}

/// The squared Euclidean distance of two positions.
pub open spec fn sq_dist(a: Position, b: Position) -> int {
    (a.x - b.x) * (a.x - b.x) + (a.y - b.y) * (a.y - b.y)
}

/// Whether `i` is the index of the position nearest to `target`, and the
/// lowest such index where several positions are equally near.
pub open spec fn is_closest(ps: Seq<Position>, target: Position, i: int) -> bool {
    &&& 0 <= i < ps.len()
    &&& forall|j: int| 0 <= j < ps.len() ==> sq_dist(ps[i], target) <= sq_dist(#[trigger] ps[j], target)
    &&& forall|j: int| 0 <= j < i ==> sq_dist(ps[i], target) < sq_dist(#[trigger] ps[j], target)
}

/// Each sum lies between `n` times the least and `n` times the greatest
/// coordinate that a position can hold.
pub proof fn lemma_sums_bounded(ps: Seq<Position>, n: nat)
    requires
        n <= ps.len(),
    ensures
        n * i64::MIN <= sum_x(ps, n) <= n * i64::MAX,
        n * i64::MIN <= sum_y(ps, n) <= n * i64::MAX,
    decreases n,
{
    if n > 0 {
        lemma_sums_bounded(ps, (n - 1) as nat);
        assert((n - 1) * i64::MIN + i64::MIN == n * i64::MIN) by (nonlinear_arith);
        assert((n - 1) * i64::MAX + i64::MAX == n * i64::MAX) by (nonlinear_arith);
    }
}

/// Where the first `n` positions are all `p`, their sums are `n` times `p`.
pub proof fn lemma_sums_of_identical(ps: Seq<Position>, p: Position, n: nat)
    requires
        n <= ps.len(),
        forall|i: int| 0 <= i < ps.len() ==> ps[i] == p,
    ensures
        sum_x(ps, n) == p.x * n,
        sum_y(ps, n) == p.y * n,
    decreases n,
{
    if n > 0 {
        lemma_sums_of_identical(ps, p, (n - 1) as nat);
        assert(ps[n - 1] == p);
        assert(p.x * (n - 1) + p.x == p.x * n) by (nonlinear_arith);
        assert(p.y * (n - 1) + p.y == p.y * n) by (nonlinear_arith);
    } else {
        assert(p.x * n == 0 && p.y * n == 0) by (nonlinear_arith)
            requires
                n == 0,
        ;
    }
}

/// The mean of any number of identical positions is that position.
pub proof fn lemma_mean_of_identical(ps: Seq<Position>, p: Position)
    requires
        ps.len() > 0,
        forall|i: int| 0 <= i < ps.len() ==> ps[i] == p,
    ensures
        mean_x(ps) == p.x,
        mean_y(ps) == p.y,
{
    lemma_sums_of_identical(ps, p, ps.len());
    lemma_round_exact(p.x as int, ps.len() as int);
    lemma_round_exact(p.y as int, ps.len() as int);
}

/// The mean of a single position is that position.
pub proof fn lemma_mean_of_single(ps: Seq<Position>)
    requires
        ps.len() == 1,
    ensures
        mean_x(ps) == ps[0].x,
        mean_y(ps) == ps[0].y,
{
    lemma_mean_of_identical(ps, ps[0]);
}

/// The mean lies in the range of a coordinate.
pub proof fn lemma_mean_in_range(ps: Seq<Position>)
    requires
        ps.len() > 0,
    ensures
        i64::MIN <= mean_x(ps) <= i64::MAX,
        i64::MIN <= mean_y(ps) <= i64::MAX,
{
    let n = ps.len();
    lemma_sums_bounded(ps, n);
    assert(n * i64::MIN == i64::MIN * n && n * i64::MAX == i64::MAX * n) by (nonlinear_arith);
    lemma_round_between(sum_x(ps, n), n as int, i64::MIN as int, i64::MAX as int);
    lemma_round_between(sum_y(ps, n), n as int, i64::MIN as int, i64::MAX as int);
}

/// At most one index is that of the closest position.
pub proof fn lemma_closest_is_unique(ps: Seq<Position>, target: Position, i: int, j: int)
    requires
        is_closest(ps, target, i),
        is_closest(ps, target, j),
    ensures
        i == j,
{
    let _ = ps[i];
    let _ = ps[j];
}

/// Where some position equals the target, the closest position is the first
/// that does: it is at distance zero, and no earlier position equals the target.
pub proof fn lemma_closest_of_exact_match(ps: Seq<Position>, target: Position, i: int, j: int)
    requires
        is_closest(ps, target, i),
        0 <= j < ps.len(),
        ps[j] == target,
    ensures
        sq_dist(ps[i], target) == 0,
        ps[i] == target,
        i <= j,
{
    let dx: int = ps[i].x - target.x;
    let dy: int = ps[i].y - target.y;
    assert(sq_dist(ps[j], target) == 0) by {
        assert((target.x - target.x) * (target.x - target.x) == 0);
        assert((target.y - target.y) * (target.y - target.y) == 0);
    }
    assert(sq_dist(ps[i], target) <= sq_dist(ps[j], target));
    assert(dx * dx >= 0 && dy * dy >= 0 && (dx * dx == 0 ==> dx == 0) && (dy * dy == 0 ==> dy
        == 0)) by (nonlinear_arith);
    if i > j {
        assert(sq_dist(ps[i], target) < sq_dist(ps[j], target));
    }
}

/// The arithmetic mean of the camera positions of all views, each coordinate
/// rounded to the nearest unit. Fails with `EmptyViewSet` where there is no view.
pub fn average_position(views: &Vec<CameraView>) -> (result: Result<Position, SearchError>)
    ensures
        views@.len() == 0 <==> result == Err::<Position, SearchError>(SearchError::EmptyViewSet),
        views@.len() > 0 ==> result is Ok,
        result matches Ok(p) ==> p.x == mean_x(positions(views@)) && p.y == mean_y(
            positions(views@),
        ),
{
    let n: usize = views.len();
    if n == 0 {
        return Err(SearchError::EmptyViewSet);
    }
    let ghost ps = positions(views@);
    let mut total_x: i128 = 0;
    let mut total_y: i128 = 0;
    let mut i: usize = 0;
    while i < n
        invariant
            i <= n,
            n == views@.len(),
            ps == positions(views@),
            total_x == sum_x(ps, i as nat),
            total_y == sum_y(ps, i as nat),
            i * i64::MIN <= total_x <= i * i64::MAX,
            i * i64::MIN <= total_y <= i * i64::MAX,
        decreases n - i,
    {
        proof {
            lemma_sums_bounded(ps, (i + 1) as nat);
            assert(i * i64::MIN >= usize::MAX * i64::MIN && i * i64::MAX <= usize::MAX * i64::MAX)
                by (nonlinear_arith)
                requires
                    0 <= i <= usize::MAX,
            ;
        }
        total_x = total_x + views[i].pos.x as i128;
        total_y = total_y + views[i].pos.y as i128;
        i += 1;
    }
    proof {
        lemma_mean_in_range(ps);
    }
    let x: i128 = round_nearest(total_x, n as u64);
    let y: i128 = round_nearest(total_y, n as u64);
    Ok(Position { x: x as i64, y: y as i64 })
}

/// The square of the difference of two coordinates.
fn squared_gap(a: i64, b: i64) -> (s: u128)
    ensures
        s == (a - b) * (a - b),
{
    let gap: u128 = if a >= b {
        (a as i128 - b as i128) as u128
    } else {
        (b as i128 - a as i128) as u128
    };
    assert(gap * gap <= 0xFFFF_FFFF_FFFF_FFFF * 0xFFFF_FFFF_FFFF_FFFF && gap * gap == (a - b) * (a
        - b)) by (nonlinear_arith)
        requires
            0 <= gap <= 0xFFFF_FFFF_FFFF_FFFF,
            gap == a - b || gap == b - a,
    ;
    gap * gap
}

/// Whether `a1 + a2` is less than `b1 + b2`, where the sums may not fit.
fn sum_is_less(a1: u128, a2: u128, b1: u128, b2: u128) -> (less: bool)
    ensures
        less == (a1 + a2 < b1 + b2),
{
    match (a1.checked_add(a2), b1.checked_add(b2)) {
        (Some(a), Some(b)) => a < b,
        (Some(_), None) => true,
        (None, Some(_)) => false,
        (None, None) => a1 - (u128::MAX - a2) < b1 - (u128::MAX - b2),
    }
}

/// Whether `a` is strictly nearer to `target` than `b` is.
pub fn is_nearer(a: &Position, b: &Position, target: &Position) -> (nearer: bool)
    ensures
        nearer == (sq_dist(*a, *target) < sq_dist(*b, *target)),
{
    sum_is_less(
        squared_gap(a.x, target.x),
        squared_gap(a.y, target.y),
        squared_gap(b.x, target.x),
        squared_gap(b.y, target.y),
    )
}

/// The index of the view whose camera is nearest to `target`, the lowest index
/// where several are equally near. Fails with `EmptyViewSet` where there is no
/// view.
pub fn closest_view(views: &Vec<CameraView>, target: &Position) -> (result: Result<
    usize,
    SearchError,
>)
    ensures
        views@.len() == 0 <==> result == Err::<usize, SearchError>(SearchError::EmptyViewSet),
        views@.len() > 0 ==> result is Ok,
        result matches Ok(i) ==> i < views@.len() && is_closest(
            positions(views@),
            *target,
            i as int,
        ),
{
    let n: usize = views.len();
    if n == 0 {
        return Err(SearchError::EmptyViewSet);
    }
    let ghost ps = positions(views@);
    let mut best: usize = 0;
    let mut i: usize = 1;
    while i < n
        invariant
            1 <= i <= n,
            n == views@.len(),
            ps == positions(views@),
            best < i,
            forall|j: int| 0 <= j < i ==> sq_dist(ps[best as int], *target) <= sq_dist(#[trigger] ps[j], *target),
            forall|j: int| 0 <= j < best ==> sq_dist(ps[best as int], *target) < sq_dist(#[trigger] ps[j], *target),
        decreases n - i,
    {
        if is_nearer(&views[i].pos, &views[best].pos, target) {
            best = i;
        }
        i += 1;
    }
    Ok(best)
}

} // verus!
