//! The directional search: from the pixel of the reference view the walk
//! steps through a target view along the line that the two camera positions
//! give, and keeps the candidate whose patch is nearest to the reference patch.

use vstd::prelude::*;
use image::DynamicImage;
use crate::extract::{extract, window_in_image, window_samples, window_visible, SubPixel};
use crate::patch::{distance, ImagePatch};
use crate::raster::{image_height, image_width};
use crate::rounding::{lemma_round_exact, magnitude};
use crate::view::{CameraView, Pixel, Position};

verus! {

/// The step of a walk: the vector `(dx / scale, dy / scale)`. Of its two
/// components the greater has magnitude one, so that each step advances the
/// walk by exactly one pixel along that axis.
#[derive(Clone, Copy, Debug, PartialEq, Eq, Structural)]
pub struct SearchStep {
    dx: i128,
    dy: i128,
    scale: u64,
}

/// The greater of the magnitudes of two numbers.
pub open spec fn greater_magnitude(a: int, b: int) -> int {
    if magnitude(a) >= magnitude(b) {
        magnitude(a)
    } else {
        magnitude(b)
    }
}

/// The step of the walk through the view at `target` for a reference view at
/// `reference`: the offset between the two, scaled by its greater magnitude.
pub closed spec fn step_between(reference: Position, target: Position) -> SearchStep {
    SearchStep {
        dx: (reference.x - target.x) as i128,
        dy: (reference.y - target.y) as i128,
        scale: greater_magnitude(reference.x - target.x, reference.y - target.y) as u64,
    }
}

impl SearchStep {
    #[verifier::type_invariant]
    spec fn well_formed(self) -> bool {
        self.is_unit()
    }

    /// The numerator of the horizontal component.
    pub closed spec fn spec_dx(&self) -> i128 {
        self.dx
    }

    /// The numerator of the vertical component.
    pub closed spec fn spec_dy(&self) -> i128 {
        self.dy
    }

    /// The common denominator of the two components.
    pub closed spec fn spec_scale(&self) -> u64 {
        self.scale
    }

    /// Whether the greater component of the step has magnitude one. Every step
    /// that executable code holds is such a step.
    pub open spec fn is_unit(&self) -> bool {
        &&& self.spec_scale() > 0
        &&& self.spec_scale() == greater_magnitude(self.spec_dx() as int, self.spec_dy() as int)
    }

    /// The numerator of the horizontal component.
    #[verifier::when_used_as_spec(spec_dx)]
    pub fn dx(&self) -> (dx: i128)
        ensures
            dx == self.spec_dx(),
            self.is_unit(),
    {
        proof {
            use_type_invariant(self);
        }
        self.dx
    }

    /// The numerator of the vertical component.
    #[verifier::when_used_as_spec(spec_dy)]
    pub fn dy(&self) -> (dy: i128)
        ensures
            dy == self.spec_dy(),
            self.is_unit(),
    {
        proof {
            use_type_invariant(self);
        }
        self.dy
    }

    /// The common denominator of the two components.
    #[verifier::when_used_as_spec(spec_scale)]
    pub fn scale(&self) -> (scale: u64)
        ensures
            scale == self.spec_scale(),
            self.is_unit(),
    {
        proof {
            use_type_invariant(self);
        }
        self.scale
    }
}

/// The step between two distinct positions is the offset from the target's
/// camera to the reference's, over the greater of its two magnitudes.
pub proof fn lemma_step_between(reference: Position, target: Position)
    requires
        reference != target,
    ensures
        step_between(reference, target).spec_dx() == reference.x - target.x,
        step_between(reference, target).spec_dy() == reference.y - target.y,
        step_between(reference, target).spec_scale() == greater_magnitude(
            reference.x - target.x,
            reference.y - target.y,
        ),
        step_between(reference, target).is_unit(),
{
}

/// The step from the camera offset, or `None` where the two cameras stand at
/// the same position and no line is given.
pub fn search_step(reference: &Position, target: &Position) -> (step: Option<SearchStep>)
    ensures
        step is None <==> *reference == *target,
        step matches Some(s) ==> {
            &&& s == step_between(*reference, *target)
            &&& s.spec_dx() == reference.x - target.x
            &&& s.spec_dy() == reference.y - target.y
            &&& s.spec_scale() == greater_magnitude(reference.x - target.x, reference.y - target.y)
        },
{
    if reference.x == target.x && reference.y == target.y {
        return None;
    }
    let dx: i128 = reference.x as i128 - target.x as i128;
    let dy: i128 = reference.y as i128 - target.y as i128;
    let ax: i128 = if dx < 0 {
        -dx
    } else {
        dx
    };
    let ay: i128 = if dy < 0 {
        -dy
    } else {
        dy
    };
    let scale: i128 = if ax >= ay {
        ax
    } else {
        ay
    };
    Some(SearchStep { dx, dy, scale: scale as u64 })
}

/// The point that the walk reaches after `k` steps from the middle of `pixel`.
pub open spec fn candidate(pixel: Pixel, step: SearchStep, k: int) -> SubPixel {
    SubPixel {
        x: (pixel.x * step.spec_scale() + k * step.spec_dx()) as i128,
        y: (pixel.y * step.spec_scale() + k * step.spec_dy()) as i128,
        scale: step.spec_scale(),
    }
}

/// The greatest magnitude that a term of a candidate's coordinate can have:
/// a 32-bit number of pixels or steps times a 64-bit scale.
pub open spec fn term_bound() -> int {
    0xFFFF_FFFFint * 0xFFFF_FFFF_FFFF_FFFFint
}

/// The coordinates of a candidate fit the machine integers that hold them.
pub proof fn lemma_candidate_in_range(pixel: Pixel, step: SearchStep, k: int)
    requires
        step.is_unit(),
        0 <= k <= u32::MAX,
    ensures
        0 <= pixel.x * step.spec_scale() <= term_bound(),
        0 <= pixel.y * step.spec_scale() <= term_bound(),
        -term_bound() <= k * step.spec_dx() <= term_bound(),
        -term_bound() <= k * step.spec_dy() <= term_bound(),
        candidate(pixel, step, k).x == pixel.x * step.spec_scale() + k * step.spec_dx(),
        candidate(pixel, step, k).y == pixel.y * step.spec_scale() + k * step.spec_dy(),
        candidate(pixel, step, k).scale == step.spec_scale(),
{
    let s: int = step.spec_scale() as int;
    let px: int = pixel.x as int;
    let py: int = pixel.y as int;
    let dx: int = step.spec_dx() as int;
    let dy: int = step.spec_dy() as int;
    assert(0 <= px * s <= 0xFFFF_FFFF * 0xFFFF_FFFF_FFFF_FFFF && 0 <= py * s <= 0xFFFF_FFFF
        * 0xFFFF_FFFF_FFFF_FFFF) by (nonlinear_arith)
        requires
            0 <= px <= 0xFFFF_FFFF,
            0 <= py <= 0xFFFF_FFFF,
            0 <= s <= 0xFFFF_FFFF_FFFF_FFFF,
    ;
    assert(-(0xFFFF_FFFF * 0xFFFF_FFFF_FFFF_FFFF) <= k * dx <= 0xFFFF_FFFF * 0xFFFF_FFFF_FFFF_FFFF
        && -(0xFFFF_FFFF * 0xFFFF_FFFF_FFFF_FFFF) <= k * dy <= 0xFFFF_FFFF
        * 0xFFFF_FFFF_FFFF_FFFF) by (nonlinear_arith)
        requires
            0 <= k <= 0xFFFF_FFFF,
            -0xFFFF_FFFF_FFFF_FFFF <= dx <= 0xFFFF_FFFF_FFFF_FFFF,
            -0xFFFF_FFFF_FFFF_FFFF <= dy <= 0xFFFF_FFFF_FFFF_FFFF,
    ;
}

/// The point that the walk reaches after `k` steps from the middle of `pixel`.
pub fn candidate_at(pixel: Pixel, step: &SearchStep, k: u32) -> (point: SubPixel)
    ensures
        point == candidate(pixel, *step, k as int),
{
    let scale: u64 = step.scale();
    let dx: i128 = step.dx();
    let dy: i128 = step.dy();
    proof {
        lemma_candidate_in_range(pixel, *step, k as int);
    }
    SubPixel {
        x: (pixel.x as i128) * (scale as i128) + (k as i128) * dx,
        y: (pixel.y as i128) * (scale as i128) + (k as i128) * dy,
        scale,
    }
}

/// A place that the walk examined, and the distance of its patch from the
/// reference patch.
#[derive(Clone, Copy, Debug, PartialEq, Eq, Structural)]
pub struct MatchCandidate {
    pub position: SubPixel,
    pub score: u64,
}

/// What the search found in one target view.
#[derive(Clone, Copy, Debug, PartialEq, Eq, Structural)]
pub enum ViewResult {
    /// The candidate of least score, the first of them where several share it.
    Match(MatchCandidate),
    /// The walk had no candidate: already the window round its first place
    /// leaves the image, or it was allowed no step.
    NoMatchFound,
    /// The target's camera stands where the reference's does: no line to walk.
    DegenerateGeometry,
}

/// The better of the best candidate so far and a new one: the new one only
/// where its score is strictly less, so that of equal scores the first stays.
pub open spec fn better_of(best: ViewResult, candidate: MatchCandidate) -> ViewResult {
    match best {
        ViewResult::Match(b) => if b.score <= candidate.score {
            best
        } else {
            ViewResult::Match(candidate)
        },
        _ => ViewResult::Match(candidate),
    }
}

/// Holds a new candidate against the best so far and returns the one to keep.
pub fn offer(best: ViewResult, candidate: MatchCandidate) -> (kept: ViewResult)
    ensures
        kept == better_of(best, candidate),
{
    match best {
        ViewResult::Match(b) => if b.score <= candidate.score {
            best
        } else {
            ViewResult::Match(candidate)
        },
        _ => ViewResult::Match(candidate),
    }
}

/// The number of steps after which a walk that has made `k` steps ends: the
/// first from `k` on at which the window leaves the image, and `cap` at most.
pub open spec fn walk_len_from(
    image: DynamicImage,
    radius: int,
    pixel: Pixel,
    step: SearchStep,
    k: nat,
    cap: nat,
) -> nat
    decreases cap - k,
{
    if k < cap && window_visible(image, candidate(pixel, step, k as int), radius) {
        walk_len_from(image, radius, pixel, step, k + 1, cap)
    } else {
        k
    }
}

/// The number of candidates of a walk: those before the first whose window
/// leaves the image, and `cap` at most.
pub open spec fn walk_len(
    image: DynamicImage,
    radius: int,
    pixel: Pixel,
    step: SearchStep,
    cap: nat,
) -> nat {
    walk_len_from(image, radius, pixel, step, 0, cap)
}

/// The distance between the reference patch and the patch round a point.
pub open spec fn candidate_score(
    image: DynamicImage,
    reference: Seq<u8>,
    radius: int,
    channels: int,
    point: SubPixel,
) -> nat {
    distance(reference, window_samples(image, point.column(), point.row(), radius, channels))
}

/// The scores of the first `n` candidates of a walk.
pub open spec fn walk_scores(
    image: DynamicImage,
    reference: Seq<u8>,
    radius: int,
    channels: int,
    pixel: Pixel,
    step: SearchStep,
    n: nat,
) -> Seq<nat> {
    Seq::new(
        n,
        |k: int| candidate_score(image, reference, radius, channels, candidate(pixel, step, k)),
    )
}

/// Whether `j` is the index of the least score, and the first such index.
pub open spec fn is_first_min(scores: Seq<nat>, j: int) -> bool {
    &&& 0 <= j < scores.len()
    &&& forall|i: int| 0 <= i < scores.len() ==> scores[j] <= #[trigger] scores[i]
    &&& forall|i: int| 0 <= i < j ==> scores[j] < #[trigger] scores[i]
}

/// The index of the first least score.
pub open spec fn first_min(scores: Seq<nat>) -> int {
    choose|j: int| is_first_min(scores, j)
}

/// At most one index is that of the first least score.
pub proof fn lemma_first_min_unique(scores: Seq<nat>, i: int, j: int)
    requires
        is_first_min(scores, i),
        is_first_min(scores, j),
    ensures
        i == j,
{
    let _ = scores[i];
    let _ = scores[j];
}

/// Every score sequence that is not empty has a first least score.
pub proof fn lemma_first_min_exists(scores: Seq<nat>)
    requires
        scores.len() > 0,
    ensures
        is_first_min(scores, first_min(scores)),
    decreases scores.len(),
{
    if scores.len() == 1 {
        assert(is_first_min(scores, 0));
    } else {
        let front = scores.drop_last();
        lemma_first_min_exists(front);
        let j = first_min(front);
        let last = scores.len() - 1;
        assert(forall|i: int| 0 <= i < front.len() ==> front[i] == scores[i]);
        if scores[last] < scores[j] {
            assert(is_first_min(scores, last)) by {
                assert forall|i: int| 0 <= i < scores.len() implies scores[last] <= #[trigger] scores[i] by {
                    if i < last {
                        assert(front[j] <= front[i]);
                    }
                }
                assert forall|i: int| 0 <= i < last implies scores[last] < #[trigger] scores[i] by {
                    assert(front[j] <= front[i]);
                }
            }
        } else {
            assert(is_first_min(scores, j)) by {
                assert forall|i: int| 0 <= i < scores.len() implies scores[j] <= #[trigger] scores[i] by {
                    if i < last {
                        assert(front[j] <= front[i]);
                    }
                }
                assert forall|i: int| 0 <= i < j implies scores[j] < #[trigger] scores[i] by {
                    assert(front[j] < front[i]);
                }
            }
        }
    }
}

/// What a walk through `image` reports: no match where it has no candidate,
/// else the candidate of least score, the first of them among equals.
pub open spec fn walk_result(
    image: DynamicImage,
    reference: Seq<u8>,
    radius: int,
    channels: int,
    pixel: Pixel,
    step: SearchStep,
    cap: nat,
) -> ViewResult {
    let n = walk_len(image, radius, pixel, step, cap);
    let scores = walk_scores(image, reference, radius, channels, pixel, step, n);
    if n == 0 {
        ViewResult::NoMatchFound
    } else {
        ViewResult::Match(
            MatchCandidate {
                position: candidate(pixel, step, first_min(scores)),
                score: scores[first_min(scores)] as u64,
            },
        )
    }
}

/// What the search reports for one target view.
pub open spec fn view_result(
    reference_pos: Position,
    reference: Seq<u8>,
    radius: int,
    channels: int,
    target: CameraView,
    pixel: Pixel,
    cap: nat,
) -> ViewResult {
    if reference_pos == target.pos {
        ViewResult::DegenerateGeometry
    } else {
        walk_result(
            target.image,
            reference,
            radius,
            channels,
            pixel,
            step_between(reference_pos, target.pos),
            cap,
        )
    }
}

/// A walk whose candidates from `from` up to `k` all lie inside the image, and
/// which cannot go on after `k`, has `k` candidates.
pub proof fn lemma_walk_len_reached(
    image: DynamicImage,
    radius: int,
    pixel: Pixel,
    step: SearchStep,
    from: nat,
    k: nat,
    cap: nat,
)
    requires
        from <= k <= cap,
        forall|j: int|
            from <= j < k ==> window_visible(image, #[trigger] candidate(pixel, step, j), radius),
        k == cap || !window_visible(image, candidate(pixel, step, k as int), radius),
    ensures
        walk_len_from(image, radius, pixel, step, from, cap) == k,
    decreases k - from,
{
    if from < k {
        assert(window_visible(image, candidate(pixel, step, from as int), radius));
        lemma_walk_len_reached(image, radius, pixel, step, from + 1, k, cap);
    }
}

/// Every candidate of a walk lies inside the image, and the walk ends at the
/// cap or where the next candidate would not.
pub proof fn lemma_walk_len_meaning(
    image: DynamicImage,
    radius: int,
    pixel: Pixel,
    step: SearchStep,
    from: nat,
    cap: nat,
)
    requires
        from <= cap,
    ensures
        from <= walk_len_from(image, radius, pixel, step, from, cap) <= cap,
        forall|j: int|
            from <= j < walk_len_from(image, radius, pixel, step, from, cap) ==> window_visible(
                image,
                #[trigger] candidate(pixel, step, j),
                radius,
            ),
        walk_len_from(image, radius, pixel, step, from, cap) == cap || !window_visible(
            image,
            candidate(pixel, step, walk_len_from(image, radius, pixel, step, from, cap) as int),
            radius,
        ),
    decreases cap - from,
{
    if from < cap && window_visible(image, candidate(pixel, step, from as int), radius) {
        lemma_walk_len_meaning(image, radius, pixel, step, from + 1, cap);
    }
}

/// Along an axis on which the step has magnitude one the walk advances by
/// exactly one pixel with every step: after `k` steps the nearest pixel is `k`
/// columns, or rows, from the one it started at.
pub proof fn lemma_walk_advances_by_pixels(pixel: Pixel, step: SearchStep, k: int)
    requires
        step.is_unit(),
        0 <= k <= u32::MAX,
    ensures
        step.spec_dx() == step.spec_scale() ==> candidate(pixel, step, k).column() == pixel.x + k,
        step.spec_dx() == -step.spec_scale() ==> candidate(pixel, step, k).column() == pixel.x - k,
        step.spec_dy() == step.spec_scale() ==> candidate(pixel, step, k).row() == pixel.y + k,
        step.spec_dy() == -step.spec_scale() ==> candidate(pixel, step, k).row() == pixel.y - k,
        step.spec_dx() == 0 ==> candidate(pixel, step, k).column() == pixel.x,
        step.spec_dy() == 0 ==> candidate(pixel, step, k).row() == pixel.y,
{
    lemma_candidate_in_range(pixel, step, k);
    let s: int = step.spec_scale() as int;
    let px: int = pixel.x as int;
    let py: int = pixel.y as int;
    let dx: int = step.spec_dx() as int;
    let dy: int = step.spec_dy() as int;
    assert(px * s + k * s == (px + k) * s && px * s + k * (-s) == (px - k) * s && px * s + k * 0
        == px * s) by (nonlinear_arith);
    assert(py * s + k * s == (py + k) * s && py * s + k * (-s) == (py - k) * s && py * s + k * 0
        == py * s) by (nonlinear_arith);
    lemma_round_exact(px + k, s);
    lemma_round_exact(px - k, s);
    lemma_round_exact(px, s);
    lemma_round_exact(py + k, s);
    lemma_round_exact(py - k, s);
    lemma_round_exact(py, s);
}

/// A walk has no more candidates than there are pixels between the one it
/// starts at and the edge of the image that it walks towards, the windows of
/// all of them lying inside the image.
pub proof fn lemma_walk_len_bounded(
    image: DynamicImage,
    radius: int,
    pixel: Pixel,
    step: SearchStep,
    cap: nat,
)
    requires
        step.is_unit(),
        0 <= radius,
        cap <= u32::MAX,
    ensures
        walk_len(image, radius, pixel, step, cap) <= cap,
        walk_len(image, radius, pixel, step, cap) > 0 ==> {
            let n = walk_len(image, radius, pixel, step, cap);
            &&& step.spec_dx() == step.spec_scale() ==> n <= image_width(image) - radius - pixel.x
            &&& step.spec_dx() == -step.spec_scale() ==> n <= pixel.x - radius + 1
            &&& step.spec_dy() == step.spec_scale() ==> n <= image_height(image) - radius - pixel.y
            &&& step.spec_dy() == -step.spec_scale() ==> n <= pixel.y - radius + 1
        },
{
    lemma_walk_len_meaning(image, radius, pixel, step, 0, cap);
    let n = walk_len(image, radius, pixel, step, cap);
    if n > 0 {
        let last = n - 1;
        assert(window_visible(image, candidate(pixel, step, last), radius));
        lemma_walk_advances_by_pixels(pixel, step, last);
    }
}

/// Two views whose cameras stand at one position are not searched, and no
/// other pair is refused: the result is `DegenerateGeometry` for exactly them.
pub proof fn lemma_degenerate_iff_same_position(
    reference_pos: Position,
    reference: Seq<u8>,
    radius: int,
    channels: int,
    target: CameraView,
    pixel: Pixel,
    cap: nat,
)
    ensures
        view_result(reference_pos, reference, radius, channels, target, pixel, cap)
            == ViewResult::DegenerateGeometry <==> reference_pos == target.pos,
{
}

/// The distance of a candidate's patch from the reference patch.
fn score_against(reference: &ImagePatch, found: &ImagePatch) -> (score: u64)
    ensures
        score == distance(reference@, found@),
{
    reference.cmp(found)
}

/// Walks through `image` from `pixel` by `step`, at most `max_walk_steps`
/// candidates far, and reports the candidate whose patch is nearest to the
/// reference patch. The walk ends at the first candidate whose window does not
/// lie inside the image.
pub fn walk(
    image: &DynamicImage,
    reference: &ImagePatch,
    pixel: Pixel,
    step: &SearchStep,
    max_walk_steps: u32,
) -> (result: ViewResult)
    ensures
        result == walk_result(
            *image,
            reference@,
            reference.spec_radius() as int,
            reference.spec_channels() as int,
            pixel,
            *step,
            max_walk_steps as nat,
        ),
{
    let mut scratch = reference.zeroed_like();
    let ghost radius: int = reference.spec_radius() as int;
    let ghost channels: int = reference.spec_channels() as int;
    let ghost mut best_at: int = 0;
    let mut best = ViewResult::NoMatchFound;
    let mut walking: bool = true;
    let mut k: u32 = 0;
    while walking && k < max_walk_steps
        invariant
            k <= max_walk_steps,
            radius == reference.spec_radius(),
            channels == reference.spec_channels(),
            scratch.spec_radius() == reference.spec_radius(),
            scratch.spec_channels() == reference.spec_channels(),
            forall|j: int|
                0 <= j < k ==> window_visible(*image, #[trigger] candidate(pixel, *step, j), radius),
            !walking ==> !window_visible(*image, candidate(pixel, *step, k as int), radius),
            k == 0 ==> best == ViewResult::NoMatchFound,
            k > 0 ==> is_first_min(
                walk_scores(*image, reference@, radius, channels, pixel, *step, k as nat),
                best_at,
            ),
            k > 0 ==> walk_scores(
                *image,
                reference@,
                radius,
                channels,
                pixel,
                *step,
                k as nat,
            )[best_at] <= u64::MAX,
            k > 0 ==> best == ViewResult::Match(
                MatchCandidate {
                    position: candidate(pixel, *step, best_at),
                    score: walk_scores(
                        *image,
                        reference@,
                        radius,
                        channels,
                        pixel,
                        *step,
                        k as nat,
                    )[best_at] as u64,
                },
            ),
        decreases (max_walk_steps - k) + (if walking { 1int } else { 0int }),
    {
        let point = candidate_at(pixel, step, k);
        match extract(image, &point, &mut scratch) {
            Err(_) => {
                walking = false;
            },
            Ok(()) => {
                let score = score_against(reference, &scratch);
                let ghost before = walk_scores(
                    *image,
                    reference@,
                    radius,
                    channels,
                    pixel,
                    *step,
                    k as nat,
                );
                let ghost after = walk_scores(
                    *image,
                    reference@,
                    radius,
                    channels,
                    pixel,
                    *step,
                    (k + 1) as nat,
                );
                proof {
                    assert(after[k as int] == score);
                    assert(forall|i: int| 0 <= i < k ==> before[i] == after[i]);
                    if k > 0 {
                        if score < before[best_at] {
                            assert forall|i: int| 0 <= i < after.len() implies after[k as int]
                                <= #[trigger] after[i] by {
                                if i < k {
                                    assert(before[best_at] <= before[i]);
                                }
                            }
                            assert forall|i: int| 0 <= i < k implies after[k as int]
                                < #[trigger] after[i] by {
                                assert(before[best_at] <= before[i]);
                            }
                        } else {
                            assert forall|i: int| 0 <= i < after.len() implies after[best_at]
                                <= #[trigger] after[i] by {
                                if i < k {
                                    assert(before[best_at] <= before[i]);
                                }
                            }
                            assert forall|i: int| 0 <= i < best_at implies after[best_at]
                                < #[trigger] after[i] by {
                                assert(before[best_at] < before[i]);
                            }
                        }
                    }
                }
                best = offer(best, MatchCandidate { position: point, score });
                proof {
                    if k == 0 || score < before[best_at] {
                        best_at = k as int;
                    }
                }
                k = k + 1;
            },
        }
    }
    proof {
        lemma_walk_len_reached(*image, radius, pixel, *step, 0, k as nat, max_walk_steps as nat);
        if k > 0 {
            let scores = walk_scores(*image, reference@, radius, channels, pixel, *step, k as nat);
            lemma_first_min_exists(scores);
            lemma_first_min_unique(scores, best_at, first_min(scores));
        }
    }
    best
}

/// Searches one target view for the pixel of the reference view: walks the
/// line that the two camera positions give, unless they are the same position.
pub fn search_view(
    reference_pos: &Position,
    reference: &ImagePatch,
    target: &CameraView,
    pixel: Pixel,
    max_walk_steps: u32,
) -> (result: ViewResult)
    ensures
        result == view_result(
            *reference_pos,
            reference@,
            reference.spec_radius() as int,
            reference.spec_channels() as int,
            *target,
            pixel,
            max_walk_steps as nat,
        ),
{
    match search_step(reference_pos, &target.pos) {
        None => ViewResult::DegenerateGeometry,
        Some(step) => walk(&target.image, reference, pixel, &step, max_walk_steps),
    }
}

/// The pixels that a walk samples: for each of its candidates the pixel
/// nearest to it, in the order of the walk.
pub open spec fn walk_pixels(
    image: DynamicImage,
    radius: int,
    pixel: Pixel,
    step: SearchStep,
    cap: nat,
) -> Seq<Pixel> {
    Seq::new(
        walk_len(image, radius, pixel, step, cap),
        |k: int|
            Pixel {
                x: candidate(pixel, step, k).column() as u32,
                y: candidate(pixel, step, k).row() as u32,
            },
    )
}

/// The pixels that the walk through `image` samples, for an observer that
/// marks them: no patch is read.
pub fn sampled_pixels(
    image: &DynamicImage,
    radius: u32,
    pixel: Pixel,
    step: &SearchStep,
    max_walk_steps: u32,
) -> (pixels: Vec<Pixel>)
    ensures
        pixels@ == walk_pixels(*image, radius as int, pixel, *step, max_walk_steps as nat),
{
    let width: u32 = image.width();
    let height: u32 = image.height();
    let mut pixels: Vec<Pixel> = Vec::new();
    let mut walking: bool = true;
    let mut k: u32 = 0;
    while walking && k < max_walk_steps
        invariant
            k <= max_walk_steps,
            width == image_width(*image),
            height == image_height(*image),
            pixels@.len() == k,
            forall|j: int|
                0 <= j < k ==> window_visible(
                    *image,
                    #[trigger] candidate(pixel, *step, j),
                    radius as int,
                ),
            forall|j: int|
                0 <= j < k ==> pixels@[j] == (Pixel {
                    x: candidate(pixel, *step, j).column() as u32,
                    y: candidate(pixel, *step, j).row() as u32,
                }),
            !walking ==> !window_visible(*image, candidate(pixel, *step, k as int), radius as int),
        decreases (max_walk_steps - k) + (if walking { 1int } else { 0int }),
    {
        let point = candidate_at(pixel, step, k);
        match window_in_image(width, height, &point, radius) {
            None => {
                walking = false;
            },
            Some(p) => {
                pixels.push(p);
                k = k + 1;
            },
        }
    }
    proof {
        lemma_walk_len_reached(
            *image,
            radius as int,
            pixel,
            *step,
            0,
            k as nat,
            max_walk_steps as nat,
        );
        assert(pixels@ =~= walk_pixels(
            *image,
            radius as int,
            pixel,
            *step,
            max_walk_steps as nat,
        ));
    }
    pixels
}

} // verus!
