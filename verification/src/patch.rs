//! The patch: the samples of a square window round a pixel, and the sum of
//! squared differences by which two patches are compared.

use vstd::prelude::*;
use crate::config::{lemma_valid_shape_bounds, patch_len, valid_shape, SearchConfig};

verus! {

/// The squared difference of two samples.
pub open spec fn sq_diff(a: u8, b: u8) -> nat {
    ((a - b) * (a - b)) as nat
}

/// The sum of the squared differences of the first `n` sample pairs.
pub open spec fn distance_upto(a: Seq<u8>, b: Seq<u8>, n: nat) -> nat
    decreases n,
{
    if n == 0 {
        0
    } else {
        distance_upto(a, b, (n - 1) as nat) + sq_diff(a[n - 1], b[n - 1])
    }
}

/// The number of sample pairs that two sample sequences form.
pub open spec fn paired_len(a: Seq<u8>, b: Seq<u8>) -> nat {
    if a.len() <= b.len() {
        a.len()
    } else {
        b.len()
    }
}

/// The sum of squared differences over all corresponding sample pairs.
pub open spec fn distance(a: Seq<u8>, b: Seq<u8>) -> nat {
    distance_upto(a, b, paired_len(a, b))
}

/// The distance over the first `n` pairs, for a machine index.
pub open spec fn distance_scanned(a: Seq<u8>, b: Seq<u8>, n: usize) -> nat {
    distance_upto(a, b, n as nat)
}

/// A sequence of samples is at distance zero from itself, on every prefix.
pub proof fn lemma_distance_upto_self(p: Seq<u8>, n: nat)
    ensures
        distance_upto(p, p, n) == 0,
    decreases n,
{
    if n > 0 {
        lemma_distance_upto_self(p, (n - 1) as nat);
        let x: int = p[n - 1] as int;
        assert((x - x) * (x - x) == 0);
    }
}

/// The distance over a prefix does not depend on the order of its arguments.
pub proof fn lemma_distance_upto_symmetric(a: Seq<u8>, b: Seq<u8>, n: nat)
    ensures
        distance_upto(a, b, n) == distance_upto(b, a, n),
    decreases n,
{
    if n > 0 {
        lemma_distance_upto_symmetric(a, b, (n - 1) as nat);
        let x: int = a[n - 1] as int;
        let y: int = b[n - 1] as int;
        assert((x - y) * (x - y) == (y - x) * (y - x)) by (nonlinear_arith);
    }
}

/// No sample pair adds more than the square of 255.
pub proof fn lemma_distance_upto_bound(a: Seq<u8>, b: Seq<u8>, n: nat)
    requires
        n <= paired_len(a, b),
    ensures
        distance_upto(a, b, n) <= n * 65025,
    decreases n,
{
    if n > 0 {
        lemma_distance_upto_bound(a, b, (n - 1) as nat);
        let x: u8 = a[n - 1];
        let y: u8 = b[n - 1];
        assert(0 <= (x - y) * (x - y) <= 65025) by (nonlinear_arith)
            requires
                -255 <= x - y <= 255,
        ;
    }
}

/// Replacing the sample `i` of `b` changes the distance over a prefix by the
/// change of that one pair, once the prefix reaches it.
pub proof fn lemma_distance_upto_update(a: Seq<u8>, b: Seq<u8>, i: int, v: u8, n: nat)
    requires
        0 <= i < b.len(),
        n <= b.len(),
    ensures
        distance_upto(a, b.update(i, v), n) + (if i < n {
            sq_diff(a[i], b[i])
        } else {
            0
        }) == distance_upto(a, b, n) + (if i < n {
            sq_diff(a[i], v)
        } else {
            0
        }),
    decreases n,
{
    if n > 0 {
        lemma_distance_upto_update(a, b, i, v, (n - 1) as nat);
    }
}

/// The distance of a patch to itself is zero.
pub proof fn lemma_distance_self(p: Seq<u8>)
    ensures
        distance(p, p) == 0,
{
    lemma_distance_upto_self(p, p.len());
}

/// The distance is symmetric.
pub proof fn lemma_distance_symmetric(a: Seq<u8>, b: Seq<u8>)
    ensures
        distance(a, b) == distance(b, a),
{
    lemma_distance_upto_symmetric(a, b, paired_len(a, b));
}

/// The distance is at most the square of 255 for each sample pair.
pub proof fn lemma_distance_bound(a: Seq<u8>, b: Seq<u8>)
    ensures
        distance(a, b) <= paired_len(a, b) * 65025,
{
    lemma_distance_upto_bound(a, b, paired_len(a, b));
}

/// The distance grows strictly when one sample of `b` moves further from the
/// sample of `a` that it is paired with, all other samples staying as they are.
pub proof fn lemma_distance_monotonic(a: Seq<u8>, b: Seq<u8>, i: int, v: u8)
    requires
        0 <= i < paired_len(a, b),
        sq_diff(a[i], b[i]) < sq_diff(a[i], v),
    ensures
        distance(a, b) < distance(a, b.update(i, v)),
{
    lemma_distance_upto_update(a, b, i, v, paired_len(a, b));
}

/// Raising by one a sample of `b` that is not below its partner in `a` raises
/// the distance strictly.
pub proof fn lemma_distance_raised_sample(a: Seq<u8>, b: Seq<u8>, i: int)
    requires
        0 <= i < paired_len(a, b),
        a[i] <= b[i] < 255,
    ensures
        distance(a, b) < distance(a, b.update(i, (b[i] + 1) as u8)),
{
    let d: int = b[i] - a[i];
    let v: u8 = (b[i] + 1) as u8;
    assert(0 <= (a[i] - b[i]) * (a[i] - b[i]) < (a[i] - v) * (a[i] - v)) by (nonlinear_arith)
        requires
            0 <= d,
            a[i] - b[i] == -d,
            a[i] - v == -d - 1,
    ;
    lemma_distance_monotonic(a, b, i, v);
}

/// The squared difference of two samples.
fn squared_difference(a: u8, b: u8) -> (d: u64)
    ensures
        d == sq_diff(a, b),
        d <= 65025,
{
    let wide: u64 = if a >= b {
        (a - b) as u64
    } else {
        (b - a) as u64
    };
    assert(wide * wide <= 65025 && wide * wide == (a - b) * (a - b)) by (nonlinear_arith)
        requires
            0 <= wide <= 255,
            wide == a - b || wide == b - a,
    ;
    wide * wide
}

/// The samples of the window of one radius round a pixel, row after row, pixel
/// after pixel within a row, channel after channel within a pixel.
#[derive(Debug)]
pub struct ImagePatch {
    radius: u32,
    channels: u8,
    data: Vec<u8>,
}

impl View for ImagePatch {
    type V = Seq<u8>;

    closed spec fn view(&self) -> Seq<u8> {
        self.data@
    }
}

impl ImagePatch {
    #[verifier::type_invariant]
    spec fn well_formed(self) -> bool {
        &&& valid_shape(self.radius as int, self.channels as int)
        &&& self.data@.len() == patch_len(self.radius as int, self.channels as int)
    }

    /// The half-size of the window.
    pub closed spec fn spec_radius(&self) -> u32 {
        self.radius
    }

    /// The number of samples for each pixel.
    pub closed spec fn spec_channels(&self) -> u8 {
        self.channels
    }

    /// Whether the patch has as many samples as its shape asks for. Every patch
    /// that executable code holds has.
    pub open spec fn shaped(&self) -> bool {
        &&& valid_shape(self.spec_radius() as int, self.spec_channels() as int)
        &&& self@.len() == patch_len(self.spec_radius() as int, self.spec_channels() as int)
    }

    /// A patch of the given shape with every sample zero.
    fn zeroed(radius: u32, channels: u8) -> (patch: ImagePatch)
        requires
            valid_shape(radius as int, channels as int),
        ensures
            patch.spec_radius() == radius,
            patch.spec_channels() == channels,
            patch.shaped(),
            forall|i: int| 0 <= i < patch@.len() ==> patch@[i] == 0,
    {
        proof {
            lemma_valid_shape_bounds(radius as int, channels as int);
        }
        let side: usize = 2 * (radius as usize) + 1;
        let len: usize = (channels as usize) * (side * side);
        let mut data: Vec<u8> = Vec::with_capacity(len);
        let mut i: usize = 0;
        while i < len
            invariant
                i <= len,
                data@.len() == i,
                forall|j: int| 0 <= j < i ==> data@[j] == 0,
            decreases len - i,
        {
            data.push(0);
            i += 1;
        }
        ImagePatch { radius, channels, data }
    }

    /// A patch of the configured shape with every sample zero.
    pub fn new(cfg: &SearchConfig) -> (patch: ImagePatch)
        ensures
            patch.spec_radius() == cfg.spec_patch_radius(),
            patch.spec_channels() == cfg.spec_channels(),
            patch.shaped(),
            forall|i: int| 0 <= i < patch@.len() ==> patch@[i] == 0,
    {
        ImagePatch::zeroed(cfg.patch_radius(), cfg.channels())
    }

    /// A patch of the shape of this one with every sample zero.
    pub fn zeroed_like(&self) -> (patch: ImagePatch)
        ensures
            patch.spec_radius() == self.spec_radius(),
            patch.spec_channels() == self.spec_channels(),
            patch.shaped(),
            self.shaped(),
            forall|i: int| 0 <= i < patch@.len() ==> patch@[i] == 0,
    {
        proof {
            use_type_invariant(self);
        }
        ImagePatch::zeroed(self.radius, self.channels)
    }

    /// The half-size of the window.
    #[verifier::when_used_as_spec(spec_radius)]
    pub fn radius(&self) -> (radius: u32)
        ensures
            radius == self.spec_radius(),
            self.shaped(),
    {
        proof {
            use_type_invariant(self);
        }
        self.radius
    }

    /// The number of samples for each pixel.
    #[verifier::when_used_as_spec(spec_channels)]
    pub fn channels(&self) -> (channels: u8)
        ensures
            channels == self.spec_channels(),
            self.shaped(),
    {
        proof {
            use_type_invariant(self);
        }
        self.channels
    }

    /// The samples, in their order.
    pub fn samples(&self) -> (samples: &Vec<u8>)
        ensures
            samples@ == self@,
            self.shaped(),
    {
        proof {
            use_type_invariant(self);
        }
        &self.data
    }

    /// Writes one sample.
    pub(crate) fn set_sample(&mut self, index: usize, value: u8)
        requires
            index < old(self)@.len(),
        ensures
            final(self)@ == old(self)@.update(index as int, value),
            final(self).spec_radius() == old(self).spec_radius(),
            final(self).spec_channels() == old(self).spec_channels(),
    {
        proof {
            use_type_invariant(&*self);
        }
        self.data[index] = value;
    }

    /// The sum, over all corresponding sample pairs, of the squared difference
    /// of the two samples. Lower is more similar; a patch is at zero from itself.
    pub fn cmp(&self, other: &ImagePatch) -> (d: u64)
        ensures
            d == distance(self@, other@),
    {
        proof {
            use_type_invariant(self);
            use_type_invariant(other);
        }
        let n: usize = if self.data.len() <= other.data.len() {
            self.data.len()
        } else {
            other.data.len()
        };
        let mut sum: u64 = 0;
        let mut i: usize = 0;
        while i < n
            invariant
                i <= n,
                n == paired_len(self.data@, other.data@),
                n <= 0xFFFF_FFFF,
                sum == distance_scanned(self.data@, other.data@, i),
                sum <= i * 65025,
            decreases n - i,
        {
            let d = squared_difference(self.data[i], other.data[i]);
            sum = sum + d;
            i += 1;
        }
        sum
    }
}

} // verus!
