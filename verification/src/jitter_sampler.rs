//! Jittered (stratified) random sampling of the unit square.
//!
//! Jittered sampling divides space into equally sized regions and selects
//! uniformly from each region, which spreads out the samples and avoids the
//! clumping of pure uniform sampling.  Coordinates are exact rationals in
//! `[0, 1)`, so which stratification cell a sample falls in is a proved
//! property, not a rounding accident.  The randomness itself comes from
//! `rand` through the trusted wrappers at the bottom of this file.

use vstd::prelude::*;
use vstd::multiset::Multiset;
use vstd::seq_lib::group_to_multiset_ensures;
use crate::fixed::squirt;

verus! {

/// Denominator of a freshly drawn jitter offset: a raw draw is a rational
/// `j / UNIT_DEN` with `0 <= j < UNIT_DEN`.
pub const UNIT_DEN: u64 = 1_000_000;

/// A coordinate in `[0, 1)`, held exactly as the rational `num / den`.
#[derive(Clone, Copy, PartialEq, Eq, Structural, Debug)]
pub struct UnitValue {
    pub num: u64,
    pub den: u64,
}

impl UnitValue {
    /// The rational is well formed and lies in `[0, 1)`.
    pub open spec fn wf(&self) -> bool {
        0 < self.den && self.num < self.den
    }

    /// This value lies in region `c` of `k` equal divisions of the unit
    /// interval: `c / k <= num / den < (c + 1) / k`.
    pub open spec fn in_region(&self, c: int, k: int) -> bool {
        c * self.den <= self.num * k < (c + 1) * self.den
    }
}

/// A 2D sample point over the unit square.
#[derive(Clone, Copy, PartialEq, Eq, Structural, Debug)]
pub struct SamplePoint {
    pub x: UnitValue,
    pub y: UnitValue,
}

impl SamplePoint {
    /// Both coordinates lie in `[0, 1)`.
    pub open spec fn wf(&self) -> bool {
        self.x.wf() && self.y.wf()
    }

    /// The point lies in cell `idx` (row-major) of a `k x k` grid over the
    /// unit square.
    pub open spec fn in_cell(&self, idx: int, k: int) -> bool {
        self.x.in_region(idx % k, k) && self.y.in_region(idx / k, k)
    }
}

/// The identity visiting order: cell `i` at position `i`.
pub open spec fn id_order(n: nat) -> Seq<u32> {
    Seq::new(n, |i: int| i as u32)
}

/// How often each value occurs in the identity order: once below `n`, never
/// at or above it.
pub proof fn lemma_id_order_counts(n: nat, v: u32)
    requires
        n <= 0x1_0000_0000,
    ensures
        id_order(n).to_multiset().count(v) == if v < n { 1nat } else { 0nat },
    decreases n,
{
    broadcast use group_to_multiset_ensures;
    broadcast use vstd::multiset::group_multiset_axioms;

    if n == 0 {
        assert(id_order(0) =~= Seq::<u32>::empty());
        assert(Seq::<u32>::empty().to_multiset() =~= Multiset::<u32>::empty());
    } else {
        lemma_id_order_counts((n - 1) as nat, v);
        assert(id_order(n) =~= id_order((n - 1) as nat).push((n - 1) as u32));
    }
}

/// An order with the same contents as the identity order visits every cell
/// index below `n` exactly once: each occurs somewhere, no position repeats
/// one, and no other value occurs at all.
pub proof fn lemma_each_cell_once(order: Seq<u32>, n: nat)
    requires
        n <= 0x1_0000_0000,
        order.len() == n,
        order.to_multiset() == id_order(n).to_multiset(),
    ensures
        forall|i: int| 0 <= i < n ==> order[i] < n,
        forall|i: int, j: int| 0 <= i < j < n ==> order[i] != order[j],
        forall|v: u32| v < n ==> #[trigger] order.contains(v),
{
    broadcast use group_to_multiset_ensures;
    broadcast use vstd::multiset::group_multiset_axioms;

    assert forall|i: int| 0 <= i < n implies order[i] < n by {
        assert(order.contains(order[i]));
        assert(order.to_multiset().count(order[i]) > 0);
        lemma_id_order_counts(n, order[i]);
    }
    assert forall|x: u32| order.to_multiset().contains(x) implies order.to_multiset().count(x)
        == 1 by {
        lemma_id_order_counts(n, x);
    }
    order.lemma_multiset_has_no_duplicates_conv();
    assert forall|v: u32| v < n implies #[trigger] order.contains(v) by {
        lemma_id_order_counts(n, v);
        assert(order.to_multiset().count(v) > 0);
    }
}

/// For a sampler whose requested count is exactly the square of its grid
/// side, the visiting order covers every stratification cell exactly once;
/// with [`JitterSampler::next`]'s contract, a full pass therefore yields
/// exactly one point inside each cell's sub-rectangle.
pub proof fn lemma_square_count_strata(s: JitterSampler)
    requires
        s.wf(),
        s.samples == s.size * s.size,
    ensures
        forall|i: int| 0 <= i < s.samples ==> s.count_order@[i] < s.size * s.size,
        forall|i: int, j: int| 0 <= i < j < s.samples ==> s.count_order@[i] != s.count_order@[j],
        forall|v: u32| v < s.samples ==> #[trigger] s.count_order@.contains(v),
{
    lemma_each_cell_once(s.count_order@, s.samples as nat);
}

/// An iterator-style source of jittered random 2D points over the unit
/// square.
pub struct JitterSampler {
    pub samples: u32,
    pub count: u32,
    pub count_order: Vec<u32>,
    pub size: u32,
    pub rng: rand::rngs::ThreadRng,
}

impl JitterSampler {
    /// The sampler's bookkeeping is intact: the visiting order is a
    /// permutation of the identity order, the cursor has not passed the
    /// requested count, and the grid side is the integer square root of the
    /// requested count.
    pub open spec fn wf(&self) -> bool {
        &&& self.count <= self.samples
        &&& self.count_order@.len() == self.samples
        &&& self.count_order@.to_multiset() == id_order(self.samples as nat).to_multiset()
        &&& self.size * self.size <= self.samples < (self.size + 1) * (self.size + 1)
        &&& self.size < 0x1_0000
    }

    /// Create a `JitterSampler` that will output `samples` samples in a
    /// "jittered" manner.  If `samples` is not a square number, excess
    /// samples will be picked over the full unit square.
    pub fn new(samples: u32) -> (r: JitterSampler)
        ensures
            r.wf(),
            r.samples == samples,
            r.count == 0,
            r.count_order@ == id_order(samples as nat),
            r.size * r.size <= samples < (r.size + 1) * (r.size + 1),
    {
        let size = squirt(samples);
        let mut count_order: Vec<u32> = Vec::new();
        let mut i: u32 = 0;
        while i < samples
            invariant
                i <= samples,
                count_order@.len() == i,
                forall|j: int| 0 <= j < i ==> count_order@[j] == j as u32,
            decreases samples - i,
        {
            count_order.push(i);
            i = i + 1;
        }
        proof {
            assert(count_order@ =~= id_order(samples as nat));
        }
        JitterSampler { samples, count: 0, count_order, size, rng: fresh_rng() }
    }

    /// Randomly permute the order in which the stratification cells will be
    /// visited; the multiset of cell indices is unchanged.
    pub fn shuffle(&mut self)
        requires
            old(self).wf(),
        ensures
            final(self).wf(),
            final(self).samples == old(self).samples,
            final(self).count == old(self).count,
            final(self).size == old(self).size,
            final(self).count_order@.to_multiset() == old(self).count_order@.to_multiset(),
    {
        shuffle_in_place(&mut self.count_order, &mut self.rng);
    }

    /// The cell index the cursor stands on in the visiting order.
    pub fn index(&self) -> (r: u32)
        requires
            self.wf(),
            self.samples >= 1,
        ensures
            r == self.count_order@[(self.count % self.samples) as int],
    {
        self.count_order[(self.count % self.samples) as usize]
    }

    /// Yield the next jittered sample, or `None` once `samples` points have
    /// been produced.  A produced point always lies in the unit square, and
    /// while the visiting order stands on a stratification cell, the point
    /// lies inside that cell's sub-rectangle of the `size x size` grid.
    pub fn next(&mut self) -> (r: Option<SamplePoint>)
        requires
            old(self).wf(),
        ensures
            final(self).wf(),
            final(self).samples == old(self).samples,
            final(self).size == old(self).size,
            final(self).count_order@ == old(self).count_order@,
            match r {
                Some(p) => {
                    &&& old(self).count < old(self).samples
                    &&& final(self).count == old(self).count + 1
                    &&& p.wf()
                    &&& ({
                        let idx = old(self).count_order@[old(self).count as int] as int;
                        let k = old(self).size as int;
                        idx < k * k ==> p.in_cell(idx, k)
                    })
                },
                None => {
                    &&& old(self).count == old(self).samples
                    &&& final(self).count == old(self).count
                },
            },
    {
        if self.count >= self.samples {
            return None;
        }
        let index = self.index();
        proof {
            vstd::arithmetic::div_mod::lemma_small_mod(self.count as nat, self.samples as nat);
        }
        let grid = self.size as u64 * self.size as u64;
        let item = if self.size > 0 && (index as u64) < grid {
            let x_cell = index % self.size;
            let y_cell = index / self.size;
            let jx = rand_below(&mut self.rng, UNIT_DEN);
            let jy = rand_below(&mut self.rng, UNIT_DEN);
            let den: u64 = self.size as u64 * UNIT_DEN;
            let px = UnitValue { num: x_cell as u64 * UNIT_DEN + jx, den };
            let py = UnitValue { num: y_cell as u64 * UNIT_DEN + jy, den };
            proof {
                let k = self.size as int;
                let c = x_cell as int;
                let d = y_cell as int;
                assert(c == index as int % k && d == index as int / k);
                vstd::arithmetic::div_mod::lemma_multiply_divide_lt(index as int, k, k);
                assert(0 <= d < k);
                assert(c * (k * UNIT_DEN) <= (c * UNIT_DEN + jx) * k < (c + 1) * (k * UNIT_DEN)
                    && (c * UNIT_DEN + jx) < k * UNIT_DEN) by (nonlinear_arith)
                    requires
                        0 <= jx < UNIT_DEN,
                        0 <= c < k,
                        0 < k;
                assert(d * (k * UNIT_DEN) <= (d * UNIT_DEN + jy) * k < (d + 1) * (k * UNIT_DEN)
                    && (d * UNIT_DEN + jy) < k * UNIT_DEN) by (nonlinear_arith)
                    requires
                        0 <= jy < UNIT_DEN,
                        0 <= d < k,
                        0 < k;
            }
            Some(SamplePoint { x: px, y: py })
        } else {
            let jx = rand_below(&mut self.rng, UNIT_DEN);
            let jy = rand_below(&mut self.rng, UNIT_DEN);
            Some(
                SamplePoint {
                    x: UnitValue { num: jx, den: UNIT_DEN },
                    y: UnitValue { num: jy, den: UNIT_DEN },
                },
            )
        };
        self.count = self.count + 1;
        item
    }
}

/// The thread-local generator type of `rand`, declared so that a sampler
/// can own one; its values are opaque here.
#[verifier::external_type_specification]
#[verifier::external_body]
pub struct ExThreadRng(rand::rngs::ThreadRng);

/// Relies on `rand::thread_rng`: a handle to the lazily seeded thread-local
/// generator, used as each sampler's independent source of randomness.
#[verifier::external_body]
fn fresh_rng() -> rand::rngs::ThreadRng {
    rand::thread_rng()
}

/// Relies on `rand::Rng::gen_range` over the half-open integer range
/// `0..bound`: it panics only on an empty range and returns a value of the
/// range.  Nothing else is assumed of the draw.
#[verifier::external_body]
fn rand_below(rng: &mut rand::rngs::ThreadRng, bound: u64) -> (r: u64)
    requires
        bound >= 1,
    ensures
        r < bound,
{
    rand::Rng::gen_range(rng, 0..bound)
}

/// Relies on `rand::seq::SliceRandom::shuffle`: it permutes the slice in
/// place by swaps, so the length and the multiset of elements are unchanged.
#[verifier::external_body]
fn shuffle_in_place(v: &mut Vec<u32>, rng: &mut rand::rngs::ThreadRng)
    ensures
        final(v)@.len() == old(v)@.len(),
        final(v)@.to_multiset() == old(v)@.to_multiset(),
{
    rand::seq::SliceRandom::shuffle(v.as_mut_slice(), rng);
}

} // verus!
