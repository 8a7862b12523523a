//! Unscaled, integer "photon-counting" style images.
//!
//! A [`RawImage`] is the shared histogram of a render: a `width x height`
//! grid with three counters per cell and one running maximum.  Every update
//! is pinned exactly: [`RawImage::bump`] applies [`bump_cell`] and
//! [`bump_max`] to the model, so an increment is never lost, and merging a
//! partial histogram (the per-worker accumulation strategy) adds counts
//! cell by cell and recomputes the exact maximum of the merged cells.
//! Counters are fixed-width and wrap silently on overflow; the running
//! maximum never falls below any cell, and — short of the saturated
//! footprint a wrapped counter leaves behind — is always attained by one.

use vstd::prelude::*;

verus! {

/// A counter incremented by one, wrapping at the width of the cell.
pub open spec fn wrap_inc(v: u32) -> u32 {
    if v == u32::MAX {
        0u32
    } else {
        (v + 1) as u32
    }
}

/// Two counters added, wrapping at the width of the cell.
pub open spec fn wrap_sum(a: u32, b: u32) -> u32 {
    ((a + b) % 0x1_0000_0000) as u32
}

/// The counter grid after one increment of cell `i`.
pub open spec fn bump_cell(d: Seq<u32>, i: int) -> Seq<u32> {
    d.update(i, wrap_inc(d[i]))
}

/// The running maximum after one increment of cell `i` of `d`.
pub open spec fn bump_max(m: u32, d: Seq<u32>, i: int) -> u32 {
    if wrap_inc(d[i]) > m {
        wrap_inc(d[i])
    } else {
        m
    }
}

/// The counter grid after `k` increments of cell `i`.
pub open spec fn bump_cell_many(d: Seq<u32>, i: int, k: nat) -> Seq<u32>
    decreases k,
{
    if k == 0 {
        d
    } else {
        bump_cell(bump_cell_many(d, i, (k - 1) as nat), i)
    }
}

/// `m` is the exact maximum over the cells of `d`: no cell exceeds it, and
/// it is either zero or attained by some cell.
pub open spec fn is_true_maximum(m: u32, d: Seq<u32>) -> bool {
    &&& forall|j: int| 0 <= j < d.len() ==> d[j] <= m
    &&& (m == 0 || exists|j: int| 0 <= j < d.len() && d[j] == m)
}

/// The running maximum `m` of the grid `d` is accounted for: no cell
/// exceeds it, and it is zero, attained by some cell, or saturated at the
/// counter width.  The last case is the footprint of a wrapped counter: a
/// cell can only wrap by passing the top value, which the maximum then
/// holds forever, so short of saturation the maximum is the true maximum
/// over the cells.
pub open spec fn max_accounted(d: Seq<u32>, m: u32) -> bool {
    &&& forall|j: int| 0 <= j < d.len() ==> d[j] <= m
    &&& (m == 0 || m == u32::MAX || exists|j: int| 0 <= j < d.len() && d[j] == m)
}

/// The running maximum after merging the cells of `d` one by one into `m0`.
pub open spec fn run_max(m0: u32, d: Seq<u32>) -> u32
    decreases d.len(),
{
    if d.len() == 0 {
        m0
    } else {
        let m = run_max(m0, d.drop_last());
        if d.last() > m {
            d.last()
        } else {
            m
        }
    }
}

/// The flat index of a cell: column-major over a grid of the given height,
/// three channels per cell.
pub open spec fn grid_index(x: int, y: int, height: int, channel: int) -> int {
    (x * height + y) * 3 + channel
}

/// A structure to hold unscaled, integer "photon-counting" style images.
pub struct RawImage {
    pub width: u32,
    pub height: u32,
    pub data: Vec<u32>,
    pub maximum: u32,
}

impl RawImage {
    /// The flat index of a cell of this image.
    pub open spec fn spec_index(&self, x: int, y: int, channel: int) -> int {
        grid_index(x, y, self.height as int, channel)
    }

    /// Well-formed image: the grid fills the counter vector exactly, the
    /// index arithmetic fits the counter width, and the running maximum is
    /// accounted for — at least every cell, and zero, attained or saturated.
    pub open spec fn wf(&self) -> bool {
        &&& self.data@.len() == self.width * self.height * 3
        &&& self.width * self.height * 3 <= u32::MAX
        &&& max_accounted(self.data@, self.maximum)
    }

    /// Construct a new [`RawImage`] with a given width and height, all
    /// counters and the running maximum at zero.
    pub fn new(width: u32, height: u32) -> (r: RawImage)
        requires
            width * height * 3 <= u32::MAX,
        ensures
            r.wf(),
            r.width == width,
            r.height == height,
            r.maximum == 0,
            r.data@.len() == width * height * 3,
            forall|j: int| 0 <= j < r.data@.len() ==> r.data@[j] == 0,
    {
        proof {
            assert(width * height * 3 >= width * height && width * height >= 0) by (nonlinear_arith)
                requires width >= 0 && height >= 0;
        }
        let total: u32 = width * height * 3;
        let mut data: Vec<u32> = Vec::new();
        let mut i: u32 = 0;
        while i < total
            invariant
                i <= total,
                data@.len() == i,
                forall|j: int| 0 <= j < i ==> data@[j] == 0,
            decreases total - i,
        {
            data.push(0);
            i = i + 1;
        }
        RawImage { width, height, data, maximum: 0 }
    }

    /// Increment the value of a given `channel` at `x` - `y` coordinates,
    /// and raise the running maximum if the new value exceeds it.
    pub fn bump(&mut self, x: u32, y: u32, channel: u32)
        requires
            old(self).wf(),
            x < old(self).width,
            y < old(self).height,
            channel < 3,
        ensures
            final(self).wf(),
            final(self).width == old(self).width,
            final(self).height == old(self).height,
            final(self).data@ == bump_cell(old(self).data@, old(self).spec_index(x as int, y as int, channel as int)),
            final(self).maximum == bump_max(old(self).maximum, old(self).data@, old(self).spec_index(x as int, y as int, channel as int)),
    {
        proof {
            let w = old(self).width as int;
            let h = old(self).height as int;
            assert((x * h + y) * 3 + channel < w * h * 3) by (nonlinear_arith)
                requires 0 <= x < w && 0 <= y < h && 0 <= channel < 3 && w * h >= 0;
        }
        let index = ((x * self.height + y) * 3 + channel) as usize;
        let v = self.data[index];
        let new_value = if v == u32::MAX { 0 } else { v + 1 };
        self.data[index] = new_value;
        if new_value > self.maximum {
            self.maximum = new_value;
        }
        proof {
            let d0 = old(self).data@;
            let m0 = old(self).maximum;
            let idx = old(self).spec_index(x as int, y as int, channel as int);
            if self.maximum != m0 {
                assert(self.data@[idx] == self.maximum);
            } else if m0 != 0 && m0 != u32::MAX {
                let j = choose|j: int| 0 <= j < d0.len() && d0[j] == m0;
                if j == idx {
                    assert(v == m0);
                    assert(false);
                }
                assert(self.data@[j] == self.maximum);
            }
        }
    }

    /// Get a copy of the internal data.
    pub fn get_data(&self) -> (r: Vec<u32>)
        ensures
            r@ == self.data@,
    {
        let mut out: Vec<u32> = Vec::new();
        let mut i: usize = 0;
        while i < self.data.len()
            invariant
                i <= self.data@.len(),
                out@ == self.data@.take(i as int),
            decreases self.data@.len() - i,
        {
            out.push(self.data[i]);
            proof {
                assert(out@ =~= self.data@.take(i + 1));
            }
            i = i + 1;
        }
        proof {
            assert(out@ =~= self.data@);
        }
        out
    }

    /// Get the maximum value (brightest pixel).  Of a well-formed image it
    /// is at least every cell, and zero, attained by some cell, or the
    /// saturated footprint of a wrapped counter.
    pub fn get_maximum(&self) -> (r: u32)
        ensures
            r == self.maximum,
            self.wf() ==> forall|j: int| 0 <= j < self.data@.len() ==> self.data@[j] <= r,
            self.wf() ==> (r == 0 || r == u32::MAX || exists|j: int|
                0 <= j < self.data@.len() && self.data@[j] == r),
    {
        self.maximum
    }

    /// Add every counter of a partial histogram of the same dimensions into
    /// this one, cell by cell with wrapping, and recompute the running
    /// maximum as the exact maximum over the merged cells.  While no counter
    /// is saturated or wraps, the maximum never falls.
    pub fn merge(&mut self, other: &RawImage)
        requires
            old(self).wf(),
            other.wf(),
            other.width == old(self).width,
            other.height == old(self).height,
        ensures
            final(self).wf(),
            final(self).width == old(self).width,
            final(self).height == old(self).height,
            final(self).data@.len() == old(self).data@.len(),
            forall|j: int| 0 <= j < old(self).data@.len() ==> final(self).data@[j] == wrap_sum(
                old(self).data@[j],
                other.data@[j],
            ),
            final(self).maximum == run_max(0, final(self).data@),
            (old(self).maximum != u32::MAX && (forall|j: int|
                0 <= j < old(self).data@.len() ==> old(self).data@[j] + other.data@[j]
                    <= u32::MAX)) ==> final(self).maximum >= old(self).maximum,
    {
        let n = self.data.len();
        self.maximum = 0;
        let mut i: usize = 0;
        while i < n
            invariant
                n == self.data@.len(),
                n == old(self).data@.len(),
                n == other.data@.len(),
                i <= n,
                forall|j: int| 0 <= j < i ==> self.data@[j] == wrap_sum(
                    old(self).data@[j],
                    other.data@[j],
                ),
                forall|j: int| i <= j < n ==> self.data@[j] == old(self).data@[j],
                self.maximum == run_max(0, self.data@.take(i as int)),
                self.width == old(self).width,
                self.height == old(self).height,
            decreases n - i,
        {
            let ghost prev = self.data@;
            let v = self.data[i].wrapping_add(other.data[i]);
            self.data[i] = v;
            if v > self.maximum {
                self.maximum = v;
            }
            proof {
                assert(self.data@.take(i as int) =~= prev.take(i as int));
                assert(self.data@.take(i + 1).drop_last() =~= self.data@.take(i as int));
                assert(self.data@.take(i + 1).last() == v);
                assert(wrap_sum(old(self).data@[i as int], other.data@[i as int]) == v);
            }
            i = i + 1;
        }
        proof {
            assert(self.data@.take(n as int) =~= self.data@);
            lemma_run_max_bounds(0, self.data@);
            lemma_run_max_attains(0, self.data@);
            let m0 = old(self).maximum;
            if m0 != 0 && m0 != u32::MAX && (forall|j: int|
                0 <= j < old(self).data@.len() ==> old(self).data@[j] + other.data@[j]
                    <= u32::MAX) {
                let j = choose|j: int| 0 <= j < old(self).data@.len() && old(self).data@[j] == m0;
                vstd::arithmetic::div_mod::lemma_small_mod(
                    (old(self).data@[j] + other.data@[j]) as nat,
                    0x1_0000_0000nat,
                );
                assert(self.data@[j] >= m0);
            }
        }
    }
}

/// The running maximum of a merge is at least its seed and at least every
/// merged cell.
pub proof fn lemma_run_max_bounds(m0: u32, d: Seq<u32>)
    ensures
        run_max(m0, d) >= m0,
        forall|j: int| 0 <= j < d.len() ==> d[j] <= run_max(m0, d),
    decreases d.len(),
{
    if d.len() > 0 {
        lemma_run_max_bounds(m0, d.drop_last());
        assert(forall|j: int| 0 <= j < d.len() - 1 ==> d[j] == d.drop_last()[j]);
    }
}

/// The running maximum of a merge is its seed or attained by a merged cell.
pub proof fn lemma_run_max_attains(m0: u32, d: Seq<u32>)
    ensures
        run_max(m0, d) == m0 || exists|j: int| 0 <= j < d.len() && d[j] == run_max(m0, d),
    decreases d.len(),
{
    if d.len() > 0 {
        lemma_run_max_attains(m0, d.drop_last());
        let m = run_max(m0, d.drop_last());
        if d.last() > m {
            assert(d[d.len() - 1] == run_max(m0, d));
        } else if m != m0 {
            let j = choose|j: int|
                0 <= j < d.drop_last().len() && d.drop_last()[j] == run_max(m0, d.drop_last());
            assert(d[j] == run_max(m0, d));
        }
    }
}

/// No increment is ever lost: `k` increments of one cell, in whatever order
/// they are interleaved with each other, leave the cell exactly `k` above
/// its starting value (as long as the counter does not wrap) and leave every
/// other cell unchanged.
pub proof fn lemma_bumps_count_exactly(d: Seq<u32>, i: int, k: nat)
    requires
        0 <= i < d.len(),
        d[i] + k <= u32::MAX,
    ensures
        bump_cell_many(d, i, k).len() == d.len(),
        bump_cell_many(d, i, k)[i] == d[i] + k,
        forall|j: int| 0 <= j < d.len() && j != i ==> bump_cell_many(d, i, k)[j] == d[j],
    decreases k,
{
    if k > 0 {
        lemma_bumps_count_exactly(d, i, (k - 1) as nat);
    }
}

/// The running maximum stays exact: if `m` is the true maximum over the
/// cells before an increment that does not wrap, then the updated maximum is
/// the true maximum afterwards.
pub proof fn lemma_bump_tracks_maximum(d: Seq<u32>, m: u32, i: int)
    requires
        is_true_maximum(m, d),
        0 <= i < d.len(),
        d[i] < u32::MAX,
    ensures
        is_true_maximum(bump_max(m, d, i), bump_cell(d, i)),
{
    let d2 = bump_cell(d, i);
    let m2 = bump_max(m, d, i);
    assert(d2[i] == wrap_inc(d[i]));
    if wrap_inc(d[i]) > m {
        assert(d2[i] == m2);
    } else {
        assert(m2 == m);
        if m != 0 {
            let j = choose|j: int| 0 <= j < d.len() && d[j] == m;
            if j == i {
                assert(d2[i] == m2);
            } else {
                assert(d2[j] == m2);
            }
        }
    }
}

/// Exact maxima survive any number of increments of one cell that do not
/// wrap the counter.
pub proof fn lemma_bumps_track_maximum(d: Seq<u32>, m: u32, i: int, k: nat)
    requires
        is_true_maximum(m, d),
        0 <= i < d.len(),
        d[i] + k <= u32::MAX,
    ensures
        is_true_maximum(
            if k == 0 || d[i] + k <= m { m } else { (d[i] + k) as u32 },
            bump_cell_many(d, i, k),
        ),
    decreases k,
{
    if k > 0 {
        lemma_bumps_count_exactly(d, i, (k - 1) as nat);
        lemma_bumps_track_maximum(d, m, i, (k - 1) as nat);
        let prev = bump_cell_many(d, i, (k - 1) as nat);
        let mprev: u32 = if k - 1 == 0 || d[i] + k - 1 <= m { m } else { (d[i] + k - 1) as u32 };
        lemma_bump_tracks_maximum(prev, mprev, i);
        assert(wrap_inc(prev[i]) == d[i] + k);
        assert(bump_max(mprev, prev, i) == if d[i] + k <= m { m } else { (d[i] + k) as u32 });
    }
}

} // verus!
