//! Dense single-channel 8-bit intensity grids, the value type every stage of
//! the pipeline consumes and produces, with the minimum/maximum machinery
//! that contrast stretching relies on.

use vstd::prelude::*;

verus! {

/// A `width x height` grid of 8-bit intensities in row-major order; pixel
/// `(x, y)` maps to the continuous sample position `(x / width, y / height)`
/// of the unit square.
pub struct IntensityField {
    pub width: usize,
    pub height: usize,
    pub data: Vec<u8>,
}

impl IntensityField {
    /// The grid is non-empty, of bounded edge length, and densely stored.
    pub open spec fn wf(self) -> bool {
        &&& 1 <= self.width <= 0x4000_0000
        &&& 1 <= self.height <= 0x4000_0000
        &&& self.data@.len() == self.width * self.height
    }

    /// The intensity at integer pixel coordinates.
    pub open spec fn at(self, x: int, y: int) -> u8 {
        self.data@[y * self.width + x]
    }

    /// Read one pixel.
    pub fn get(&self, x: usize, y: usize) -> (v: u8)
        requires
            self.wf(),
            x < self.width,
            y < self.height,
        ensures
            v == self.at(x as int, y as int),
    {
        let n: usize = self.data.len();
        proof {
            lemma_row_major_index(self.width as int, self.height as int, x as int, y as int);
        }
        assert(y * self.width + x < n);
        self.data[y * self.width + x]
    }

    /// Wrap a row-major data vector as a field.
    pub fn from_data(width: usize, height: usize, data: Vec<u8>) -> (f: IntensityField)
        requires
            1 <= width <= 0x4000_0000,
            1 <= height <= 0x4000_0000,
            data@.len() == width * height,
        ensures
            f.wf(),
            f.width == width,
            f.height == height,
            f.data@ == data@,
    {
        IntensityField { width, height, data }
    }

    /// An independent copy of the field.
    pub fn duplicate(&self) -> (f: IntensityField)
        requires
            self.wf(),
        ensures
            f.wf(),
            f.width == self.width,
            f.height == self.height,
            f.data@ == self.data@,
    {
        let n: usize = self.data.len();
        let mut out: Vec<u8> = Vec::new();
        let mut i: usize = 0;
        while i < n
            invariant
                i <= n,
                n == self.data@.len(),
                out@ == self.data@.take(i as int),
            decreases n - i,
        {
            out.push(self.data[i]);
            proof {
                assert(out@ =~= self.data@.take(i + 1));
            }
            i = i + 1;
        }
        proof {
            assert(self.data@.take(n as int) =~= self.data@);
        }
        IntensityField { width: self.width, height: self.height, data: out }
    }

    /// Whether two fields are equal in dimensions and in every pixel.
    pub fn same_as(&self, other: &IntensityField) -> (r: bool)
        ensures
            r == (self.width == other.width && self.height == other.height
                && self.data@ == other.data@),
    {
        if self.width != other.width || self.height != other.height
            || self.data.len() != other.data.len() {
            proof {
                if self.data@.len() != other.data@.len() {
                    assert(self.data@ != other.data@);
                }
            }
            return false;
        }
        let n: usize = self.data.len();
        let mut i: usize = 0;
        while i < n
            invariant
                i <= n,
                n == self.data@.len(),
                n == other.data@.len(),
                forall|j: int| 0 <= j < i ==> self.data@[j] == other.data@[j],
            decreases n - i,
        {
            if self.data[i] != other.data[i] {
                proof {
                    assert(self.data@ != other.data@);
                }
                return false;
            }
            i = i + 1;
        }
        proof {
            assert(self.data@ =~= other.data@);
        }
        true
    }
}

/// A row-major index stays inside the data vector.
pub proof fn lemma_row_major_index(w: int, h: int, x: int, y: int)
    requires
        0 <= x < w,
        0 <= y < h,
    ensures
        0 <= y * w + x < w * h,
{
    assert(y * w + x < w * h) by (nonlinear_arith)
        requires 0 <= x < w, 0 <= y < h,
    ;
    assert(y * w >= 0) by (nonlinear_arith)
        requires y >= 0, w > 0,
    ;
}

/// The least intensity present in a sequence (255 when it is empty).
pub open spec fn seq_min(s: Seq<u8>) -> int
    decreases s.len(),
{
    if s.len() == 0 {
        255
    } else {
        let m: int = seq_min(s.drop_last());
        if s.last() < m {
            s.last() as int
        } else {
            m
        }
    }
}

/// The greatest intensity present in a sequence (0 when it is empty).
pub open spec fn seq_max(s: Seq<u8>) -> int
    decreases s.len(),
{
    if s.len() == 0 {
        0
    } else {
        let m: int = seq_max(s.drop_last());
        if s.last() > m {
            s.last() as int
        } else {
            m
        }
    }
}

/// Both extremes stay inside the 8-bit range.
pub proof fn lemma_minmax_range(s: Seq<u8>)
    ensures
        0 <= seq_min(s) <= 255,
        0 <= seq_max(s) <= 255,
    decreases s.len(),
{
    if s.len() > 0 {
        lemma_minmax_range(s.drop_last());
    }
}

/// The extremes bound every element.
pub proof fn lemma_minmax_bounds(s: Seq<u8>, i: int)
    requires
        0 <= i < s.len(),
    ensures
        seq_min(s) <= s[i] <= seq_max(s),
    decreases s.len(),
{
    if i < s.len() - 1 {
        lemma_minmax_bounds(s.drop_last(), i);
    }
}

/// A non-empty sequence attains both of its extremes.
pub proof fn lemma_minmax_attained(s: Seq<u8>)
    requires
        s.len() > 0,
    ensures
        exists|i: int| 0 <= i < s.len() && s[i] == seq_min(s),
        exists|i: int| 0 <= i < s.len() && s[i] == seq_max(s),
    decreases s.len(),
{
    let last: int = s.len() - 1;
    let mn: int = seq_min(s.drop_last());
    let mx: int = seq_max(s.drop_last());
    if s.len() == 1 {
        assert(s.drop_last().len() == 0);
        assert(mn == 255 && mx == 0);
        assert(s[0] == seq_min(s) && s[0] == seq_max(s));
    } else {
        lemma_minmax_attained(s.drop_last());
        if s[last] < mn {
            assert(s[last] == seq_min(s));
        } else {
            assert(seq_min(s) == mn);
            let i: int = choose|i: int| 0 <= i < s.drop_last().len()
                && s.drop_last()[i] == seq_min(s.drop_last());
            assert(s[i] == seq_min(s));
        }
        if s[last] > mx {
            assert(s[last] == seq_max(s));
        } else {
            assert(seq_max(s) == mx);
            let i: int = choose|i: int| 0 <= i < s.drop_last().len()
                && s.drop_last()[i] == seq_max(s.drop_last());
            assert(s[i] == seq_max(s));
        }
    }
}

/// A value below every element and attained by one of them is the minimum;
/// dually for the maximum.
pub proof fn lemma_minmax_char(s: Seq<u8>, lo: int, hi: int)
    requires
        s.len() > 0,
        forall|i: int| 0 <= i < s.len() ==> lo <= #[trigger] s[i] <= hi,
        exists|i: int| 0 <= i < s.len() && s[i] == lo,
        exists|i: int| 0 <= i < s.len() && s[i] == hi,
    ensures
        seq_min(s) == lo,
        seq_max(s) == hi,
{
    lemma_minmax_attained(s);
    let imin: int = choose|i: int| 0 <= i < s.len() && s[i] == seq_min(s);
    let imax: int = choose|i: int| 0 <= i < s.len() && s[i] == seq_max(s);
    let ilo: int = choose|i: int| 0 <= i < s.len() && s[i] == lo;
    let ihi: int = choose|i: int| 0 <= i < s.len() && s[i] == hi;
    lemma_minmax_bounds(s, ilo);
    lemma_minmax_bounds(s, ihi);
    assert(lo <= s[imin] && s[imax] <= hi);
}

/// Scan a field once for the least and greatest intensity present.
pub fn scan_min_max(f: &IntensityField) -> (r: (u8, u8))
    requires
        f.wf(),
    ensures
        r.0 as int == seq_min(f.data@),
        r.1 as int == seq_max(f.data@),
{
    let n: usize = f.data.len();
    let mut mn: u8 = 255;
    let mut mx: u8 = 0;
    let mut i: usize = 0;
    while i < n
        invariant
            i <= n,
            n == f.data@.len(),
            mn as int == seq_min(f.data@.take(i as int)),
            mx as int == seq_max(f.data@.take(i as int)),
        decreases n - i,
    {
        let v: u8 = f.data[i];
        proof {
            assert(f.data@.take(i + 1).drop_last() =~= f.data@.take(i as int));
            assert(f.data@.take(i + 1).last() == f.data@[i as int]);
        }
        if v < mn {
            mn = v;
        }
        if v > mx {
            mx = v;
        }
        i = i + 1;
    }
    proof {
        assert(f.data@.take(n as int) =~= f.data@);
    }
    (mn, mx)
}

} // verus!
