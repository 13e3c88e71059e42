//! Contrast stretching: rescale a field so its least intensity maps to 0 and
//! its greatest to 255, leaving a flat field untouched.

use vstd::prelude::*;
use crate::math::{rdiv, rdiv_up, lemma_rdiv_up_range, lemma_rdiv_up_exact};
use crate::field::{
    IntensityField, seq_min, seq_max, scan_min_max, lemma_minmax_range, lemma_minmax_bounds,
    lemma_minmax_attained, lemma_minmax_char,
};

verus! {

/// One rescaled intensity: `round((v - mn) / (mx - mn) * 255)`.
pub open spec fn norm_val(v: int, mn: int, mx: int) -> int {
    rdiv_up((v - mn) * 255, mx - mn)
}

/// The contrast-stretched field: rescaled pixelwise when the field has any
/// contrast, unchanged when it is flat.
pub open spec fn spec_normalize(s: Seq<u8>) -> Seq<u8> {
    let mn: int = seq_min(s);
    let mx: int = seq_max(s);
    if mx > mn {
        Seq::new(s.len(), |i: int| norm_val(s[i] as int, mn, mx) as u8)
    } else {
        s
    }
}

/// Rescale a field to span the full 8-bit range (identity on flat fields).
pub fn normalize_image(img: &IntensityField) -> (out: IntensityField)
    requires
        img.wf(),
    ensures
        out.wf(),
        out.width == img.width,
        out.height == img.height,
        out.data@ == spec_normalize(img.data@),
{
    let (mn, mx) = scan_min_max(img);
    if mx <= mn {
        proof {
            lemma_minmax_range(img.data@);
        }
        return img.duplicate();
    }
    let n: usize = img.data.len();
    let mut data: Vec<u8> = Vec::new();
    let mut i: usize = 0;
    while i < n
        invariant
            i <= n,
            n == img.data@.len(),
            img.wf(),
            mn as int == seq_min(img.data@),
            mx as int == seq_max(img.data@),
            mn < mx,
            data@.len() == i,
            forall|j: int| 0 <= j < i ==> data@[j] == spec_normalize(img.data@)[j],
        decreases n - i,
    {
        let v: u8 = img.data[i];
        proof {
            lemma_minmax_bounds(img.data@, i as int);
            lemma_rdiv_up_range(((v - mn) * 255) as int, (mx - mn) as int, 255);
        }
        let q: u64 = rdiv(((v - mn) as u64) * 255, (mx - mn) as u64);
        data.push(q as u8);
        i = i + 1;
    }
    assert(data@ =~= spec_normalize(img.data@));
    IntensityField { width: img.width, height: img.height, data }
}

/// Surjectivity onto the full range: a field with any contrast is stretched
/// to attain 0 as its minimum and 255 as its maximum.
pub proof fn lemma_normalize_full_range(s: Seq<u8>)
    requires
        s.len() > 0,
        seq_max(s) > seq_min(s),
    ensures
        seq_min(spec_normalize(s)) == 0,
        seq_max(spec_normalize(s)) == 255,
{
    let mn: int = seq_min(s);
    let mx: int = seq_max(s);
    let t: Seq<u8> = spec_normalize(s);
    lemma_minmax_range(s);
    lemma_minmax_attained(s);
    let imin: int = choose|i: int| 0 <= i < s.len() && s[i] == mn;
    let imax: int = choose|i: int| 0 <= i < s.len() && s[i] == mx;
    assert forall|i: int| 0 <= i < t.len() implies 0 <= #[trigger] t[i] <= 255 by {
        lemma_minmax_bounds(s, i);
        lemma_rdiv_up_range((s[i] - mn) * 255, mx - mn, 255);
    }
    assert(norm_val(mn, mn, mx) == 0) by {
        lemma_rdiv_up_range(0, mx - mn, 0);
    }
    assert(norm_val(mx, mn, mx) == 255) by {
        assert((mx - mn) * 255 == 255 * (mx - mn));
        lemma_rdiv_up_exact(255, mx - mn);
    }
    assert(t[imin] == 0);
    assert(t[imax] == 255);
    lemma_minmax_char(t, 0, 255);
}

/// Idempotence: normalizing an already normalized field changes nothing,
/// because that field already spans the full range (or was flat).
pub proof fn lemma_normalize_idempotent(s: Seq<u8>)
    ensures
        spec_normalize(spec_normalize(s)) == spec_normalize(s),
{
    let mn: int = seq_min(s);
    let mx: int = seq_max(s);
    if s.len() == 0 {
        lemma_minmax_range(s);
        assert(mx <= mn);
        assert(spec_normalize(s) == s);
    } else if mx <= mn {
        assert(spec_normalize(s) == s);
    } else {
        let t: Seq<u8> = spec_normalize(s);
        lemma_normalize_full_range(s);
        assert(seq_min(t) == 0 && seq_max(t) == 255);
        assert forall|i: int| 0 <= i < t.len() implies
            #[trigger] spec_normalize(t)[i] == t[i] by {
            lemma_minmax_bounds(t, i);
            assert(norm_val(t[i] as int, 0, 255) == t[i]) by {
                assert((t[i] - 0) * 255 == (t[i] as int) * 255);
                lemma_rdiv_up_exact(t[i] as int, 255);
            }
        }
        assert(spec_normalize(t) =~= t);
    }
}

} // verus!
