//! Fixed-point trigonometry for the directional blur: a quarter-wave sine
//! table in units of 1/32768, indexed by 1/256ths of a full turn.

use vstd::prelude::*;
use vstd::arithmetic::div_mod::{lemma_div_pos_is_pos};
use crate::math::lemma_div_below;

verus! {

/// `round(sin(k / 256 turn) * 32768)` for `0 <= k <= 64` (the first quadrant).
pub open spec fn sin_q_spec(k: int) -> int {
    if k == 0 {
        0
    } else if k == 1 {
        804
    } else if k == 2 {
        1608
    } else if k == 3 {
        2411
    } else if k == 4 {
        3212
    } else if k == 5 {
        4011
    } else if k == 6 {
        4808
    } else if k == 7 {
        5602
    } else if k == 8 {
        6393
    } else if k == 9 {
        7180
    } else if k == 10 {
        7962
    } else if k == 11 {
        8740
    } else if k == 12 {
        9512
    } else if k == 13 {
        10279
    } else if k == 14 {
        11039
    } else if k == 15 {
        11793
    } else if k == 16 {
        12540
    } else if k == 17 {
        13279
    } else if k == 18 {
        14010
    } else if k == 19 {
        14733
    } else if k == 20 {
        15447
    } else if k == 21 {
        16151
    } else if k == 22 {
        16846
    } else if k == 23 {
        17531
    } else if k == 24 {
        18205
    } else if k == 25 {
        18868
    } else if k == 26 {
        19520
    } else if k == 27 {
        20160
    } else if k == 28 {
        20788
    } else if k == 29 {
        21403
    } else if k == 30 {
        22006
    } else if k == 31 {
        22595
    } else if k == 32 {
        23170
    } else if k == 33 {
        23732
    } else if k == 34 {
        24279
    } else if k == 35 {
        24812
    } else if k == 36 {
        25330
    } else if k == 37 {
        25833
    } else if k == 38 {
        26320
    } else if k == 39 {
        26791
    } else if k == 40 {
        27246
    } else if k == 41 {
        27684
    } else if k == 42 {
        28106
    } else if k == 43 {
        28511
    } else if k == 44 {
        28899
    } else if k == 45 {
        29269
    } else if k == 46 {
        29622
    } else if k == 47 {
        29957
    } else if k == 48 {
        30274
    } else if k == 49 {
        30572
    } else if k == 50 {
        30853
    } else if k == 51 {
        31114
    } else if k == 52 {
        31357
    } else if k == 53 {
        31581
    } else if k == 54 {
        31786
    } else if k == 55 {
        31972
    } else if k == 56 {
        32138
    } else if k == 57 {
        32286
    } else if k == 58 {
        32413
    } else if k == 59 {
        32522
    } else if k == 60 {
        32610
    } else if k == 61 {
        32679
    } else if k == 62 {
        32729
    } else if k == 63 {
        32758
    } else {
        32768
    }
}

fn sin_q(k: u8) -> (r: i64)
    requires
        k <= 64,
    ensures
        r == sin_q_spec(k as int),
{
    if k == 0 {
        0
    } else if k == 1 {
        804
    } else if k == 2 {
        1608
    } else if k == 3 {
        2411
    } else if k == 4 {
        3212
    } else if k == 5 {
        4011
    } else if k == 6 {
        4808
    } else if k == 7 {
        5602
    } else if k == 8 {
        6393
    } else if k == 9 {
        7180
    } else if k == 10 {
        7962
    } else if k == 11 {
        8740
    } else if k == 12 {
        9512
    } else if k == 13 {
        10279
    } else if k == 14 {
        11039
    } else if k == 15 {
        11793
    } else if k == 16 {
        12540
    } else if k == 17 {
        13279
    } else if k == 18 {
        14010
    } else if k == 19 {
        14733
    } else if k == 20 {
        15447
    } else if k == 21 {
        16151
    } else if k == 22 {
        16846
    } else if k == 23 {
        17531
    } else if k == 24 {
        18205
    } else if k == 25 {
        18868
    } else if k == 26 {
        19520
    } else if k == 27 {
        20160
    } else if k == 28 {
        20788
    } else if k == 29 {
        21403
    } else if k == 30 {
        22006
    } else if k == 31 {
        22595
    } else if k == 32 {
        23170
    } else if k == 33 {
        23732
    } else if k == 34 {
        24279
    } else if k == 35 {
        24812
    } else if k == 36 {
        25330
    } else if k == 37 {
        25833
    } else if k == 38 {
        26320
    } else if k == 39 {
        26791
    } else if k == 40 {
        27246
    } else if k == 41 {
        27684
    } else if k == 42 {
        28106
    } else if k == 43 {
        28511
    } else if k == 44 {
        28899
    } else if k == 45 {
        29269
    } else if k == 46 {
        29622
    } else if k == 47 {
        29957
    } else if k == 48 {
        30274
    } else if k == 49 {
        30572
    } else if k == 50 {
        30853
    } else if k == 51 {
        31114
    } else if k == 52 {
        31357
    } else if k == 53 {
        31581
    } else if k == 54 {
        31786
    } else if k == 55 {
        31972
    } else if k == 56 {
        32138
    } else if k == 57 {
        32286
    } else if k == 58 {
        32413
    } else if k == 59 {
        32522
    } else if k == 60 {
        32610
    } else if k == 61 {
        32679
    } else if k == 62 {
        32729
    } else if k == 63 {
        32758
    } else {
        32768
    }
}

/// `round(sin(d / 256 turn) * 32768)` for a direction byte `d`, by
/// quarter-wave symmetry.
pub open spec fn sin_fx(d: int) -> int {
    let q: int = d / 64;
    let r: int = d % 64;
    if q == 0 {
        sin_q_spec(r)
    } else if q == 1 {
        sin_q_spec(64 - r)
    } else if q == 2 {
        -sin_q_spec(r)
    } else {
        -sin_q_spec(64 - r)
    }
}

/// `round(cos(d / 256 turn) * 32768)`: the sine a quarter turn ahead.
pub open spec fn cos_fx(d: int) -> int {
    sin_fx((d + 64) % 256)
}

/// Every sine value fits the fixed-point unit.
pub proof fn lemma_sin_fx_range(d: int)
    requires
        0 <= d < 256,
    ensures
        -32768 <= sin_fx(d) <= 32768,
{
}

/// The sine of a direction byte, in units of 1/32768.
pub fn sin_i(d: u8) -> (r: i64)
    ensures
        r == sin_fx(d as int),
        -32768 <= r <= 32768,
{
    proof {
        lemma_sin_fx_range(d as int);
    }
    let q: u8 = d / 64;
    let rem: u8 = d % 64;
    if q == 0 {
        sin_q(rem)
    } else if q == 1 {
        sin_q(64 - rem)
    } else if q == 2 {
        -sin_q(rem)
    } else {
        -sin_q(64 - rem)
    }
}

/// `v / 32768` rounded to the nearest integer, halves away from zero.
pub open spec fn rha32768(v: int) -> int {
    if v >= 0 {
        (v + 16384) / 32768
    } else {
        -((-v + 16384) / 32768)
    }
}

/// The rounded pixel offset of step `i` along a direction whose fixed-point
/// sine or cosine is `c`.
pub open spec fn scaled_offset(i: int, c: int) -> int {
    rha32768(i * c)
}

/// One directional sampling offset: `round(i * c / 32768)`.
pub fn offset_step(i: i64, c: i64) -> (r: i64)
    requires
        -0x4000_0000 <= i <= 0x4000_0000,
        -32768 <= c <= 32768,
    ensures
        r == scaled_offset(i as int, c as int),
        -0x4000_0000 <= r <= 0x4000_0000,
{
    proof {
        assert(-0x2000_0000_0000 <= i * c <= 0x2000_0000_0000) by (nonlinear_arith)
            requires -0x4000_0000 <= i <= 0x4000_0000, -32768 <= c <= 32768,
        ;
    }
    let v: i64 = i * c;
    if v >= 0 {
        let u: u64 = v as u64;
        proof {
            lemma_div_pos_is_pos((u + 16384) as int, 32768);
            lemma_div_below((u + 16384) as int, 32768, 0x4000_0001);
        }
        ((u + 16384) / 32768) as i64
    } else {
        let u: u64 = (-v) as u64;
        proof {
            lemma_div_pos_is_pos((u + 16384) as int, 32768);
            lemma_div_below((u + 16384) as int, 32768, 0x4000_0001);
        }
        -(((u + 16384) / 32768) as i64)
    }
}

/// The cosine of a direction byte, in units of 1/32768.
pub fn cos_i(d: u8) -> (r: i64)
    ensures
        r == cos_fx(d as int),
        -32768 <= r <= 32768,
{
    let shifted: u8 = if d < 192 { d + 64 } else { d - 192 };
    assert(shifted as int == (d + 64) % 256);
    sin_i(shifted)
}

} // verus!
