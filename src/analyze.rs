use vstd::prelude::*;
use crate::error::FrameError;
use crate::reduce::{block_mean, is_square, reducible, shrink_image};

verus! {

/// Side of the reduced frame that single-frame analysis thresholds.
pub const ANALYSIS_SIZE: usize = 512;

/// Percentage of the brightest reduced pixels that analysis keeps as signal.
pub const DROP_PERCENT: usize = 1;

/// Number of values in `s` below `t`.
pub open spec fn count_lt(s: Seq<u16>, t: int) -> int
    decreases s.len(),
{
    if s.len() == 0 {
        0
    } else {
        count_lt(s.drop_last(), t) + if (s.last() as int) < t {
            1int
        } else {
            0
        }
    }
}

/// Number of values in `s` equal to `t`.
pub open spec fn count_eq(s: Seq<u16>, t: int) -> int
    decreases s.len(),
{
    if s.len() == 0 {
        0
    } else {
        count_eq(s.drop_last(), t) + if s.last() as int == t {
            1int
        } else {
            0
        }
    }
}

/// `t` is the value at position `rank` of `s` sorted ascending.
pub open spec fn is_rank_value(s: Seq<u16>, rank: int, t: int) -> bool {
    count_lt(s, t) <= rank < count_lt(s, t + 1)
}

/// Position, in ascending order, of the threshold that keeps the top
/// `percent` of `len` values: `len` less `len * percent / 100` rounded up.
pub open spec fn threshold_rank(len: int, percent: int) -> int {
    len - (len * percent + 99) / 100
}

/// The reduced frame that `shrink_image` yields for a square frame of side
/// `side`.
pub open spec fn reduced_frame(img: Seq<u16>, side: int, new_size: int) -> Seq<u16> {
    Seq::new(
        (new_size * new_size) as nat,
        |k: int| block_mean(img, side, side / new_size, k / new_size, k % new_size) as u16,
    )
}

/// Marks with 1 the values of `s` at or above `t`, the others with 0.
pub open spec fn is_mask(s: Seq<u16>, mask: Seq<u16>, t: int) -> bool {
    &&& mask.len() == s.len()
    &&& forall|k: int|
        0 <= k < s.len() ==> #[trigger] mask[k] == if s[k] >= t {
            1u16
        } else {
            0u16
        }
}

/// `mask` marks the pixels of the frame reduced from `img` (side `side`) to
/// side `new_size` that reach the value at the threshold rank for
/// `drop_percent`.
pub open spec fn is_analysis(
    img: Seq<u16>,
    side: int,
    new_size: int,
    drop_percent: int,
    mask: Seq<u16>,
) -> bool {
    exists|t: int|
        is_rank_value(
            reduced_frame(img, side, new_size),
            threshold_rank(new_size * new_size, drop_percent),
            t,
        ) && is_mask(reduced_frame(img, side, new_size), mask, t)
}

/// Raising the cut by one adds the values equal to the old cut.
proof fn lemma_count_split(s: Seq<u16>, t: int)
    ensures
        count_lt(s, t + 1) == count_lt(s, t) + count_eq(s, t),
        0 <= count_lt(s, t) <= s.len(),
        0 <= count_eq(s, t) <= s.len(),
    decreases s.len(),
{
    if s.len() > 0 {
        lemma_count_split(s.drop_last(), t);
    }
}

/// No value is below 0 and every value is below 65536.
proof fn lemma_count_extremes(s: Seq<u16>)
    ensures
        count_lt(s, 0) == 0,
        count_lt(s, 65536) == s.len(),
    decreases s.len(),
{
    if s.len() > 0 {
        lemma_count_extremes(s.drop_last());
    }
}

/// The value at position `rank` of `values` in ascending order, found from a
/// histogram of the values.
pub fn select_rank(values: &Vec<u16>, rank: usize) -> (r: u16)
    requires
        rank < values@.len(),
    ensures
        is_rank_value(values@, rank as int, r as int),
{
    let mut hist: Vec<usize> = Vec::new();
    let mut t: usize = 0;
    while t < 65536
        invariant
            t <= 65536,
            hist@.len() == t,
            forall|j: int| 0 <= j < t ==> #[trigger] hist@[j] == 0,
        decreases 65536 - t,
    {
        hist.push(0);
        t = t + 1;
    }
    let mut i: usize = 0;
    while i < values.len()
        invariant
            i <= values@.len(),
            hist@.len() == 65536,
            forall|j: int|
                0 <= j < 65536 ==> #[trigger] hist@[j] == count_eq(values@.take(i as int), j),
        decreases values@.len() - i,
    {
        let v = values[i] as usize;
        proof {
            lemma_count_split(values@.take(i as int), v as int);
            assert(values@.take(i as int + 1).drop_last() == values@.take(i as int));
        }
        let h = hist[v];
        hist.set(v, h + 1);
        i = i + 1;
    }
    let n = values.len();
    assert(values@.take(values@.len() as int) == values@);
    proof {
        lemma_count_extremes(values@);
    }
    let mut below: usize = 0;
    let mut t: usize = 0;
    loop
        invariant
            t < 65536,
            hist@.len() == 65536,
            forall|j: int| 0 <= j < 65536 ==> #[trigger] hist@[j] == count_eq(values@, j),
            below == count_lt(values@, t as int),
            below <= rank,
            rank < values@.len(),
            n == values@.len(),
            count_lt(values@, 65536) == values@.len(),
        decreases 65536 - t,
    {
        proof {
            lemma_count_split(values@, t as int);
            lemma_count_split(values@, t as int + 1);
        }
        let next = below + hist[t];
        if next > rank {
            return t as u16;
        }
        below = next;
        t = t + 1;
    }
}

/// Marks with 1 each value of `small` at or above the value at position
/// `threshold_rank(len, drop_percent)` in ascending order, and the others
/// with 0, so that about the top `drop_percent` of the values are kept.
pub fn threshold_mask(small: &Vec<u16>, drop_percent: usize) -> (r: Vec<u16>)
    requires
        small@.len() > 0,
        1 <= drop_percent <= 100,
    ensures
        exists|t: int|
            is_rank_value(
                small@,
                threshold_rank(small@.len() as int, drop_percent as int),
                t,
            ) && is_mask(small@, r@, t),
{
    let len = small.len();
    assert((len as int) * (drop_percent as int) <= 0xffff_ffff_ffff_ffff * 100) by (nonlinear_arith)
        requires
            0 <= len <= 0xffff_ffff_ffff_ffffint,
            1 <= drop_percent <= 100,
    ;
    let keep = ((len as u128) * (drop_percent as u128) + 99) / 100;
    assert(1 <= keep <= len) by (nonlinear_arith)
        requires
            keep == (len * drop_percent + 99) / 100,
            len >= 1,
            1 <= drop_percent <= 100,
    ;
    let rank = len - keep as usize;
    let thresh = select_rank(small, rank);
    let mut mask: Vec<u16> = Vec::new();
    let mut k: usize = 0;
    while k < len
        invariant
            k <= len,
            len == small@.len(),
            mask@.len() == k,
            forall|j: int|
                0 <= j < k ==> #[trigger] mask@[j] == if small@[j] >= thresh {
                    1u16
                } else {
                    0u16
                },
        decreases len - k,
    {
        if small[k] >= thresh {
            mask.push(1);
        } else {
            mask.push(0);
        }
        k = k + 1;
    }
    assert(is_mask(small@, mask@, thresh as int));
    mask
}

/// Reduces a square frame to side `new_size` and thresholds the reduced
/// frame so that about its brightest `drop_percent` are marked 1.
pub fn analyze_frame(image: &[u16], new_size: usize, drop_percent: usize) -> (r: Result<
    Vec<u16>,
    FrameError,
>)
    requires
        1 <= drop_percent <= 100,
    ensures
        r is Ok <==> (is_square(image@.len() as int) && exists|s: int|
            0 <= s && #[trigger] (s * s) == image@.len() && reducible(s, new_size as int)),
        r is Err ==> r == Err::<Vec<u16>, FrameError>(FrameError::GeometryMismatch),
        r is Ok ==> forall|s: int|
            0 <= s && #[trigger] (s * s) == image@.len() ==> is_analysis(
                image@,
                s,
                new_size as int,
                drop_percent as int,
                r.unwrap()@,
            ),
{
    let small = match shrink_image(image, new_size) {
        Ok(small) => small,
        Err(e) => {
            return Err(e);
        },
    };
    assert(new_size * new_size > 0) by (nonlinear_arith)
        requires
            new_size > 0,
    ;
    let mask = threshold_mask(&small, drop_percent);
    proof {
        let rank = threshold_rank(new_size * new_size, drop_percent as int);
        assert(small@.len() == new_size * new_size);
        assert(rank == threshold_rank(small@.len() as int, drop_percent as int));
        let t = choose|t: int| is_rank_value(small@, rank, t) && is_mask(small@, mask@, t);
        assert forall|s: int| 0 <= s && #[trigger] (s * s) == image@.len() implies is_analysis(
            image@,
            s,
            new_size as int,
            drop_percent as int,
            mask@,
        ) by {
            assert(small@ =~= reduced_frame(image@, s, new_size as int));
            assert(is_rank_value(reduced_frame(image@, s, new_size as int), rank, t));
            assert(is_mask(reduced_frame(image@, s, new_size as int), mask@, t));
        }
    }
    Ok(mask)
}

/// Thresholds a frame at the analysis resolution and drop rate.
pub fn analyze_single(image: &[u16]) -> (r: Result<Vec<u16>, FrameError>)
    ensures
        r is Ok <==> (is_square(image@.len() as int) && exists|s: int|
            0 <= s && #[trigger] (s * s) == image@.len() && reducible(s, ANALYSIS_SIZE as int)),
        r is Err ==> r == Err::<Vec<u16>, FrameError>(FrameError::GeometryMismatch),
        r is Ok ==> forall|s: int|
            0 <= s && #[trigger] (s * s) == image@.len() ==> is_analysis(
                image@,
                s,
                ANALYSIS_SIZE as int,
                DROP_PERCENT as int,
                r.unwrap()@,
            ),
{
    analyze_frame(image, ANALYSIS_SIZE, DROP_PERCENT)
}

} // verus!
