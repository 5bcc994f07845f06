use vstd::prelude::*;
use crate::accumulate::{cursor_after, shifted_sum, shifted_value};
use crate::drift::{drift_record_of, scan_records, within_bound, DriftRecord, MAX_RECORDED_FRAMES};
use crate::frame::{frames_fit, lemma_cell_coords, lemma_cell_index};
use crate::peak::{lemma_peak_index, peak_point};
use crate::reduce::{block_mean, block_sum, reducible, row_run};

verus! {

/// A frame whose only lit pixel is at `(x, y)` has its peak there, wherever
/// that pixel lies, corners included.
pub proof fn law_single_lit_pixel_is_peak(frame: Seq<u16>, width: int, height: int, x: int, y: int)
    requires
        frame.len() == width * height,
        0 <= x < width,
        0 <= y < height,
        frame[y * width + x] > 0,
        forall|k: int| 0 <= k < frame.len() && k != y * width + x ==> #[trigger] frame[k] == 0,
    ensures
        peak_point(frame, width) == (x, y),
{
    lemma_cell_index(x, y, width, height);
    lemma_peak_index(frame, frame.len() as int);
    let p = crate::peak::peak_index(frame, frame.len() as int);
    assert(frame[y * width + x] <= frame[p]);
    assert(p == y * width + x);
}

/// A frame with no lit pixel has its peak at `(0, 0)`.
pub proof fn law_dark_frame_peak_is_origin(frame: Seq<u16>, width: int, height: int)
    requires
        frame.len() == width * height,
        0 <= width,
        0 <= height,
        forall|k: int| 0 <= k < frame.len() ==> #[trigger] frame[k] == 0,
    ensures
        peak_point(frame, width) == (0int, 0int),
{
    if frame.len() > 0 {
        lemma_cell_coords(0, width, height);
        lemma_peak_index(frame, frame.len() as int);
        let p = crate::peak::peak_index(frame, frame.len() as int);
        if p > 0 {
            assert(frame[0] < frame[p]);
        }
        assert(0int % width == 0 && 0int / width == 0) by (nonlinear_arith)
            requires
                width > 0,
        ;
    }
}

/// The records `(j, j, 0)` for `j` in `1 ..= m`.
pub open spec fn stepped_records(m: int) -> Seq<DriftRecord> {
    Seq::new(m as nat, |j: int| DriftRecord { index: (j + 1) as i16, dx: (j + 1) as i16, dy: 0 })
}

/// How many of frames `1 .. n` drift by less than `bound` when frame `i`
/// drifts by `i`.
pub open spec fn stepped_count(n: int, bound: int) -> int {
    if n <= bound {
        n - 1
    } else if bound >= 1 {
        bound - 1
    } else {
        0
    }
}

/// The lit pixel of frame `i` sits `i` columns right of `(x0, y0)`.
pub open spec fn is_stepped_stack(
    frames: Seq<Vec<u16>>,
    width: int,
    height: int,
    x0: int,
    y0: int,
) -> bool {
    &&& frames_fit(frames, width, height)
    &&& 0 <= x0
    &&& x0 + frames.len() <= width
    &&& 0 <= y0 < height
    &&& forall|i: int| 0 <= i < frames.len() ==> (#[trigger] frames[i])@[y0 * width + x0 + i] > 0
    &&& forall|i: int, k: int|
        0 <= i < frames.len() && 0 <= k < width * height && k != y0 * width + x0 + i
            ==> #[trigger] frames[i]@[k] == 0
}

proof fn lemma_stepped_peak(frames: Seq<Vec<u16>>, width: int, height: int, x0: int, y0: int, i: int)
    requires
        is_stepped_stack(frames, width, height, x0, y0),
        0 <= i < frames.len(),
    ensures
        peak_point(frames[i]@, width) == (x0 + i, y0),
{
    let f = frames[i]@;
    assert forall|k: int| 0 <= k < f.len() && k != y0 * width + (x0 + i) implies #[trigger] f[k]
        == 0 by {
        assert(frames[i]@[k] == 0);
    }
    assert(y0 * width + (x0 + i) == y0 * width + x0 + i);
    law_single_lit_pixel_is_peak(f, width, height, x0 + i, y0);
}

proof fn lemma_stepped_scan(
    frames: Seq<Vec<u16>>,
    width: int,
    height: int,
    x0: int,
    y0: int,
    bound: int,
    n: int,
)
    requires
        is_stepped_stack(frames, width, height, x0, y0),
        1 <= n <= frames.len() <= MAX_RECORDED_FRAMES,
    ensures
        scan_records(frames, width, bound, n) =~= stepped_records(stepped_count(n, bound)),
    decreases n,
{
    if n > 1 {
        lemma_stepped_scan(frames, width, height, x0, y0, bound, n - 1);
        lemma_stepped_peak(frames, width, height, x0, y0, 0);
        lemma_stepped_peak(frames, width, height, x0, y0, n - 1);
        let prev = stepped_records(stepped_count(n - 1, bound));
        if n - 1 < bound {
            assert(stepped_records(stepped_count(n, bound)) =~= prev.push(
                DriftRecord { index: (n - 1) as i16, dx: (n - 1) as i16, dy: 0 },
            ));
        }
    }
}

/// When frame `i`'s lit pixel sits `i` columns right of frame 0's, the drift
/// scan keeps exactly the records `(i, i, 0)` with `i < bound` and drops the
/// frames from `bound` on.
pub proof fn law_stepped_stack_drifts(
    frames: Seq<Vec<u16>>,
    width: int,
    height: int,
    x0: int,
    y0: int,
    bound: int,
)
    requires
        is_stepped_stack(frames, width, height, x0, y0),
        1 <= frames.len() <= MAX_RECORDED_FRAMES,
    ensures
        scan_records(frames, width, bound, frames.len() as int) == stepped_records(
            stepped_count(frames.len() as int, bound),
        ),
{
    lemma_stepped_scan(frames, width, height, x0, y0, bound, frames.len() as int);
}

proof fn lemma_scan_keeps(
    frames: Seq<Vec<u16>>,
    width: int,
    bound: int,
    r: DriftRecord,
    m: int,
    n: int,
)
    requires
        1 <= m <= n,
        scan_records(frames, width, bound, m).contains(r),
    ensures
        scan_records(frames, width, bound, n).contains(r),
    decreases n - m,
{
    if n > m {
        lemma_scan_keeps(frames, width, bound, r, m, n - 1);
        let prev = scan_records(frames, width, bound, n - 1);
        let j = choose|j: int| 0 <= j < prev.len() && prev[j] == r;
        if within_bound(frames, width, bound, n - 1) {
            assert(prev.push(drift_record_of(frames, width, n - 1))[j] == r);
        }
    }
}

/// A frame whose peak sits where frame 0's does is kept with the record
/// `(i, 0, 0)` under any positive bound: a zero drift is never filtered out.
pub proof fn law_zero_drift_is_kept(frames: Seq<Vec<u16>>, width: int, bound: int, i: int)
    requires
        1 <= i < frames.len() <= MAX_RECORDED_FRAMES,
        bound >= 1,
        peak_point(frames[i]@, width) == peak_point(frames[0]@, width),
    ensures
        scan_records(frames, width, bound, frames.len() as int).contains(
            DriftRecord { index: i as i16, dx: 0, dy: 0 },
        ),
{
    let r = DriftRecord { index: i as i16, dx: 0, dy: 0 };
    let s = scan_records(frames, width, bound, i + 1);
    assert(within_bound(frames, width, bound, i));
    assert(drift_record_of(frames, width, i) == r);
    assert(s[s.len() - 1] == r);
    lemma_scan_keeps(frames, width, bound, r, i + 1, frames.len() as int);
}

/// Accumulating one frame unshifted gives that frame back, with one frame
/// counted.
pub proof fn law_single_unshifted_frame_is_kept(frame: Vec<u16>, width: int, height: int)
    requires
        0 <= width,
        0 <= height,
        frame@.len() == width * height,
    ensures
        cursor_after(seq![DriftRecord { index: 0, dx: 0, dy: 0 }], 1) == 1,
        forall|k: int|
            0 <= k < width * height ==> #[trigger] shifted_sum(
                seq![frame],
                width,
                height,
                seq![DriftRecord { index: 0, dx: 0, dy: 0 }],
                1,
                k,
            ) / 1 == frame@[k] as int,
{
    let records = seq![DriftRecord { index: 0, dx: 0, dy: 0 }];
    assert(cursor_after(records, 0) == 0);
    assert forall|k: int| 0 <= k < width * height implies #[trigger] shifted_sum(
        seq![frame],
        width,
        height,
        records,
        1,
        k,
    ) / 1 == frame@[k] as int by {
        lemma_cell_coords(k, width, height);
        assert(shifted_value(frame@, width, height, 0, 0, k) == frame@[k] as int);
        assert(seq![frame][0] == frame);
        assert(crate::accumulate::takes_part(records, 0));
        assert(shifted_sum(seq![frame], width, height, records, 0, k) == 0);
    }
}

/// With no drift record, no frame takes part, whatever the frames.
pub proof fn law_no_records_no_frames(n: int)
    ensures
        cursor_after(Seq::<DriftRecord>::empty(), n) == 0,
    decreases n,
{
    if n > 0 {
        law_no_records_no_frames(n - 1);
    }
}

proof fn lemma_constant_run(img: Seq<u16>, v: int, start: int, len: int)
    requires
        0 <= start,
        0 <= len,
        start + len <= img.len(),
        forall|k: int| 0 <= k < img.len() ==> #[trigger] img[k] == v,
    ensures
        row_run(img, start, len) == v * len,
    decreases len,
{
    if len > 0 {
        lemma_constant_run(img, v, start, len - 1);
        assert(img[start + len - 1] == v);
        assert(row_run(img, start, len) == row_run(img, start, len - 1) + v);
        assert(v * (len - 1) + v == v * len) by (nonlinear_arith);
    } else {
        assert(v * len == 0) by (nonlinear_arith)
            requires
                len == 0,
        ;
    }
}

proof fn lemma_constant_block(
    img: Seq<u16>,
    v: int,
    side: int,
    unit: int,
    bi: int,
    bj: int,
    rows: int,
)
    requires
        img.len() == side * side,
        0 <= bi,
        0 <= bj,
        0 < unit,
        0 <= rows,
        bi * unit + rows <= side,
        bj * unit + unit <= side,
        forall|k: int| 0 <= k < img.len() ==> #[trigger] img[k] == v,
    ensures
        block_sum(img, side, unit, bi, bj, rows) == v * rows * unit,
    decreases rows,
{
    if rows > 0 {
        lemma_constant_block(img, v, side, unit, bi, bj, rows - 1);
        let row = bi * unit + rows - 1;
        let start = row * side + bj * unit;
        assert(0 <= start && start + unit <= side * side) by (nonlinear_arith)
            requires
                0 <= row < side,
                0 <= bj * unit,
                bj * unit + unit <= side,
                start == row * side + bj * unit,
        ;
        lemma_constant_run(img, v, start, unit);
        assert(block_sum(img, side, unit, bi, bj, rows) == block_sum(
            img,
            side,
            unit,
            bi,
            bj,
            rows - 1,
        ) + row_run(img, start, unit));
        assert(v * (rows - 1) * unit + v * unit == v * rows * unit) by (nonlinear_arith);
    } else {
        assert(v * rows * unit == 0) by (nonlinear_arith)
            requires
                rows == 0,
        ;
    }
}

/// Reducing a frame whose pixels all equal `v` gives `v` in every cell, for
/// every side that divides the frame's side.
pub proof fn law_constant_frame_reduces_to_itself(
    img: Seq<u16>,
    v: u16,
    side: int,
    new_size: int,
    bi: int,
    bj: int,
)
    requires
        0 <= side,
        img.len() == side * side,
        reducible(side, new_size),
        0 <= bi < new_size,
        0 <= bj < new_size,
        forall|k: int| 0 <= k < img.len() ==> #[trigger] img[k] == v,
    ensures
        block_mean(img, side, side / new_size, bi, bj) == v,
{
    let unit = side / new_size;
    vstd::arithmetic::div_mod::lemma_fundamental_div_mod(side, new_size);
    assert(unit > 0 && bi * unit + unit <= side && bj * unit + unit <= side) by (nonlinear_arith)
        requires
            side == new_size * unit + side % new_size,
            side % new_size == 0,
            0 < new_size <= side,
            0 <= bi < new_size,
            0 <= bj < new_size,
            unit == side / new_size,
    ;
    lemma_constant_block(img, v as int, side, unit, bi, bj, unit);
    assert((v * unit * unit) / (unit * unit) == v as int) by (nonlinear_arith)
        requires
            unit > 0,
    ;
}

} // verus!
