use vstd::prelude::*;
use crate::error::FrameError;
use crate::frame::lemma_cell_index;

verus! {

/// Sum of the `len` pixels of `img` from index `start` on.
pub open spec fn row_run(img: Seq<u16>, start: int, len: int) -> int
    decreases len,
{
    if len <= 0 {
        0
    } else {
        row_run(img, start, len - 1) + img[start + len - 1] as int
    }
}

/// Sum over the first `rows` rows of block `(bi, bj)` of `unit` × `unit`
/// pixels in a square frame of side `side`; `bi` counts block rows.
pub open spec fn block_sum(img: Seq<u16>, side: int, unit: int, bi: int, bj: int, rows: int) -> int
    decreases rows,
{
    if rows <= 0 {
        0
    } else {
        block_sum(img, side, unit, bi, bj, rows - 1) + row_run(
            img,
            (bi * unit + rows - 1) * side + bj * unit,
            unit,
        )
    }
}

/// Mean of block `(bi, bj)`, truncated.
pub open spec fn block_mean(img: Seq<u16>, side: int, unit: int, bi: int, bj: int) -> int {
    block_sum(img, side, unit, bi, bj, unit) / (unit * unit)
}

/// `len` pixels form a square frame.
pub open spec fn is_square(len: int) -> bool {
    exists|s: int| 0 <= s && #[trigger] (s * s) == len
}

/// A reduction of a square frame of side `side` to side `new_size` is
/// possible: the new side is positive and divides the old one.
pub open spec fn reducible(side: int, new_size: int) -> bool {
    0 < new_size <= side && side % new_size == 0
}

proof fn lemma_row_run_bound(img: Seq<u16>, start: int, len: int)
    requires
        0 <= len,
    ensures
        0 <= row_run(img, start, len) <= 65535 * len,
    decreases len,
{
    if len > 0 {
        lemma_row_run_bound(img, start, len - 1);
    }
}

proof fn lemma_block_sum_bound(img: Seq<u16>, side: int, unit: int, bi: int, bj: int, rows: int)
    requires
        0 <= rows,
        0 <= unit,
    ensures
        0 <= block_sum(img, side, unit, bi, bj, rows) <= 65535 * rows * unit,
    decreases rows,
{
    if rows > 0 {
        lemma_block_sum_bound(img, side, unit, bi, bj, rows - 1);
        lemma_row_run_bound(img, (bi * unit + rows - 1) * side + bj * unit, unit);
        assert(65535 * (rows - 1) * unit + 65535 * unit == 65535 * rows * unit) by (nonlinear_arith);
    }
}

/// The side of a square frame of `len` pixels, if `len` is a square.
pub fn square_side(len: usize) -> (r: Option<usize>)
    ensures
        r.is_some() <==> is_square(len as int),
        r.is_some() ==> r.unwrap() * r.unwrap() == len,
{
    let mut s: usize = 0;
    loop
        invariant
            s <= len,
            s > 0 ==> (s - 1) * (s - 1) < len,
        ensures
            s <= len,
            s > 0 ==> (s - 1) * (s - 1) < len,
            s * s >= len,
        decreases len - s,
    {
        assert((s as int) * (s as int) <= 0xffff_ffff_ffff_ffff * 0xffff_ffff_ffff_ffffint)
            by (nonlinear_arith)
            requires
                0 <= s <= 0xffff_ffff_ffff_ffffint,
        ;
        if (s as u128) * (s as u128) >= len as u128 {
            break;
        }
        assert(s < len) by (nonlinear_arith)
            requires
                s * s < len,
        ;
        s = s + 1;
    }
    assert((s as int) * (s as int) <= 0xffff_ffff_ffff_ffff * 0xffff_ffff_ffff_ffffint)
        by (nonlinear_arith)
        requires
            0 <= s <= 0xffff_ffff_ffff_ffffint,
    ;
    if (s as u128) * (s as u128) == len as u128 {
        Some(s)
    } else {
        assert forall|t: int| 0 <= t implies #[trigger] (t * t) != len by {
            if t < s {
                assert(t * t <= (s - 1) * (s - 1)) by (nonlinear_arith)
                    requires
                        0 <= t < s,
                ;
                assert(t * t < len);
            } else {
                assert(t * t >= s * s) by (nonlinear_arith)
                    requires
                        0 <= s <= t,
                ;
            }
        }
        None
    }
}

/// The sum of block `(bi, bj)`.
fn block_total(image: &[u16], side: usize, unit: usize, count: usize, bi: usize, bj: usize) -> (r:
    u128)
    requires
        image@.len() == side * side,
        unit * count == side,
        bi < count,
        bj < count,
    ensures
        r == block_sum(image@, side as int, unit as int, bi as int, bj as int, unit as int),
{
    assert(bi * unit + unit <= side && bj * unit + unit <= side) by (nonlinear_arith)
        requires
            unit * count == side,
            bi < count,
            bj < count,
    ;
    let len = image.len();
    assert(side * side <= usize::MAX);
    let mut total: u128 = 0;
    let mut r: usize = 0;
    while r < unit
        invariant
            r <= unit,
            image@.len() == side * side,
            bi * unit + unit <= side,
            bj * unit + unit <= side,
            side * side <= usize::MAX,
            total == block_sum(image@, side as int, unit as int, bi as int, bj as int, r as int),
        decreases unit - r,
    {
        proof {
            lemma_block_sum_bound(image@, side as int, unit as int, bi as int, bj as int, r as int);
            assert(65535 * r * unit <= 65535 * side * side) by (nonlinear_arith)
                requires
                    r <= unit,
                    unit <= side,
            ;
        }
        let row = bi * unit + r;
        let ghost start = (row * side + bj * unit) as int;
        let mut run: u128 = 0;
        let mut c: usize = 0;
        while c < unit
            invariant
                c <= unit,
                row < side,
                bj * unit + unit <= side,
                image@.len() == side * side,
                side * side <= usize::MAX,
                start == row * side + bj * unit,
                run == row_run(image@, start, c as int),
            decreases unit - c,
        {
            proof {
                lemma_cell_index((bj * unit + c) as int, row as int, side as int, side as int);
                lemma_row_run_bound(image@, start, c as int);
                assert(65535 * c <= 65535 * 0xffff_ffff_ffff_ffffint);
            }
            run = run + image[row * side + bj * unit + c] as u128;
            c = c + 1;
        }
        proof {
            lemma_row_run_bound(image@, start, unit as int);
            assert(65535 * unit <= 65535 * 0xffff_ffff_ffff_ffffint);
            assert(65535 * side * side <= 65535 * 0xffff_ffff_ffff_ffffint) by (nonlinear_arith)
                requires
                    side * side <= 0xffff_ffff_ffff_ffffint,
            ;
        }
        total = total + run;
        r = r + 1;
    }
    total
}

/// Reduces a square frame to side `new_size` by averaging each block of
/// `unit` × `unit` pixels, `unit` being the old side over the new one, and
/// truncating. Fails when the frame is not square or `new_size` is not a
/// positive divisor of its side.
pub fn shrink_image(image: &[u16], new_size: usize) -> (r: Result<Vec<u16>, FrameError>)
    ensures
        r is Ok <==> (is_square(image@.len() as int) && exists|s: int|
            0 <= s && #[trigger] (s * s) == image@.len() && reducible(s, new_size as int)),
        r is Err ==> r == Err::<Vec<u16>, FrameError>(FrameError::GeometryMismatch),
        r is Ok ==> r.unwrap()@.len() == new_size * new_size,
        r is Ok ==> forall|s: int|
            0 <= s && #[trigger] (s * s) == image@.len() ==> forall|k: int|
                0 <= k < new_size * new_size ==> #[trigger] r.unwrap()@[k] as int == block_mean(
                    image@,
                    s,
                    s / new_size as int,
                    k / new_size as int,
                    k % new_size as int,
                ),
{
    let side = match square_side(image.len()) {
        Some(side) => side,
        None => {
            return Err(FrameError::GeometryMismatch);
        },
    };
    proof {
        assert forall|s: int| 0 <= s && #[trigger] (s * s) == image@.len() implies s == side by {
            if s < side {
                assert(s * s < side * side) by (nonlinear_arith)
                    requires
                        0 <= s < side,
                ;
            } else if s > side {
                assert(s * s > side * side) by (nonlinear_arith)
                    requires
                        0 <= side < s,
                ;
            }
        }
    }
    if new_size == 0 || new_size > side || side % new_size != 0 {
        return Err(FrameError::GeometryMismatch);
    }
    let unit = side / new_size;
    assert(unit * new_size == side) by (nonlinear_arith)
        requires
            side % new_size == 0,
            new_size > 0,
            unit == side / new_size,
    ;
    assert(unit > 0) by (nonlinear_arith)
        requires
            unit * new_size == side,
            side >= new_size,
            new_size > 0,
    ;
    assert(new_size * new_size <= side * side) by (nonlinear_arith)
        requires
            new_size <= side,
    ;
    let mut out: Vec<u16> = Vec::new();
    let mut bi: usize = 0;
    while bi < new_size
        invariant
            bi <= new_size,
            image@.len() == side * side,
            unit * new_size == side,
            unit > 0,
            side * side <= usize::MAX,
            new_size * new_size <= side * side,
            out@.len() == bi * new_size,
            forall|k: int|
                0 <= k < bi * new_size ==> #[trigger] out@[k] as int == block_mean(
                    image@,
                    side as int,
                    unit as int,
                    k / new_size as int,
                    k % new_size as int,
                ),
        decreases new_size - bi,
    {
        let mut bj: usize = 0;
        while bj < new_size
            invariant
                bi < new_size,
                bj <= new_size,
                image@.len() == side * side,
                unit * new_size == side,
                unit > 0,
                side * side <= usize::MAX,
                out@.len() == bi * new_size + bj,
                forall|k: int|
                    0 <= k < bi * new_size + bj ==> #[trigger] out@[k] as int == block_mean(
                        image@,
                        side as int,
                        unit as int,
                        k / new_size as int,
                        k % new_size as int,
                    ),
            decreases new_size - bj,
        {
            let total = block_total(image, side, unit, new_size, bi, bj);
            proof {
                lemma_block_sum_bound(
                    image@,
                    side as int,
                    unit as int,
                    bi as int,
                    bj as int,
                    unit as int,
                );
                lemma_cell_index(bj as int, bi as int, new_size as int, new_size as int);
                assert(unit * unit <= side * side) by (nonlinear_arith)
                    requires
                        unit * new_size == side,
                        new_size > 0,
                        unit > 0,
                ;
            }
            let area = (unit * unit) as u128;
            assert(area > 0) by (nonlinear_arith)
                requires
                    unit > 0,
                    area == unit * unit,
            ;
            assert(total / area <= 65535) by (nonlinear_arith)
                requires
                    total <= 65535 * unit * unit,
                    area == unit * unit,
                    area > 0,
            ;
            out.push((total / area) as u16);
            bj = bj + 1;
        }
        assert((bi + 1) * new_size == bi * new_size + new_size) by (nonlinear_arith);
        bi = bi + 1;
    }
    Ok(out)
}

} // verus!
