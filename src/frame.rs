use vstd::prelude::*;

verus! {

/// Every frame of the stack holds exactly `width * height` pixels.
pub open spec fn frames_fit(frames: Seq<Vec<u16>>, width: int, height: int) -> bool {
    forall|i: int| 0 <= i < frames.len() ==> (#[trigger] frames[i])@.len() == width * height
}

/// Tells whether every frame holds `width * height` pixels and that product
/// fits in `usize`; returns the product when it does.
pub fn frame_area(frames: &Vec<Vec<u16>>, width: usize, height: usize) -> (r: Option<usize>)
    ensures
        r.is_some() <==> (width * height <= usize::MAX && frames_fit(frames@, width as int, height as int)),
        r.is_some() ==> r.unwrap() == width * height,
{
    assert((width as int) * (height as int) <= 0xffff_ffff_ffff_ffff * 0xffff_ffff_ffff_ffffint)
        by (nonlinear_arith)
        requires
            0 <= width <= 0xffff_ffff_ffff_ffffint,
            0 <= height <= 0xffff_ffff_ffff_ffffint,
    ;
    let wide = (width as u128) * (height as u128);
    if wide > usize::MAX as u128 {
        return None;
    }
    let area = wide as usize;
    let mut i: usize = 0;
    while i < frames.len()
        invariant
            i <= frames@.len(),
            area == width * height,
            forall|j: int| 0 <= j < i ==> (#[trigger] frames@[j])@.len() == width * height,
        decreases frames@.len() - i,
    {
        if frames[i].len() != area {
            return None;
        }
        i = i + 1;
    }
    Some(area)
}

/// Where `(x, y)` lands in a row-major frame `width` pixels wide.
pub proof fn lemma_cell_index(x: int, y: int, width: int, height: int)
    requires
        0 <= x < width,
        0 <= y < height,
    ensures
        0 <= y * width + x < width * height,
        (y * width + x) % width == x,
        (y * width + x) / width == y,
{
    assert(0 <= y * width + x < width * height) by (nonlinear_arith)
        requires
            0 <= x < width,
            0 <= y < height,
    ;
    vstd::arithmetic::div_mod::lemma_fundamental_div_mod_converse(y * width + x, width, y, x);
}

/// The column and row of a pixel index lie inside the frame.
pub proof fn lemma_cell_coords(k: int, width: int, height: int)
    requires
        0 <= width,
        0 <= height,
        0 <= k < width * height,
    ensures
        width > 0,
        0 <= k % width < width,
        0 <= k / width < height,
        (k / width) * width + k % width == k,
{
    assert(width > 0) by (nonlinear_arith)
        requires
            0 <= width,
            0 <= height,
            0 <= k < width * height,
    ;
    vstd::arithmetic::div_mod::lemma_fundamental_div_mod(k, width);
    assert(k / width < height) by (nonlinear_arith)
        requires
            k < width * height,
            width > 0,
            k == width * (k / width) + k % width,
            0 <= k % width < width,
    ;
    assert((k / width) * width + k % width == k) by (nonlinear_arith)
        requires
            k == width * (k / width) + k % width,
    ;
}

} // verus!
