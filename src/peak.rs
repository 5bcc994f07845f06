use vstd::prelude::*;

verus! {

/// Index of the brightest pixel among the first `n` pixels of `s`, taking the
/// earliest one on ties (and index 0 when `n` is zero).
pub open spec fn peak_index(s: Seq<u16>, n: int) -> int
    decreases n,
{
    if n <= 0 {
        0
    } else {
        let p = peak_index(s, n - 1);
        if s[n - 1] > s[p] {
            n - 1
        } else {
            p
        }
    }
}

/// Column and row of the brightest pixel of a frame `width` pixels wide;
/// `(0, 0)` for an empty frame.
pub open spec fn peak_point(s: Seq<u16>, width: int) -> (int, int) {
    if s.len() == 0 {
        (0, 0)
    } else {
        (peak_index(s, s.len() as int) % width, peak_index(s, s.len() as int) / width)
    }
}

/// The peak index is a position of the maximum and no earlier pixel reaches it.
pub proof fn lemma_peak_index(s: Seq<u16>, n: int)
    requires
        1 <= n <= s.len(),
    ensures
        0 <= peak_index(s, n) < n,
        forall|j: int| 0 <= j < n ==> #[trigger] s[j] <= s[peak_index(s, n)],
        forall|j: int| 0 <= j < peak_index(s, n) ==> #[trigger] s[j] < s[peak_index(s, n)],
    decreases n,
{
    assert(peak_index(s, 0) == 0);
    if n > 1 {
        lemma_peak_index(s, n - 1);
    }
}

/// Finds the brightest pixel of a row-major frame of `width` × `height`
/// pixels and returns its `[x, y]`; the first one in scan order wins ties, and
/// a frame with no pixel above zero gives `[0, 0]`.
pub fn find_point(image: &[u16], width: usize, height: usize) -> (r: [usize; 2])
    requires
        image@.len() == width * height,
    ensures
        r[0] == peak_point(image@, width as int).0,
        r[1] == peak_point(image@, width as int).1,
        image@.len() > 0 ==> r[0] < width && r[1] < height,
        image@.len() > 0 ==> forall|j: int|
            0 <= j < image@.len() ==> #[trigger] image@[j] <= image@[r[1] * width + r[0]],
        image@.len() > 0 ==> forall|j: int|
            0 <= j < r[1] * width + r[0] ==> #[trigger] image@[j] < image@[r[1] * width + r[0]],
{
    let n = image.len();
    if n == 0 {
        return [0, 0];
    }
    let mut max: u16 = image[0];
    let mut max_i: usize = 0;
    let mut i: usize = 1;
    assert(peak_index(image@, 0) == 0);
    assert(peak_index(image@, 1) == 0);
    while i < n
        invariant
            1 <= i <= n,
            n == image@.len(),
            max_i == peak_index(image@, i as int),
            max == image@[max_i as int],
            0 <= max_i < i,
        decreases n - i,
    {
        let value = image[i];
        if value > max {
            max = value;
            max_i = i;
        }
        i = i + 1;
    }
    proof {
        lemma_peak_index(image@, n as int);
        assert(width > 0) by (nonlinear_arith)
            requires
                n == width * height,
                n > 0,
        ;
        vstd::arithmetic::div_mod::lemma_fundamental_div_mod(max_i as int, width as int);
        assert(max_i / width < height) by (nonlinear_arith)
            requires
                max_i < width * height,
                width > 0,
                max_i == width * (max_i / width) + max_i % width,
                0 <= max_i % width,
        ;
        assert((max_i / width) * width + max_i % width == max_i) by (nonlinear_arith)
            requires
                max_i == width * (max_i / width) + max_i % width,
        ;
    }
    [max_i % width, max_i / width]
}

} // verus!
