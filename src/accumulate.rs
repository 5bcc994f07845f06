use vstd::prelude::*;
use crate::drift::DriftRecord;
use crate::error::FrameError;
use crate::frame::{frame_area, frames_fit, lemma_cell_coords, lemma_cell_index};

verus! {

/// Most frames one accumulator takes, so that no cell sum can overflow.
pub const MAX_ACCUMULATED: usize = 0xffff_ffff;

/// What the source frame contributes to output cell `k` once it is moved by
/// `(dx, dy)`: the source pixel that lands on `k`, or nothing when that pixel
/// would come from outside the frame.
pub open spec fn shifted_value(
    frame: Seq<u16>,
    width: int,
    height: int,
    dx: int,
    dy: int,
    k: int,
) -> int {
    let sx = k % width - dx;
    let sy = k / width - dy;
    if 0 <= sx < width && 0 <= sy < height {
        frame[sy * width + sx] as int
    } else {
        0
    }
}

/// How many drift records have been consumed once frames `0 .. n` have been
/// walked in lock-step with them.
pub open spec fn cursor_after(records: Seq<DriftRecord>, n: int) -> int
    decreases n,
{
    if n <= 0 {
        0
    } else {
        let c = cursor_after(records, n - 1);
        if c < records.len() && records[c].index == n - 1 {
            c + 1
        } else {
            c
        }
    }
}

/// Frame `i` is the one that the next unconsumed record names.
pub open spec fn takes_part(records: Seq<DriftRecord>, i: int) -> bool {
    let c = cursor_after(records, i);
    c < records.len() && records[c].index == i
}

/// Sum at output cell `k` of the shifted frames among `0 .. n` that take part.
pub open spec fn shifted_sum(
    frames: Seq<Vec<u16>>,
    width: int,
    height: int,
    records: Seq<DriftRecord>,
    n: int,
    k: int,
) -> int
    decreases n,
{
    if n <= 0 {
        0
    } else {
        shifted_sum(frames, width, height, records, n - 1, k) + if takes_part(records, n - 1) {
            let rec = records[cursor_after(records, n - 1)];
            shifted_value(frames[n - 1]@, width, height, rec.dx as int, rec.dy as int, k)
        } else {
            0
        }
    }
}

/// Sum at pixel `k` of frames `0 .. n`.
pub open spec fn column_sum(frames: Seq<Vec<u16>>, n: int, k: int) -> int
    decreases n,
{
    if n <= 0 {
        0
    } else {
        column_sum(frames, n - 1, k) + frames[n - 1]@[k] as int
    }
}

/// An averaged frame and the number of frames that went into it.
#[derive(Debug)]
pub struct MeanFrame {
    pub pixels: Vec<u16>,
    pub count: usize,
}

/// Running per-cell sums of shifted frames and the number of frames added.
#[derive(Debug)]
pub struct ShiftAccumulator {
    pub width: usize,
    pub height: usize,
    pub sum: Vec<u64>,
    pub count: usize,
}

/// `c - d` when it lies in `0 .. limit`.
fn shift_coord(c: usize, d: i16, limit: usize) -> (r: Option<usize>)
    ensures
        r.is_some() <==> 0 <= c - d < limit,
        r.is_some() ==> r.unwrap() == c - d,
{
    if d >= 0 {
        let du = d as usize;
        if c >= du && c - du < limit {
            Some(c - du)
        } else {
            None
        }
    } else {
        let du = (-(d as i32)) as usize;
        if du < limit && c < limit - du {
            Some(c + du)
        } else {
            None
        }
    }
}

impl ShiftAccumulator {
    /// One sum per cell, each cell bounded by the largest pixel value times
    /// the number of frames added.
    pub open spec fn wf(&self) -> bool {
        &&& self.sum@.len() == self.width * self.height
        &&& self.count <= MAX_ACCUMULATED
        &&& forall|k: int| 0 <= k < self.sum@.len() ==> #[trigger] self.sum@[k] <= 65535 * self.count
    }

    /// An empty accumulator for frames of `width` × `height` pixels.
    pub fn new(width: usize, height: usize) -> (r: ShiftAccumulator)
        requires
            width * height <= usize::MAX,
        ensures
            r.wf(),
            r.width == width,
            r.height == height,
            r.count == 0,
            forall|k: int| 0 <= k < r.sum@.len() ==> #[trigger] r.sum@[k] == 0,
    {
        let area = width * height;
        let mut sum: Vec<u64> = Vec::new();
        let mut k: usize = 0;
        while k < area
            invariant
                k <= area,
                sum@.len() == k,
                forall|j: int| 0 <= j < k ==> #[trigger] sum@[j] == 0,
            decreases area - k,
        {
            sum.push(0);
            k = k + 1;
        }
        ShiftAccumulator { width, height, sum, count: 0 }
    }

    /// Adds `frame` moved by `(dx, dy)`: each source pixel goes `dx` to the
    /// right and `dy` down, and a pixel that lands outside the frame is
    /// dropped.
    pub fn add_shifted(&mut self, frame: &[u16], dx: i16, dy: i16)
        requires
            old(self).wf(),
            frame@.len() == old(self).width * old(self).height,
            old(self).count < MAX_ACCUMULATED,
        ensures
            final(self).wf(),
            final(self).width == old(self).width,
            final(self).height == old(self).height,
            final(self).count == old(self).count + 1,
            forall|k: int|
                0 <= k < final(self).sum@.len() ==> #[trigger] final(self).sum@[k] == old(self).sum@[k]
                    + shifted_value(
                    frame@,
                    old(self).width as int,
                    old(self).height as int,
                    dx as int,
                    dy as int,
                    k,
                ),
    {
        let ghost start = self.sum@;
        let ghost start_count = self.count;
        let width = self.width;
        let height = self.height;
        let n = self.sum.len();
        let mut k: usize = 0;
        while k < n
            invariant
                k <= n,
                n == start.len(),
                n == width * height,
                frame@.len() == width * height,
                self.width == width,
                self.height == height,
                self.count == start_count,
                self.count < MAX_ACCUMULATED,
                self.sum@.len() == n,
                forall|j: int| 0 <= j < n ==> #[trigger] start[j] <= 65535 * self.count,
                forall|j: int|
                    0 <= j < k ==> #[trigger] self.sum@[j] == start[j] + shifted_value(
                        frame@,
                        width as int,
                        height as int,
                        dx as int,
                        dy as int,
                        j,
                    ),
                forall|j: int| k <= j < n ==> #[trigger] self.sum@[j] == start[j],
            decreases n - k,
        {
            proof {
                lemma_cell_coords(k as int, width as int, height as int);
            }
            let x = k % width;
            let y = k / width;
            let sx = shift_coord(x, dx, width);
            let sy = shift_coord(y, dy, height);
            if let (Some(sx), Some(sy)) = (sx, sy) {
                proof {
                    lemma_cell_index(sx as int, sy as int, width as int, height as int);
                }
                let value = frame[sy * width + sx];
                let cell = self.sum[k];
                self.sum.set(k, cell + value as u64);
            }
            k = k + 1;
        }
        self.count = self.count + 1;
    }

    /// Every cell sum divided by the number of frames added, truncated;
    /// fails when no frame was added.
    pub fn average(&self) -> (r: Result<Vec<u16>, FrameError>)
        requires
            self.wf(),
        ensures
            r is Err <==> self.count == 0,
            r is Err ==> r == Err::<Vec<u16>, FrameError>(FrameError::EmptyAccumulation),
            r is Ok ==> r.unwrap()@.len() == self.sum@.len(),
            r is Ok ==> forall|k: int|
                0 <= k < self.sum@.len() ==> #[trigger] r.unwrap()@[k] as int == self.sum@[k] as int
                    / self.count as int,
    {
        if self.count == 0 {
            return Err(FrameError::EmptyAccumulation);
        }
        let count = self.count as u64;
        let mut out: Vec<u16> = Vec::new();
        let mut k: usize = 0;
        while k < self.sum.len()
            invariant
                self.wf(),
                count == self.count,
                count > 0,
                k <= self.sum@.len(),
                out@.len() == k,
                forall|j: int| 0 <= j < k ==> #[trigger] out@[j] as int == self.sum@[j] as int / self.count as int,
            decreases self.sum@.len() - k,
        {
            let cell = self.sum[k];
            assert(cell / count <= 65535) by (nonlinear_arith)
                requires
                    cell <= 65535 * count,
                    count > 0,
            ;
            out.push((cell / count) as u16);
            k = k + 1;
        }
        Ok(out)
    }
}

/// Averages the frames named by `records`, each moved by its drift. Frames
/// and records are walked in lock-step: frame `i` takes part only when the
/// next unconsumed record names `i`, which then is consumed; every other frame
/// is skipped. Each cell is divided by the number of frames that took part,
/// also where a shifted frame left that cell uncovered.
pub fn calc_shifted_mean(
    frames: &Vec<Vec<u16>>,
    width: usize,
    height: usize,
    records: &Vec<DriftRecord>,
) -> (r: Result<MeanFrame, FrameError>)
    ensures
        r == Err::<MeanFrame, FrameError>(FrameError::GeometryMismatch) <==> !(width * height
            <= usize::MAX && frames_fit(frames@, width as int, height as int)),
        r == Err::<MeanFrame, FrameError>(FrameError::EmptyAccumulation) <==> (width * height
            <= usize::MAX && frames_fit(frames@, width as int, height as int) && cursor_after(
            records@,
            frames@.len() as int,
        ) == 0),
        r is Ok <==> (width * height <= usize::MAX && frames_fit(frames@, width as int, height as int)
            && cursor_after(records@, frames@.len() as int) > 0),
        r is Ok ==> r.unwrap().count == cursor_after(records@, frames@.len() as int),
        r is Ok ==> r.unwrap().pixels@.len() == width * height,
        r is Ok ==> forall|k: int|
            0 <= k < width * height ==> #[trigger] r.unwrap().pixels@[k] as int == shifted_sum(
                frames@,
                width as int,
                height as int,
                records@,
                frames@.len() as int,
                k,
            ) / r.unwrap().count as int,
{
    if frame_area(frames, width, height).is_none() {
        return Err(FrameError::GeometryMismatch);
    }
    let mut acc = ShiftAccumulator::new(width, height);
    let mut c: usize = 0;
    let mut i: usize = 0;
    while i < frames.len()
        invariant
            i <= frames@.len(),
            frames_fit(frames@, width as int, height as int),
            acc.wf(),
            acc.width == width,
            acc.height == height,
            c == cursor_after(records@, i as int),
            acc.count == c,
            c <= i,
            c <= records@.len(),
            forall|k: int|
                0 <= k < acc.sum@.len() ==> #[trigger] acc.sum@[k] == shifted_sum(
                    frames@,
                    width as int,
                    height as int,
                    records@,
                    i as int,
                    k,
                ),
        decreases frames@.len() - i,
    {
        if c < records.len() && records[c].index >= 0 && records[c].index as usize == i {
            let rec = records[c];
            acc.add_shifted(frames[i].as_slice(), rec.dx, rec.dy);
            c = c + 1;
        }
        i = i + 1;
    }
    match acc.average() {
        Ok(pixels) => Ok(MeanFrame { pixels, count: c }),
        Err(e) => Err(e),
    }
}

/// Averages all frames unshifted, truncating each cell; fails when there is
/// no frame.
pub fn simple_mean(frames: &Vec<Vec<u16>>, width: usize, height: usize) -> (r: Result<
    MeanFrame,
    FrameError,
>)
    requires
        frames@.len() <= MAX_ACCUMULATED,
    ensures
        r == Err::<MeanFrame, FrameError>(FrameError::GeometryMismatch) <==> !(width * height
            <= usize::MAX && frames_fit(frames@, width as int, height as int)),
        r == Err::<MeanFrame, FrameError>(FrameError::EmptyAccumulation) <==> (width * height
            <= usize::MAX && frames_fit(frames@, width as int, height as int) && frames@.len()
            == 0),
        r is Ok <==> (width * height <= usize::MAX && frames_fit(frames@, width as int, height as int)
            && frames@.len() > 0),
        r is Ok ==> r.unwrap().count == frames@.len(),
        r is Ok ==> r.unwrap().pixels@.len() == width * height,
        r is Ok ==> forall|k: int|
            0 <= k < width * height ==> #[trigger] r.unwrap().pixels@[k] as int == column_sum(
                frames@,
                frames@.len() as int,
                k,
            ) / frames@.len() as int,
{
    if frame_area(frames, width, height).is_none() {
        return Err(FrameError::GeometryMismatch);
    }
    let mut acc = ShiftAccumulator::new(width, height);
    let mut i: usize = 0;
    while i < frames.len()
        invariant
            i <= frames@.len() <= MAX_ACCUMULATED,
            frames_fit(frames@, width as int, height as int),
            acc.wf(),
            acc.width == width,
            acc.height == height,
            acc.count == i,
            forall|k: int|
                0 <= k < acc.sum@.len() ==> #[trigger] acc.sum@[k] == column_sum(
                    frames@,
                    i as int,
                    k,
                ),
        decreases frames@.len() - i,
    {
        acc.add_shifted(frames[i].as_slice(), 0, 0);
        proof {
            assert forall|k: int| 0 <= k < acc.sum@.len() implies #[trigger] shifted_value(
                frames@[i as int]@,
                width as int,
                height as int,
                0,
                0,
                k,
            ) == frames@[i as int]@[k] as int by {
                lemma_cell_coords(k, width as int, height as int);
            }
        }
        i = i + 1;
    }
    match acc.average() {
        Ok(pixels) => Ok(MeanFrame { pixels, count: i }),
        Err(e) => Err(e),
    }
}

} // verus!
