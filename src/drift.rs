use vstd::prelude::*;
use crate::error::FrameError;
use crate::frame::{frame_area, frames_fit};
use crate::peak::{find_point, peak_point};

verus! {

/// Largest number of frames whose indices a drift record can carry.
pub const MAX_RECORDED_FRAMES: usize = 32768;

/// Drift magnitude, in pixels, from which a frame counts as unstable.
pub const DEFAULT_STABILITY_BOUND: i16 = 100;

/// Displacement of a frame's brightest feature relative to the reference
/// frame: positive `dx` / `dy` mean the feature moved right / down.
#[derive(Clone, Copy, Debug, PartialEq, Eq, Structural)]
pub struct DriftRecord {
    pub index: i16,
    pub dx: i16,
    pub dy: i16,
}

/// Records of the frames that stayed within the stability bound, and how many
/// frames after the reference were left out.
#[derive(Debug)]
pub struct DriftScan {
    pub records: Vec<DriftRecord>,
    pub excluded: usize,
}

/// The drift of frame `i` against frame 0, as a record.
pub open spec fn drift_record_of(frames: Seq<Vec<u16>>, width: int, i: int) -> DriftRecord {
    let p0 = peak_point(frames[0]@, width);
    let p = peak_point(frames[i]@, width);
    DriftRecord { index: i as i16, dx: (p.0 - p0.0) as i16, dy: (p.1 - p0.1) as i16 }
}

/// Frame `i` drifted by less than `bound` along both axes.
pub open spec fn within_bound(frames: Seq<Vec<u16>>, width: int, bound: int, i: int) -> bool {
    let p0 = peak_point(frames[0]@, width);
    let p = peak_point(frames[i]@, width);
    &&& -bound < p.0 - p0.0 < bound
    &&& -bound < p.1 - p0.1 < bound
}

/// Records of the stable frames among frames `1 .. n`, in frame order.
pub open spec fn scan_records(frames: Seq<Vec<u16>>, width: int, bound: int, n: int) -> Seq<
    DriftRecord,
>
    decreases n,
{
    if n <= 1 {
        seq![]
    } else {
        let prev = scan_records(frames, width, bound, n - 1);
        if within_bound(frames, width, bound, n - 1) {
            prev.push(drift_record_of(frames, width, n - 1))
        } else {
            prev
        }
    }
}

/// `a - b` when its magnitude is below `bound`.
fn bounded_offset(a: usize, b: usize, bound: i16) -> (r: Option<i16>)
    ensures
        r.is_some() <==> -bound < a - b < bound,
        r.is_some() ==> r.unwrap() == a - b,
{
    if bound <= 0 {
        return None;
    }
    let limit = bound as usize;
    if a >= b {
        let d = a - b;
        if d < limit {
            Some(d as i16)
        } else {
            None
        }
    } else {
        let d = b - a;
        if d < limit {
            Some(-(d as i16))
        } else {
            None
        }
    }
}

/// Compares the peak of each frame after the first with the peak of frame 0
/// and keeps a record for each frame whose drift is below `stability_bound`
/// in magnitude along both axes; the others are counted as excluded.
pub fn estimate_drifts(
    frames: &Vec<Vec<u16>>,
    width: usize,
    height: usize,
    stability_bound: i16,
) -> (r: Result<DriftScan, FrameError>)
    requires
        frames@.len() <= MAX_RECORDED_FRAMES,
    ensures
        r.is_ok() <==> (width * height <= usize::MAX && frames_fit(frames@, width as int, height as int)),
        r is Err ==> r == Err::<DriftScan, FrameError>(FrameError::GeometryMismatch),
        r is Ok ==> r.unwrap().records@ == scan_records(
            frames@,
            width as int,
            stability_bound as int,
            frames@.len() as int,
        ),
        r is Ok ==> r.unwrap().excluded == if frames@.len() == 0 {
            0
        } else {
            frames@.len() - 1 - r.unwrap().records@.len()
        },
{
    if frame_area(frames, width, height).is_none() {
        return Err(FrameError::GeometryMismatch);
    }
    let mut records: Vec<DriftRecord> = Vec::new();
    let mut excluded: usize = 0;
    if frames.len() == 0 {
        return Ok(DriftScan { records, excluded });
    }
    let p0 = find_point(frames[0].as_slice(), width, height);
    let mut i: usize = 1;
    while i < frames.len()
        invariant
            1 <= i <= frames@.len() <= MAX_RECORDED_FRAMES,
            frames_fit(frames@, width as int, height as int),
            p0[0] == peak_point(frames@[0]@, width as int).0,
            p0[1] == peak_point(frames@[0]@, width as int).1,
            records@ == scan_records(frames@, width as int, stability_bound as int, i as int),
            records@.len() + excluded == i - 1,
        decreases frames@.len() - i,
    {
        let p = find_point(frames[i].as_slice(), width, height);
        let ox = bounded_offset(p[0], p0[0], stability_bound);
        let oy = bounded_offset(p[1], p0[1], stability_bound);
        match (ox, oy) {
            (Some(dx), Some(dy)) => {
                records.push(DriftRecord { index: i as i16, dx, dy });
            },
            _ => {
                excluded = excluded + 1;
            },
        }
        i = i + 1;
    }
    Ok(DriftScan { records, excluded })
}

} // verus!
