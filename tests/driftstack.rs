use driftstack::accumulate::{calc_shifted_mean, simple_mean, ShiftAccumulator};
use driftstack::analyze::{analyze_frame, analyze_single, select_rank, threshold_mask};
use driftstack::codec::{
    decode_drift_records, decode_frames, encode_drift_records, encode_frame, frame_count,
    select_frame,
};
use driftstack::drift::{estimate_drifts, DriftRecord, DEFAULT_STABILITY_BOUND};
use driftstack::error::FrameError;
use driftstack::peak::find_point;
use driftstack::reduce::{shrink_image, square_side};

fn lit_frame(width: usize, height: usize, x: usize, y: usize, value: u16) -> Vec<u16> {
    let mut frame = vec![0u16; width * height];
    frame[y * width + x] = value;
    frame
}

fn rec(index: i16, dx: i16, dy: i16) -> DriftRecord {
    DriftRecord { index, dx, dy }
}

#[test]
fn peak_of_single_max_pixel_anywhere() {
    for &(x, y) in &[(0, 0), (4, 0), (0, 3), (4, 3), (2, 1)] {
        let frame = lit_frame(5, 4, x, y, u16::MAX);
        assert_eq!(find_point(&frame, 5, 4), [x, y]);
    }
}

#[test]
fn peak_of_dark_frame_is_origin() {
    let frame = vec![0u16; 16];
    assert_eq!(find_point(&frame, 4, 4), [0, 0]);
}

#[test]
fn peak_ties_go_to_first_in_scan_order() {
    let mut frame = vec![0u16; 12];
    frame[7] = 9;
    frame[2] = 9;
    frame[10] = 9;
    assert_eq!(find_point(&frame, 4, 3), [2, 0]);
}

#[test]
fn peak_row_uses_width_on_rectangular_frames() {
    // 6 wide, 2 high: index 8 is column 2 of row 1.
    let frame = lit_frame(6, 2, 2, 1, 40);
    assert_eq!(find_point(&frame, 6, 2), [2, 1]);
}

#[test]
fn drifts_of_stepped_stack_stop_at_bound() {
    let frames: Vec<Vec<u16>> = (0..8).map(|i| lit_frame(16, 4, 3 + i, 2, 500)).collect();
    let scan = estimate_drifts(&frames, 16, 4, 5).unwrap();
    let expected: Vec<DriftRecord> = (1..5).map(|i| rec(i, i, 0)).collect();
    assert_eq!(scan.records, expected);
    assert_eq!(scan.excluded, 3);
}

#[test]
fn drifts_keep_all_within_default_bound() {
    let frames: Vec<Vec<u16>> = (0..6).map(|i| lit_frame(8, 8, i, 7 - i, 1)).collect();
    let scan = estimate_drifts(&frames, 8, 8, DEFAULT_STABILITY_BOUND).unwrap();
    let expected: Vec<DriftRecord> = (1..6).map(|i| rec(i, i, -i)).collect();
    assert_eq!(scan.records, expected);
    assert_eq!(scan.excluded, 0);
}

#[test]
fn drifts_bound_is_strict_on_both_axes() {
    let frames = vec![
        lit_frame(8, 8, 0, 0, 1),
        lit_frame(8, 8, 2, 0, 1),
        lit_frame(8, 8, 0, 2, 1),
        lit_frame(8, 8, 1, 1, 1),
    ];
    let scan = estimate_drifts(&frames, 8, 8, 2).unwrap();
    assert_eq!(scan.records, vec![rec(3, 1, 1)]);
    assert_eq!(scan.excluded, 2);
}

#[test]
fn drifts_of_empty_stack_are_empty() {
    let scan = estimate_drifts(&Vec::new(), 4, 4, 100).unwrap();
    assert!(scan.records.is_empty());
    assert_eq!(scan.excluded, 0);
}

#[test]
fn drifts_reject_frames_of_wrong_size() {
    let frames = vec![vec![0u16; 16], vec![0u16; 15]];
    assert_eq!(estimate_drifts(&frames, 4, 4, 100).unwrap_err(), FrameError::GeometryMismatch);
}

#[test]
fn end_to_end_three_frames() {
    let frames = vec![
        lit_frame(4, 4, 2, 2, 1000),
        lit_frame(4, 4, 3, 2, 1000),
        lit_frame(4, 4, 2, 2, 1000),
    ];
    let scan = estimate_drifts(&frames, 4, 4, DEFAULT_STABILITY_BOUND).unwrap();
    assert_eq!(scan.records, vec![rec(1, 1, 0), rec(2, 0, 0)]);
    assert_eq!(scan.excluded, 0);
    // Frame 0 is the reference and carries no record, so only frames 1 and 2
    // take part. Each pixel moves by its record's drift: frame 1's lit pixel
    // goes from (3, 2) to (4, 2), outside the frame, and frame 2's stays.
    let mean = calc_shifted_mean(&frames, 4, 4, &scan.records).unwrap();
    assert_eq!(mean.count, 2);
    assert_eq!(mean.pixels, lit_frame(4, 4, 2, 2, 500));
}

#[test]
fn shifted_mean_of_one_unshifted_frame_is_that_frame() {
    let frame: Vec<u16> = (0..12).map(|v| v * 1000 + 7).collect();
    let mean = calc_shifted_mean(&vec![frame.clone()], 4, 3, &vec![rec(0, 0, 0)]).unwrap();
    assert_eq!(mean.count, 1);
    assert_eq!(mean.pixels, frame);
}

#[test]
fn shifted_mean_clips_pixels_moved_out_of_frame() {
    // 3 x 3 frame, pixel (0, 0) = 90, the others 1..=8; drift (-1, -1).
    let frame: Vec<u16> = vec![90, 1, 2, 3, 4, 5, 6, 7, 8];
    let mean = calc_shifted_mean(&vec![frame], 3, 3, &vec![rec(0, -1, -1)]).unwrap();
    // The denominator stays the global count of one frame, also for the
    // edge cells that no shifted pixel reached.
    assert_eq!(mean.count, 1);
    assert_eq!(mean.pixels, vec![4, 5, 0, 7, 8, 0, 0, 0, 0]);
    assert!(!mean.pixels.contains(&90));
}

#[test]
fn shifted_mean_moves_right_and_down() {
    let frame = lit_frame(4, 4, 1, 1, 80);
    let mean = calc_shifted_mean(&vec![frame], 4, 4, &vec![rec(0, 2, 1)]).unwrap();
    assert_eq!(mean.pixels, lit_frame(4, 4, 3, 2, 80));
}

#[test]
fn shifted_mean_with_no_records_is_empty_accumulation() {
    let frames = vec![vec![5u16; 4], vec![6u16; 4]];
    assert_eq!(
        calc_shifted_mean(&frames, 2, 2, &Vec::new()).unwrap_err(),
        FrameError::EmptyAccumulation
    );
}

#[test]
fn shifted_mean_walks_records_in_lock_step() {
    let frames = vec![vec![10u16; 4], vec![20u16; 4], vec![31u16; 4], vec![40u16; 4]];
    let records = vec![rec(1, 0, 0), rec(2, 0, 0)];
    let mean = calc_shifted_mean(&frames, 2, 2, &records).unwrap();
    assert_eq!(mean.count, 2);
    assert_eq!(mean.pixels, vec![25u16; 4]);
    // A record out of order stalls the walk: frame 2 never matches index 0.
    let stalled = vec![rec(1, 0, 0), rec(0, 0, 0), rec(2, 0, 0)];
    let mean = calc_shifted_mean(&frames, 2, 2, &stalled).unwrap();
    assert_eq!(mean.count, 1);
    assert_eq!(mean.pixels, vec![20u16; 4]);
}

#[test]
fn shifted_mean_truncates() {
    let frames = vec![vec![1u16, 2], vec![2u16, 4], vec![2u16, 4]];
    let records = vec![rec(0, 0, 0), rec(1, 0, 0), rec(2, 0, 0)];
    let mean = calc_shifted_mean(&frames, 2, 1, &records).unwrap();
    assert_eq!(mean.pixels, vec![1, 3]);
}

#[test]
fn shifted_mean_rejects_frames_of_wrong_size() {
    let frames = vec![vec![0u16; 3]];
    assert_eq!(
        calc_shifted_mean(&frames, 2, 2, &vec![rec(0, 0, 0)]).unwrap_err(),
        FrameError::GeometryMismatch
    );
}

#[test]
fn simple_mean_averages_every_frame() {
    let frames = vec![vec![1u16, 2, 65535], vec![2u16, 3, 65535]];
    let mean = simple_mean(&frames, 3, 1).unwrap();
    assert_eq!(mean.count, 2);
    assert_eq!(mean.pixels, vec![1, 2, 65535]);
    assert_eq!(simple_mean(&Vec::new(), 3, 1).unwrap_err(), FrameError::EmptyAccumulation);
}

#[test]
fn accumulator_counts_frames_and_averages() {
    let mut acc = ShiftAccumulator::new(2, 2);
    assert_eq!(acc.average().unwrap_err(), FrameError::EmptyAccumulation);
    acc.add_shifted(&[4, 8, 12, 16], 1, 0);
    acc.add_shifted(&[4, 8, 12, 16], 0, 0);
    assert_eq!(acc.count, 2);
    assert_eq!(acc.sum, vec![4, 12, 12, 28]);
    assert_eq!(acc.average().unwrap(), vec![2, 6, 6, 14]);
}

#[test]
fn shrink_constant_frame_keeps_value() {
    for &v in &[0u16, 1, 777, 65535] {
        let frame = vec![v; 64];
        for &size in &[1usize, 2, 4, 8] {
            let small = shrink_image(&frame, size).unwrap();
            assert_eq!(small.len(), size * size);
            assert!(small.iter().all(|&p| p == v));
        }
    }
}

#[test]
fn shrink_averages_blocks_with_truncation() {
    let frame: Vec<u16> = vec![
        1, 2, 10, 10, //
        3, 5, 10, 11, //
        0, 0, 7, 7, //
        0, 1, 7, 7,
    ];
    assert_eq!(shrink_image(&frame, 2).unwrap(), vec![2, 10, 0, 7]);
    assert_eq!(shrink_image(&frame, 1).unwrap(), vec![5]);
    assert_eq!(shrink_image(&frame, 4).unwrap(), frame);
}

#[test]
fn shrink_rejects_bad_geometry() {
    assert_eq!(shrink_image(&vec![0u16; 36], 4).unwrap_err(), FrameError::GeometryMismatch);
    assert_eq!(shrink_image(&vec![0u16; 36], 0).unwrap_err(), FrameError::GeometryMismatch);
    assert_eq!(shrink_image(&vec![0u16; 36], 12).unwrap_err(), FrameError::GeometryMismatch);
    assert_eq!(shrink_image(&vec![0u16; 35], 5).unwrap_err(), FrameError::GeometryMismatch);
}

#[test]
fn square_side_finds_exact_roots() {
    assert_eq!(square_side(0), Some(0));
    assert_eq!(square_side(1), Some(1));
    assert_eq!(square_side(4194304), Some(2048));
    assert_eq!(square_side(15), None);
    assert_eq!(square_side(17), None);
}

#[test]
fn select_rank_is_sorted_position() {
    let values = vec![9u16, 3, 3, 65535, 0, 7];
    let mut sorted = values.clone();
    sorted.sort();
    for rank in 0..values.len() {
        assert_eq!(select_rank(&values, rank), sorted[rank]);
    }
}

#[test]
fn threshold_keeps_top_percent() {
    let values: Vec<u16> = (0..200).collect();
    let mask = threshold_mask(&values, 1);
    // Rank 200 - 2 = 198: values 198 and 199 stay.
    assert_eq!(mask.iter().filter(|&&m| m == 1).count(), 2);
    assert_eq!(mask[198], 1);
    assert_eq!(mask[197], 0);
    let all = threshold_mask(&values, 100);
    assert!(all.iter().all(|&m| m == 1));
}

#[test]
fn analyze_frame_thresholds_reduced_frame() {
    let frame: Vec<u16> = vec![
        1, 1, 9, 9, //
        1, 1, 9, 9, //
        4, 4, 6, 6, //
        4, 4, 6, 6,
    ];
    assert_eq!(analyze_frame(&frame, 2, 25).unwrap(), vec![0, 1, 0, 0]);
    assert_eq!(analyze_frame(&frame, 2, 50).unwrap(), vec![0, 1, 0, 1]);
    assert_eq!(analyze_frame(&frame, 3, 25).unwrap_err(), FrameError::GeometryMismatch);
}

#[test]
fn analyze_single_keeps_brightest_percent_at_512() {
    let frame: Vec<u16> = (0..512 * 512).map(|k: usize| (k / 1024) as u16).collect();
    let mask = analyze_single(&frame).unwrap();
    assert_eq!(mask.len(), 512 * 512);
    assert_eq!(mask.iter().filter(|&&m| m == 1).count(), 3072);
    assert_eq!(mask[253 * 1024], 1);
    assert_eq!(mask[253 * 1024 - 1], 0);
    assert_eq!(analyze_single(&vec![0u16; 100]).unwrap_err(), FrameError::GeometryMismatch);
}

#[test]
fn frame_count_truncates_partial_frame() {
    assert_eq!(frame_count(100, 2, 3), Ok(8));
    assert_eq!(frame_count(11, 1, 1), Ok(5));
    assert_eq!(frame_count(100, 0, 3), Err(FrameError::GeometryMismatch));
}

#[test]
fn decode_frames_reads_little_endian() {
    let bytes = vec![0x34, 0x12, 0xff, 0x00, 0x00, 0x01, 0x02, 0x00, 0xaa];
    let frames = decode_frames(&bytes, 2, 1).unwrap();
    assert_eq!(frames, vec![vec![0x1234, 0x00ff], vec![0x0100, 0x0002]]);
    assert_eq!(decode_frames(&bytes, 0, 1).unwrap_err(), FrameError::GeometryMismatch);
}

#[test]
fn select_frame_checks_index() {
    let bytes = encode_frame(&[1, 2, 3, 4, 5, 6]);
    assert_eq!(select_frame(&bytes, 1, 2, 1).unwrap(), vec![3, 4]);
    assert_eq!(select_frame(&bytes, 1, 2, 3).unwrap_err(), FrameError::IndexOutOfRange);
}

#[test]
fn encode_frame_writes_low_byte_first() {
    assert_eq!(encode_frame(&[0x1234, 0xff00]), vec![0x34, 0x12, 0x00, 0xff]);
    let frame: Vec<u16> = vec![0, 1, 255, 256, 65535];
    let back = decode_frames(&encode_frame(&frame), 5, 1).unwrap();
    assert_eq!(back, vec![frame]);
}

#[test]
fn drift_records_round_trip() {
    let records = vec![rec(1, 1, 0), rec(2, -3, 99), rec(32767, -32768, -1)];
    let bytes = encode_drift_records(&records);
    assert_eq!(bytes.len(), 18);
    assert_eq!(&bytes[6..12], &[0x02, 0x00, 0xfd, 0xff, 0x63, 0x00]);
    let mut padded = bytes.clone();
    padded.extend_from_slice(&[1, 2, 3]);
    assert_eq!(decode_drift_records(&padded), records);
}

#[test]
fn shifted_mean_keeps_dropped_frame_in_divisor() {
    let frames = vec![vec![5u16, 0, 0, 7], vec![1u16, 1, 1, 1]];
    let records = vec![rec(0, -1, -1), rec(1, 0, 0)];
    let mean = calc_shifted_mean(&frames, 2, 2, &records).unwrap();
    assert_eq!(mean.count, 2);
    assert_eq!(mean.pixels, vec![4, 0, 0, 0]);
}

#[test]
fn shifted_mean_positive_dx_moves_right() {
    let frame = vec![0u16, 0, 0, 0, 5, 0, 0, 0, 0];
    let mean = calc_shifted_mean(&vec![frame], 3, 3, &vec![rec(0, 1, 0)]).unwrap();
    assert_eq!(mean.pixels, vec![0, 0, 0, 0, 0, 5, 0, 0, 0]);
}

#[test]
fn zero_drift_records_match_simple_mean() {
    let frames = vec![vec![3u16, 9, 0, 1], vec![4u16, 2, 8, 1], vec![6u16, 6, 1, 65535]];
    let records: Vec<DriftRecord> = (0..3).map(|i| rec(i, 0, 0)).collect();
    let shifted = calc_shifted_mean(&frames, 2, 2, &records).unwrap();
    let plain = simple_mean(&frames, 2, 2).unwrap();
    assert_eq!(shifted.pixels, plain.pixels);
    assert_eq!(shifted.pixels, vec![4, 5, 3, 21845]);
}
