use vireo::field::{FieldData, FieldManager};
use vireo::fixed::FP_ONE;
use vireo::metrics::{compute_enhanced_foraging_efficiency, MetricsHistory};
use vireo::snapshots::{field_image_pixels, occupancy_image_pixels, SnapshotWriter};

#[test]
fn cycle_score_needs_fifty_samples() {
    let mut h = MetricsHistory::new();
    for _ in 0..49 {
        h.record(100, FP_ONE);
    }
    assert_eq!(h.compute_cycle_score(), 0);
    assert_eq!(h.step_count(), 49);
}

#[test]
fn cycle_score_is_zero_on_a_flat_history() {
    let mut h = MetricsHistory::new();
    for _ in 0..80 {
        h.record(123, FP_ONE);
    }
    assert_eq!(h.compute_cycle_score(), 0);
}

#[test]
fn cycle_score_of_an_alternating_history() {
    let mut h = MetricsHistory::new();
    for i in 0..60 {
        h.record(if i % 2 == 0 { 0 } else { 100 }, FP_ONE);
    }
    // ten of the twenty lags differ by 100: mean variation 50, over
    // the normalizing constant 100, gives one half
    assert_eq!(h.compute_cycle_score(), 500_000);
}

#[test]
fn cycle_score_is_clipped_to_one() {
    let mut h = MetricsHistory::new();
    for i in 0..60 {
        h.record(if i % 2 == 0 { 0 } else { 4_000_000 }, FP_ONE);
    }
    assert_eq!(h.compute_cycle_score(), FP_ONE);
}

#[test]
fn history_is_bounded_at_two_hundred_entries() {
    let mut h = MetricsHistory::new();
    for i in 0..250u32 {
        h.record(i, FP_ONE);
    }
    assert_eq!(h.herbivore_history.len(), 200);
    assert_eq!(h.energy_history.len(), 200);
    assert_eq!(h.step_count(), 250);
    // the oldest fifty entries have been dropped
    assert_eq!(h.herbivore_history[0], 50);
    assert_eq!(h.herbivore_history[199], 249);
}

#[test]
fn foraging_efficiency_is_energy_per_speed_normalized() {
    // 2.0 energy at speed 1.0: ratio 2.0, over the normalizer 10
    assert_eq!(compute_enhanced_foraging_efficiency(2_000_000, 1_000_000), 200_000);
    // no movement: zero, not a division error
    assert_eq!(compute_enhanced_foraging_efficiency(2_000_000, 0), 0);
    // huge ratio clips to one
    assert_eq!(compute_enhanced_foraging_efficiency(1_000_000_000, 1), FP_ONE);
}

#[test]
fn field_pixels_are_min_max_normalized() {
    let mut fm = FieldManager::new(32, 32);
    // resource span 0 .. 2.0, waste 0.5 at one cell
    fm.set(1, 0, FieldData::new(2_000_000, 500_000));
    fm.set(2, 0, FieldData::new(1_000_000, 0));
    let px = field_image_pixels(&fm.data, 32, 32);
    assert_eq!(px.len(), 3 * 1024);
    // cell 0: bottom of the range
    assert_eq!(&px[0..3], &[0, 0, 0]);
    // cell 1: top of the range, waste at half brightness
    assert_eq!(&px[3..6], &[255, 127, 0]);
    // cell 2: middle of the range
    assert_eq!(&px[6..9], &[127, 0, 0]);
}

#[test]
fn uniform_field_pixels_do_not_divide_by_zero() {
    let fm = FieldManager::new(32, 32);
    let px = field_image_pixels(&fm.data, 32, 32);
    assert!(px.iter().all(|&v| v == 0));
}

#[test]
fn occupancy_pixels_are_max_normalized() {
    let occ: Vec<u32> = vec![0, 2, 4];
    assert_eq!(occupancy_image_pixels(&occ), vec![0, 127, 255]);
    let empty: Vec<u32> = vec![0, 0];
    assert_eq!(occupancy_image_pixels(&empty), vec![0, 0]);
}

#[test]
fn snapshot_writer_keeps_its_destination() {
    let w = SnapshotWriter::new(String::from("results"));
    assert_eq!(w.output_dir, "results");
}
