use vireo::field::FieldManager;
use vireo::fixed::FP_ONE;

#[test]
fn seeding_runs_for_common_sizes() {
    let sizes = [(64u32, 64u32), (128, 128), (512, 512)];
    for (w, h) in sizes {
        let mut fm = FieldManager::new(w, h);
        fm.seed_resources(42);

        // sanity: central cell is non-negative
        let c = fm.get_resource(w / 2, h / 2);
        assert!(c >= 0);

        // sanity: some cells have non-zero resources
        let mut has_resources = false;
        for y in 0..h {
            for x in 0..w {
                if fm.get_resource(x, y) > 0 {
                    has_resources = true;
                    break;
                }
            }
            if has_resources {
                break;
            }
        }
        assert!(has_resources, "World {}x{} should have some resources", w, h);
    }
}

#[test]
fn seeding_is_deterministic() {
    let mut a = FieldManager::new(64, 64);
    let mut b = FieldManager::new(64, 64);
    a.seed_resources(1337);
    b.seed_resources(1337);
    assert_eq!(a.data, b.data);
}

#[test]
fn seeding_depends_on_the_seed() {
    let mut a = FieldManager::new(64, 64);
    let mut b = FieldManager::new(64, 64);
    a.seed_resources(1);
    b.seed_resources(2);
    assert_ne!(a.data, b.data);
}

#[test]
fn seeded_center_is_strongly_positive() {
    for seed in [0u64, 42, 1337] {
        let mut fm = FieldManager::new(64, 64);
        fm.seed_resources(seed);
        // the primary source sits at the center; the ramp can take
        // away at most 0.06 of it
        assert!(fm.get_resource(32, 32) >= 740_000);
    }
}

#[test]
fn seeded_cells_are_non_negative_and_waste_free() {
    let mut fm = FieldManager::new(48, 96);
    fm.seed_resources(7);
    for y in 0..96 {
        for x in 0..48 {
            let c = fm.get(x, y);
            assert!(c.R >= 0);
            assert_eq!(c.W, 0);
        }
    }
}

#[test]
fn noise_respects_bounds_and_zero_sigma_is_a_no_op() {
    let mut fm = FieldManager::new(32, 32);
    fm.seed_resources(5);
    let before = fm.data.clone();
    fm.add_noise(0, 99);
    assert_eq!(fm.data, before);
    fm.add_noise(FP_ONE / 10, 99);
    for (i, c) in fm.data.iter().enumerate() {
        assert!(c.R >= 0);
        let d = c.R - before[i].R;
        assert!(d.abs() <= FP_ONE / 10);
    }
}
