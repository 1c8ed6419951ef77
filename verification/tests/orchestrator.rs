use vireo::field::FieldManager;
use vireo::kernels::clear_occupancy;
use vireo::params::SimulationConfig;
use vireo::sim::{is_metrics_tick, is_milestone_tick, FieldPingPong, Simulation};

fn small_config() -> SimulationConfig {
    let mut c = SimulationConfig::default();
    c.world.width = 32;
    c.world.height = 32;
    c.agents.herbivores = 10;
    c
}

#[test]
fn parity_flips_once_per_tick() {
    let mut sim = Simulation::new(&small_config()).unwrap();
    assert!(sim.field.front_is_a);
    for n in 1u64..=5 {
        sim.tick();
        assert_eq!(sim.completed_steps, n);
        assert_eq!(sim.field.front_is_a, n % 2 == 0);
    }
}

#[test]
fn swap_toggles_and_double_swap_undoes() {
    let mut pair = FieldPingPong::new(32, 32);
    assert!(pair.front_is_a);
    pair.swap();
    assert!(!pair.front_is_a);
    pair.swap();
    assert!(pair.front_is_a);
}

#[test]
fn recreate_loses_contents_and_resets_parity() {
    let mut pair = FieldPingPong::new(32, 32);
    pair.swap();
    pair.recreate(64, 64);
    assert!(pair.front_is_a);
    assert_eq!(pair.a.len(), 64 * 64);
    assert!(pair.a.iter().all(|c| c.R == 0 && c.W == 0));
}

#[test]
fn occupancy_reads_zero_after_clearing() {
    let mut occ: Vec<u32> = vec![3, 0, 7, 1];
    clear_occupancy(&mut occ);
    assert_eq!(occ, vec![0, 0, 0, 0]);
}

#[test]
fn occupancy_totals_the_living_agents() {
    let mut sim = Simulation::new(&small_config()).unwrap();
    sim.tick();
    let total: u64 = sim.occupancy.iter().map(|v| *v as u64).sum();
    let alive = sim.alive() as u64;
    assert_eq!(total, alive, "every living agent deposits exactly one count");
}

#[test]
fn front_resource_stays_non_negative_across_ticks() {
    let mut sim = Simulation::new(&small_config()).unwrap();
    for _ in 0..5 {
        sim.tick();
        for c in sim.field.read_view().iter() {
            assert!(c.R >= 0);
            assert!(c.W >= 0);
        }
    }
}

#[test]
fn download_front_copies_the_read_view() {
    let mut sim = Simulation::new(&small_config()).unwrap();
    sim.tick();
    let mut fm = FieldManager::new(32, 32);
    sim.download_front(&mut fm);
    assert_eq!(&fm.data, sim.field.read_view());
}

#[test]
fn cadence_helpers_follow_the_schedule() {
    assert!(is_metrics_tick(0));
    assert!(is_metrics_tick(50));
    assert!(!is_metrics_tick(49));
    assert!(is_milestone_tick(0));
    assert!(is_milestone_tick(200));
    assert!(is_milestone_tick(1000));
    assert!(is_milestone_tick(2000));
    assert!(!is_milestone_tick(100));
}

#[test]
fn ticks_are_deterministic_end_to_end() {
    let mut s1 = Simulation::new(&small_config()).unwrap();
    let mut s2 = Simulation::new(&small_config()).unwrap();
    for _ in 0..3 {
        s1.tick();
        s2.tick();
    }
    assert_eq!(s1.field.read_view(), s2.field.read_view());
    assert_eq!(s1.agents.agents, s2.agents.agents);
    assert_eq!(s1.occupancy, s2.occupancy);
}
