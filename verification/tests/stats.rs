use vireo::agents::{Agent, AgentManager, AgentStats};
use vireo::field::{FieldData, FieldManager};
use vireo::fixed::FP_ONE;

#[test]
fn field_stats_on_a_uniform_grid() {
    let mut fm = FieldManager::new(32, 32);
    for y in 0..32 {
        for x in 0..32 {
            fm.set(x, y, FieldData::new(FP_ONE, 0));
        }
    }
    fm.update_stats();
    assert_eq!(fm.stats.mean_R, FP_ONE);
    assert_eq!(fm.stats.var_R, 0);
    assert_eq!(fm.stats.max_R, FP_ONE);
    assert_eq!(fm.stats.min_R, FP_ONE);
    assert_eq!(fm.stats.mean_W, 0);
    assert_eq!(fm.stats.mean_grad_R, 0);
}

#[test]
fn gradient_average_excludes_the_border() {
    // a flat grid has no gradient anywhere
    let mut fm = FieldManager::new(32, 32);
    for y in 0..32 {
        for x in 0..32 {
            fm.set(x, y, FieldData::new(500_000, 0));
        }
    }
    fm.update_stats();
    assert_eq!(fm.stats.mean_grad_R, 0);
    // a corner cell is the center of no interior gradient stencil and
    // the neighbour of none either: changing it changes nothing
    fm.set(0, 0, FieldData::new(60_000_000_000, 0));
    fm.set(31, 31, FieldData::new(60_000_000_000, 0));
    fm.update_stats();
    assert_eq!(fm.stats.mean_grad_R, 0);
    // an interior bump, by contrast, does register
    fm.set(16, 16, FieldData::new(40_000_000_000, 0));
    fm.update_stats();
    assert!(fm.stats.mean_grad_R > 0);
}

#[test]
fn field_stats_mean_and_extremes_are_exact() {
    let mut fm = FieldManager::new(32, 32);
    // all zero except one cell holding exactly 1024 units
    fm.set(3, 4, FieldData::new(1024 * FP_ONE, 2 * FP_ONE));
    fm.update_stats();
    // 1024 * FP_ONE over 1024 cells
    assert_eq!(fm.stats.mean_R, FP_ONE);
    assert_eq!(fm.stats.max_R, 1024 * FP_ONE);
    assert_eq!(fm.stats.min_R, 0);
    assert_eq!(fm.stats.max_W, 2 * FP_ONE);
    assert_eq!(fm.stats.mean_W, 2 * FP_ONE / 1024);
}

#[test]
fn agent_stats_over_living_agents_only() {
    let mut mgr = AgentManager::new(0, 32, 32, FP_ONE, 1);
    assert_eq!(mgr.agents.len(), 0);
    mgr.agents = vec![
        Agent {
            pos_x: FP_ONE,
            pos_y: FP_ONE,
            vel_x: 300_000,
            vel_y: 400_000,
            energy: 1_000_000,
            alive: 1,
            kind: 1,
        },
        Agent {
            pos_x: FP_ONE,
            pos_y: FP_ONE,
            vel_x: 0,
            vel_y: 0,
            energy: 3_000_000,
            alive: 1,
            kind: 0,
        },
        Agent {
            pos_x: FP_ONE,
            pos_y: FP_ONE,
            vel_x: 9_000_000,
            vel_y: 0,
            energy: 500_000,
            alive: 0,
            kind: 2,
        },
    ];
    mgr.update_stats();
    assert_eq!(mgr.stats.alive_count, 2);
    assert_eq!(mgr.stats.total_energy, 4_000_000);
    assert_eq!(mgr.stats.mean_energy, 2_000_000);
    // speeds: 500_000 and 0, mean 250_000
    assert_eq!(mgr.stats.mean_velocity, 250_000);
    // energy per speed: 2.0 / 0.25 = 8.0
    assert_eq!(mgr.stats.foraging_efficiency, 8_000_000);
}

#[test]
fn stats_on_empty_population_are_all_zero() {
    let mut mgr = AgentManager::new(2, 32, 32, FP_ONE, 9);
    for a in mgr.agents.iter_mut() {
        a.kill();
    }
    mgr.update_stats();
    assert_eq!(mgr.stats, AgentStats::default());
    assert_eq!(mgr.get_alive_count(), 0);
}

#[test]
fn spawn_is_deterministic_and_ratioed() {
    let a = AgentManager::new(100, 64, 64, FP_ONE, 7);
    let b = AgentManager::new(100, 64, 64, FP_ONE, 7);
    assert_eq!(a.agents, b.agents);
    assert_eq!(a.agents.len(), 300);
    let plants = a.agents.iter().filter(|x| x.kind == 0).count();
    let herbs = a.agents.iter().filter(|x| x.kind == 1).count();
    let preds = a.agents.iter().filter(|x| x.kind == 2).count();
    assert_eq!(plants, 50);
    assert_eq!(preds, 50);
    assert_eq!(herbs, 200);
    // plants carry 1.5x the initial energy and stand still
    for p in a.agents.iter().filter(|x| x.kind == 0) {
        assert_eq!(p.energy, 1_500_000);
        assert_eq!((p.vel_x, p.vel_y), (0, 0));
        assert_eq!(p.alive, 1);
    }
    // mobile agents keep their speed within the spawn bands
    for m in a.agents.iter().filter(|x| x.kind != 0) {
        let v2 = m.vel_x * m.vel_x + m.vel_y * m.vel_y;
        assert!(v2 <= 800_000i64 * 800_000);
    }
}

#[test]
fn reset_rederives_the_same_population() {
    let mut a = AgentManager::new(20, 64, 64, FP_ONE, 3);
    let first = a.agents.clone();
    for x in a.agents.iter_mut() {
        x.kill();
    }
    a.reset(FP_ONE, 3);
    assert_eq!(a.agents, first);
    // a different seed re-derives a different population
    a.reset(FP_ONE, 4);
    assert_ne!(a.agents, first);
}
