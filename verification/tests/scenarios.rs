use vireo::field::FieldManager;
use vireo::params::{
    AgentConfig, ChemotaxisConfig, FieldConfig, NoiseConfig, ObstacleConfig, SimulationConfig,
    WorldConfig,
};
use vireo::sim::Simulation;

fn base_config() -> SimulationConfig {
    SimulationConfig {
        world: WorldConfig { width: 32, height: 32, steps: 10, dt: 100_000, seed: 42 },
        field: FieldConfig {
            D_R: 500_000,
            D_W: 200_000,
            sigma_R: 5_000,
            alpha_H: 100_000,
            beta_H: 50_000,
            lambda_R: 5_000,
            lambda_W: 5_000,
        },
        chemotaxis: ChemotaxisConfig {
            chi_R: 8_000_000,
            chi_W: 4_000_000,
            kappa: 2_000_000,
            gamma: 50_000,
            v_max: 2_000_000,
            eps0: 20_000,
            eta_R: 200_000,
        },
        agents: AgentConfig { herbivores: 10, E0: 1_000_000 },
        noise: NoiseConfig { sigma: 0 },
        obstacles: ObstacleConfig { enabled: false },
    }
}

fn mean_r(sim: &Simulation) -> i64 {
    let mut fm = FieldManager::new(sim.config.world.width, sim.config.world.height);
    sim.download_front(&mut fm);
    fm.update_stats();
    fm.stats.mean_R
}

fn stats_of(sim: &Simulation) -> vireo::field::FieldStats {
    let mut fm = FieldManager::new(sim.config.world.width, sim.config.world.height);
    sim.download_front(&mut fm);
    fm.update_stats();
    fm.stats
}

#[test]
fn reaction_only_mean_resource_strictly_increases() {
    let mut cfg = base_config();
    cfg.field.D_R = 0;
    cfg.field.D_W = 0;
    cfg.field.lambda_R = 0;
    cfg.field.lambda_W = 0;
    cfg.field.alpha_H = 0;
    cfg.field.sigma_R = 20_000;
    cfg.agents.herbivores = 0;
    let mut sim = Simulation::new(&cfg).unwrap();
    let mut prev = mean_r(&sim);
    for _ in 0..5 {
        sim.tick();
        let cur = mean_r(&sim);
        assert!(cur > prev, "mean R must strictly increase: {} -> {}", prev, cur);
        prev = cur;
    }
}

#[test]
fn diffusion_only_flattens_without_losing_mass() {
    let mut cfg = base_config();
    cfg.field.sigma_R = 0;
    cfg.field.lambda_R = 0;
    cfg.field.alpha_H = 0;
    cfg.field.D_R = 1_000_000;
    cfg.agents.herbivores = 0;
    let mut sim = Simulation::new(&cfg).unwrap();
    let mut prev = stats_of(&sim);
    for _ in 0..5 {
        sim.tick();
        let cur = stats_of(&sim);
        assert!(cur.max_R <= prev.max_R, "max R must not rise");
        assert!(cur.min_R >= prev.min_R, "min R must not fall");
        assert!((cur.mean_R - prev.mean_R).abs() <= 1, "mean R moves by at most one step");
        prev = cur;
    }
}

#[test]
fn uptake_only_mean_resource_strictly_decreases() {
    let mut cfg = base_config();
    cfg.field.sigma_R = 0;
    cfg.field.D_R = 0;
    cfg.field.alpha_H = 200_000;
    cfg.field.lambda_R = 100_000;
    cfg.agents.herbivores = 30;
    let mut sim = Simulation::new(&cfg).unwrap();
    let mut prev = mean_r(&sim);
    for _ in 0..5 {
        sim.tick();
        let cur = mean_r(&sim);
        assert!(cur < prev, "mean R must strictly decrease: {} -> {}", prev, cur);
        prev = cur;
    }
}

#[test]
fn damping_only_mean_speed_decays_toward_zero() {
    let mut cfg = base_config();
    cfg.chemotaxis.chi_R = 0;
    cfg.chemotaxis.chi_W = 0;
    cfg.chemotaxis.gamma = 200_000;
    cfg.chemotaxis.eps0 = 0;
    cfg.chemotaxis.eta_R = 0;
    cfg.agents.herbivores = 30;
    let mut sim = Simulation::new(&cfg).unwrap();
    sim.agents.update_stats();
    let start = sim.agents.stats.mean_velocity;
    assert!(start > 0, "spawned herbivores should be moving");
    let mut prev = start;
    for _ in 0..10 {
        sim.tick();
        sim.agents.update_stats();
        let cur = sim.agents.stats.mean_velocity;
        assert!(cur <= prev, "mean speed must not rise: {} -> {}", prev, cur);
        prev = cur;
    }
    assert!(prev < start, "mean speed must have decayed after ten damped ticks");
}

#[test]
fn extinction_is_reported_by_alive_count() {
    let mut cfg = base_config();
    // drain energy fast: basal drain at maximum, no gain
    cfg.chemotaxis.eps0 = 1_000_000;
    cfg.chemotaxis.eta_R = 0;
    cfg.agents.E0 = 100_000;
    cfg.agents.herbivores = 5;
    let mut sim = Simulation::new(&cfg).unwrap();
    assert!(sim.alive() > 0);
    for _ in 0..10 {
        sim.tick();
        if sim.alive() == 0 {
            return;
        }
    }
    panic!("population should have gone extinct under maximal drain");
}
