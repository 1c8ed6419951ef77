use vireo::params::{
    AgentConfig, AgentParams, ChemotaxisConfig, ConfigError, FieldConfig, NoiseConfig,
    ObstacleConfig, RDParams, SimulationConfig, WorldConfig, validate_agent_params,
    validate_rd_params, H_SCALE,
};

fn good() -> SimulationConfig {
    SimulationConfig::default()
}

#[test]
fn default_config_is_accepted() {
    assert!(good().validate().is_ok());
    let c = good();
    assert_eq!(c.world.width, 128);
    assert_eq!(c.world.height, 128);
    assert_eq!(c.world.steps, 2000);
    assert_eq!(c.world.dt, 100_000);
    assert_eq!(c.world.seed, 1337);
    assert_eq!(c.agents.herbivores, 2000);
}

#[test]
fn world_too_small_is_fatal() {
    let mut c = good();
    c.world.width = 31;
    assert_eq!(c.validate(), Err(ConfigError::WorldTooSmall));
}

#[test]
fn world_too_large_is_fatal() {
    let mut c = good();
    c.world.height = 5000;
    assert_eq!(c.validate(), Err(ConfigError::WorldTooLarge));
}

#[test]
fn zero_steps_are_fatal() {
    let mut c = good();
    c.world.steps = 0;
    assert_eq!(c.validate(), Err(ConfigError::NoSteps));
}

#[test]
fn non_positive_time_step_is_fatal() {
    let mut c = good();
    c.world.dt = 0;
    assert_eq!(c.validate(), Err(ConfigError::BadTimeStep));
    c.world.dt = -5;
    assert_eq!(c.validate(), Err(ConfigError::BadTimeStep));
}

#[test]
fn negative_rate_is_fatal() {
    let mut c = good();
    c.field.sigma_R = -1;
    assert_eq!(c.validate(), Err(ConfigError::RateOutOfRange));
}

#[test]
fn unstable_diffusion_is_fatal() {
    let mut c = good();
    c.world.dt = 1_000_000;
    c.field.D_R = 4_000_000;
    assert_eq!(c.validate(), Err(ConfigError::UnstableDiffusion));
}

#[test]
fn oversized_population_is_fatal() {
    let mut c = good();
    c.agents.herbivores = 1_000_001;
    assert_eq!(c.validate(), Err(ConfigError::TooManyAgents));
}

#[test]
fn derived_records_share_their_constants() {
    let c = good();
    let rd = RDParams::from_config(&c);
    let ag = AgentParams::from_config(&c);
    assert_eq!(rd.H_SCALE, H_SCALE);
    assert_eq!((rd.width, rd.height), (ag.width, ag.height));
    assert_eq!(rd.dt, ag.dt);
    assert!(validate_rd_params(&rd).is_ok());
    assert!(validate_agent_params(&ag, c.world.width, c.world.height).is_ok());
}

#[test]
fn mismatched_constants_are_caught() {
    let c = good();
    let mut rd = RDParams::from_config(&c);
    rd.H_SCALE = 130_000;
    assert_eq!(validate_rd_params(&rd), Err(ConfigError::ScaleMismatch));
    let ag = AgentParams::from_config(&c);
    assert_eq!(
        validate_agent_params(&ag, c.world.width + 1, c.world.height),
        Err(ConfigError::SizeMismatch)
    );
}

#[test]
fn mapper_copies_every_coefficient() {
    let c = SimulationConfig {
        world: WorldConfig { width: 40, height: 48, steps: 7, dt: 50_000, seed: 9 },
        field: FieldConfig {
            D_R: 1,
            D_W: 2,
            sigma_R: 3,
            alpha_H: 4,
            beta_H: 5,
            lambda_R: 6,
            lambda_W: 7,
        },
        chemotaxis: ChemotaxisConfig {
            chi_R: 8,
            chi_W: 9,
            kappa: 10,
            gamma: 11,
            v_max: 12,
            eps0: 13,
            eta_R: 14,
        },
        agents: AgentConfig { herbivores: 15, E0: 16 },
        noise: NoiseConfig { sigma: 0 },
        obstacles: ObstacleConfig { enabled: true },
    };
    let rd = RDParams::from_config(&c);
    assert_eq!(
        (rd.D_R, rd.D_W, rd.sigma_R, rd.alpha_H, rd.beta_H, rd.lambda_R, rd.lambda_W),
        (1, 2, 3, 4, 5, 6, 7)
    );
    assert_eq!((rd.dt, rd.width, rd.height), (50_000, 40, 48));
    let ag = AgentParams::from_config(&c);
    assert_eq!(
        (ag.chi_R, ag.chi_W, ag.kappa, ag.gamma, ag.v_max, ag.eps0, ag.eta_R),
        (8, 9, 10, 11, 12, 13, 14)
    );
    assert_eq!((ag.dt, ag.width, ag.height), (50_000, 40, 48));
}

#[test]
fn error_messages_are_fixed_text() {
    assert_eq!(
        ConfigError::WorldTooSmall.message(),
        "world size below the supported minimum"
    );
    assert!(!ConfigError::ScaleMismatch.message().is_empty());
    assert!(!ConfigError::SizeMismatch.message().is_empty());
}

#[test]
fn invalid_configuration_never_builds_a_simulation() {
    let mut c = good();
    c.world.width = 8;
    assert!(vireo::sim::Simulation::new(&c).is_err());
}
