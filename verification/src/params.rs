//! Configuration records and their mapping onto the two fixed-layout
//! kernel parameter records.  The mapping is the single source of truth
//! for both execution paths, and the shared constants (the density
//! scale and the world size) are checked for equality rather than
//! trusted to stay in step.

use vstd::prelude::*;

verus! {

use crate::fixed::FP_ONE;

/// Density-to-occupancy scale factor shared by both kernels: 0.125 per
/// agent per cell.
pub const H_SCALE: i64 = 125_000;

/// Saturation ceiling of a stored concentration.
pub const CELL_MAX: i64 = 65_504_000_000;

/// Energy ceiling of an agent.
pub const ENERGY_MAX: i64 = 1_000_000_000_000;

/// Largest admitted strength-type parameter (attraction, saturation,
/// speed limit): 100.0.
pub const STRENGTH_MAX: i64 = 100_000_000;

/// Largest admitted diffusion coefficient: 4.0.
pub const DIFFUSION_MAX: i64 = 4_000_000;

/// Smallest and largest admitted grid side, in cells.
pub const SIDE_MIN: u32 = 32;
pub const SIDE_MAX: u32 = 4096;

/// Largest admitted population size.
pub const AGENTS_MAX: u32 = 1_000_000;

#[derive(Clone, Copy, PartialEq, Eq, Structural, Debug)]
pub struct WorldConfig {
    pub width: u32,
    pub height: u32,
    pub steps: u32,
    pub dt: i64,
    pub seed: u64,
}

#[allow(non_snake_case)]
#[derive(Clone, Copy, PartialEq, Eq, Structural, Debug)]
pub struct FieldConfig {
    pub D_R: i64,
    pub D_W: i64,
    pub sigma_R: i64,
    pub alpha_H: i64,
    pub beta_H: i64,
    pub lambda_R: i64,
    pub lambda_W: i64,
}

#[allow(non_snake_case)]
#[derive(Clone, Copy, PartialEq, Eq, Structural, Debug)]
pub struct ChemotaxisConfig {
    pub chi_R: i64,
    pub chi_W: i64,
    pub kappa: i64,
    pub gamma: i64,
    pub v_max: i64,
    pub eps0: i64,
    pub eta_R: i64,
}

#[allow(non_snake_case)]
#[derive(Clone, Copy, PartialEq, Eq, Structural, Debug)]
pub struct AgentConfig {
    pub herbivores: u32,
    pub E0: i64,
}

#[derive(Clone, Copy, PartialEq, Eq, Structural, Debug)]
pub struct NoiseConfig {
    pub sigma: i64,
}

#[derive(Clone, Copy, PartialEq, Eq, Structural, Debug)]
pub struct ObstacleConfig {
    pub enabled: bool,
}

#[derive(Clone, Copy, PartialEq, Eq, Structural, Debug)]
pub struct SimulationConfig {
    pub world: WorldConfig,
    pub field: FieldConfig,
    pub chemotaxis: ChemotaxisConfig,
    pub agents: AgentConfig,
    pub noise: NoiseConfig,
    pub obstacles: ObstacleConfig,
}

/// Fixed-layout parameter record of the reaction-diffusion kernel.
#[allow(non_snake_case)]
#[derive(Clone, Copy, PartialEq, Eq, Structural, Debug)]
pub struct RDParams {
    pub D_R: i64,
    pub D_W: i64,
    pub sigma_R: i64,
    pub alpha_H: i64,
    pub beta_H: i64,
    pub lambda_R: i64,
    pub lambda_W: i64,
    pub dt: i64,
    pub width: u32,
    pub height: u32,
    pub H_SCALE: i64,
}

/// Fixed-layout parameter record of the agent chemotaxis kernel.
#[allow(non_snake_case)]
#[derive(Clone, Copy, PartialEq, Eq, Structural, Debug)]
pub struct AgentParams {
    pub chi_R: i64,
    pub chi_W: i64,
    pub kappa: i64,
    pub gamma: i64,
    pub v_max: i64,
    pub eps0: i64,
    pub eta_R: i64,
    pub dt: i64,
    pub width: u32,
    pub height: u32,
}

/// Reason a configuration is refused before any kernel runs.
#[derive(Clone, Copy, PartialEq, Eq, Structural, Debug)]
pub enum ConfigError {
    WorldTooSmall,
    WorldTooLarge,
    NoSteps,
    BadTimeStep,
    RateOutOfRange,
    UnstableDiffusion,
    TooManyAgents,
    ScaleMismatch,
    SizeMismatch,
}

impl ConfigError {
    /// A short fixed description, for the drivers' error reports.
    pub fn message(&self) -> &'static str {
        match self {
            ConfigError::WorldTooSmall => "world size below the supported minimum",
            ConfigError::WorldTooLarge => "world size above the supported maximum",
            ConfigError::NoSteps => "step count must be greater than 0",
            ConfigError::BadTimeStep => "time step must be positive and at most 1.0",
            ConfigError::RateOutOfRange => "a rate parameter is outside its admitted range",
            ConfigError::UnstableDiffusion => "diffusion too strong for the time step",
            ConfigError::TooManyAgents => "herbivore count above the supported maximum",
            ConfigError::ScaleMismatch => "density scale differs between the kernel records",
            ConfigError::SizeMismatch => "world size differs between the kernel records",
        }
    }
}

/// A decay- or gain-type rate: a fraction of the present value per unit
/// time, at most 1.0.
pub open spec fn rate_ok(x: int) -> bool {
    0 <= x <= FP_ONE
}

/// A strength-type coefficient, at most 100.0.
pub open spec fn strength_ok(x: int) -> bool {
    0 <= x <= STRENGTH_MAX
}

pub open spec fn side_ok(s: int) -> bool {
    SIDE_MIN <= s <= SIDE_MAX
}

/// Well-formedness of the reaction-diffusion record: every rate in
/// range, the explicit Euler step stable (`4 * dt * D <= 1`), and the
/// shared density scale at its one admitted value.
pub open spec fn rd_params_wf(p: RDParams) -> bool {
    &&& 0 <= p.D_R <= DIFFUSION_MAX
    &&& 0 <= p.D_W <= DIFFUSION_MAX
    &&& rate_ok(p.sigma_R as int)
    &&& rate_ok(p.alpha_H as int)
    &&& rate_ok(p.beta_H as int)
    &&& rate_ok(p.lambda_R as int)
    &&& rate_ok(p.lambda_W as int)
    &&& 0 < p.dt <= FP_ONE
    &&& 4 * p.dt * p.D_R <= FP_ONE * FP_ONE
    &&& 4 * p.dt * p.D_W <= FP_ONE * FP_ONE
    &&& side_ok(p.width as int)
    &&& side_ok(p.height as int)
    &&& p.H_SCALE == H_SCALE
}

/// Well-formedness of the chemotaxis record.
pub open spec fn agent_params_wf(p: AgentParams) -> bool {
    &&& strength_ok(p.chi_R as int)
    &&& strength_ok(p.chi_W as int)
    &&& 0 < p.kappa <= STRENGTH_MAX
    &&& rate_ok(p.gamma as int)
    &&& strength_ok(p.v_max as int)
    &&& rate_ok(p.eps0 as int)
    &&& rate_ok(p.eta_R as int)
    &&& 0 < p.dt <= FP_ONE
    &&& side_ok(p.width as int)
    &&& side_ok(p.height as int)
}

/// Well-formedness of a whole configuration: what `validate` accepts.
pub open spec fn config_wf(c: SimulationConfig) -> bool {
    &&& side_ok(c.world.width as int)
    &&& side_ok(c.world.height as int)
    &&& c.world.steps > 0
    &&& 0 < c.world.dt <= FP_ONE
    &&& 0 <= c.field.D_R <= DIFFUSION_MAX
    &&& 0 <= c.field.D_W <= DIFFUSION_MAX
    &&& 4 * c.world.dt * c.field.D_R <= FP_ONE * FP_ONE
    &&& 4 * c.world.dt * c.field.D_W <= FP_ONE * FP_ONE
    &&& rate_ok(c.field.sigma_R as int)
    &&& rate_ok(c.field.alpha_H as int)
    &&& rate_ok(c.field.beta_H as int)
    &&& rate_ok(c.field.lambda_R as int)
    &&& rate_ok(c.field.lambda_W as int)
    &&& strength_ok(c.chemotaxis.chi_R as int)
    &&& strength_ok(c.chemotaxis.chi_W as int)
    &&& 0 < c.chemotaxis.kappa <= STRENGTH_MAX
    &&& rate_ok(c.chemotaxis.gamma as int)
    &&& strength_ok(c.chemotaxis.v_max as int)
    &&& rate_ok(c.chemotaxis.eps0 as int)
    &&& rate_ok(c.chemotaxis.eta_R as int)
    &&& c.agents.herbivores <= AGENTS_MAX
    &&& 0 <= c.agents.E0 <= FP_ONE * 1000
    &&& 0 <= c.noise.sigma <= FP_ONE
}

impl SimulationConfig {
    /// Rejects a configuration that no kernel may see: a fatal,
    /// pre-run check.  Returns `Ok` exactly on well-formed
    /// configurations.
    pub fn validate(&self) -> (r: Result<(), ConfigError>)
        ensures
            r is Ok <==> config_wf(*self),
    {
        if self.world.width < SIDE_MIN || self.world.height < SIDE_MIN {
            return Err(ConfigError::WorldTooSmall);
        }
        if self.world.width > SIDE_MAX || self.world.height > SIDE_MAX {
            return Err(ConfigError::WorldTooLarge);
        }
        if self.world.steps == 0 {
            return Err(ConfigError::NoSteps);
        }
        if self.world.dt <= 0 || self.world.dt > FP_ONE {
            return Err(ConfigError::BadTimeStep);
        }
        if self.field.D_R < 0 || self.field.D_R > DIFFUSION_MAX || self.field.D_W < 0
            || self.field.D_W > DIFFUSION_MAX {
            return Err(ConfigError::RateOutOfRange);
        }
        proof {
            crate::fixed::lemma_mul_abs_bound(
                4 * self.world.dt as int,
                self.field.D_R as int,
                4 * FP_ONE as int,
                DIFFUSION_MAX as int,
            );
            crate::fixed::lemma_mul_abs_bound(
                4 * self.world.dt as int,
                self.field.D_W as int,
                4 * FP_ONE as int,
                DIFFUSION_MAX as int,
            );
        }
        if 4 * self.world.dt * self.field.D_R > FP_ONE * FP_ONE
            || 4 * self.world.dt * self.field.D_W > FP_ONE * FP_ONE {
            return Err(ConfigError::UnstableDiffusion);
        }
        if !rate_in_range(self.field.sigma_R) || !rate_in_range(self.field.alpha_H)
            || !rate_in_range(self.field.beta_H) || !rate_in_range(self.field.lambda_R)
            || !rate_in_range(self.field.lambda_W) {
            return Err(ConfigError::RateOutOfRange);
        }
        if !strength_in_range(self.chemotaxis.chi_R) || !strength_in_range(self.chemotaxis.chi_W)
            || self.chemotaxis.kappa <= 0 || self.chemotaxis.kappa > STRENGTH_MAX
            || !rate_in_range(self.chemotaxis.gamma) || !strength_in_range(self.chemotaxis.v_max)
            || !rate_in_range(self.chemotaxis.eps0) || !rate_in_range(self.chemotaxis.eta_R) {
            return Err(ConfigError::RateOutOfRange);
        }
        if self.agents.herbivores > AGENTS_MAX {
            return Err(ConfigError::TooManyAgents);
        }
        if self.agents.E0 < 0 || self.agents.E0 > FP_ONE * 1000 {
            return Err(ConfigError::RateOutOfRange);
        }
        if self.noise.sigma < 0 || self.noise.sigma > FP_ONE {
            return Err(ConfigError::RateOutOfRange);
        }
        Ok(())
    }
}

fn rate_in_range(x: i64) -> (r: bool)
    ensures
        r == rate_ok(x as int),
{
    0 <= x && x <= FP_ONE
}

fn strength_in_range(x: i64) -> (r: bool)
    ensures
        r == strength_ok(x as int),
{
    0 <= x && x <= STRENGTH_MAX
}

/// The reaction-diffusion record a configuration maps to.
pub open spec fn rd_params_of(c: SimulationConfig) -> RDParams {
    RDParams {
        D_R: c.field.D_R,
        D_W: c.field.D_W,
        sigma_R: c.field.sigma_R,
        alpha_H: c.field.alpha_H,
        beta_H: c.field.beta_H,
        lambda_R: c.field.lambda_R,
        lambda_W: c.field.lambda_W,
        dt: c.world.dt,
        width: c.world.width,
        height: c.world.height,
        H_SCALE: H_SCALE,
    }
}

/// The chemotaxis record a configuration maps to.
pub open spec fn agent_params_of(c: SimulationConfig) -> AgentParams {
    AgentParams {
        chi_R: c.chemotaxis.chi_R,
        chi_W: c.chemotaxis.chi_W,
        kappa: c.chemotaxis.kappa,
        gamma: c.chemotaxis.gamma,
        v_max: c.chemotaxis.v_max,
        eps0: c.chemotaxis.eps0,
        eta_R: c.chemotaxis.eta_R,
        dt: c.world.dt,
        width: c.world.width,
        height: c.world.height,
    }
}

impl RDParams {
    /// Derives the kernel record from the live configuration; called
    /// anew each tick so runtime edits reach the kernel.
    pub fn from_config(c: &SimulationConfig) -> (r: RDParams)
        ensures
            r == rd_params_of(*c),
            config_wf(*c) ==> rd_params_wf(r),
    {
        RDParams {
            D_R: c.field.D_R,
            D_W: c.field.D_W,
            sigma_R: c.field.sigma_R,
            alpha_H: c.field.alpha_H,
            beta_H: c.field.beta_H,
            lambda_R: c.field.lambda_R,
            lambda_W: c.field.lambda_W,
            dt: c.world.dt,
            width: c.world.width,
            height: c.world.height,
            H_SCALE: H_SCALE,
        }
    }
}

impl AgentParams {
    /// Derives the kernel record from the live configuration.
    pub fn from_config(c: &SimulationConfig) -> (r: AgentParams)
        ensures
            r == agent_params_of(*c),
            config_wf(*c) ==> agent_params_wf(r),
    {
        AgentParams {
            chi_R: c.chemotaxis.chi_R,
            chi_W: c.chemotaxis.chi_W,
            kappa: c.chemotaxis.kappa,
            gamma: c.chemotaxis.gamma,
            v_max: c.chemotaxis.v_max,
            eps0: c.chemotaxis.eps0,
            eta_R: c.chemotaxis.eta_R,
            dt: c.world.dt,
            width: c.world.width,
            height: c.world.height,
        }
    }
}

/// The shared constants the two records must agree on.
pub open spec fn params_consistent(rd: RDParams, ag: AgentParams) -> bool {
    &&& rd.H_SCALE == H_SCALE
    &&& rd.width == ag.width
    &&& rd.height == ag.height
    &&& rd.dt == ag.dt
}

/// Checks the density scale of a derived record: a mismatch is a fatal
/// configuration error, never a silent continue.
pub fn validate_rd_params(p: &RDParams) -> (r: Result<(), ConfigError>)
    ensures
        r is Ok <==> p.H_SCALE == H_SCALE,
        r is Err ==> r->Err_0 == ConfigError::ScaleMismatch,
{
    if p.H_SCALE == H_SCALE {
        Ok(())
    } else {
        Err(ConfigError::ScaleMismatch)
    }
}

/// Checks the world size of a derived chemotaxis record against the
/// size the field kernel was built for.
pub fn validate_agent_params(p: &AgentParams, expected_width: u32, expected_height: u32) -> (r:
    Result<(), ConfigError>)
    ensures
        r is Ok <==> (p.width == expected_width && p.height == expected_height),
        r is Err ==> r->Err_0 == ConfigError::SizeMismatch,
{
    if p.width == expected_width && p.height == expected_height {
        Ok(())
    } else {
        Err(ConfigError::SizeMismatch)
    }
}

/// Both records derived from one configuration agree on every shared
/// constant: the two execution paths cannot drift apart.
pub proof fn lemma_derived_params_consistent(c: SimulationConfig)
    ensures
        params_consistent(rd_params_of(c), agent_params_of(c)),
{
}

/// A well-formed configuration derives well-formed kernel records.
pub proof fn lemma_derived_params_wf(c: SimulationConfig)
    requires
        config_wf(c),
    ensures
        rd_params_wf(rd_params_of(c)),
        agent_params_wf(agent_params_of(c)),
{
}

impl Default for SimulationConfig {
    /// The stock configuration: a 128 x 128 world, 2000 steps of 0.1,
    /// and the reference coefficient set.
    fn default() -> (r: Self)
        ensures
            config_wf(r),
            r.world.width == 128 && r.world.height == 128,
            r.world.steps == 2000 && r.world.dt == 100_000 && r.world.seed == 1337,
            r.agents.herbivores == 2000 && r.agents.E0 == FP_ONE,
    {
        SimulationConfig {
            world: WorldConfig { width: 128, height: 128, steps: 2000, dt: 100_000, seed: 1337 },
            field: FieldConfig {
                D_R: 500_000,
                D_W: 200_000,
                sigma_R: 5_000,
                alpha_H: 100_000,
                beta_H: 50_000,
                lambda_R: 5_000,
                lambda_W: 5_000,
            },
            chemotaxis: ChemotaxisConfig {
                chi_R: 8_000_000,
                chi_W: 4_000_000,
                kappa: 2_000_000,
                gamma: 50_000,
                v_max: 2_000_000,
                eps0: 20_000,
                eta_R: 200_000,
            },
            agents: AgentConfig { herbivores: 2000, E0: FP_ONE },
            noise: NoiseConfig { sigma: 0 },
            obstacles: ObstacleConfig { enabled: false },
        }
    }
}

} // verus!
