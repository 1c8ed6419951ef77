use vireo::agents::Agent;
use vireo::field::FieldData;
use vireo::fixed::FP_ONE;
use vireo::kernels::{agent_step, rd_step};
use vireo::params::{AgentParams, RDParams};

fn rd_params(width: u32, height: u32) -> RDParams {
    RDParams {
        D_R: 0,
        D_W: 0,
        sigma_R: 0,
        alpha_H: 0,
        beta_H: 0,
        lambda_R: 0,
        lambda_W: 0,
        dt: 100_000,
        width,
        height,
        H_SCALE: 125_000,
    }
}

fn agent_params(width: u32, height: u32) -> AgentParams {
    AgentParams {
        chi_R: 0,
        chi_W: 0,
        kappa: 2_000_000,
        gamma: 0,
        v_max: 2_000_000,
        eps0: 0,
        eta_R: 0,
        dt: 100_000,
        width,
        height,
    }
}

#[test]
fn rd_step_replenishes_an_empty_grid_exactly() {
    let n = 32 * 32;
    let front = vec![FieldData::zero(); n];
    let occ = vec![0u32; n];
    let mut back = Vec::new();
    let mut p = rd_params(32, 32);
    p.sigma_R = 20_000;
    rd_step(&front, &occ, &mut back, &p);
    assert_eq!(back.len(), n);
    // replenishment toward capacity 1.0: 0.02 * 1.0 * 0.1 = 0.002
    for c in &back {
        assert_eq!(c.R, 2_000);
        assert_eq!(c.W, 0);
    }
}

#[test]
fn rd_step_uptake_and_emission_are_exact() {
    let n = 32 * 32;
    let front = vec![FieldData::new(FP_ONE, 0); n];
    let mut occ = vec![0u32; n];
    occ[100] = 8;
    let mut back = Vec::new();
    let mut p = rd_params(32, 32);
    p.alpha_H = 200_000;
    p.beta_H = 50_000;
    rd_step(&front, &occ, &mut back, &p);
    // eight occupants at scale 0.125 give density 1.0; removal is
    // alpha * density * dt * R = 0.02 of one unit
    assert_eq!(back[100].R, 980_000);
    assert_eq!(back[100].W, 1_000);
    // an unoccupied cell is untouched
    assert_eq!(back[101].R, FP_ONE);
    assert_eq!(back[101].W, 0);
}

#[test]
fn agent_step_damps_moves_and_deposits_exactly() {
    let n = 32 * 32;
    let front = vec![FieldData::zero(); n];
    let mut occ = vec![0u32; n];
    let mut agents = vec![Agent {
        pos_x: 16_000_000,
        pos_y: 16_000_000,
        vel_x: 100_000,
        vel_y: 0,
        energy: FP_ONE,
        alive: 1,
        kind: 1,
    }];
    let mut p = agent_params(32, 32);
    p.gamma = 200_000;
    agent_step(&mut agents, &front, &mut occ, &p);
    let a = &agents[0];
    // damping: v' = v - gamma * v * dt = 0.1 * (1 - 0.02)
    assert_eq!(a.vel_x, 98_000);
    assert_eq!(a.vel_y, 0);
    // integration: x' = x + v' * dt
    assert_eq!(a.pos_x, 16_009_800);
    assert_eq!(a.pos_y, 16_000_000);
    // no drain, no gain: energy and life unchanged
    assert_eq!(a.energy, FP_ONE);
    assert_eq!(a.alive, 1);
    // one deposit at the cell nearest the new position
    let idx = 16 * 32 + 16;
    assert_eq!(occ[idx], 1);
    assert_eq!(occ.iter().map(|v| *v as u64).sum::<u64>(), 1);
}

#[test]
fn dead_agents_are_inert_and_deposit_nothing() {
    let n = 32 * 32;
    let front = vec![FieldData::new(FP_ONE, 0); n];
    let mut occ = vec![0u32; n];
    let before = Agent {
        pos_x: 5_000_000,
        pos_y: 5_000_000,
        vel_x: 500_000,
        vel_y: -500_000,
        energy: 0,
        alive: 0,
        kind: 2,
    };
    let mut agents = vec![before];
    let mut p = agent_params(32, 32);
    p.gamma = 200_000;
    p.eps0 = 20_000;
    p.eta_R = 200_000;
    agent_step(&mut agents, &front, &mut occ, &p);
    assert_eq!(agents[0], before);
    assert!(occ.iter().all(|&v| v == 0));
}

#[test]
fn exhausted_agents_die_during_the_step() {
    let n = 32 * 32;
    let front = vec![FieldData::zero(); n];
    let mut occ = vec![0u32; n];
    let mut agents = vec![Agent {
        pos_x: 5_000_000,
        pos_y: 5_000_000,
        vel_x: 0,
        vel_y: 0,
        energy: 1_000,
        alive: 1,
        kind: 1,
    }];
    let mut p = agent_params(32, 32);
    // basal drain 0.02 * 0.1 = 0.002 exceeds the remaining 0.001
    p.eps0 = 20_000;
    agent_step(&mut agents, &front, &mut occ, &p);
    assert_eq!(agents[0].alive, 0);
    assert_eq!(agents[0].energy, 0);
    assert!(occ.iter().all(|&v| v == 0));
}
