//! The agent store: a flat array of point agents (position, velocity,
//! energy, alive flag, kind), its deterministic seeded placement, and
//! the statistics pass over living agents.

use vstd::prelude::*;

verus! {

use crate::fixed::FP_ONE;
use crate::fixed::clamped;
use crate::fixed::fp_scale;
use crate::fixed::isqrt;
use crate::fixed::lemma_mul_abs_bound;
use crate::fixed::lemma_sqrt_floor_bounds;
use crate::fixed::lemma_sqrt_floor_ge;
use crate::fixed::lemma_sqrt_floor_le;
use crate::fixed::lemma_sqrt_floor_pos;
use crate::fixed::lemma_tdiv_abs;
use crate::fixed::lemma_tdiv_exact;
use crate::fixed::lemma_tdiv_monotone;
use crate::fixed::sqrt_floor;
use crate::fixed::tdiv;
use crate::params::AGENTS_MAX;
use crate::params::ENERGY_MAX;
use crate::params::STRENGTH_MAX;
use crate::params::side_ok;
use crate::rng::chacha_stream;
use crate::rng::chacha_words;
use crate::rng::ranged;
use crate::rng::word_in_range;

/// Agent kinds.
pub const KIND_PLANT: u32 = 0;

pub const KIND_HERBIVORE: u32 = 1;

pub const KIND_PREDATOR: u32 = 2;

/// One point agent.  Positions are fixed-point world coordinates,
/// velocities fixed-point units per unit time.
#[derive(Clone, Copy, PartialEq, Eq, Structural, Debug)]
pub struct Agent {
    pub pos_x: i64,
    pub pos_y: i64,
    pub vel_x: i64,
    pub vel_y: i64,
    pub energy: i64,
    pub alive: u32,
    pub kind: u32,
}

/// An agent inside a `w` by `h` world, with bounded velocity and
/// energy and a two-valued alive flag.
pub open spec fn agent_ok(a: Agent, w: int, h: int) -> bool {
    &&& 0 <= a.pos_x <= w * FP_ONE
    &&& 0 <= a.pos_y <= h * FP_ONE
    &&& -STRENGTH_MAX <= a.vel_x <= STRENGTH_MAX
    &&& -STRENGTH_MAX <= a.vel_y <= STRENGTH_MAX
    &&& 0 <= a.energy <= ENERGY_MAX
    &&& (a.alive == 0 || a.alive == 1)
    &&& a.kind <= 2
}

/// A well-formed population.
pub open spec fn agents_wf(agents: Seq<Agent>, w: int, h: int) -> bool {
    &&& side_ok(w)
    &&& side_ok(h)
    &&& agents.len() <= 3 * AGENTS_MAX
    &&& forall|k: int| 0 <= k < agents.len() ==> agent_ok(#[trigger] agents[k], w, h)
}

impl Agent {
    pub fn new(pos_x: i64, pos_y: i64, energy: i64, kind: u32) -> (r: Agent)
        ensures
            r == (Agent { pos_x, pos_y, vel_x: 0, vel_y: 0, energy, alive: 1, kind }),
    {
        Agent { pos_x, pos_y, vel_x: 0, vel_y: 0, energy, alive: 1, kind }
    }

    pub fn position(&self) -> (r: (i64, i64))
        ensures
            r.0 == self.pos_x && r.1 == self.pos_y,
    {
        (self.pos_x, self.pos_y)
    }

    pub fn velocity(&self) -> (r: (i64, i64))
        ensures
            r.0 == self.vel_x && r.1 == self.vel_y,
    {
        (self.vel_x, self.vel_y)
    }

    pub fn is_alive(&self) -> (r: bool)
        ensures
            r == (self.alive == 1),
    {
        self.alive == 1
    }

    /// Death is a flag flip, never a removal.
    pub fn kill(&mut self)
        ensures
            *final(self) == (Agent { alive: 0, ..*old(self) }),
    {
        self.alive = 0;
    }
}

/// Agent statistics over currently-living agents only.
#[derive(Clone, Copy, PartialEq, Eq, Structural, Debug)]
pub struct AgentStats {
    pub alive_count: u32,
    pub total_energy: i64,
    pub mean_energy: i64,
    pub mean_velocity: i64,
    pub foraging_efficiency: i64,
}

/// The all-zero statistics record.
pub open spec fn zero_agent_stats() -> AgentStats {
    AgentStats {
        alive_count: 0,
        total_energy: 0,
        mean_energy: 0,
        mean_velocity: 0,
        foraging_efficiency: 0,
    }
}

impl Default for AgentStats {
    fn default() -> (r: Self)
        ensures
            r == zero_agent_stats(),
    {
        AgentStats {
            alive_count: 0,
            total_energy: 0,
            mean_energy: 0,
            mean_velocity: 0,
            foraging_efficiency: 0,
        }
    }
}

/// Number of living agents among the first `n`.
pub open spec fn alive_count(agents: Seq<Agent>, n: int) -> int
    decreases n,
{
    if n <= 0 {
        0
    } else {
        alive_count(agents, n - 1) + if agents[n - 1].alive == 1 {
            1int
        } else {
            0int
        }
    }
}

/// Total energy of living agents among the first `n`.
pub open spec fn alive_energy(agents: Seq<Agent>, n: int) -> int
    decreases n,
{
    if n <= 0 {
        0
    } else {
        alive_energy(agents, n - 1) + if agents[n - 1].alive == 1 {
            agents[n - 1].energy as int
        } else {
            0int
        }
    }
}

/// Speed of one agent: the rounded norm of its velocity.
pub open spec fn speed_of(a: Agent) -> int {
    sqrt_floor(a.vel_x * a.vel_x + a.vel_y * a.vel_y)
}

/// Total speed of living agents among the first `n`.
pub open spec fn alive_speed(agents: Seq<Agent>, n: int) -> int
    decreases n,
{
    if n <= 0 {
        0
    } else {
        alive_speed(agents, n - 1) + if agents[n - 1].alive == 1 {
            speed_of(agents[n - 1])
        } else {
            0int
        }
    }
}

/// The statistics record a population maps to: all zero when nothing
/// is alive, never a division by zero.
pub open spec fn agent_stats_of(agents: Seq<Agent>) -> AgentStats {
    let n = agents.len() as int;
    let c = alive_count(agents, n);
    if c == 0 {
        zero_agent_stats()
    } else {
        let te = alive_energy(agents, n);
        let me = tdiv(te, c);
        let mv = tdiv(alive_speed(agents, n), c);
        AgentStats {
            alive_count: c as u32,
            total_energy: te as i64,
            mean_energy: me as i64,
            mean_velocity: mv as i64,
            foraging_efficiency: (if mv > 0 {
                clamped(tdiv(me * FP_ONE, mv), 0, 0x7fff_ffff_ffff_ffff)
            } else {
                0int
            }) as i64,
        }
    }
}

/// With no living agent every statistic is zero: no division, no
/// undefined value.
pub proof fn lemma_stats_on_empty(agents: Seq<Agent>)
    requires
        alive_count(agents, agents.len() as int) == 0,
    ensures
        agent_stats_of(agents) == zero_agent_stats(),
{
}

/// The agent store.
pub struct AgentManager {
    pub width: u32,
    pub height: u32,
    pub herbivores: u32,
    pub agents: Vec<Agent>,
    pub stats: AgentStats,
}

impl AgentManager {
    pub open spec fn wf(&self) -> bool {
        &&& agents_wf(self.agents@, self.width as int, self.height as int)
        &&& self.herbivores <= AGENTS_MAX
    }

    /// Deterministic seeded placement: plants, then herbivores, then
    /// predators, in fixed ratios off the herbivore baseline.
    pub fn new(herbivore_count: u32, width: u32, height: u32, initial_energy: i64, seed: u64) -> (r:
        AgentManager)
        requires
            side_ok(width as int),
            side_ok(height as int),
            herbivore_count <= AGENTS_MAX,
            0 <= initial_energy <= FP_ONE * 1000,
        ensures
            r.wf(),
            r.width == width && r.height == height && r.herbivores == herbivore_count,
            r.agents@ == spawned_agents(
                herbivore_count as int,
                width as int,
                height as int,
                initial_energy as int,
                seed,
            ),
            r.stats == zero_agent_stats(),
    {
        let agents = spawn_population(herbivore_count, width, height, initial_energy, seed);
        AgentManager {
            width,
            height,
            herbivores: herbivore_count,
            agents,
            stats: AgentStats::default(),
        }
    }

    /// Number of agents currently alive.
    pub fn get_alive_count(&self) -> (r: u32)
        requires
            self.wf(),
        ensures
            r == alive_count(self.agents@, self.agents@.len() as int),
    {
        let n = self.agents.len();
        let mut c: u32 = 0;
        let mut i: usize = 0;
        while i < n
            invariant
                n == self.agents@.len(),
                n <= 3 * AGENTS_MAX,
                i <= n,
                c == alive_count(self.agents@, i as int),
                c <= i,
            decreases n - i,
        {
            if self.agents[i].alive == 1 {
                c = c + 1;
            }
            i = i + 1;
        }
        c
    }

    /// One pass over the population: count, total and mean energy,
    /// mean speed, and the energy-per-speed ratio, over living agents
    /// only; all zero if nothing is alive.
    pub fn update_stats(&mut self)
        requires
            old(self).wf(),
        ensures
            final(self).wf(),
            final(self).agents@ == old(self).agents@,
            final(self).width == old(self).width && final(self).height == old(self).height,
            final(self).herbivores == old(self).herbivores,
            final(self).stats == agent_stats_of(old(self).agents@),
    {
        let n = self.agents.len();
        let mut c: u32 = 0;
        let mut te: i64 = 0;
        let mut ts: i64 = 0;
        let mut i: usize = 0;
        while i < n
            invariant
                agents_wf(self.agents@, self.width as int, self.height as int),
                self == old(self),
                n == self.agents@.len(),
                n <= 3 * AGENTS_MAX,
                i <= n,
                c == alive_count(self.agents@, i as int),
                c <= i,
                te == alive_energy(self.agents@, i as int),
                0 <= te <= i * ENERGY_MAX,
                ts == alive_speed(self.agents@, i as int),
                0 <= ts <= i * 150_000_000,
            decreases n - i,
        {
            let a = self.agents[i];
            if a.alive == 1 {
                c = c + 1;
                te = te + a.energy;
                proof {
                    lemma_mul_abs_bound(
                        a.vel_x as int,
                        a.vel_x as int,
                        STRENGTH_MAX as int,
                        STRENGTH_MAX as int,
                    );
                    lemma_mul_abs_bound(
                        a.vel_y as int,
                        a.vel_y as int,
                        STRENGTH_MAX as int,
                        STRENGTH_MAX as int,
                    );
                    assert(a.vel_x * a.vel_x >= 0 && a.vel_y * a.vel_y >= 0) by (nonlinear_arith);
                    lemma_sqrt_floor_le(
                        (a.vel_x * a.vel_x + a.vel_y * a.vel_y) as int,
                        150_000_000,
                    );
                    lemma_sqrt_floor_bounds((a.vel_x * a.vel_x + a.vel_y * a.vel_y) as int);
                }
                let sp = isqrt(
                    ((a.vel_x as i128) * (a.vel_x as i128) + (a.vel_y as i128) * (a.vel_y as i128))
                        as u128,
                );
                ts = ts + (sp as i64);
            }
            i = i + 1;
        }
        if c == 0 {
            self.stats = AgentStats::default();
        } else {
            let ci = c as i64;
            let me = te / ci;
            let mv = ts / ci;
            proof {
                lemma_tdiv_abs(te as int, ci as int, te as int);
                lemma_tdiv_abs(ts as int, ci as int, ts as int);
                lemma_mul_abs_bound(me as int, FP_ONE as int, te as int, FP_ONE as int);
            }
            let fe: i64 = if mv > 0 {
                let raw: i128 = (me as i128) * (FP_ONE as i128) / (mv as i128);
                if raw > 0x7fff_ffff_ffff_ffff {
                    0x7fff_ffff_ffff_ffff
                } else {
                    raw as i64
                }
            } else {
                0
            };
            self.stats = AgentStats {
                alive_count: c,
                total_energy: te,
                mean_energy: me,
                mean_velocity: mv,
                foraging_efficiency: fe,
            };
        }
    }

    /// Fully re-derives the population from the same placement rules.
    pub fn reset(&mut self, initial_energy: i64, seed: u64)
        requires
            old(self).wf(),
            0 <= initial_energy <= FP_ONE * 1000,
        ensures
            final(self).wf(),
            final(self).width == old(self).width && final(self).height == old(self).height,
            final(self).herbivores == old(self).herbivores,
            final(self).agents@ == spawned_agents(
                old(self).herbivores as int,
                old(self).width as int,
                old(self).height as int,
                initial_energy as int,
                seed,
            ),
            final(self).stats == zero_agent_stats(),
    {
        let agents = spawn_population(self.herbivores, self.width, self.height, initial_energy, seed);
        self.agents = agents;
        self.stats = AgentStats::default();
    }
}

/// Total population for a herbivore baseline: plants and predators
/// scale off it.
pub open spec fn total_of(hc: int) -> int {
    3 * hc
}

/// About a sixth of the population are plants.
pub open spec fn plants_of(hc: int) -> int {
    3 * hc / 6
}

/// About a sixth are predators.
pub open spec fn predators_of(hc: int) -> int {
    3 * hc / 6
}

/// The remainder are herbivores.
pub open spec fn herbs_of(hc: int) -> int {
    3 * hc - 2 * (3 * hc / 6)
}

/// Random words one placement consumes: two per plant, five per mobile
/// agent.
pub open spec fn spawn_words(hc: int) -> int {
    2 * plants_of(hc) + 5 * herbs_of(hc) + 5 * predators_of(hc)
}

/// Placement band of a side, inset by a per-kind margin; a two pixel
/// window around the middle if the world is too narrow for the margin.
/// In fixed-point world coordinates.
pub open spec fn inset_span(size: int, inset: int) -> (int, int) {
    if size > 2 * inset {
        (inset * FP_ONE, (size - inset) * FP_ONE)
    } else {
        ((size / 2 - 1) * FP_ONE, (size / 2 + 1) * FP_ONE)
    }
}

/// Initial velocity of a mobile agent: a random heading scaled to a
/// random bounded speed.
pub open spec fn spawn_velocity(wdx: u64, wdy: u64, ws: u64, s_lo: int, s_hi: int) -> (int, int) {
    let rx = ranged(wdx, -1000, 1001);
    let ry = ranged(wdy, -1000, 1001);
    let dx = if rx == 0 && ry == 0 {
        1000int
    } else {
        rx
    };
    let dy = if rx == 0 && ry == 0 {
        0int
    } else {
        ry
    };
    let norm = sqrt_floor(dx * dx + dy * dy);
    let sp = ranged(ws, s_lo, s_hi);
    (tdiv(dx * sp, norm), tdiv(dy * sp, norm))
}

/// The `k`-th agent of a placement: plants first, then herbivores,
/// then predators, each kind with its own inset, energy and speed
/// band.
pub open spec fn spawned_agent(hc: int, w: int, h: int, e0: int, words: Seq<u64>, k: int) -> Agent {
    let plants = plants_of(hc);
    let herbs = herbs_of(hc);
    if k < plants {
        let xs = inset_span(w, 20);
        let ys = inset_span(h, 20);
        Agent {
            pos_x: ranged(words[2 * k], xs.0, xs.1) as i64,
            pos_y: ranged(words[2 * k + 1], ys.0, ys.1) as i64,
            vel_x: 0,
            vel_y: 0,
            energy: tdiv(e0 * 1_500_000, FP_ONE as int) as i64,
            alive: 1,
            kind: KIND_PLANT,
        }
    } else if k < plants + herbs {
        let base = 2 * plants + 5 * (k - plants);
        let xs = inset_span(w, 10);
        let ys = inset_span(h, 10);
        let v = spawn_velocity(words[base + 2], words[base + 3], words[base + 4], 100_000, 500_000);
        Agent {
            pos_x: ranged(words[base], xs.0, xs.1) as i64,
            pos_y: ranged(words[base + 1], ys.0, ys.1) as i64,
            vel_x: v.0 as i64,
            vel_y: v.1 as i64,
            energy: e0 as i64,
            alive: 1,
            kind: KIND_HERBIVORE,
        }
    } else {
        let base = 2 * plants + 5 * herbs + 5 * (k - plants - herbs);
        let xs = inset_span(w, 30);
        let ys = inset_span(h, 30);
        let v = spawn_velocity(words[base + 2], words[base + 3], words[base + 4], 200_000, 800_000);
        Agent {
            pos_x: ranged(words[base], xs.0, xs.1) as i64,
            pos_y: ranged(words[base + 1], ys.0, ys.1) as i64,
            vel_x: v.0 as i64,
            vel_y: v.1 as i64,
            energy: tdiv(e0 * 1_200_000, FP_ONE as int) as i64,
            alive: 1,
            kind: KIND_PREDATOR,
        }
    }
}

/// The whole placement: a pure function of baseline count, world size,
/// starting energy and seed.
pub open spec fn spawned_agents(hc: int, w: int, h: int, e0: int, seed: u64) -> Seq<Agent> {
    let words = chacha_stream(seed, spawn_words(hc));
    Seq::new(total_of(hc) as nat, |k: int| spawned_agent(hc, w, h, e0, words, k))
}

/// Placement is deterministic: two populations spawned from the same
/// arguments are identical, agent for agent.
pub proof fn lemma_spawn_deterministic(
    hc: int,
    w: int,
    h: int,
    e0: int,
    seed: u64,
    a1: Seq<Agent>,
    a2: Seq<Agent>,
)
    requires
        a1 == spawned_agents(hc, w, h, e0, seed),
        a2 == spawned_agents(hc, w, h, e0, seed),
    ensures
        a1 == a2,
{
}

/// Executable placement band.
fn inset_span_px(size: u32, inset: u32) -> (r: (i64, i64))
    requires
        side_ok(size as int),
        inset <= 30,
    ensures
        (r.0 as int, r.1 as int) == inset_span(size as int, inset as int),
        0 <= r.0 < r.1 <= size * FP_ONE,
{
    if size > 2 * inset {
        ((inset as i64) * FP_ONE, ((size - inset) as i64) * FP_ONE)
    } else {
        (((size / 2 - 1) as i64) * FP_ONE, ((size / 2 + 1) as i64) * FP_ONE)
    }
}

/// Executable initial velocity.
fn spawn_vel(wdx: u64, wdy: u64, ws: u64, s_lo: i64, s_hi: i64) -> (r: (i64, i64))
    requires
        0 < s_lo < s_hi <= 800_000,
    ensures
        (r.0 as int, r.1 as int) == spawn_velocity(wdx, wdy, ws, s_lo as int, s_hi as int),
        -800_000 <= r.0 <= 800_000,
        -800_000 <= r.1 <= 800_000,
{
    let rx = word_in_range(wdx, -1000, 1001);
    let ry = word_in_range(wdy, -1000, 1001);
    let dx: i64 = if rx == 0 && ry == 0 {
        1000
    } else {
        rx
    };
    let dy: i64 = if rx == 0 && ry == 0 {
        0
    } else {
        ry
    };
    proof {
        assert(0 <= dx * dx <= 1_000_000 && 0 <= dy * dy <= 1_000_000) by (nonlinear_arith)
            requires
                -1000 <= dx <= 1000,
                -1000 <= dy <= 1000;
        assert(1 <= dx * dx + dy * dy) by (nonlinear_arith)
            requires
                -1000 <= dx <= 1000,
                -1000 <= dy <= 1000,
                !(dx == 0 && dy == 0);
    }
    let d2 = dx * dx + dy * dy;
    let norm64 = isqrt(d2 as u128);
    proof {
        lemma_sqrt_floor_bounds(d2 as int);
        lemma_sqrt_floor_le(d2 as int, 1415);
        lemma_sqrt_floor_pos(d2 as int);
        assert(dx * dx <= d2 && dy * dy <= d2);
        if dx >= 0 {
            lemma_sqrt_floor_ge(d2 as int, dx as int);
        } else {
            assert((-dx) * (-dx) == dx * dx) by (nonlinear_arith);
            lemma_sqrt_floor_ge(d2 as int, -dx as int);
        }
        if dy >= 0 {
            lemma_sqrt_floor_ge(d2 as int, dy as int);
        } else {
            assert((-dy) * (-dy) == dy * dy) by (nonlinear_arith);
            lemma_sqrt_floor_ge(d2 as int, -dy as int);
        }
    }
    let norm = norm64 as i64;
    let sp = word_in_range(ws, s_lo, s_hi);
    proof {
        lemma_mul_abs_bound(dx as int, sp as int, norm as int, 800_000);
        lemma_mul_abs_bound(dy as int, sp as int, norm as int, 800_000);
        lemma_tdiv_monotone(dx as int * sp as int, (norm as int) * 800_000, norm as int);
        lemma_tdiv_monotone(-((norm as int) * 800_000), dx as int * sp as int, norm as int);
        lemma_tdiv_monotone(dy as int * sp as int, (norm as int) * 800_000, norm as int);
        lemma_tdiv_monotone(-((norm as int) * 800_000), dy as int * sp as int, norm as int);
        lemma_tdiv_exact(800_000, norm as int);
        lemma_tdiv_exact(-800_000, norm as int);
        assert((norm as int) * 800_000 == 800_000 * (norm as int)) by (nonlinear_arith);
        assert(-((norm as int) * 800_000) == (-800_000) * (norm as int)) by (nonlinear_arith);
    }
    let vx = crate::fixed::fp_scale(dx, sp, norm);
    let vy = crate::fixed::fp_scale(dy, sp, norm);
    (vx, vy)
}

/// Executable placement.
#[verifier::loop_isolation(false)]
#[verifier::rlimit(100)]
fn spawn_population(herbivore_count: u32, width: u32, height: u32, initial_energy: i64, seed: u64)
    -> (r: Vec<Agent>)
    requires
        side_ok(width as int),
        side_ok(height as int),
        herbivore_count <= AGENTS_MAX,
        0 <= initial_energy <= FP_ONE * 1000,
    ensures
        r@ == spawned_agents(
            herbivore_count as int,
            width as int,
            height as int,
            initial_energy as int,
            seed,
        ),
        agents_wf(r@, width as int, height as int),
{
    let total: usize = (herbivore_count as usize) * 3;
    let plants: usize = total / 6;
    let preds: usize = total / 6;
    let herbs: usize = total - plants - preds;
    let nw: usize = 2 * plants + 5 * herbs + 5 * preds;
    let words = chacha_words(seed, nw);
    let ghost stream = words@;
    let e_plant = crate::fixed::fp_scale(initial_energy, 1_500_000, FP_ONE);
    let e_pred = crate::fixed::fp_scale(initial_energy, 1_200_000, FP_ONE);
    proof {
        lemma_mul_abs_bound(initial_energy as int, 1_500_000, 1_000_000_000, 1_500_000);
        lemma_tdiv_abs(initial_energy as int * 1_500_000, FP_ONE as int, 1_500_000_000_000_000);
        lemma_tdiv_monotone(0, initial_energy as int * 1_500_000, FP_ONE as int);
        lemma_tdiv_monotone(
            initial_energy as int * 1_500_000,
            1_500_000_000_000_000,
            FP_ONE as int,
        );
        lemma_mul_abs_bound(initial_energy as int, 1_200_000, 1_000_000_000, 1_200_000);
        lemma_tdiv_monotone(0, initial_energy as int * 1_200_000, FP_ONE as int);
        lemma_tdiv_monotone(
            initial_energy as int * 1_200_000,
            1_500_000_000_000_000,
            FP_ONE as int,
        );
        crate::fixed::lemma_tdiv_zero(FP_ONE as int);
        assert(initial_energy as int * 1_500_000 >= 0 && initial_energy as int * 1_200_000 >= 0)
            by (nonlinear_arith)
            requires initial_energy >= 0;
    }
    let xs_plant = inset_span_px(width, 20);
    let ys_plant = inset_span_px(height, 20);
    let xs_herb = inset_span_px(width, 10);
    let ys_herb = inset_span_px(height, 10);
    let xs_pred = inset_span_px(width, 30);
    let ys_pred = inset_span_px(height, 30);
    let mut out: Vec<Agent> = Vec::new();
    let mut k: usize = 0;
    while k < plants
        invariant
            out@.len() == k,
            k <= plants,
            forall|j: int|
                0 <= j < k ==> #[trigger] out@[j] == spawned_agent(
                    herbivore_count as int,
                    width as int,
                    height as int,
                    initial_energy as int,
                    stream,
                    j,
                ) && agent_ok(out@[j], width as int, height as int),
        decreases plants - k,
    {
        let px = word_in_range(words[2 * k], xs_plant.0, xs_plant.1);
        let py = word_in_range(words[2 * k + 1], ys_plant.0, ys_plant.1);
        out.push(
            Agent {
                pos_x: px,
                pos_y: py,
                vel_x: 0,
                vel_y: 0,
                energy: e_plant,
                alive: 1,
                kind: KIND_PLANT,
            },
        );
        k = k + 1;
    }
    let mut j: usize = 0;
    while j < herbs
        invariant
            out@.len() == plants + j,
            j <= herbs,
            forall|q: int|
                0 <= q < plants + j ==> #[trigger] out@[q] == spawned_agent(
                    herbivore_count as int,
                    width as int,
                    height as int,
                    initial_energy as int,
                    stream,
                    q,
                ) && agent_ok(out@[q], width as int, height as int),
        decreases herbs - j,
    {
        let base = 2 * plants + 5 * j;
        let px = word_in_range(words[base], xs_herb.0, xs_herb.1);
        let py = word_in_range(words[base + 1], ys_herb.0, ys_herb.1);
        let v = spawn_vel(words[base + 2], words[base + 3], words[base + 4], 100_000, 500_000);
        out.push(
            Agent {
                pos_x: px,
                pos_y: py,
                vel_x: v.0,
                vel_y: v.1,
                energy: initial_energy,
                alive: 1,
                kind: KIND_HERBIVORE,
            },
        );
        j = j + 1;
    }
    let mut q: usize = 0;
    while q < preds
        invariant
            out@.len() == plants + herbs + q,
            q <= preds,
            forall|t: int|
                0 <= t < plants + herbs + q ==> #[trigger] out@[t] == spawned_agent(
                    herbivore_count as int,
                    width as int,
                    height as int,
                    initial_energy as int,
                    stream,
                    t,
                ) && agent_ok(out@[t], width as int, height as int),
        decreases preds - q,
    {
        let base = 2 * plants + 5 * herbs + 5 * q;
        let px = word_in_range(words[base], xs_pred.0, xs_pred.1);
        let py = word_in_range(words[base + 1], ys_pred.0, ys_pred.1);
        let v = spawn_vel(words[base + 2], words[base + 3], words[base + 4], 200_000, 800_000);
        out.push(
            Agent {
                pos_x: px,
                pos_y: py,
                vel_x: v.0,
                vel_y: v.1,
                energy: e_pred,
                alive: 1,
                kind: KIND_PREDATOR,
            },
        );
        q = q + 1;
    }
    proof {
        assert(out@ =~= spawned_agents(
            herbivore_count as int,
            width as int,
            height as int,
            initial_energy as int,
            seed,
        ));
    }
    out
}

} // verus!
