//! The step orchestrator: the double-buffered field pair with its
//! parity bit, and the per-tick protocol that clears the occupancy
//! grid, runs the agent kernel, runs the field kernel from front to
//! back, and swaps parity exactly once.

use vstd::prelude::*;

verus! {

use crate::agents::Agent;
use crate::agents::AgentManager;
use crate::agents::alive_count;
use crate::agents::spawned_agents;
use crate::field::FieldData;
use crate::field::FieldManager;
use crate::field::grid_wf;
use crate::kernels::agent_next_spec;
use crate::kernels::agent_step;
use crate::kernels::clear_occupancy;
use crate::kernels::occ_count;
use crate::kernels::rd_cell_spec;
use crate::kernels::rd_step;
use crate::params::AGENTS_MAX;
use crate::params::AgentParams;
use crate::params::ConfigError;
use crate::params::RDParams;
use crate::params::SimulationConfig;
use crate::params::agent_params_of;
use crate::params::config_wf;
use crate::params::rd_params_of;
use crate::params::side_ok;
use crate::params::validate_agent_params;
use crate::params::validate_rd_params;
use crate::seeder::seed_grid;

/// Two independently owned grids referenced through one parity bit:
/// at any time exactly one is the front (read view), the other the
/// back (write target).  `swap` toggles the bit and never moves data.
pub struct FieldPingPong {
    pub a: Vec<FieldData>,
    pub b: Vec<FieldData>,
    pub front_is_a: bool,
    pub width: u32,
    pub height: u32,
}

impl FieldPingPong {
    pub open spec fn wf(&self) -> bool {
        &&& grid_wf(self.a@, self.width as int, self.height as int)
        &&& grid_wf(self.b@, self.width as int, self.height as int)
    }

    /// The grid currently valid for reading.
    pub open spec fn front(&self) -> Seq<FieldData> {
        if self.front_is_a {
            self.a@
        } else {
            self.b@
        }
    }

    /// Two all-zero grids, front on A.
    pub fn new(width: u32, height: u32) -> (r: FieldPingPong)
        requires
            side_ok(width as int),
            side_ok(height as int),
        ensures
            r.wf(),
            r.width == width && r.height == height,
            r.front_is_a,
            forall|i: int| 0 <= i < r.a@.len() ==> (#[trigger] r.a@[i]).R == 0 && r.a@[i].W == 0,
    {
        let fm = FieldManager::new(width, height);
        let fm2 = FieldManager::new(width, height);
        FieldPingPong { a: fm.data, b: fm2.data, front_is_a: true, width, height }
    }

    /// Borrow of the read view: valid for sampling, never for writing.
    pub fn read_view(&self) -> (r: &Vec<FieldData>)
        ensures
            r@ == self.front(),
    {
        if self.front_is_a {
            &self.a
        } else {
            &self.b
        }
    }

    /// The grid size, in cells.
    pub fn size(&self) -> (r: (u32, u32))
        ensures
            r.0 == self.width && r.1 == self.height,
    {
        (self.width, self.height)
    }

    /// Flips parity; O(1); exactly once per completed field pass.
    pub fn swap(&mut self)
        ensures
            *final(self) == (FieldPingPong { front_is_a: !old(self).front_is_a, ..*old(self) }),
    {
        self.front_is_a = !self.front_is_a;
    }

    /// Replaces the whole front grid, as the synchronous upload of a
    /// reseeded or rehydrated CPU-side grid.
    pub fn upload_front(&mut self, cells: Vec<FieldData>)
        requires
            old(self).wf(),
            grid_wf(cells@, old(self).width as int, old(self).height as int),
        ensures
            final(self).wf(),
            final(self).width == old(self).width && final(self).height == old(self).height,
            final(self).front_is_a == old(self).front_is_a,
            final(self).front() == cells@,
    {
        if self.front_is_a {
            self.a = cells;
        } else {
            self.b = cells;
        }
    }

    /// Copies the current front grid out, as the synchronous
    /// read-back the observability pipeline uses: the returned buffer
    /// is complete before anything reads it.
    pub fn download_front(&self) -> (r: Vec<FieldData>)
        ensures
            r@ == self.front(),
    {
        let src = self.read_view();
        let n = src.len();
        let mut out: Vec<FieldData> = Vec::new();
        let mut i: usize = 0;
        while i < n
            invariant
                n == src@.len(),
                out@.len() == i,
                i <= n,
                forall|j: int| 0 <= j < i ==> #[trigger] out@[j] == src@[j],
            decreases n - i,
        {
            out.push(src[i]);
            i = i + 1;
        }
        proof {
            assert(out@ =~= self.front());
        }
        out
    }

    /// Full reallocation at a new size: contents are lost and must be
    /// reseeded or rehydrated by the caller; parity resets to A.
    pub fn recreate(&mut self, width: u32, height: u32)
        requires
            side_ok(width as int),
            side_ok(height as int),
        ensures
            final(self).wf(),
            final(self).width == width && final(self).height == height,
            final(self).front_is_a,
            forall|i: int|
                0 <= i < final(self).a@.len() ==> (#[trigger] final(self).a@[i]).R == 0
                    && final(self).a@[i].W == 0,
    {
        let fresh = FieldPingPong::new(width, height);
        *self = fresh;
    }
}

/// What one completed tick does, stated over the state it started
/// from: every agent moved one chemotaxis step against the old front
/// view, the occupancy grid holding exactly the new deposits, and the
/// new front holding one reaction-diffusion step of the old front
/// against that occupancy.
pub open spec fn tick_post(old_sim: Simulation, new_sim: Simulation) -> bool {
    let rdp = rd_params_of(old_sim.config);
    let agp = agent_params_of(old_sim.config);
    let w = old_sim.config.world.width as int;
    let h = old_sim.config.world.height as int;
    &&& new_sim.config == old_sim.config
    &&& new_sim.completed_steps == old_sim.completed_steps + 1
    &&& new_sim.field.front_is_a == !old_sim.field.front_is_a
    &&& new_sim.agents.agents@.len() == old_sim.agents.agents@.len()
    &&& forall|k: int|
        0 <= k < old_sim.agents.agents@.len() ==> #[trigger] new_sim.agents.agents@[k]
            == agent_next_spec(old_sim.agents.agents@[k], old_sim.field.front(), agp)
    &&& forall|c: int|
        0 <= c < new_sim.occupancy@.len() ==> #[trigger] new_sim.occupancy@[c] == occ_count(
            new_sim.agents.agents@,
            new_sim.agents.agents@.len() as int,
            c,
            w,
            h,
        )
    &&& new_sim.field.front().len() == old_sim.field.front().len()
    &&& forall|i: int|
        0 <= i < new_sim.field.front().len() ==> #[trigger] new_sim.field.front()[i]
            == rd_cell_spec(old_sim.field.front(), new_sim.occupancy@, rdp, i)
}

/// The simulation: configuration, kernel parameter records, the field
/// pair, the occupancy grid, the agent store, and the tick counter.
pub struct Simulation {
    pub config: SimulationConfig,
    pub field: FieldPingPong,
    pub occupancy: Vec<u32>,
    pub agents: AgentManager,
    pub completed_steps: u64,
}

impl Simulation {
    /// The orchestrator's invariant, including the parity law: after
    /// `n` completed swaps the front is A exactly when `n` is even.
    pub open spec fn wf(&self) -> bool {
        &&& config_wf(self.config)
        &&& self.field.wf()
        &&& self.field.width == self.config.world.width
        &&& self.field.height == self.config.world.height
        &&& self.occupancy@.len() == self.config.world.width as int
            * self.config.world.height as int
        &&& self.agents.wf()
        &&& self.agents.width == self.config.world.width
        &&& self.agents.height == self.config.world.height
        &&& self.field.front_is_a == (self.completed_steps % 2 == 0)
    }

    /// Builds a simulation from a validated configuration: field
    /// seeded from the world seed, population spawned from the same
    /// seed, parity on A, tick counter zero.  Re-checks the shared
    /// kernel constants and fails fast on any mismatch; an invalid
    /// configuration is refused before any kernel state exists.
    pub fn new(config: &SimulationConfig) -> (r: Result<Simulation, ConfigError>)
        ensures
            r is Ok <==> config_wf(*config),
            r is Ok ==> {
                let s = r->Ok_0;
                &&& s.wf()
                &&& s.config == *config
                &&& s.completed_steps == 0
                &&& s.field.front_is_a
                &&& s.field.front() == seed_grid(
                    config.world.width as int,
                    config.world.height as int,
                    config.world.seed,
                )
                &&& s.agents.agents@ == spawned_agents(
                    config.agents.herbivores as int,
                    config.world.width as int,
                    config.world.height as int,
                    config.agents.E0 as int,
                    config.world.seed,
                )
            },
    {
        config.validate()?;
        let rdp = RDParams::from_config(config);
        let agp = AgentParams::from_config(config);
        validate_rd_params(&rdp)?;
        validate_agent_params(&agp, config.world.width, config.world.height)?;
        let w = config.world.width;
        let h = config.world.height;
        let mut field = FieldPingPong::new(w, h);
        let seeded = crate::seeder::seeded_grid(w, h, config.world.seed);
        field.upload_front(seeded);
        let mut occ_zero: Vec<u32> = Vec::new();
        let n = field.b.len();
        let mut i: usize = 0;
        while i < n
            invariant
                occ_zero@.len() == i,
                i <= n,
            decreases n - i,
        {
            occ_zero.push(0);
            i = i + 1;
        }
        let agents = AgentManager::new(config.agents.herbivores, w, h, config.agents.E0, config.world.seed);
        Ok(
            Simulation {
                config: *config,
                field,
                occupancy: occ_zero,
                agents,
                completed_steps: 0,
            },
        )
    }

    /// The number of agents currently alive: zero means extinction,
    /// the normal early-termination condition.
    pub fn alive(&self) -> (r: u32)
        requires
            self.wf(),
        ensures
            r == alive_count(self.agents.agents@, self.agents.agents@.len() as int),
    {
        self.agents.get_alive_count()
    }

    /// One tick of the per-tick protocol: derive the kernel records
    /// from the live configuration, zero the occupancy grid, run the
    /// agent kernel (reads front, writes occupancy), run the field
    /// kernel (reads front and occupancy, writes back), and swap
    /// parity exactly once.
    pub fn tick(&mut self)
        requires
            old(self).wf(),
            old(self).completed_steps < 0xffff_ffff_ffff_ffff,
        ensures
            final(self).wf(),
            tick_post(*old(self), *final(self)),
    {
        let rdp = RDParams::from_config(&self.config);
        let agp = AgentParams::from_config(&self.config);
        clear_occupancy(&mut self.occupancy);
        if self.field.front_is_a {
            agent_step(&mut self.agents.agents, &self.field.a, &mut self.occupancy, &agp);
            proof {
                lemma_occ_le_total(
                    self.agents.agents@,
                    self.occupancy@,
                    agp.width as int,
                    agp.height as int,
                );
            }
            rd_step(&self.field.a, &self.occupancy, &mut self.field.b, &rdp);
        } else {
            agent_step(&mut self.agents.agents, &self.field.b, &mut self.occupancy, &agp);
            proof {
                lemma_occ_le_total(
                    self.agents.agents@,
                    self.occupancy@,
                    agp.width as int,
                    agp.height as int,
                );
            }
            rd_step(&self.field.b, &self.occupancy, &mut self.field.a, &rdp);
        }
        self.field.swap();
        self.completed_steps = self.completed_steps + 1;
    }

    /// Copies the current front grid into a CPU-side field store, as
    /// the observability pipeline's synchronous read-back.
    pub fn download_front(&self, fm: &mut FieldManager)
        requires
            self.wf(),
            old(fm).wf(),
            old(fm).width == self.config.world.width,
            old(fm).height == self.config.world.height,
        ensures
            final(fm).wf(),
            final(fm).width == old(fm).width && final(fm).height == old(fm).height,
            final(fm).stats == old(fm).stats,
            final(fm).data@ == self.field.front(),
    {
        let out = self.field.download_front();
        fm.data = out;
    }
}

/// A freshly filled occupancy grid never exceeds the population size.
proof fn lemma_occ_le_total(agents: Seq<Agent>, occ: Seq<u32>, w: int, h: int)
    requires
        agents.len() <= 3 * AGENTS_MAX,
        forall|c: int|
            0 <= c < occ.len() ==> #[trigger] occ[c] == occ_count(
                agents,
                agents.len() as int,
                c,
                w,
                h,
            ),
    ensures
        forall|c: int| 0 <= c < occ.len() ==> #[trigger] occ[c] <= 3 * AGENTS_MAX,
{
    assert forall|c: int| 0 <= c < occ.len() implies #[trigger] occ[c] <= 3 * AGENTS_MAX by {
        crate::kernels::lemma_occ_count_le(agents, agents.len() as int, c, w, h);
    }
}

/// Non-negativity: in every well-formed simulation state — so after
/// every completed swap — both concentrations of every front cell are
/// non-negative and within the representable band.
pub proof fn lemma_front_in_band(s: Simulation)
    requires
        s.wf(),
    ensures
        forall|i: int|
            0 <= i < s.field.front().len() ==> 0 <= (#[trigger] s.field.front()[i]).R
                <= crate::params::CELL_MAX && 0 <= s.field.front()[i].W <= crate::params::CELL_MAX,
{
}

/// Parity: in every well-formed simulation state, after exactly `n`
/// completed swaps the front is grid A exactly when `n` is even,
/// starting from front-is-A at zero; `tick` preserves this.
pub proof fn lemma_swap_parity(s: Simulation)
    requires
        s.wf(),
    ensures
        s.field.front_is_a == (s.completed_steps % 2 == 0),
{
}

/// Whether this tick is on the metrics cadence: every fiftieth step.
pub fn is_metrics_tick(step: u32) -> (r: bool)
    ensures
        r == (step % 50 == 0),
{
    step % 50 == 0
}

/// Whether this tick is a snapshot milestone.
pub fn is_milestone_tick(step: u32) -> (r: bool)
    ensures
        r == (step == 0 || step == 200 || step == 1000 || step == 2000),
{
    step == 0 || step == 200 || step == 1000 || step == 2000
}

} // verus!
