//! Propagation of world events into agent pressure: a broad phase over grid
//! cells, a narrow phase per agent and listener, distance attenuation, and
//! habituation feedback.
use std::sync::Arc;
use vstd::prelude::*;
use crate::error::CoreError;
use vstd::arithmetic::div_mod::{lemma_div_is_ordered, lemma_div_by_multiple};
use crate::fixed::{
    clamp, clamp_wide, fx_mul, fx_mul_spec, saturate, saturate_wide, trunc_product, ONE, SATURATION,
};
use crate::hfps::{
    calculate_hash, name_hash, AgentSystem, BehaviorProfile, Stimulus, ADAPTATION_MAX,
    ADAPTATION_MIN,
};
use crate::spatial::{walk, nearby_cells, GridState, SpatialGrid, CELL_COUNT, MAX_AGENTS};

verus! {

/// The influence radius that `emit` scans around an event: `500.0`.
pub const INFLUENCE_RADIUS: i64 = 500 * ONE;

/// Share of a pressure that feeds habituation: `0.01`.
pub const HABITUATION_SHARE: i64 = 10_000_000;

/// A pulse in the world: a named event at `origin` with strength
/// `base_intensity` at its source.
pub struct WorldEvent {
    pub name: String,
    pub origin: (i64, i64),
    pub base_intensity: i64,
}

/// Stateless propagation of world events through a grid into an agent store.
pub struct EventBroker;

/// The event as the narrow phase sees it: its identity hash, origin and intensity.
pub struct Pulse {
    pub hash: u64,
    pub origin: (i64, i64),
    pub intensity: i64,
}

/// What propagation reads of the store and never writes.
pub struct Frozen {
    pub x: Seq<i64>,
    pub y: Seq<i64>,
    pub profiles: Seq<Arc<BehaviorProfile>>,
    pub dna: Seq<Seq<i64>>,
}

/// What propagation writes: `channels[c][i]` and `adaptation[c][i]`.
pub struct Columns {
    pub channels: Seq<Seq<i64>>,
    pub adaptation: Seq<Seq<i64>>,
}

impl AgentSystem {
    pub open spec fn frozen(&self) -> Frozen {
        Frozen {
            x: self.x@,
            y: self.y@,
            profiles: self.profiles@,
            dna: Seq::new(4, |c: int| self.dna_modifiers@[c]@),
        }
    }

    pub open spec fn columns(&self) -> Columns {
        Columns {
            channels: Seq::new(4, |c: int| self.channels@[c]@),
            adaptation: Seq::new(4, |c: int| self.adaptation@[c]@),
        }
    }
}

/// Squared planar distance between `p` and `q`.
pub open spec fn dist_sq(p: (i64, i64), q: (i64, i64)) -> int {
    (p.0 - q.0) * (p.0 - q.0) + (p.1 - q.1) * (p.1 - q.1)
}

/// `s` is the integer square root of `n`.
pub open spec fn is_floor_sqrt(n: nat, s: nat) -> bool {
    s * s <= n < (s + 1) * (s + 1)
}

/// The integer square root of `n`.
pub open spec fn floor_sqrt(n: nat) -> nat {
    choose|s: nat| is_floor_sqrt(n, s)
}

/// Linear attenuation: `1` at the origin, `0` at `radius`.
pub open spec fn falloff(dist: int, radius: int) -> int {
    ONE - (dist * ONE) / radius
}

/// The pressure of an event of `intensity` on a listener of `power` at `falloff`.
pub open spec fn pressure(intensity: int, power: int, falloff: int) -> int {
    fx_mul_spec(fx_mul_spec(intensity, power), falloff)
}

/// Sensitivity scaled by habituation and by the long-term modifier.
pub open spec fn effective_sensitivity(sensitivity: int, adaptation: int, dna: int) -> int {
    fx_mul_spec(fx_mul_spec(sensitivity, ONE + adaptation), dna)
}

/// How far a pressure pushes habituation down.
pub open spec fn habituation_push(pressure: int, rate: int) -> int {
    fx_mul_spec(
        fx_mul_spec(if pressure < 0 { -pressure } else { pressure }, rate),
        HABITUATION_SHARE as int,
    )
}

/// The columns after listener `s` of agent `i` reacts to `pulse`; unchanged
/// where the identity differs or the agent lies beyond the listener's radius.
pub open spec fn react(cols: Columns, fr: Frozen, i: int, s: Stimulus, pulse: Pulse) -> Columns {
    let d2 = dist_sq((fr.x[i], fr.y[i]), pulse.origin);
    if s.event_hash == pulse.hash && d2 <= s.radius * s.radius {
        let c = s.channel.spec_index();
        let p = pressure(
            pulse.intensity as int,
            s.power as int,
            falloff(floor_sqrt(d2 as nat) as int, s.radius as int),
        );
        let profile = fr.profiles[i];
        let a = cols.adaptation[c][i];
        let eff = effective_sensitivity(profile.sensitivity@[c] as int, a as int, fr.dna[c][i] as int);
        let v = saturate(cols.channels[c][i] + fx_mul_spec(p, eff));
        let push = habituation_push(p, profile.adaptation_rates@[c] as int);
        let a2 = clamp(a - push, ADAPTATION_MIN as int, ADAPTATION_MAX as int);
        Columns {
            channels: cols.channels.update(c, cols.channels[c].update(i, v as i64)),
            adaptation: cols.adaptation.update(c, cols.adaptation[c].update(i, a2 as i64)),
        }
    } else {
        cols
    }
}

/// The listeners `ls` of agent `i` react to `pulse`, in order.
pub open spec fn react_all(cols: Columns, fr: Frozen, i: int, ls: Seq<Stimulus>, pulse: Pulse) -> Columns
    decreases ls.len(),
{
    if ls.len() == 0 {
        cols
    } else {
        react(react_all(cols, fr, i, ls.drop_last(), pulse), fr, i, ls.last(), pulse)
    }
}

/// Every agent of `agents` reacts to `pulse` with all its listeners, in order.
pub open spec fn visit_agents(cols: Columns, fr: Frozen, agents: Seq<int>, pulse: Pulse) -> Columns
    decreases agents.len(),
{
    if agents.len() == 0 {
        cols
    } else {
        let i = agents.last();
        react_all(
            visit_agents(cols, fr, agents.drop_last(), pulse),
            fr,
            i,
            fr.profiles[i].listeners@,
            pulse,
        )
    }
}

/// Every bucket of `cells` is visited, in order.
pub open spec fn visit_cells(
    cols: Columns,
    fr: Frozen,
    grid: GridState,
    cells: Seq<usize>,
    pulse: Pulse,
) -> Columns
    decreases cells.len(),
{
    if cells.len() == 0 {
        cols
    } else {
        visit_agents(
            visit_cells(cols, fr, grid, cells.drop_last(), pulse),
            fr,
            grid.bucket(cells.last() as int),
            pulse,
        )
    }
}

/// Every agent in the buckets of `cells` is a row of a store of `count` agents.
pub open spec fn buckets_in_store(grid: GridState, cells: Seq<usize>, count: int) -> bool {
    forall|k: int, j: int|
        0 <= k < cells.len() && 0 <= j < grid.bucket(cells[k] as int).len() ==> #[trigger] grid.bucket(
            cells[k] as int,
        )[j] < count
}

/// The outcome of propagating `pulse` over the cells within `radius` of its
/// origin: if a bucket names an agent beyond the store, `IndexOutOfRange`
/// and nothing changed; otherwise the visited columns, all else unchanged.
pub open spec fn propagated(
    before: AgentSystem,
    after: AgentSystem,
    r: Result<(), CoreError>,
    grid: GridState,
    pulse: Pulse,
    radius: int,
) -> bool {
    let cells = nearby_cells(grid.cell_size, pulse.origin, radius);
    &&& after.wf()
    &&& (r is Err <==> !buckets_in_store(grid, cells, before.count as int))
    &&& r is Err ==> r == Err::<(), CoreError>(CoreError::IndexOutOfRange) && after == before
    &&& r is Ok ==> {
        &&& after.count == before.count
        &&& after.frozen() == before.frozen()
        &&& after.active_flags@ == before.active_flags@
        &&& after.columns() == visit_cells(before.columns(), before.frozen(), grid, cells, pulse)
    }
}

/// The integer square root is the only root that fits.
pub proof fn lemma_floor_sqrt_unique(n: nat, s: nat)
    requires
        is_floor_sqrt(n, s),
    ensures
        floor_sqrt(n) == s,
{
    let t = floor_sqrt(n);
    assert(is_floor_sqrt(n, t));
    if t < s {
        assert((t + 1) * (t + 1) <= s * s) by (nonlinear_arith)
            requires
                t + 1 <= s,
        ;
    } else if s < t {
        assert((s + 1) * (s + 1) <= t * t) by (nonlinear_arith)
            requires
                s + 1 <= t,
        ;
    }
}

/// The integer square root of `n`, by bisection.
fn floor_sqrt_of(n: u128) -> (r: u64)
    requires
        n < 0x4000_0000_0000_0000_0000_0000_0000_0000,
    ensures
        r == floor_sqrt(n as nat),
        is_floor_sqrt(n as nat, r as nat),
{
    let mut lo: u128 = 0;
    let mut hi: u128 = 0x8000_0000_0000_0000;
    assert(n < hi * hi);
    while hi - lo > 1
        invariant
            lo < hi <= 0x8000_0000_0000_0000,
            lo * lo <= n,
            n < hi * hi,
        decreases hi - lo,
    {
        let mid: u128 = lo + (hi - lo) / 2;
        assert(mid * mid < 0x4000_0000_0000_0000_0000_0000_0000_0000) by (nonlinear_arith)
            requires
                mid < 0x8000_0000_0000_0000,
        ;
        if mid * mid <= n {
            lo = mid;
        } else {
            hi = mid;
        }
    }
    proof {
        lemma_floor_sqrt_unique(n as nat, lo as nat);
    }
    lo as u64
}

/// Listener after listener of agent `i` reacts to the event.
fn react_agent(system: &mut AgentSystem, i: usize, hash: u64, origin: (i64, i64), intensity: i64)
    requires
        old(system).wf(),
        i < old(system).count,
    ensures
        final(system).wf(),
        final(system).count == old(system).count,
        final(system).frozen() == old(system).frozen(),
        final(system).active_flags@ == old(system).active_flags@,
        final(system).columns() == react_all(
            old(system).columns(),
            old(system).frozen(),
            i as int,
            old(system).profiles@[i as int].listeners@,
            Pulse { hash, origin, intensity },
        ),
{
    let ghost pulse = Pulse { hash, origin, intensity };
    let ghost fr = system.frozen();
    let ghost cols0 = system.columns();
    let ghost ls = system.profiles@[i as int].listeners@;
    let dx: i128 = system.x[i] as i128 - origin.0 as i128;
    let dy: i128 = system.y[i] as i128 - origin.1 as i128;
    let ax: u128 = if dx < 0 {
        (-dx) as u128
    } else {
        dx as u128
    };
    let ay: u128 = if dy < 0 {
        (-dy) as u128
    } else {
        dy as u128
    };
    proof {
        assert(ax * ax < 0x1_0000_0000_0000_0000_0000_0000_0000_0000 && dx * dx == ax * ax)
            by (nonlinear_arith)
            requires
                ax < 0x1_0000_0000_0000_0000,
                ax == dx || ax == -dx,
        ;
        assert(ay * ay < 0x1_0000_0000_0000_0000_0000_0000_0000_0000 && dy * dy == ay * ay)
            by (nonlinear_arith)
            requires
                ay < 0x1_0000_0000_0000_0000,
                ay == dy || ay == -dy,
        ;
    }
    let d2: u128 = (ax * ax).saturating_add(ay * ay);
    assert(d2 == if dist_sq((fr.x[i as int], fr.y[i as int]), origin) > u128::MAX {
        u128::MAX as int
    } else {
        dist_sq((fr.x[i as int], fr.y[i as int]), origin)
    });
    let n = system.profiles[i].listeners.len();
    let mut k: usize = 0;
    while k < n
        invariant
            system.wf(),
            i < system.count,
            system.count == old(system).count,
            system.x@ == old(system).x@,
            system.y@ == old(system).y@,
            system.profiles@ == old(system).profiles@,
            system.dna_modifiers == old(system).dna_modifiers,
            system.active_flags@ == old(system).active_flags@,
            fr == old(system).frozen(),
            ls == system.profiles@[i as int].listeners@,
            n == ls.len(),
            k <= n,
            pulse == (Pulse { hash, origin, intensity }),
            d2 == if dist_sq((fr.x[i as int], fr.y[i as int]), origin) > u128::MAX {
                u128::MAX as int
            } else {
                dist_sq((fr.x[i as int], fr.y[i as int]), origin)
            },
            system.columns() == react_all(cols0, fr, i as int, ls.take(k as int), pulse),
        decreases n - k,
    {
        let ghost before = system.columns();
        let s_hash = system.profiles[i].listeners[k].event_hash;
        let channel = system.profiles[i].listeners[k].channel;
        let power = system.profiles[i].listeners[k].power;
        let radius = system.profiles[i].listeners[k].radius;
        proof {
            assert(ls.take(k + 1).drop_last() =~= ls.take(k as int));
            assert(system.profiles@[i as int].wf());
            assert(ls[k as int].radius > 0);
        }
        if s_hash == hash {
            let r: u128 = radius as u128;
            assert(r * r < 0x4000_0000_0000_0000_0000_0000_0000_0000) by (nonlinear_arith)
                requires
                    r < 0x8000_0000_0000_0000,
            ;
            let r2: u128 = r * r;
            if d2 <= r2 {
                let d = floor_sqrt_of(d2);
                proof {
                    assert(d * d <= d2);
                    assert(d <= r) by (nonlinear_arith)
                        requires
                            d * d <= r * r,
                            r > 0,
                            d >= 0,
                    ;
                    assert(d * ONE <= r * ONE) by (nonlinear_arith)
                        requires
                            d <= r,
                    ;
                    lemma_div_is_ordered(d * ONE, r * ONE, r as int);
                    lemma_div_by_multiple(ONE as int, r as int);
                    assert((r * ONE) == (ONE * r)) by (nonlinear_arith);
                }
                let q: u128 = ((d as u128) * (ONE as u128)) / r;
                let f: i64 = ONE - q as i64;
                let p = fx_mul(fx_mul(intensity, power), f);
                let c = channel.index();
                let a = system.adaptation[c][i];
                let eff = fx_mul(
                    fx_mul(system.profiles[i].sensitivity[c], ONE + a),
                    system.dna_modifiers[c][i],
                );
                let v = saturate_wide(system.channels[c][i] as i128 + fx_mul(p, eff) as i128);
                let abs_p: i64 = if p < 0 {
                    -p
                } else {
                    p
                };
                let push = fx_mul(
                    fx_mul(abs_p, system.profiles[i].adaptation_rates[c]),
                    HABITUATION_SHARE,
                );
                let a2 = clamp_wide(a as i128 - push as i128, ADAPTATION_MIN, ADAPTATION_MAX);
                system.channels[c].set(i, v);
                system.adaptation[c].set(i, a2);
                proof {
                    assert(system.columns().channels =~= before.channels.update(
                        c as int,
                        before.channels[c as int].update(i as int, v),
                    ));
                    assert(system.columns().adaptation =~= before.adaptation.update(
                        c as int,
                        before.adaptation[c as int].update(i as int, a2),
                    ));
                }
            }
        }
        k = k + 1;
    }
    assert(ls.take(n as int) =~= ls);
}

/// Whether every agent in the buckets of `cells` is a row of a store of `count` agents.
fn buckets_checked(grid: &SpatialGrid, cells: &Vec<usize>, count: usize) -> (r: bool)
    requires
        grid.wf(),
        forall|k: int| 0 <= k < cells@.len() ==> #[trigger] cells@[k] < CELL_COUNT,
    ensures
        r == buckets_in_store(grid@, cells@, count as int),
{
    let mut k: usize = 0;
    while k < cells.len()
        invariant
            grid.wf(),
            forall|kk: int| 0 <= kk < cells@.len() ==> #[trigger] cells@[kk] < CELL_COUNT,
            k <= cells@.len(),
            forall|kk: int, j: int|
                0 <= kk < k && 0 <= j < grid@.bucket(cells@[kk] as int).len() ==> #[trigger] grid@.bucket(
                    cells@[kk] as int,
                )[j] < count,
        decreases cells@.len() - k,
    {
        let cell = cells[k];
        let ghost bucket = grid@.bucket(cell as int);
        let mut cur: i32 = grid.heads[cell];
        let mut fuel: usize = MAX_AGENTS;
        let ghost mut done: Seq<int> = Seq::empty();
        assert(done + walk(grid@.next, cur as int, fuel as nat) =~= bucket);
        while fuel > 0 && cur >= 0
            invariant
                grid.wf(),
                -1 <= cur < MAX_AGENTS,
                k < cells@.len(),
                cell == cells@[k as int],
                bucket == grid@.bucket(cell as int),
                done + walk(grid@.next, cur as int, fuel as nat) == bucket,
                forall|j: int| 0 <= j < done.len() ==> #[trigger] done[j] < count,
            decreases fuel,
        {
            let ghost rest = walk(grid@.next, grid@.next[cur as int] as int, (fuel - 1) as nat);
            assert(walk(grid@.next, cur as int, fuel as nat) == seq![cur as int] + rest);
            assert(bucket[done.len() as int] == cur);
            if cur as usize >= count {
                assert(grid@.bucket(cells@[k as int] as int)[done.len() as int] >= count);
                return false;
            }
            assert(done.push(cur as int) + rest =~= done + (seq![cur as int] + rest));
            proof {
                done = done.push(cur as int);
            }
            cur = grid.next[cur as usize];
            fuel = fuel - 1;
        }
        assert(done =~= bucket);
        k = k + 1;
    }
    true
}

impl EventBroker {
    /// Propagates an event whose name hashes to `event_hash`: every agent in a
    /// grid cell within `influence_radius` of the origin is visited, and each
    /// of its listeners for that identity whose radius reaches the agent adds
    /// `intensity * power * falloff * effective sensitivity` to its channel
    /// and pushes its habituation down by `|pressure| * adaptation rate * 0.01`,
    /// clamped to `[ADAPTATION_MIN, ADAPTATION_MAX]`.
    pub fn propagate(
        event_hash: u64,
        event: &WorldEvent,
        system: &mut AgentSystem,
        grid: &SpatialGrid,
        influence_radius: i64,
    ) -> (r: Result<(), CoreError>)
        requires
            old(system).wf(),
            grid.wf(),
        ensures
            propagated(
                *old(system),
                *final(system),
                r,
                grid@,
                Pulse { hash: event_hash, origin: event.origin, intensity: event.base_intensity },
                influence_radius as int,
            ),
    {
        let ghost pulse = Pulse {
            hash: event_hash,
            origin: event.origin,
            intensity: event.base_intensity,
        };
        let cells = grid.get_nearby_cells(event.origin, influence_radius);
        if !buckets_checked(grid, &cells, system.count) {
            return Err(CoreError::IndexOutOfRange);
        }
        let ghost fr = system.frozen();
        let ghost cols0 = system.columns();
        let mut k: usize = 0;
        while k < cells.len()
            invariant
                system.wf(),
                grid.wf(),
                system.count == old(system).count,
                system.frozen() == fr,
                fr == old(system).frozen(),
                cols0 == old(system).columns(),
                system.active_flags@ == old(system).active_flags@,
                forall|kk: int| 0 <= kk < cells@.len() ==> #[trigger] cells@[kk] < CELL_COUNT,
                buckets_in_store(grid@, cells@, system.count as int),
                k <= cells@.len(),
                pulse == (Pulse {
                    hash: event_hash,
                    origin: event.origin,
                    intensity: event.base_intensity,
                }),
                system.columns() == visit_cells(cols0, fr, grid@, cells@.take(k as int), pulse),
            decreases cells@.len() - k,
        {
            let cell = cells[k];
            let ghost bucket = grid@.bucket(cell as int);
            let ghost base = system.columns();
            let mut cur: i32 = grid.heads[cell];
            let mut fuel: usize = MAX_AGENTS;
            let ghost mut done: Seq<int> = Seq::empty();
            assert(done + walk(grid@.next, cur as int, fuel as nat) =~= bucket);
            while fuel > 0 && cur >= 0
                invariant
                    system.wf(),
                    grid.wf(),
                    system.count == old(system).count,
                    system.frozen() == fr,
                    system.active_flags@ == old(system).active_flags@,
                    -1 <= cur < MAX_AGENTS,
                    done + walk(grid@.next, cur as int, fuel as nat) == bucket,
                    forall|j: int| 0 <= j < bucket.len() ==> #[trigger] bucket[j] < system.count,
                    system.columns() == visit_agents(base, fr, done, pulse),
                    pulse == (Pulse {
                        hash: event_hash,
                        origin: event.origin,
                        intensity: event.base_intensity,
                    }),
                decreases fuel,
            {
                let ghost rest = walk(grid@.next, grid@.next[cur as int] as int, (fuel - 1) as nat);
                assert(walk(grid@.next, cur as int, fuel as nat) == seq![cur as int] + rest);
                assert(bucket[done.len() as int] == cur);
                react_agent(system, cur as usize, event_hash, event.origin, event.base_intensity);
                assert(done.push(cur as int).drop_last() =~= done);
                assert(done.push(cur as int) + rest =~= done + (seq![cur as int] + rest));
                proof {
                    done = done.push(cur as int);
                }
                cur = grid.next[cur as usize];
                fuel = fuel - 1;
            }
            assert(done =~= bucket);
            assert(cells@.take(k + 1).drop_last() =~= cells@.take(k as int));
            k = k + 1;
        }
        assert(cells@.take(cells@.len() as int) =~= cells@);
        Ok(())
    }

    /// Propagates `event` over the cells within `influence_radius` of its
    /// origin, matching listeners by the hash of the event's name.
    pub fn emit_within(
        event: &WorldEvent,
        system: &mut AgentSystem,
        grid: &SpatialGrid,
        influence_radius: i64,
    ) -> (r: Result<(), CoreError>)
        requires
            old(system).wf(),
            grid.wf(),
        ensures
            propagated(
                *old(system),
                *final(system),
                r,
                grid@,
                Pulse {
                    hash: name_hash(event.name@),
                    origin: event.origin,
                    intensity: event.base_intensity,
                },
                influence_radius as int,
            ),
    {
        let event_hash = calculate_hash(&event.name);
        Self::propagate(event_hash, event, system, grid, influence_radius)
    }

    /// Propagates `event` over the cells within `INFLUENCE_RADIUS` of its origin.
    pub fn emit(event: &WorldEvent, system: &mut AgentSystem, grid: &SpatialGrid) -> (r: Result<
        (),
        CoreError,
    >)
        requires
            old(system).wf(),
            grid.wf(),
        ensures
            propagated(
                *old(system),
                *final(system),
                r,
                grid@,
                Pulse {
                    hash: name_hash(event.name@),
                    origin: event.origin,
                    intensity: event.base_intensity,
                },
                INFLUENCE_RADIUS as int,
            ),
    {
        Self::emit_within(event, system, grid, INFLUENCE_RADIUS)
    }
}

/// Attenuation is exactly one at the event's origin and exactly zero at the
/// listener's radius.
pub proof fn lemma_falloff_at_ends(radius: int)
    requires
        radius > 0,
    ensures
        falloff(floor_sqrt(0) as int, radius) == ONE,
        falloff(floor_sqrt((radius * radius) as nat) as int, radius) == 0,
{
    assert(0nat * 0nat <= 0nat < (0nat + 1) * (0nat + 1)) by (nonlinear_arith);
    lemma_floor_sqrt_unique(0, 0);
    let r = radius as nat;
    assert(r * r <= r * r < (r + 1) * (r + 1)) by (nonlinear_arith)
        requires
            r > 0,
    ;
    assert(is_floor_sqrt((radius * radius) as nat, r));
    lemma_floor_sqrt_unique((radius * radius) as nat, r);
    lemma_div_by_multiple(ONE as int, radius);
    assert(radius * ONE == ONE * radius) by (nonlinear_arith);
}

/// An agent that lies exactly on a listener's radius gets no pressure and no
/// habituation push from it: the columns stay as they are.
pub proof fn lemma_react_at_radius(sys: AgentSystem, i: int, s: Stimulus, pulse: Pulse)
    requires
        sys.wf(),
        0 <= i < sys.count,
        s.radius > 0,
        dist_sq((sys.x@[i], sys.y@[i]), pulse.origin) == s.radius * s.radius,
    ensures
        react(sys.columns(), sys.frozen(), i, s, pulse) == sys.columns(),
{
    let cols = sys.columns();
    let fr = sys.frozen();
    lemma_falloff_at_ends(s.radius as int);
    if s.event_hash == pulse.hash {
        let c = s.channel.spec_index();
        let d2 = dist_sq((fr.x[i], fr.y[i]), pulse.origin);
        assert(falloff(floor_sqrt(d2 as nat) as int, s.radius as int) == 0);
        let p = pressure(pulse.intensity as int, s.power as int, 0);
        assert(p == 0);
        assert(0 <= c < 4);
        assert(cols.channels[c][i] == sys.channels@[c]@[i]);
        assert(cols.adaptation[c][i] == sys.adaptation@[c]@[i]);
        assert(-SATURATION <= sys.channels@[c]@[i]);
        assert(ADAPTATION_MIN <= sys.adaptation@[c]@[i] <= ADAPTATION_MAX);
        let profile = fr.profiles[i];
        let a = cols.adaptation[c][i];
        let eff = effective_sensitivity(profile.sensitivity@[c] as int, a as int, fr.dna[c][i] as int);
        assert(trunc_product(0, eff) == 0);
        assert(fx_mul_spec(p, eff) == 0);
        assert(habituation_push(p, profile.adaptation_rates@[c] as int) == 0) by {
            assert(trunc_product(0, profile.adaptation_rates@[c] as int) == 0);
            assert(trunc_product(0, HABITUATION_SHARE as int) == 0);
        }
        assert(cols.channels[c].update(i, cols.channels[c][i]) =~= cols.channels[c]);
        assert(cols.adaptation[c].update(i, cols.adaptation[c][i]) =~= cols.adaptation[c]);
        let r = react(cols, fr, i, s, pulse);
        assert(r.channels =~= cols.channels);
        assert(r.adaptation =~= cols.adaptation);
    }
}

/// No listener of agent `a` answers to identity `hash`.
pub open spec fn unheard_by(fr: Frozen, a: int, hash: u64) -> bool {
    forall|l: int|
        0 <= l < fr.profiles[a].listeners@.len() ==> #[trigger] fr.profiles[a].listeners@[l].event_hash
            != hash
}

proof fn lemma_react_all_unheard(cols: Columns, fr: Frozen, i: int, ls: Seq<Stimulus>, pulse: Pulse)
    requires
        forall|l: int| 0 <= l < ls.len() ==> #[trigger] ls[l].event_hash != pulse.hash,
    ensures
        react_all(cols, fr, i, ls, pulse) == cols,
    decreases ls.len(),
{
    if ls.len() > 0 {
        lemma_react_all_unheard(cols, fr, i, ls.drop_last(), pulse);
        assert(ls.last().event_hash != pulse.hash);
    }
}

proof fn lemma_visit_agents_unheard(cols: Columns, fr: Frozen, agents: Seq<int>, pulse: Pulse)
    requires
        forall|j: int| 0 <= j < agents.len() ==> unheard_by(fr, #[trigger] agents[j], pulse.hash),
    ensures
        visit_agents(cols, fr, agents, pulse) == cols,
    decreases agents.len(),
{
    if agents.len() > 0 {
        lemma_visit_agents_unheard(cols, fr, agents.drop_last(), pulse);
        let a = agents.last();
        assert(unheard_by(fr, agents[agents.len() - 1], pulse.hash));
        lemma_react_all_unheard(cols, fr, a, fr.profiles[a].listeners@, pulse);
    }
}

proof fn lemma_visit_cells_unheard(
    cols: Columns,
    fr: Frozen,
    grid: GridState,
    cells: Seq<usize>,
    pulse: Pulse,
)
    requires
        forall|k: int, j: int|
            0 <= k < cells.len() && 0 <= j < grid.bucket(cells[k] as int).len() ==> unheard_by(
                fr,
                #[trigger] grid.bucket(cells[k] as int)[j],
                pulse.hash,
            ),
    ensures
        visit_cells(cols, fr, grid, cells, pulse) == cols,
    decreases cells.len(),
{
    if cells.len() > 0 {
        let prefix = cells.drop_last();
        assert forall|k: int, j: int|
            0 <= k < prefix.len() && 0 <= j < grid.bucket(prefix[k] as int).len() implies unheard_by(
            fr,
            #[trigger] grid.bucket(prefix[k] as int)[j],
            pulse.hash,
        ) by {
            assert(prefix[k] == cells[k]);
        }
        lemma_visit_cells_unheard(cols, fr, grid, prefix, pulse);
        let b = grid.bucket(cells.last() as int);
        assert forall|j: int| 0 <= j < b.len() implies unheard_by(fr, #[trigger] b[j], pulse.hash) by {
            assert(b[j] == grid.bucket(cells[cells.len() - 1] as int)[j]);
        }
        lemma_visit_agents_unheard(cols, fr, b, pulse);
    }
}

/// An event that no listener of any agent in the scanned cells answers to
/// leaves every channel and habituation value as it was.
pub proof fn lemma_unheard_event_changes_nothing(
    before: AgentSystem,
    after: AgentSystem,
    r: Result<(), CoreError>,
    grid: GridState,
    pulse: Pulse,
    radius: int,
)
    requires
        propagated(before, after, r, grid, pulse, radius),
        forall|k: int, j: int|
            0 <= k < nearby_cells(grid.cell_size, pulse.origin, radius).len() && 0 <= j < grid.bucket(
                nearby_cells(grid.cell_size, pulse.origin, radius)[k] as int,
            ).len() ==> unheard_by(
                before.frozen(),
                #[trigger] grid.bucket(nearby_cells(grid.cell_size, pulse.origin, radius)[k] as int)[j],
                pulse.hash,
            ),
    ensures
        after.columns() == before.columns(),
{
    if r is Ok {
        lemma_visit_cells_unheard(
            before.columns(),
            before.frozen(),
            grid,
            nearby_cells(grid.cell_size, pulse.origin, radius),
            pulse,
        );
    }
}

} // verus!
