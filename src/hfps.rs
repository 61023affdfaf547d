//! Channels, species profiles and the columnar agent store.
use std::hash::{Hash, Hasher};
use vstd::std_specs::hash::DefaultHasherAdditionalSpecFns;
use std::collections::hash_map::DefaultHasher;
use std::sync::Arc;
use vstd::prelude::*;
use crate::fixed::{clamp, clamp_wide, fx_mul, fx_mul_spec, trunc_product, ONE, SATURATION};
use vstd::arithmetic::div_mod::{lemma_div_is_ordered, lemma_div_by_multiple};

verus! {

/// What `<String as Hash>::hash` leaves in a hasher whose state was `state`.
pub uninterp spec fn hashed_text_state(state: Seq<Seq<u8>>, text: Seq<char>) -> Seq<Seq<u8>>;

/// Relies on `<String as Hash>::hash`: feeding a string into a hasher leaves a
/// state that depends on the earlier state and the text alone.
#[verifier::external_body]
fn feed_text(text: &String, state: &mut DefaultHasher)
    ensures
        final(state)@ == hashed_text_state(old(state)@, text@),
{
    text.hash(state)
}

/// The stable identity hash of an event name.
pub open spec fn name_hash(name: Seq<char>) -> u64 {
    DefaultHasher::spec_finish(hashed_text_state(Seq::empty(), name))
}

/// Stable hash of a string: maps an event name to the identity that
/// listeners are matched against, so the hot loop compares integers.
pub fn calculate_hash(t: &String) -> (r: u64)
    ensures
        r == name_hash(t@),
{
    let mut s = DefaultHasher::new();
    feed_text(t, &mut s);
    s.finish()
}


/// A bitmask of behaviour states.
pub type Flag = u32;

/// Baseline state bit, set on every agent after each tick.
pub const IDLE_FLAG: Flag = 1;

/// Fixed timestep of one tick: `0.016`.
pub const DT: i64 = 16_000_000;

/// Factor by which the habituation buffer relaxes each tick: `0.9995`.
pub const RECOVERY: i64 = 999_500_000;

/// Share of habituation that leaks into the long-term modifier each tick: `0.00001`.
pub const DRIFT_RATE: i64 = 10_000;

/// Lower bound of the habituation buffer: `-0.9`.
pub const ADAPTATION_MIN: i64 = -900_000_000;

/// Upper bound of the habituation buffer: `2.0`.
pub const ADAPTATION_MAX: i64 = 2_000_000_000;

/// Lower bound of the long-term modifier: `0.1`.
pub const DNA_MIN: i64 = 100_000_000;

/// Upper bound of the long-term modifier: `5.0`.
pub const DNA_MAX: i64 = 5_000_000_000;

/// The four pressure channels; each is also a dense index `0..4`.
#[derive(Debug, Clone, Copy, PartialEq, Eq, Hash, Structural)]
pub enum Channel {
    Vitality,
    Security,
    Dominance,
    Engagement,
}

impl Channel {
    pub open spec fn spec_index(self) -> int {
        match self {
            Channel::Vitality => 0,
            Channel::Security => 1,
            Channel::Dominance => 2,
            Channel::Engagement => 3,
        }
    }

    /// The channel's position in every per-channel array.
    pub fn index(self) -> (r: usize)
        ensures
            r == self.spec_index(),
            r < 4,
    {
        match self {
            Channel::Vitality => 0,
            Channel::Security => 1,
            Channel::Dominance => 2,
            Channel::Engagement => 3,
        }
    }
}

/// A reaction to a world event: events whose name hashes to `event_hash`
/// push `channel` with `power`, within `radius` of their origin.
#[derive(Debug, Clone)]
pub struct Stimulus {
    pub event_name: String,
    pub event_hash: u64,
    pub channel: Channel,
    pub power: i64,
    pub radius: i64,
}

/// Sets `flag` while `channel` is at or beyond `value`: at or above a
/// non-negative value, at or below a negative one.
#[derive(Debug, Clone, Copy)]
pub struct Threshold {
    pub channel: Channel,
    pub value: i64,
    pub flag: Flag,
}

/// An event that the agent itself may broadcast while `flag` is active.
#[derive(Debug, Clone)]
pub struct Emission {
    pub flag: Flag,
    pub event_name: String,
    pub event_hash: u64,
    pub power: i64,
    pub radius: i64,
}

/// The immutable configuration of a species, shared by its agents.
#[derive(Debug, Clone)]
pub struct BehaviorProfile {
    pub name: String,
    pub sensitivity: [i64; 4],
    pub decay_rates: [i64; 4],
    pub adaptation_rates: [i64; 4],
    pub thresholds: Vec<Threshold>,
    pub listeners: Vec<Stimulus>,
    pub emissions: Vec<Emission>,
}

impl BehaviorProfile {
    /// Every listener has a positive radius.
    pub open spec fn wf(&self) -> bool {
        forall|k: int| 0 <= k < self.listeners@.len() ==> #[trigger] self.listeners@[k].radius > 0
    }

    /// Tells whether the profile is well formed (every listener radius positive).
    pub fn is_well_formed(&self) -> (r: bool)
        ensures
            r == self.wf(),
    {
        let mut k: usize = 0;
        while k < self.listeners.len()
            invariant
                k <= self.listeners@.len(),
                forall|j: int| 0 <= j < k ==> #[trigger] self.listeners@[j].radius > 0,
            decreases self.listeners@.len() - k,
        {
            if self.listeners[k].radius <= 0 {
                return false;
            }
            k = k + 1;
        }
        true
    }
}

/// A single agent, kept as one record.
pub struct HfpsAgent {
    pub channels: [i64; 4],
    pub adaptation: [i64; 4],
    pub dna_modifiers: [i64; 4],
    pub active_flags: Flag,
    pub profile: Arc<BehaviorProfile>,
}

impl HfpsAgent {
    /// A neutral agent: no pressure, no habituation, unit modifiers, idle.
    pub fn new(profile: Arc<BehaviorProfile>) -> (r: Self)
        ensures
            r.channels@ == seq![0i64, 0, 0, 0],
            r.adaptation@ == seq![0i64, 0, 0, 0],
            r.dna_modifiers@ == seq![ONE, ONE, ONE, ONE],
            r.active_flags == IDLE_FLAG,
            r.profile == profile,
    {
        let r = HfpsAgent {
            channels: [0, 0, 0, 0],
            adaptation: [0, 0, 0, 0],
            dna_modifiers: [ONE, ONE, ONE, ONE],
            active_flags: IDLE_FLAG,
            profile,
        };
        assert(r.channels@ =~= seq![0i64, 0, 0, 0]);
        assert(r.adaptation@ =~= seq![0i64, 0, 0, 0]);
        assert(r.dna_modifiers@ =~= seq![ONE, ONE, ONE, ONE]);
        r
    }
}

/// A portable record of an agent's learned long-term modifiers.
#[derive(Debug, Clone, Copy)]
pub struct DnaKernel {
    pub modifiers: [i64; 4],
}

/// A channel value after one step of decay: it moves toward zero by
/// `rate * DT` and never crosses zero.
pub open spec fn decayed(val: int, rate: int) -> int {
    let decay = fx_mul_spec(rate, DT as int);
    if val > 0 {
        clamp(val - decay, 0, SATURATION as int)
    } else if val < 0 {
        clamp(val + decay, -SATURATION, 0)
    } else {
        0
    }
}

/// The habituation buffer after one step of relaxation.
pub open spec fn recovered(a: int) -> int {
    fx_mul_spec(a, RECOVERY as int)
}

/// The long-term modifier after one step of drift, given the relaxed habituation.
pub open spec fn drifted(dna: int, a: int) -> int {
    clamp(dna + fx_mul_spec(a, DRIFT_RATE as int), DNA_MIN as int, DNA_MAX as int)
}

/// Relaxation keeps a habituation value on its side of zero and no farther out.
pub proof fn lemma_recovered_shrinks(a: int)
    requires
        ADAPTATION_MIN <= a <= ADAPTATION_MAX,
    ensures
        a >= 0 ==> 0 <= recovered(a) <= a,
        a < 0 ==> a <= recovered(a) <= 0,
{
    let r = RECOVERY as int;
    let one = ONE as int;
    if a >= 0 {
        assert(0 <= a * r <= a * one) by (nonlinear_arith)
            requires
                0 <= a,
                0 < r < one,
        ;
        lemma_div_is_ordered(0, a * r, one);
        lemma_div_is_ordered(a * r, a * one, one);
        lemma_div_by_multiple(a, one);
        assert(trunc_product(a, r) == (a * r) / one);
    } else {
        let b = -a;
        assert(0 < b * r <= b * one) by (nonlinear_arith)
            requires
                0 < b,
                0 < r < one,
        ;
        assert(-(a * r) == b * r) by (nonlinear_arith)
            requires
                b == -a,
        ;
        lemma_div_is_ordered(0, b * r, one);
        lemma_div_is_ordered(b * r, b * one, one);
        lemma_div_by_multiple(b, one);
        assert(trunc_product(a, r) == -((b * r) / one));
    }
}

/// Whether threshold `t` holds for the channel value `current`.
pub open spec fn threshold_met(t: Threshold, current: int) -> bool {
    (t.value >= 0 && current >= t.value) || (t.value < 0 && current <= t.value)
}

/// The flags that `thresholds` raise for an agent whose channels are `vals`,
/// together with the idle flag.
pub open spec fn flags_from(thresholds: Seq<Threshold>, vals: Seq<i64>) -> Flag
    decreases thresholds.len(),
{
    if thresholds.len() == 0 {
        IDLE_FLAG
    } else {
        let f = flags_from(thresholds.drop_last(), vals);
        let t = thresholds.last();
        if threshold_met(t, vals[t.channel.spec_index()] as int) {
            f | t.flag
        } else {
            f
        }
    }
}

/// The columnar agent store: one row per agent, addressed by the index that
/// `add_agent` gave it.
pub struct AgentSystem {
    pub x: Vec<i64>,
    pub y: Vec<i64>,
    /// `channels[channel][agent]`
    pub channels: [Vec<i64>; 4],
    pub adaptation: [Vec<i64>; 4],
    pub dna_modifiers: [Vec<i64>; 4],
    pub active_flags: Vec<Flag>,
    pub profiles: Vec<Arc<BehaviorProfile>>,
    pub count: usize,
}

impl AgentSystem {
    /// Every column has `count` entries; habituation and long-term modifiers
    /// stay within their bounds; every profile is well formed.
    pub open spec fn wf(&self) -> bool {
        &&& self.x@.len() == self.count
        &&& self.y@.len() == self.count
        &&& self.active_flags@.len() == self.count
        &&& self.profiles@.len() == self.count
        &&& forall|c: int| 0 <= c < 4 ==> #[trigger] self.channels@[c]@.len() == self.count
        &&& forall|c: int| 0 <= c < 4 ==> #[trigger] self.adaptation@[c]@.len() == self.count
        &&& forall|c: int| 0 <= c < 4 ==> #[trigger] self.dna_modifiers@[c]@.len() == self.count
        &&& self.bounded()
        &&& forall|c: int, i: int|
            0 <= c < 4 && 0 <= i < self.count ==> -SATURATION <= #[trigger] self.channels@[c]@[i]
        &&& forall|i: int| 0 <= i < self.count ==> #[trigger] self.profiles@[i].wf()
    }

    /// Habituation lies in `[-0.9, 2.0]` and the long-term modifier in
    /// `[0.1, 5.0]`, for every agent and channel.
    pub open spec fn bounded(&self) -> bool {
        &&& forall|c: int, i: int|
            0 <= c < 4 && 0 <= i < self.count ==> ADAPTATION_MIN <= #[trigger] self.adaptation@[c]@[i]
                <= ADAPTATION_MAX
        &&& forall|c: int, i: int|
            0 <= c < 4 && 0 <= i < self.count ==> DNA_MIN <= #[trigger] self.dna_modifiers@[c]@[i]
                <= DNA_MAX
    }

    /// The four channel values of agent `i`.
    pub open spec fn row(&self, i: int) -> Seq<i64> {
        seq![
            self.channels@[0]@[i],
            self.channels@[1]@[i],
            self.channels@[2]@[i],
            self.channels@[3]@[i],
        ]
    }

    /// An empty store.
    pub fn new(capacity: usize) -> (r: Self)
        ensures
            r.wf(),
            r.count == 0,
    {
        let r = AgentSystem {
            x: Vec::with_capacity(capacity),
            y: Vec::with_capacity(capacity),
            channels: [
                Vec::with_capacity(capacity),
                Vec::with_capacity(capacity),
                Vec::with_capacity(capacity),
                Vec::with_capacity(capacity),
            ],
            adaptation: [
                Vec::with_capacity(capacity),
                Vec::with_capacity(capacity),
                Vec::with_capacity(capacity),
                Vec::with_capacity(capacity),
            ],
            dna_modifiers: [
                Vec::with_capacity(capacity),
                Vec::with_capacity(capacity),
                Vec::with_capacity(capacity),
                Vec::with_capacity(capacity),
            ],
            active_flags: Vec::with_capacity(capacity),
            profiles: Vec::with_capacity(capacity),
            count: 0,
        };
        r
    }

    /// Appends one agent at `pos`: no pressure, no habituation, unit
    /// modifiers, no flags. Its index is the old `count`.
    pub fn add_agent(&mut self, pos: (i64, i64), profile: Arc<BehaviorProfile>)
        requires
            old(self).wf(),
            profile.wf(),
            old(self).count < usize::MAX,
        ensures
            final(self).wf(),
            final(self).count == old(self).count + 1,
            final(self).x@ == old(self).x@.push(pos.0),
            final(self).y@ == old(self).y@.push(pos.1),
            final(self).active_flags@ == old(self).active_flags@.push(0),
            final(self).profiles@ == old(self).profiles@.push(profile),
            forall|c: int|
                0 <= c < 4 ==> #[trigger] final(self).channels@[c]@ == old(self).channels@[c]@.push(0),
            forall|c: int|
                0 <= c < 4 ==> #[trigger] final(self).adaptation@[c]@ == old(self).adaptation@[c]@.push(0),
            forall|c: int|
                0 <= c < 4 ==> #[trigger] final(self).dna_modifiers@[c]@ == old(self).dna_modifiers@[c]@.push(
                    ONE,
                ),
    {
        self.x.push(pos.0);
        self.y.push(pos.1);
        let mut c: usize = 0;
        while c < 4
            invariant
                0 <= c <= 4,
                self.count == old(self).count,
                self.x@ == old(self).x@.push(pos.0),
                self.y@ == old(self).y@.push(pos.1),
                self.active_flags@ == old(self).active_flags@,
                self.profiles@ == old(self).profiles@,
                forall|k: int|
                    0 <= k < c ==> #[trigger] self.channels@[k]@ == old(self).channels@[k]@.push(0),
                forall|k: int|
                    0 <= k < c ==> #[trigger] self.adaptation@[k]@ == old(self).adaptation@[k]@.push(0),
                forall|k: int|
                    0 <= k < c ==> #[trigger] self.dna_modifiers@[k]@ == old(self).dna_modifiers@[k]@.push(ONE),
                forall|k: int| c <= k < 4 ==> #[trigger] self.channels@[k] == old(self).channels@[k],
                forall|k: int| c <= k < 4 ==> #[trigger] self.adaptation@[k] == old(self).adaptation@[k],
                forall|k: int|
                    c <= k < 4 ==> #[trigger] self.dna_modifiers@[k] == old(self).dna_modifiers@[k],
            decreases 4 - c,
        {
            self.channels[c].push(0);
            self.adaptation[c].push(0);
            self.dna_modifiers[c].push(ONE);
            c = c + 1;
        }
        self.active_flags.push(0);
        self.profiles.push(profile);
        self.count = self.count + 1;
        assert forall|c: int, i: int| 0 <= c < 4 && 0 <= i < self.count implies ADAPTATION_MIN
            <= #[trigger] self.adaptation@[c]@[i] <= ADAPTATION_MAX by {
            if i < old(self).count {
                assert(self.adaptation@[c]@[i] == old(self).adaptation@[c]@[i]);
            }
        }
        assert forall|c: int, i: int| 0 <= c < 4 && 0 <= i < self.count implies DNA_MIN
            <= #[trigger] self.dna_modifiers@[c]@[i] <= DNA_MAX by {
            if i < old(self).count {
                assert(self.dna_modifiers@[c]@[i] == old(self).dna_modifiers@[c]@[i]);
            }
        }
        assert forall|c: int, i: int| 0 <= c < 4 && 0 <= i < self.count implies -SATURATION
            <= #[trigger] self.channels@[c]@[i] by {
            if i < old(self).count {
                assert(self.channels@[c]@[i] == old(self).channels@[c]@[i]);
            }
        }
        assert forall|i: int| 0 <= i < self.count implies #[trigger] self.profiles@[i].wf() by {
            if i < old(self).count {
                assert(self.profiles@[i] == old(self).profiles@[i]);
            }
        }
    }

    /// The flags of agent `i` for its current channel values.
    fn flags_for(&self, i: usize) -> (r: Flag)
        requires
            self.wf(),
            i < self.count,
        ensures
            r == flags_from(self.profiles@[i as int].thresholds@, self.row(i as int)),
    {
        let profile = &self.profiles[i];
        let ghost ts = profile.thresholds@;
        let mut flags: Flag = IDLE_FLAG;
        let mut k: usize = 0;
        while k < profile.thresholds.len()
            invariant
                self.wf(),
                i < self.count,
                profile == self.profiles@[i as int],
                ts == profile.thresholds@,
                k <= ts.len(),
                flags == flags_from(ts.take(k as int), self.row(i as int)),
            decreases ts.len() - k,
        {
            let t = profile.thresholds[k];
            let current = self.channels[t.channel.index()][i];
            proof {
                assert(ts.take(k + 1).drop_last() =~= ts.take(k as int));
                assert(ts.take(k + 1).last() == t);
                assert(current == self.row(i as int)[t.channel.spec_index()]);
            }
            if (t.value >= 0 && current >= t.value) || (t.value < 0 && current <= t.value) {
                flags = flags | t.flag;
            }
            k = k + 1;
        }
        assert(ts.take(ts.len() as int) =~= ts);
        flags
    }

    /// One fixed step of homeostasis. For every channel and agent: pressure
    /// decays toward zero without crossing it, habituation relaxes by
    /// `RECOVERY`, and the long-term modifier drifts by the relaxed
    /// habituation times `DRIFT_RATE`, clamped to `[DNA_MIN, DNA_MAX]`.
    /// Then each agent's flags become the idle flag and every threshold of its
    /// profile that the new channel values meet.
    pub fn tick(&mut self)
        requires
            old(self).wf(),
        ensures
            final(self).wf(),
            final(self).bounded(),
            final(self).count == old(self).count,
            final(self).x@ == old(self).x@,
            final(self).y@ == old(self).y@,
            final(self).profiles@ == old(self).profiles@,
            forall|c: int, i: int|
                0 <= c < 4 && 0 <= i < old(self).count ==> #[trigger] final(self).channels@[c]@[i]
                    == decayed(
                    old(self).channels@[c]@[i] as int,
                    old(self).profiles@[i].decay_rates@[c] as int,
                ),
            forall|c: int, i: int|
                0 <= c < 4 && 0 <= i < old(self).count ==> #[trigger] final(self).adaptation@[c]@[i]
                    == recovered(old(self).adaptation@[c]@[i] as int),
            forall|c: int, i: int|
                0 <= c < 4 && 0 <= i < old(self).count ==> #[trigger] final(self).dna_modifiers@[c]@[i]
                    == drifted(
                    old(self).dna_modifiers@[c]@[i] as int,
                    recovered(old(self).adaptation@[c]@[i] as int),
                ),
            forall|i: int|
                0 <= i < old(self).count ==> #[trigger] final(self).active_flags@[i] == flags_from(
                    old(self).profiles@[i].thresholds@,
                    final(self).row(i),
                ),
            forall|c: int, i: int|
                0 <= c < 4 && 0 <= i < old(self).count && old(self).channels@[c]@[i] >= 0
                    ==> #[trigger] final(self).channels@[c]@[i] >= 0,
            forall|c: int, i: int|
                0 <= c < 4 && 0 <= i < old(self).count && old(self).channels@[c]@[i] <= 0
                    ==> #[trigger] final(self).channels@[c]@[i] <= 0,
    {
        let n = self.count;
        let mut c: usize = 0;
        while c < 4
            invariant
                0 <= c <= 4,
                n == self.count,
                self.wf(),
                self.count == old(self).count,
                self.x@ == old(self).x@,
                self.y@ == old(self).y@,
                self.profiles@ == old(self).profiles@,
                self.active_flags@ == old(self).active_flags@,
                forall|k: int, j: int|
                    0 <= k < c && 0 <= j < n ==> #[trigger] self.channels@[k]@[j] == decayed(
                        old(self).channels@[k]@[j] as int,
                        old(self).profiles@[j].decay_rates@[k] as int,
                    ),
                forall|k: int, j: int|
                    0 <= k < c && 0 <= j < n ==> #[trigger] self.adaptation@[k]@[j] == recovered(
                        old(self).adaptation@[k]@[j] as int,
                    ),
                forall|k: int, j: int|
                    0 <= k < c && 0 <= j < n ==> #[trigger] self.dna_modifiers@[k]@[j] == drifted(
                        old(self).dna_modifiers@[k]@[j] as int,
                        recovered(old(self).adaptation@[k]@[j] as int),
                    ),
                forall|k: int| c <= k < 4 ==> #[trigger] self.channels@[k] == old(self).channels@[k],
                forall|k: int| c <= k < 4 ==> #[trigger] self.adaptation@[k] == old(self).adaptation@[k],
                forall|k: int|
                    c <= k < 4 ==> #[trigger] self.dna_modifiers@[k] == old(self).dna_modifiers@[k],
            decreases 4 - c,
        {
            let mut i: usize = 0;
            while i < n
                invariant
                    0 <= c < 4,
                    0 <= i <= n,
                    n == self.count,
                    self.wf(),
                    self.count == old(self).count,
                    self.x@ == old(self).x@,
                    self.y@ == old(self).y@,
                    self.profiles@ == old(self).profiles@,
                    self.active_flags@ == old(self).active_flags@,
                    forall|k: int, j: int|
                        ((0 <= k < c && 0 <= j < n) || (k == c && 0 <= j < i))
                            ==> #[trigger] self.channels@[k]@[j] == decayed(
                            old(self).channels@[k]@[j] as int,
                            old(self).profiles@[j].decay_rates@[k] as int,
                        ),
                    forall|k: int, j: int|
                        ((0 <= k < c && 0 <= j < n) || (k == c && 0 <= j < i))
                            ==> #[trigger] self.adaptation@[k]@[j] == recovered(
                            old(self).adaptation@[k]@[j] as int,
                        ),
                    forall|k: int, j: int|
                        ((0 <= k < c && 0 <= j < n) || (k == c && 0 <= j < i))
                            ==> #[trigger] self.dna_modifiers@[k]@[j] == drifted(
                            old(self).dna_modifiers@[k]@[j] as int,
                            recovered(old(self).adaptation@[k]@[j] as int),
                        ),
                    forall|j: int|
                        i <= j < n ==> #[trigger] self.channels@[c as int]@[j]
                            == old(self).channels@[c as int]@[j],
                    forall|j: int|
                        i <= j < n ==> #[trigger] self.adaptation@[c as int]@[j]
                            == old(self).adaptation@[c as int]@[j],
                    forall|j: int|
                        i <= j < n ==> #[trigger] self.dna_modifiers@[c as int]@[j]
                            == old(self).dna_modifiers@[c as int]@[j],
                    forall|k: int| c < k < 4 ==> #[trigger] self.channels@[k] == old(self).channels@[k],
                    forall|k: int|
                        c < k < 4 ==> #[trigger] self.adaptation@[k] == old(self).adaptation@[k],
                    forall|k: int|
                        c < k < 4 ==> #[trigger] self.dna_modifiers@[k] == old(self).dna_modifiers@[k],
                decreases n - i,
            {
                let decay = fx_mul(self.profiles[i].decay_rates[c], DT);
                let val = self.channels[c][i];
                let next_val = if val > 0 {
                    clamp_wide(val as i128 - decay as i128, 0, SATURATION)
                } else if val < 0 {
                    clamp_wide(val as i128 + decay as i128, -SATURATION, 0)
                } else {
                    0
                };
                self.channels[c].set(i, next_val);
                let old_a = self.adaptation[c][i];
                let a = fx_mul(old_a, RECOVERY);
                proof {
                    lemma_recovered_shrinks(old_a as int);
                }
                self.adaptation[c].set(i, a);
                let step = fx_mul(a, DRIFT_RATE);
                let d = clamp_wide(self.dna_modifiers[c][i] as i128 + step as i128, DNA_MIN, DNA_MAX);
                self.dna_modifiers[c].set(i, d);
                i = i + 1;
            }
            c = c + 1;
        }
        let mut i: usize = 0;
        while i < n
            invariant
                0 <= i <= n,
                n == self.count,
                self.wf(),
                self.count == old(self).count,
                self.x@ == old(self).x@,
                self.y@ == old(self).y@,
                self.profiles@ == old(self).profiles@,
                forall|k: int, j: int|
                    0 <= k < 4 && 0 <= j < n ==> #[trigger] self.channels@[k]@[j] == decayed(
                        old(self).channels@[k]@[j] as int,
                        old(self).profiles@[j].decay_rates@[k] as int,
                    ),
                forall|k: int, j: int|
                    0 <= k < 4 && 0 <= j < n ==> #[trigger] self.adaptation@[k]@[j] == recovered(
                        old(self).adaptation@[k]@[j] as int,
                    ),
                forall|k: int, j: int|
                    0 <= k < 4 && 0 <= j < n ==> #[trigger] self.dna_modifiers@[k]@[j] == drifted(
                        old(self).dna_modifiers@[k]@[j] as int,
                        recovered(old(self).adaptation@[k]@[j] as int),
                    ),
                forall|j: int|
                    0 <= j < i ==> #[trigger] self.active_flags@[j] == flags_from(
                        old(self).profiles@[j].thresholds@,
                        self.row(j),
                    ),
            decreases n - i,
        {
            let flags = self.flags_for(i);
            self.active_flags.set(i, flags);
            i = i + 1;
        }
    }
}

} // verus!
