//! Turning a species descriptor, as read from configuration, into a profile:
//! channel-keyed tables become per-channel arrays with defaults, and every
//! event name gets its identity hash.
use vstd::prelude::*;
use crate::fixed::ONE;
use crate::hfps::{calculate_hash, name_hash, BehaviorProfile, Emission, Stimulus, Threshold};

verus! {

/// Sensitivity of a channel that the descriptor leaves out: `1.0`.
pub const DEFAULT_SENSITIVITY: i64 = ONE;

/// Decay rate of a channel that the descriptor leaves out: `0.1`.
pub const DEFAULT_DECAY_RATE: i64 = 100_000_000;

/// Adaptation rate of a channel that the descriptor leaves out: `0.0`.
pub const DEFAULT_ADAPTATION_RATE: i64 = 0;

/// A species descriptor: tables keyed by channel name, and record lists
/// whose event hashes are not yet computed.
pub struct ProfileSettings {
    pub name: String,
    pub sensitivity: Vec<(String, i64)>,
    pub decay_rates: Vec<(String, i64)>,
    pub adaptation_rates: Vec<(String, i64)>,
    pub thresholds: Vec<Threshold>,
    pub listeners: Vec<Stimulus>,
    pub emissions: Vec<Emission>,
}

/// The name of channel `c` in a descriptor.
pub open spec fn channel_name(c: int) -> Seq<char> {
    if c == 0 {
        "Vitality"@
    } else if c == 1 {
        "Security"@
    } else if c == 2 {
        "Dominance"@
    } else {
        "Engagement"@
    }
}

/// The value of the last entry keyed `key`, if any.
pub open spec fn lookup(entries: Seq<(String, i64)>, key: Seq<char>) -> Option<i64>
    decreases entries.len(),
{
    if entries.len() == 0 {
        None
    } else if entries.last().0@ == key {
        Some(entries.last().1)
    } else {
        lookup(entries.drop_last(), key)
    }
}

/// The value for channel `c`, or `default` where the table has none.
pub open spec fn channel_value(entries: Seq<(String, i64)>, c: int, default: i64) -> i64 {
    match lookup(entries, channel_name(c)) {
        Some(v) => v,
        None => default,
    }
}

fn lookup_value(entries: &Vec<(String, i64)>, key: &String) -> (r: Option<i64>)
    ensures
        r == lookup(entries@, key@),
{
    let mut found: Option<i64> = None;
    let mut k: usize = 0;
    while k < entries.len()
        invariant
            k <= entries@.len(),
            found == lookup(entries@.take(k as int), key@),
        decreases entries@.len() - k,
    {
        assert(entries@.take(k + 1).drop_last() =~= entries@.take(k as int));
        if entries[k].0 == *key {
            found = Some(entries[k].1);
        }
        k = k + 1;
    }
    assert(entries@.take(entries@.len() as int) =~= entries@);
    found
}

/// The four per-channel values of a table keyed by channel name.
fn channel_table(entries: &Vec<(String, i64)>, default: i64) -> (r: [i64; 4])
    ensures
        forall|c: int| 0 <= c < 4 ==> #[trigger] r@[c] == channel_value(entries@, c, default),
{
    let names = ["Vitality".to_owned(), "Security".to_owned(), "Dominance".to_owned(), "Engagement".to_owned()];
    let mut table: [i64; 4] = [default, default, default, default];
    let mut c: usize = 0;
    while c < 4
        invariant
            c <= 4,
            forall|k: int| 0 <= k < 4 ==> #[trigger] names@[k]@ == channel_name(k),
            forall|k: int| 0 <= k < c ==> #[trigger] table@[k] == channel_value(entries@, k, default),
            forall|k: int| c <= k < 4 ==> #[trigger] table@[k] == default,
        decreases 4 - c,
    {
        if let Some(v) = lookup_value(entries, &names[c]) {
            table.set(c, v);
        }
        c = c + 1;
    }
    table
}

/// Resolves a descriptor into a profile: each per-channel table falls back to
/// its default for channels it leaves out, and each listener and emission
/// gets the identity hash of its event name.
pub fn build_profile(settings: ProfileSettings) -> (r: BehaviorProfile)
    ensures
        r.name@ == settings.name@,
        forall|c: int|
            0 <= c < 4 ==> #[trigger] r.sensitivity@[c] == channel_value(
                settings.sensitivity@,
                c,
                DEFAULT_SENSITIVITY,
            ),
        forall|c: int|
            0 <= c < 4 ==> #[trigger] r.decay_rates@[c] == channel_value(
                settings.decay_rates@,
                c,
                DEFAULT_DECAY_RATE,
            ),
        forall|c: int|
            0 <= c < 4 ==> #[trigger] r.adaptation_rates@[c] == channel_value(
                settings.adaptation_rates@,
                c,
                DEFAULT_ADAPTATION_RATE,
            ),
        r.thresholds@ == settings.thresholds@,
        r.listeners@.len() == settings.listeners@.len(),
        forall|k: int|
            0 <= k < r.listeners@.len() ==> #[trigger] r.listeners@[k] == (Stimulus {
                event_hash: name_hash(settings.listeners@[k].event_name@),
                ..settings.listeners@[k]
            }),
        r.emissions@.len() == settings.emissions@.len(),
        forall|k: int|
            0 <= k < r.emissions@.len() ==> #[trigger] r.emissions@[k] == (Emission {
                event_hash: name_hash(settings.emissions@[k].event_name@),
                ..settings.emissions@[k]
            }),
{
    let sensitivity = channel_table(&settings.sensitivity, DEFAULT_SENSITIVITY);
    let decay_rates = channel_table(&settings.decay_rates, DEFAULT_DECAY_RATE);
    let adaptation_rates = channel_table(&settings.adaptation_rates, DEFAULT_ADAPTATION_RATE);
    let mut listeners = settings.listeners;
    let mut k: usize = 0;
    while k < listeners.len()
        invariant
            k <= listeners@.len(),
            listeners@.len() == settings.listeners@.len(),
            forall|j: int|
                0 <= j < k ==> #[trigger] listeners@[j] == (Stimulus {
                    event_hash: name_hash(settings.listeners@[j].event_name@),
                    ..settings.listeners@[j]
                }),
            forall|j: int| k <= j < listeners@.len() ==> #[trigger] listeners@[j] == settings.listeners@[j],
        decreases listeners@.len() - k,
    {
        let h = calculate_hash(&listeners[k].event_name);
        listeners[k].event_hash = h;
        k = k + 1;
    }
    let mut emissions = settings.emissions;
    let mut k: usize = 0;
    while k < emissions.len()
        invariant
            k <= emissions@.len(),
            emissions@.len() == settings.emissions@.len(),
            forall|j: int|
                0 <= j < k ==> #[trigger] emissions@[j] == (Emission {
                    event_hash: name_hash(settings.emissions@[j].event_name@),
                    ..settings.emissions@[j]
                }),
            forall|j: int| k <= j < emissions@.len() ==> #[trigger] emissions@[j] == settings.emissions@[j],
        decreases emissions@.len() - k,
    {
        let h = calculate_hash(&emissions[k].event_name);
        emissions[k].event_hash = h;
        k = k + 1;
    }
    BehaviorProfile {
        name: settings.name,
        sensitivity,
        decay_rates,
        adaptation_rates,
        thresholds: settings.thresholds,
        listeners,
        emissions,
    }
}

} // verus!
