//! The shape of a suite: targets, scenarios, schedules, steps and expectations.

use vstd::prelude::*;

verus! {

/// A whole suite: a name, the targets it talks to and the scenarios it runs.
#[derive(Debug, Clone)]
pub struct SuiteConfig {
    pub name: String,
    pub targets: Vec<TargetConfig>,
    pub scenarios: Vec<ScenarioConfig>,
}

/// One store that the suite can talk to.
#[derive(Debug, Clone)]
pub struct TargetConfig {
    pub name: String,
    pub kind: TargetKind,
    pub address: String,
}

/// The kind of store behind a target.
#[derive(Debug, Clone, Copy, PartialEq, Eq, Structural)]
pub enum TargetKind {
    Memcached,
    Redis,
}

/// A named list of steps, run on a schedule, with optional hooks.
#[derive(Debug, Clone)]
pub struct ScenarioConfig {
    pub name: String,
    pub schedule: ScheduleConfig,
    pub hooks: Option<HooksConfig>,
    pub steps: Vec<StepConfig>,
}

/// Commands to run before and after a scenario.
#[derive(Debug, Clone)]
pub struct HooksConfig {
    pub before: Vec<ExecHook>,
    pub after: Vec<ExecHook>,
}

/// One external command (`exec` in a suite file), with an optional timeout text.
#[derive(Debug, Clone)]
pub struct ExecHook {
    pub command: String,
    pub timeout: Option<String>,
}

/// How often, for how long and with how many workers a scenario runs.
#[derive(Debug, Clone)]
pub struct ScheduleConfig {
    pub kind: ScheduleKind,
    pub duration: Option<String>,
    pub iterations: Option<u64>,
    pub concurrency: u16,
}

/// The concurrency a schedule has when the suite names none.
pub fn default_concurrency() -> (r: u16)
    ensures
        r == 1,
{
    1
}

/// The three ways a scenario can be scheduled.
#[derive(Debug, Clone, Copy, PartialEq, Eq, Structural)]
pub enum ScheduleKind {
    Once,
    Duration,
    Iterations,
}

/// One operation of a scenario. `Store` is the `set` operation.
#[derive(Debug, Clone)]
#[allow(inconsistent_fields)]
pub enum StepConfig {
    Store { key: String, value: String, ttl: Option<String> },
    Get { key: String, expect: Option<ExpectConfig> },
    Mget { keys: Vec<String>, expect: Option<ExpectMultiConfig> },
    Delete { key: String },
    Sleep { duration: String },
}

/// What a single-key read is expected to give.
#[derive(Debug, Clone)]
pub struct ExpectConfig {
    pub value: Option<String>,
    pub miss: Option<bool>,
    pub latency_ms_lt: Option<u64>,
}

/// What a multi-key read is expected to give. The pairs of `values` are checked in
/// their order; each names a key and the value it should have.
#[derive(Debug, Clone)]
pub struct ExpectMultiConfig {
    pub values: Option<Vec<(String, String)>>,
    pub misses: Option<Vec<String>>,
}

/// No key occurs twice among `pairs`, as in a map.
pub open spec fn keys_distinct(pairs: Seq<(String, String)>) -> bool {
    forall|i: int, j: int| 0 <= i < j < pairs.len() ==> pairs[i].0@ != pairs[j].0@
}

impl ExpectMultiConfig {
    /// The expected values come from a map: no key occurs twice.
    pub open spec fn wf(self) -> bool {
        self.values matches Some(vs) ==> keys_distinct(vs@)
    }
}

/// Puts an expected value into `pairs` as inserting into a map does: the value of
/// an entry with the same key is replaced, else the pair is appended. A list
/// without repeated keys keeps none.
pub fn insert_expected_value(pairs: &mut Vec<(String, String)>, key: String, value: String)
    ensures
        keys_distinct(old(pairs)@) ==> keys_distinct(final(pairs)@),
        (exists|i: int| 0 <= i < old(pairs)@.len() && (#[trigger] old(pairs)@[i]).0@ == key@)
            ==> exists|i: int|
            0 <= i < old(pairs)@.len() && (#[trigger] old(pairs)@[i]).0@ == key@ && (forall|j: int|
                0 <= j < i ==> old(pairs)@[j].0@ != key@) && final(pairs)@ == old(pairs)@.update(
                i,
                (key, value),
            ),
        !(exists|i: int| 0 <= i < old(pairs)@.len() && (#[trigger] old(pairs)@[i]).0@ == key@)
            ==> final(pairs)@ == old(pairs)@.push((key, value)),
{
    let mut i: usize = 0;
    while i < pairs.len()
        invariant
            i <= pairs@.len(),
            pairs@ == old(pairs)@,
            forall|j: int| 0 <= j < i ==> (#[trigger] pairs@[j]).0@ != key@,
        decreases pairs.len() - i,
    {
        if pairs[i].0 == key {
            let ghost before = pairs@;
            pairs.set(i, (key, value));
            assert(before[i as int].0@ == pairs@[i as int].0@);
            return;
        }
        i = i + 1;
    }
    pairs.push((key, value));
}

} // verus!
