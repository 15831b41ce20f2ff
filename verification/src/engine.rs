//! The engine: what a suite plans, which client runs it, how each scenario is
//! scheduled with its hooks, and what a scenario and a suite come to.

use vstd::prelude::*;

use crate::config::{
    ExecHook, ScenarioConfig, ScheduleConfig, ScheduleKind, StepConfig, SuiteConfig, TargetConfig,
    TargetKind,
};
use crate::duration::{duration_spec, from_secs, parse_duration, span_from_secs, Span};
use crate::steps::{copy_opt_string, opt_duration, StepError};
use crate::client::{ProtocolKind, TargetSpec};
use crate::drivers::memcached::{DriverError, MemcachedClient, MemcachedClientFactory};
use crate::drivers::noop::{NoopClient, NoopClientFactory};

verus! {

/// The label of a target kind.
pub open spec fn protocol_label_spec(kind: TargetKind) -> &'static str {
    match kind {
        TargetKind::Memcached => "memcached",
        TargetKind::Redis => "redis",
    }
}

/// The label of a target kind: `memcached` or `redis`.
pub fn protocol_label(kind: &TargetKind) -> (r: &'static str)
    ensures
        r == protocol_label_spec(*kind),
{
    match kind {
        TargetKind::Memcached => "memcached",
        TargetKind::Redis => "redis",
    }
}

/// The label of a step: the name of its operation.
pub open spec fn step_label_spec(step: StepConfig) -> &'static str {
    match step {
        StepConfig::Store { .. } => "set",
        StepConfig::Get { .. } => "get",
        StepConfig::Mget { .. } => "mget",
        StepConfig::Delete { .. } => "delete",
        StepConfig::Sleep { .. } => "sleep",
    }
}

/// The label of a step: `set`, `get`, `mget`, `delete` or `sleep`.
pub fn step_label(step: &StepConfig) -> (r: &'static str)
    ensures
        r == step_label_spec(*step),
{
    match step {
        StepConfig::Store { .. } => "set",
        StepConfig::Get { .. } => "get",
        StepConfig::Mget { .. } => "mget",
        StepConfig::Delete { .. } => "delete",
        StepConfig::Sleep { .. } => "sleep",
    }
}

/// One line of the plan that a dry run reports.
#[derive(Debug, Clone)]
pub enum PlanEvent {
    SuiteLoaded { suite: String },
    Target { target_name: String, kind: &'static str, address: String },
    Scenario { scenario: String, schedule: ScheduleKind, concurrency: u16 },
    Step { step: &'static str },
}

/// The plan line of a target.
pub open spec fn target_event(t: TargetConfig) -> PlanEvent {
    PlanEvent::Target {
        target_name: t.name,
        kind: protocol_label_spec(t.kind),
        address: t.address,
    }
}

/// The plan line of a step.
pub open spec fn step_event(st: StepConfig) -> PlanEvent {
    PlanEvent::Step { step: step_label_spec(st) }
}

/// The plan lines of a scenario: its own line, then one per step.
pub open spec fn scenario_events(sc: ScenarioConfig) -> Seq<PlanEvent> {
    seq![
        PlanEvent::Scenario {
            scenario: sc.name,
            schedule: sc.schedule.kind,
            concurrency: sc.schedule.concurrency,
        },
    ] + sc.steps@.map_values(|st: StepConfig| step_event(st))
}

/// The plan lines of the scenarios, in order.
pub open spec fn scenarios_events(scs: Seq<ScenarioConfig>) -> Seq<PlanEvent>
    decreases scs.len(),
{
    if scs.len() == 0 {
        Seq::empty()
    } else {
        scenarios_events(scs.drop_last()) + scenario_events(scs.last())
    }
}

/// The plan of a suite: its name, then each target, then each scenario with its steps.
pub open spec fn plan_events(suite: SuiteConfig) -> Seq<PlanEvent> {
    seq![PlanEvent::SuiteLoaded { suite: suite.name }] + suite.targets@.map_values(
        |t: TargetConfig| target_event(t),
    ) + scenarios_events(suite.scenarios@)
}

/// The plan of a suite, line by line, as a dry run reports it.
pub fn print_plan(suite: &SuiteConfig) -> (r: Vec<PlanEvent>)
    ensures
        r@ == plan_events(*suite),
{
    let mut out: Vec<PlanEvent> = Vec::new();
    out.push(PlanEvent::SuiteLoaded { suite: suite.name.clone() });
    let mut i: usize = 0;
    while i < suite.targets.len()
        invariant
            i <= suite.targets@.len(),
            out@ == seq![PlanEvent::SuiteLoaded { suite: suite.name }]
                + suite.targets@.take(i as int).map_values(|t: TargetConfig| target_event(t)),
        decreases suite.targets.len() - i,
    {
        let t = &suite.targets[i];
        out.push(
            PlanEvent::Target {
                target_name: t.name.clone(),
                kind: protocol_label(&t.kind),
                address: t.address.clone(),
            },
        );
        assert(suite.targets@.take(i + 1).map_values(|t: TargetConfig| target_event(t))
            =~= suite.targets@.take(i as int).map_values(|t: TargetConfig| target_event(t)).push(
            target_event(suite.targets@[i as int]),
        ));
        i = i + 1;
    }
    assert(suite.targets@.take(suite.targets@.len() as int) =~= suite.targets@);
    let ghost head = out@;
    let mut j: usize = 0;
    while j < suite.scenarios.len()
        invariant
            j <= suite.scenarios@.len(),
            out@ == head + scenarios_events(suite.scenarios@.take(j as int)),
        decreases suite.scenarios.len() - j,
    {
        let sc = &suite.scenarios[j];
        let ghost before = out@;
        out.push(
            PlanEvent::Scenario {
                scenario: sc.name.clone(),
                schedule: sc.schedule.kind,
                concurrency: sc.schedule.concurrency,
            },
        );
        let mut k: usize = 0;
        while k < sc.steps.len()
            invariant
                k <= sc.steps@.len(),
                out@ == before + seq![
                    PlanEvent::Scenario {
                        scenario: sc.name,
                        schedule: sc.schedule.kind,
                        concurrency: sc.schedule.concurrency,
                    },
                ] + sc.steps@.take(k as int).map_values(|st: StepConfig| step_event(st)),
            decreases sc.steps.len() - k,
        {
            out.push(PlanEvent::Step { step: step_label(&sc.steps[k]) });
            assert(sc.steps@.take(k + 1).map_values(|st: StepConfig| step_event(st))
                =~= sc.steps@.take(k as int).map_values(|st: StepConfig| step_event(st)).push(
                step_event(sc.steps@[k as int]),
            ));
            k = k + 1;
        }
        assert(sc.steps@.take(sc.steps@.len() as int) =~= sc.steps@);
        assert(suite.scenarios@.take(j + 1).drop_last() =~= suite.scenarios@.take(j as int));
        assert(out@ =~= head + scenarios_events(suite.scenarios@.take(j + 1)));
        j = j + 1;
    }
    assert(suite.scenarios@.take(suite.scenarios@.len() as int) =~= suite.scenarios@);
    out
}

/// The id that follows `id`: one more, wrapping to 0 after the largest.
pub open spec fn following_id(id: u64) -> u64 {
    if id == u64::MAX {
        0
    } else {
        (id + 1) as u64
    }
}

/// The source of operation ids: each step of each run gets the next one.
#[derive(Debug)]
pub struct OpIds {
    next: u64,
}

impl OpIds {
    /// The id that the next call of `next_op_id` gives.
    pub closed spec fn upcoming(&self) -> u64 {
        self.next
    }

    /// A fresh source, whose first id is 1.
    pub fn new() -> (r: OpIds)
        ensures
            r.upcoming() == 1,
    {
        OpIds { next: 1 }
    }
}

/// Takes the next operation id.
pub fn next_op_id(ids: &mut OpIds) -> (r: u64)
    ensures
        r == old(ids).upcoming(),
        final(ids).upcoming() == following_id(r),
{
    let r = ids.next;
    ids.next = ids.next.wrapping_add(1);
    r
}

/// The id that `k` calls of `next_op_id` leave upcoming, from `start`.
pub open spec fn id_after(start: u64, k: nat) -> u64
    decreases k,
{
    if k == 0 {
        start
    } else {
        following_id(id_after(start, (k - 1) as nat))
    }
}

/// Ids are handed out in sequence: after `k` calls the upcoming id is `start + k`,
/// counted modulo 2^64, so no id comes twice within 2^64 calls.
pub proof fn law_op_ids_in_sequence(start: u64, i: nat, j: nat)
    requires
        i < j < 0x1_0000_0000_0000_0000,
    ensures
        id_after(start, i) == (start + i) % 0x1_0000_0000_0000_0000,
        id_after(start, j) == (start + j) % 0x1_0000_0000_0000_0000,
        id_after(start, i) != id_after(start, j),
{
    lemma_id_after(start, i);
    lemma_id_after(start, j);
}

proof fn lemma_id_after(start: u64, k: nat)
    ensures
        id_after(start, k) == (start + k) % 0x1_0000_0000_0000_0000,
    decreases k,
{
    if k > 0 {
        lemma_id_after(start, (k - 1) as nat);
    }
}

/// How a scenario's steps are run.
#[derive(Debug, Clone, Copy, PartialEq, Eq, Structural)]
pub enum SchedulePlan {
    /// One pass, by one worker.
    Once,
    /// Each of `workers` makes `rounds` passes; a failing pass does not stop the
    /// passes that follow it.
    Iterations { workers: usize, rounds: u64 },
    /// Each of `workers` makes pass after pass until `span` has passed; a failing
    /// pass does not stop the passes that follow it.
    Timed { workers: usize, span: Span },
}

/// The number of workers for a concurrency setting: at least one.
pub open spec fn workers_for(concurrency: u16) -> usize {
    if concurrency == 0 {
        1
    } else {
        concurrency as usize
    }
}

/// How long a timed schedule runs: its duration text when that reads as one, else
/// one second.
pub open spec fn timed_span(duration: Option<String>) -> Span {
    match duration {
        Some(d) => match duration_spec(d@) {
            Some(x) => x,
            None => span_from_secs(1),
        },
        None => span_from_secs(1),
    }
}

/// The plan of a schedule.
pub open spec fn schedule_plan_spec(s: ScheduleConfig) -> SchedulePlan {
    match s.kind {
        ScheduleKind::Once => SchedulePlan::Once,
        ScheduleKind::Iterations => SchedulePlan::Iterations {
            workers: workers_for(s.concurrency),
            rounds: match s.iterations {
                Some(n) => n,
                None => 1,
            },
        },
        ScheduleKind::Duration => SchedulePlan::Timed {
            workers: workers_for(s.concurrency),
            span: timed_span(s.duration),
        },
    }
}

/// A timed schedule runs for exactly the duration that its text reads as; the one
/// second default applies only when there is no text or it does not read as a
/// duration. Its workers are its concurrency, or one when that is zero.
pub proof fn law_timed_schedule_runs_for_its_duration(s: ScheduleConfig)
    requires
        s.kind == ScheduleKind::Duration,
    ensures
        forall|d: String|
            s.duration == Some(d) && #[trigger] duration_spec(d@) is Some ==> schedule_plan_spec(s)
                == (SchedulePlan::Timed {
                workers: if s.concurrency == 0 { 1usize } else { s.concurrency as usize },
                span: duration_spec(d@)->0,
            }),
        (s.duration is None || (s.duration matches Some(d) && duration_spec(d@) is None))
            ==> schedule_plan_spec(s) == (SchedulePlan::Timed {
            workers: if s.concurrency == 0 { 1usize } else { s.concurrency as usize },
            span: Span { secs: 1, nanos: 0 },
        }),
{
}

/// How a schedule runs the steps of its scenario.
pub fn plan_schedule(s: &ScheduleConfig) -> (r: SchedulePlan)
    ensures
        r == schedule_plan_spec(*s),
{
    let workers: usize = if s.concurrency == 0 {
        1
    } else {
        s.concurrency as usize
    };
    match s.kind {
        ScheduleKind::Once => SchedulePlan::Once,
        ScheduleKind::Iterations => SchedulePlan::Iterations {
            workers,
            rounds: match s.iterations {
                Some(n) => n,
                None => 1,
            },
        },
        ScheduleKind::Duration => {
            let span = match &s.duration {
                Some(d) => match parse_duration(d.as_str()) {
                    Some(x) => x,
                    None => from_secs(1),
                },
                None => from_secs(1),
            };
            SchedulePlan::Timed { workers, span }
        },
    }
}

/// A hook to run: its command, its timeout text and what that text reads as, and
/// whether it runs before or after the steps.
#[derive(Debug, Clone)]
pub struct HookNote {
    pub command: String,
    pub timeout: Option<String>,
    pub limit: Option<Span>,
    pub when: &'static str,
}

/// A hook at a given moment; its time limit is its timeout text read as a duration,
/// and there is none when that text is absent or does not read as one.
pub open spec fn hook_note(h: ExecHook, when: &'static str) -> HookNote {
    HookNote { command: h.command, timeout: h.timeout, limit: opt_duration(h.timeout), when }
}

/// A list of hooks at a given moment, in order.
pub open spec fn hook_notes(hs: Seq<ExecHook>, when: &'static str) -> Seq<HookNote> {
    hs.map_values(|h: ExecHook| hook_note(h, when))
}

fn notes_of(hs: &Vec<ExecHook>, when: &'static str) -> (r: Vec<HookNote>)
    ensures
        r@ == hook_notes(hs@, when),
{
    let mut out: Vec<HookNote> = Vec::new();
    let mut i: usize = 0;
    while i < hs.len()
        invariant
            i <= hs@.len(),
            out@ == hook_notes(hs@.take(i as int), when),
        decreases hs.len() - i,
    {
        let limit = match &hs[i].timeout {
            Some(t) => parse_duration(t.as_str()),
            None => None,
        };
        out.push(
            HookNote {
                command: hs[i].command.clone(),
                timeout: copy_opt_string(&hs[i].timeout),
                limit,
                when,
            },
        );
        assert(hook_notes(hs@.take(i + 1), when) =~= hook_notes(hs@.take(i as int), when).push(
            hook_note(hs@[i as int], when),
        ));
        i = i + 1;
    }
    assert(hs@.take(hs@.len() as int) =~= hs@);
    out
}

/// How a scenario runs: its schedule, the hooks to run before its steps, and those
/// to run after them. The `after` hooks run once the passes are over, whatever the
/// schedule and whether the passes failed or not. A hook's own outcome is reported
/// and does not change the scenario's result.
#[derive(Debug, Clone)]
pub struct ScenarioPlan {
    pub schedule: SchedulePlan,
    pub before: Vec<HookNote>,
    pub after: Vec<HookNote>,
}

/// The hooks of a scenario that run before its steps.
pub open spec fn before_notes(sc: ScenarioConfig) -> Seq<HookNote> {
    match sc.hooks {
        Some(h) => hook_notes(h.before@, "before"),
        None => Seq::empty(),
    }
}

/// The hooks of a scenario that run after its steps, for every schedule.
pub open spec fn after_notes(sc: ScenarioConfig) -> Seq<HookNote> {
    match sc.hooks {
        Some(h) => hook_notes(h.after@, "after"),
        None => Seq::empty(),
    }
}

/// The plan of a scenario's run.
pub fn plan_scenario(sc: &ScenarioConfig) -> (r: ScenarioPlan)
    ensures
        r.schedule == schedule_plan_spec(sc.schedule),
        r.before@ == before_notes(*sc),
        r.after@ == after_notes(*sc),
{
    let schedule = plan_schedule(&sc.schedule);
    let before = match &sc.hooks {
        Some(h) => notes_of(&h.before, "before"),
        None => Vec::new(),
    };
    let after = match &sc.hooks {
        Some(h) => notes_of(&h.after, "after"),
        None => Vec::new(),
    };
    ScenarioPlan { schedule, before, after }
}

/// The protocol that a target kind speaks.
pub open spec fn protocol_of(kind: TargetKind) -> ProtocolKind {
    match kind {
        TargetKind::Memcached => ProtocolKind::Memcached,
        TargetKind::Redis => ProtocolKind::Redis,
    }
}

/// The protocol that a target kind speaks.
pub fn target_protocol(kind: &TargetKind) -> (r: ProtocolKind)
    ensures
        r == protocol_of(*kind),
{
    match kind {
        TargetKind::Memcached => ProtocolKind::Memcached,
        TargetKind::Redis => ProtocolKind::Redis,
    }
}

/// A client that a suite runs its scenarios with.
#[derive(Debug, Clone)]
pub enum ClientHandle {
    Memcached(MemcachedClient),
    Noop(NoopClient),
}

impl ClientHandle {
    /// A copy of this handle.
    pub fn copy(&self) -> (r: ClientHandle)
        ensures
            r == *self,
    {
        match self {
            ClientHandle::Memcached(c) => ClientHandle::Memcached(MemcachedClient { at: c.at.clone() }),
            ClientHandle::Noop(c) => ClientHandle::Noop(
                NoopClient { bound_to: c.bound_to.clone(), at: c.at.clone() },
            ),
        }
    }
}

/// The client for a target: a memcached client for a memcached target, a no-op
/// client for any other.
pub open spec fn handle_for(t: TargetConfig) -> ClientHandle {
    match protocol_of(t.kind) {
        ProtocolKind::Memcached => ClientHandle::Memcached(MemcachedClient { at: t.address }),
        _ => ClientHandle::Noop(NoopClient { bound_to: t.name, at: t.address }),
    }
}

/// Builds the client for a target with the factory for its protocol.
pub fn build_client(t: &TargetConfig) -> (r: Result<ClientHandle, DriverError>)
    ensures
        r matches Ok(h) && h == handle_for(*t),
{
    let protocol = target_protocol(&t.kind);
    let spec = TargetSpec { name: t.name.clone(), address: t.address.clone() };
    match protocol {
        ProtocolKind::Memcached => match MemcachedClientFactory.build(protocol, spec) {
            Ok(c) => Ok(ClientHandle::Memcached(c)),
            Err(e) => Err(e),
        },
        _ => match NoopClientFactory.build(protocol, spec) {
            Ok(c) => Ok(ClientHandle::Noop(c)),
            Err(e) => Err(e),
        },
    }
}

/// The last target of `ts` named `name`, if any.
pub open spec fn last_named(ts: Seq<TargetConfig>, name: Seq<char>) -> Option<TargetConfig>
    decreases ts.len(),
{
    if ts.len() == 0 {
        None
    } else if ts.last().name@ == name {
        Some(ts.last())
    } else {
        last_named(ts.drop_last(), name)
    }
}

/// `table` holds one client per target name, each the client of the last target of
/// that name, as inserting the clients one by one into a map keyed by name leaves them.
pub open spec fn is_client_table(ts: Seq<TargetConfig>, table: Seq<(String, ClientHandle)>) -> bool {
    &&& forall|i: int, j: int|
        0 <= i < j < table.len() ==> (#[trigger] table[i]).0@ != (#[trigger] table[j]).0@
    &&& forall|i: int|
        0 <= i < table.len() ==> (last_named(ts, (#[trigger] table[i]).0@) matches Some(t)
            && table[i].1 == handle_for(t))
    &&& forall|k: int|
        0 <= k < ts.len() ==> exists|i: int|
            0 <= i < table.len() && (#[trigger] table[i]).0@ == (#[trigger] ts[k]).name@
}

proof fn lemma_last_named_step(ts: Seq<TargetConfig>, i: int, name: Seq<char>)
    requires
        0 <= i < ts.len(),
    ensures
        last_named(ts.take(i + 1), name) == if ts[i].name@ == name {
            Some(ts[i])
        } else {
            last_named(ts.take(i), name)
        },
{
    assert(ts.take(i + 1).drop_last() =~= ts.take(i));
}

/// The position in `table` of the entry named `name`.
fn table_position(table: &Vec<(String, ClientHandle)>, name: &String) -> (r: Option<usize>)
    ensures
        match r {
            Some(p) => p < table@.len() && table@[p as int].0@ == name@,
            None => forall|i: int| 0 <= i < table@.len() ==> (#[trigger] table@[i]).0@ != name@,
        },
{
    let mut i: usize = 0;
    while i < table.len()
        invariant
            i <= table@.len(),
            forall|j: int| 0 <= j < i ==> (#[trigger] table@[j]).0@ != name@,
        decreases table.len() - i,
    {
        if table[i].0 == *name {
            return Some(i);
        }
        i = i + 1;
    }
    None
}

/// The clients of a suite's targets, one per target name, each built for the last
/// target of that name.
pub fn client_table(targets: &Vec<TargetConfig>) -> (r: Result<Vec<(String, ClientHandle)>, DriverError>)
    ensures
        r matches Ok(table) && is_client_table(targets@, table@),
{
    let mut table: Vec<(String, ClientHandle)> = Vec::new();
    let mut i: usize = 0;
    while i < targets.len()
        invariant
            i <= targets@.len(),
            is_client_table(targets@.take(i as int), table@),
        decreases targets.len() - i,
    {
        let t = &targets[i];
        let handle = match build_client(t) {
            Ok(h) => h,
            Err(e) => return Err(e),
        };
        let ghost before = table@;
        let ghost ts = targets@;
        proof {
            assert forall|n: Seq<char>| true implies last_named(ts.take(i + 1), n) == if ts[i as int].name@ == n {
                Some(ts[i as int])
            } else {
                last_named(ts.take(i as int), n)
            } by {
                lemma_last_named_step(ts, i as int, n);
            }
        }
        match table_position(&table, &t.name) {
            Some(p) => {
                table.set(p, (t.name.clone(), handle));
                proof {
                    assert forall|k: int| 0 <= k < i + 1 implies exists|j: int|
                        0 <= j < table@.len() && (#[trigger] table@[j]).0@ == (#[trigger] ts.take(i + 1)[k]).name@ by {
                        if k < i {
                            assert(ts.take(i as int)[k] == ts.take(i + 1)[k]);
                            let j = choose|j: int| 0 <= j < before.len() && (#[trigger] before[j]).0@ == (#[trigger] ts.take(i as int)[k]).name@;
                            assert(table@[j].0@ == before[j].0@);
                        } else {
                            assert(table@[p as int].0@ == ts.take(i + 1)[k].name@);
                        }
                    }
                }
            },
            None => {
                table.push((t.name.clone(), handle));
                proof {
                    assert forall|k: int| 0 <= k < i + 1 implies exists|j: int|
                        0 <= j < table@.len() && (#[trigger] table@[j]).0@ == (#[trigger] ts.take(i + 1)[k]).name@ by {
                        if k < i {
                            assert(ts.take(i as int)[k] == ts.take(i + 1)[k]);
                            let j = choose|j: int| 0 <= j < before.len() && (#[trigger] before[j]).0@ == (#[trigger] ts.take(i as int)[k]).name@;
                            assert(table@[j] == before[j]);
                        } else {
                            assert(table@[before.len() as int].0@ == ts.take(i + 1)[k].name@);
                        }
                    }
                }
            },
        }
        i = i + 1;
    }
    assert(targets@.take(targets@.len() as int) =~= targets@);
    Ok(table)
}

/// The position of the first entry that a walk of a `HashMap` meets, the map holding
/// each position below `count`. Which entry that is depends on the map's hasher,
/// which each process seeds: it is one of the positions, and there is one when
/// `count` is not zero.
fn hash_walk_first(count: usize) -> (r: Option<usize>)
    ensures
        r is None <==> count == 0,
        r matches Some(i) ==> i < count,
{
    broadcast use vstd::std_specs::hash::group_hash_axioms;

    let mut map: std::collections::HashMap<usize, usize> = std::collections::HashMap::new();
    let mut i: usize = 0;
    while i < count
        invariant
            i <= count,
            map@.dom() == Set::new(|k: usize| k < i),
            forall|k: usize| #[trigger] map@.contains_key(k) ==> map@[k] == k,
        decreases count - i,
    {
        map.insert(i, i);
        i = i + 1;
    }
    proof {
        if count > 0 {
            assert(map@.dom().contains(0usize));
        } else {
            assert(map@.dom() =~= Set::empty());
        }
        vstd::set_lib::lemma_set_empty_equivalency_len(map@.dom());
    }
    let mut first: Option<usize> = None;
    for v in walk: map.values()
        invariant
            first is None <==> walk.index() == 0,
            first matches Some(f) ==> map@.values().contains(f),
    {
        if first.is_none() {
            proof {
                assert(walk.seq().unref().to_set().contains(*v));
            }
            first = Some(*v);
        }
    }
    first
}

/// The client at position `walk` of `table`, if a position is given.
pub fn default_client_at(table: &Vec<(String, ClientHandle)>, walk: Option<usize>) -> (r: Option<
    ClientHandle,
>)
    requires
        walk matches Some(i) ==> i < table@.len(),
    ensures
        r == match walk {
            Some(i) => Some(table@[i as int].1),
            None => None,
        },
{
    match walk {
        Some(i) => Some(table[i].1.copy()),
        None => None,
    }
}

/// The client that runs a suite's scenarios: of the clients, one per target name,
/// the first that a walk of a hash map over them meets, or none when the suite has
/// no targets. Which of the clients comes first is the map's choice.
pub fn choose_default_client(suite: &SuiteConfig) -> (r: Result<Option<ClientHandle>, DriverError>)
    ensures
        r matches Ok(c) && (c is None <==> suite.targets@.len() == 0) && (c matches Some(h)
            ==> exists|t: TargetConfig|
            #![trigger handle_for(t)]
            suite.targets@.contains(t) && last_named(suite.targets@, t.name@) == Some(t) && h
                == handle_for(t)),
{
    let table = match client_table(&suite.targets) {
        Ok(t) => t,
        Err(e) => return Err(e),
    };
    let walk = hash_walk_first(table.len());
    let chosen = default_client_at(&table, walk);
    proof {
        let ts = suite.targets@;
        if ts.len() > 0 {
            assert(ts[0] == ts[0]);
            assert(exists|i: int| 0 <= i < table@.len() && (#[trigger] table@[i]).0@ == ts[0].name@);
        }
        match walk {
            Some(i) => {
                let t = last_named(ts, table@[i as int].0@)->0;
                lemma_last_named_member(ts, table@[i as int].0@);
                assert(handle_for(t) == chosen->0);
            },
            None => {},
        }
    }
    Ok(chosen)
}

/// The last target of a name is one of the targets and has that name.
pub proof fn lemma_last_named_member(ts: Seq<TargetConfig>, name: Seq<char>)
    ensures
        last_named(ts, name) matches Some(t) ==> ts.contains(t) && t.name@ == name
            && last_named(ts, t.name@) == Some(t),
    decreases ts.len(),
{
    if ts.len() > 0 && ts.last().name@ != name {
        lemma_last_named_member(ts.drop_last(), name);
        if let Some(t) = last_named(ts.drop_last(), name) {
            let k = choose|k: int| 0 <= k < ts.drop_last().len() && ts.drop_last()[k] == t;
            assert(ts[k] == t);
        }
    } else if ts.len() > 0 {
        assert(ts[ts.len() - 1] == ts.last());
    }
}

/// Every schedule that runs workers runs at least one, whatever its concurrency.
pub proof fn law_schedule_has_a_worker(s: ScheduleConfig)
    ensures
        schedule_plan_spec(s) matches SchedulePlan::Iterations { workers, .. } ==> workers >= 1,
        schedule_plan_spec(s) matches SchedulePlan::Timed { workers, .. } ==> workers >= 1,
        schedule_plan_spec(s) matches SchedulePlan::Timed { span, .. } ==> span.wf(),
{
    match s.duration {
        Some(d) => {
            if let Some(x) = duration_spec(d@) {
                crate::duration::law_parsed_duration_is_wf(d@);
            }
        },
        None => {},
    }
}

/// The count that follows `n`, stopping at the largest `u64`.
pub open spec fn count_up(n: u64, by: u64) -> u64 {
    if n + by > u64::MAX {
        u64::MAX
    } else {
        (n + by) as u64
    }
}

/// The failure kept after one more result: the one already kept, else this result's.
pub open spec fn keep_first(kept: Option<StepError>, result: Result<(), StepError>) -> Option<
    StepError,
> {
    match kept {
        Some(e) => Some(e),
        None => match result {
            Err(e) => Some(e),
            Ok(()) => None,
        },
    }
}

/// The failure kept after a sequence of results, one by one.
pub open spec fn keep_first_all(kept: Option<StepError>, results: Seq<Result<(), StepError>>) -> Option<
    StepError,
>
    decreases results.len(),
{
    if results.len() == 0 {
        kept
    } else {
        keep_first_all(keep_first(kept, results[0]), results.drop_first())
    }
}

/// The first failure among `results`, in order.
pub open spec fn first_err(results: Seq<Result<(), StepError>>) -> Option<StepError>
    decreases results.len(),
{
    if results.len() == 0 {
        None
    } else {
        match results[0] {
            Err(e) => Some(e),
            Ok(()) => first_err(results.drop_first()),
        }
    }
}

/// Recording results one by one, from nothing kept, keeps the first failure among
/// them, and keeps none exactly when all of them passed. So a scenario fails with
/// the first failure of its passes, and a suite with the first failure of its
/// scenarios.
pub proof fn law_results_keep_first_failure(results: Seq<Result<(), StepError>>)
    ensures
        keep_first_all(None, results) == first_err(results),
        keep_first_all(None, results) is None <==> forall|i: int|
            0 <= i < results.len() ==> (#[trigger] results[i]) is Ok,
    decreases results.len(),
{
    if results.len() > 0 {
        law_results_keep_first_failure(results.drop_first());
        lemma_keep_first_all_kept(results.drop_first(), keep_first(None, results[0]));
        if results[0] is Ok {
            assert forall|i: int| 0 <= i < results.len() && (forall|j: int| 0 <= j < results.drop_first().len() ==> (#[trigger] results.drop_first()[j]) is Ok) implies (#[trigger] results[i]) is Ok by {
                if i > 0 {
                    assert(results[i] == results.drop_first()[i - 1]);
                }
            }
            if forall|i: int| 0 <= i < results.len() ==> (#[trigger] results[i]) is Ok {
                assert forall|j: int| 0 <= j < results.drop_first().len() implies (#[trigger] results.drop_first()[j]) is Ok by {
                    assert(results.drop_first()[j] == results[j + 1]);
                }
            }
        } else {
            assert(!(results[0] is Ok));
        }
    }
}

/// Once a failure is kept, later results do not replace it.
pub proof fn lemma_keep_first_all_kept(results: Seq<Result<(), StepError>>, kept: Option<StepError>)
    ensures
        kept is Some ==> keep_first_all(kept, results) == kept,
    decreases results.len(),
{
    if results.len() > 0 {
        lemma_keep_first_all_kept(results.drop_first(), keep_first(kept, results[0]));
    }
}

/// What a scenario's passes came to: how many passes ran, how many failed, and the
/// first failure met. A scenario fails when any of its passes failed, with the
/// first failure, whatever its schedule.
pub struct ScenarioTally {
    passes: u64,
    failures: u64,
    first_failure: Option<StepError>,
}

impl ScenarioTally {
    /// A failure is kept exactly when a pass failed, and failures never outnumber
    /// passes.
    #[verifier::type_invariant]
    spec fn consistent(&self) -> bool {
        &&& (self.failures > 0) == (self.first_failure is Some)
        &&& self.failures <= self.passes
    }

    /// The passes counted, up to the largest `u64`.
    pub closed spec fn passes(&self) -> u64 {
        self.passes
    }

    /// The failed passes counted, up to the largest `u64`.
    pub closed spec fn failures(&self) -> u64 {
        self.failures
    }

    /// The first failure met, if any.
    pub closed spec fn first_failure(&self) -> Option<StepError> {
        self.first_failure
    }

    /// A tally of no passes.
    pub fn new() -> (r: ScenarioTally)
        ensures
            r.passes() == 0,
            r.failures() == 0,
            r.first_failure() is None,
    {
        ScenarioTally { passes: 0, failures: 0, first_failure: None }
    }

    /// Counts one pass with its result; the first failure met is the one kept.
    pub fn record(&mut self, pass: Result<(), StepError>)
        ensures
            final(self).passes() == count_up(old(self).passes(), 1),
            final(self).failures() == count_up(old(self).failures(), if pass is Err { 1 } else { 0 }),
            final(self).first_failure() == keep_first(old(self).first_failure(), pass),
    {
        proof {
            use_type_invariant(&*self);
        }
        let failed = pass.is_err();
        let mut before = ScenarioTally::new();
        std::mem::swap(&mut before, self);
        proof {
            use_type_invariant(&before);
        }
        let passes = before.passes.saturating_add(1);
        let failures = if failed {
            before.failures.saturating_add(1)
        } else {
            before.failures
        };
        let first = match before.first_failure {
            Some(e) => Some(e),
            None => match pass {
                Err(e) => Some(e),
                Ok(()) => None,
            },
        };
        *self = ScenarioTally { passes, failures, first_failure: first };
    }

    /// Adds up two tallies: the counts add, and this tally's first failure comes
    /// before the other's.
    pub fn merge(&mut self, other: ScenarioTally)
        ensures
            final(self).passes() == count_up(old(self).passes(), other.passes()),
            final(self).failures() == count_up(old(self).failures(), other.failures()),
            final(self).first_failure() == match old(self).first_failure() {
                Some(e) => Some(e),
                None => other.first_failure(),
            },
    {
        proof {
            use_type_invariant(&*self);
            use_type_invariant(&other);
        }
        let mut before = ScenarioTally::new();
        std::mem::swap(&mut before, self);
        proof {
            use_type_invariant(&before);
        }
        let passes = before.passes.saturating_add(other.passes);
        let failures = before.failures.saturating_add(other.failures);
        let first = match before.first_failure {
            Some(e) => Some(e),
            None => other.first_failure,
        };
        *self = ScenarioTally { passes, failures, first_failure: first };
    }

    /// The passes counted.
    pub fn pass_count(&self) -> (r: u64)
        ensures
            r == self.passes(),
    {
        self.passes
    }

    /// The failed passes counted.
    pub fn failure_count(&self) -> (r: u64)
        ensures
            r == self.failures(),
    {
        self.failures
    }

    /// The scenario's result: its first failure, or success when no pass failed.
    pub fn outcome(self) -> (r: Result<(), StepError>)
        ensures
            r == match self.first_failure() {
                Some(e) => Err(e),
                None => Ok(()),
            },
            r is Ok <==> self.failures() == 0,
    {
        proof {
            use_type_invariant(&self);
        }
        match self.first_failure {
            Some(e) => Err(e),
            None => Ok(()),
        }
    }
}

/// What the suite does with a scenario.
#[derive(Debug, Clone, Copy, PartialEq, Eq, Structural)]
pub enum ScenarioAction {
    /// Run it with the suite's client.
    Run,
    /// Skip it: the suite has no client.
    Skip,
}

/// One run through a suite's scenarios, in order, until all are done or one has
/// failed; the suite fails with the first scenario failure.
pub struct SuiteRun {
    count: usize,
    next: usize,
    has_client: bool,
    failure: Option<StepError>,
}

impl SuiteRun {
    /// The scenarios handed out never outnumber the scenarios.
    #[verifier::type_invariant]
    spec fn within(&self) -> bool {
        self.next <= self.count
    }

    /// How many scenarios the suite has.
    pub closed spec fn count(&self) -> nat {
        self.count as nat
    }

    /// How many scenarios have been handed out.
    pub closed spec fn position(&self) -> nat {
        self.next as nat
    }

    /// Whether the suite has a client to run scenarios with.
    pub closed spec fn has_client(&self) -> bool {
        self.has_client
    }

    /// The first scenario failure, which ends the run.
    pub closed spec fn failure(&self) -> Option<StepError> {
        self.failure
    }

    /// A run over `count` scenarios that has handed out none yet.
    pub fn new(count: usize, has_client: bool) -> (r: SuiteRun)
        ensures
            r.count() == count,
            r.position() == 0,
            r.has_client() == has_client,
            r.failure() is None,
    {
        SuiteRun { count, next: 0, has_client, failure: None }
    }

    /// The next scenario and what to do with it: run it when the suite has a
    /// client, skip it otherwise. Nothing comes once every scenario has been handed
    /// out or one failed.
    pub fn next_scenario(&mut self) -> (r: Option<(usize, ScenarioAction)>)
        ensures
            final(self).count() == old(self).count(),
            final(self).has_client() == old(self).has_client(),
            final(self).failure() == old(self).failure(),
            old(self).failure() is Some || old(self).position() == old(self).count() ==> {
                &&& r is None
                &&& final(self).position() == old(self).position()
            },
            !(old(self).failure() is Some || old(self).position() == old(self).count()) ==> {
                &&& r matches Some((i, action))
                &&& i == old(self).position()
                &&& action == (if old(self).has_client() {
                    ScenarioAction::Run
                } else {
                    ScenarioAction::Skip
                })
                &&& final(self).position() == old(self).position() + 1
            },
    {
        proof {
            use_type_invariant(&*self);
        }
        if self.failure.is_some() || self.next == self.count {
            return None;
        }
        let i = self.next;
        self.next = i + 1;
        let action = if self.has_client {
            ScenarioAction::Run
        } else {
            ScenarioAction::Skip
        };
        Some((i, action))
    }

    /// Whether a scenario has been handed out, so that its result can be recorded.
    pub fn has_current(&self) -> (b: bool)
        ensures
            b == (self.position() > 0),
    {
        self.next > 0
    }

    /// Records the result of the scenario last handed out; a failure ends the run.
    pub fn record(&mut self, result: Result<(), StepError>)
        requires
            old(self).position() > 0,
        ensures
            final(self).count() == old(self).count(),
            final(self).position() == old(self).position(),
            final(self).has_client() == old(self).has_client(),
            final(self).failure() == keep_first(old(self).failure(), result),
    {
        let mut before = SuiteRun::new(0, false);
        std::mem::swap(&mut before, self);
        proof {
            use_type_invariant(&before);
        }
        let failure = match before.failure {
            Some(e) => Some(e),
            None => match result {
                Err(e) => Some(e),
                Ok(()) => None,
            },
        };
        *self = SuiteRun {
            count: before.count,
            next: before.next,
            has_client: before.has_client,
            failure,
        };
    }

    /// The suite's result: the first scenario failure, or success.
    pub fn outcome(self) -> (r: Result<(), StepError>)
        ensures
            r == match self.failure() {
                Some(e) => Err(e),
                None => Ok(()),
            },
    {
        match self.failure {
            Some(e) => Err(e),
            None => Ok(()),
        }
    }
}

} // verus!
