use memsanity::{
    build_client, choose_default_client, next_op_id, plan_scenario, plan_schedule, print_plan,
    protocol_label, step_label, target_protocol, ClientHandle, ExecHook, HooksConfig, NoopClientFactory,
    OpIds, PlanEvent, ProtocolKind, ScenarioConfig, ScheduleConfig, ScheduleKind, SchedulePlan, Span,
    StepConfig, SuiteConfig, TargetConfig, TargetKind, TargetSpec,
};

fn target(name: &str, kind: TargetKind, address: &str) -> TargetConfig {
    TargetConfig { name: name.to_string(), kind, address: address.to_string() }
}

fn schedule(kind: ScheduleKind, duration: Option<&str>, iterations: Option<u64>, concurrency: u16) -> ScheduleConfig {
    ScheduleConfig { kind, duration: duration.map(|s| s.to_string()), iterations, concurrency }
}

fn scenario(name: &str, sched: ScheduleConfig, hooks: Option<HooksConfig>, steps: Vec<StepConfig>) -> ScenarioConfig {
    ScenarioConfig { name: name.to_string(), schedule: sched, hooks, steps }
}

#[test]
fn labels() {
    assert_eq!(protocol_label(&TargetKind::Memcached), "memcached");
    assert_eq!(protocol_label(&TargetKind::Redis), "redis");
    let set = StepConfig::Store { key: "k".into(), value: "v".into(), ttl: None };
    assert_eq!(step_label(&set), "set");
    assert_eq!(step_label(&StepConfig::Get { key: "k".into(), expect: None }), "get");
    assert_eq!(step_label(&StepConfig::Mget { keys: vec![], expect: None }), "mget");
    assert_eq!(step_label(&StepConfig::Delete { key: "k".into() }), "delete");
    assert_eq!(step_label(&StepConfig::Sleep { duration: "1s".into() }), "sleep");
}

#[test]
fn plan_lists_suite_targets_scenarios_and_steps() {
    let suite = SuiteConfig {
        name: "core".into(),
        targets: vec![target("mc", TargetKind::Memcached, "a:1"), target("rd", TargetKind::Redis, "b:2")],
        scenarios: vec![
            scenario("s1", schedule(ScheduleKind::Once, None, None, 1), None, vec![
                StepConfig::Store { key: "k".into(), value: "v".into(), ttl: None },
                StepConfig::Get { key: "k".into(), expect: None },
            ]),
            scenario("s2", schedule(ScheduleKind::Iterations, None, Some(3), 4), None, vec![]),
        ],
    };
    let events = print_plan(&suite);
    let text: Vec<String> = events.iter().map(|e| match e {
        PlanEvent::SuiteLoaded { suite } => format!("suite {}", suite),
        PlanEvent::Target { target_name, kind, address } => format!("target {} {} {}", target_name, kind, address),
        PlanEvent::Scenario { scenario, schedule, concurrency } => format!("scenario {} {:?} {}", scenario, schedule, concurrency),
        PlanEvent::Step { step } => format!("step {}", step),
    }).collect();
    assert_eq!(text, vec![
        "suite core",
        "target mc memcached a:1",
        "target rd redis b:2",
        "scenario s1 Once 1",
        "step set",
        "step get",
        "scenario s2 Iterations 4",
    ]);
}

#[test]
fn op_ids_count_up_from_one() {
    let mut ids = OpIds::new();
    assert_eq!(next_op_id(&mut ids), 1);
    assert_eq!(next_op_id(&mut ids), 2);
    assert_eq!(next_op_id(&mut ids), 3);
}

#[test]
fn schedules() {
    assert_eq!(plan_schedule(&schedule(ScheduleKind::Once, None, None, 5)), SchedulePlan::Once);
    assert_eq!(
        plan_schedule(&schedule(ScheduleKind::Iterations, None, None, 0)),
        SchedulePlan::Iterations { workers: 1, rounds: 1 }
    );
    assert_eq!(
        plan_schedule(&schedule(ScheduleKind::Iterations, None, Some(7), 3)),
        SchedulePlan::Iterations { workers: 3, rounds: 7 }
    );
    assert_eq!(
        plan_schedule(&schedule(ScheduleKind::Duration, Some("250ms"), None, 2)),
        SchedulePlan::Timed { workers: 2, span: Span { secs: 0, nanos: 250_000_000 } }
    );
    assert_eq!(
        plan_schedule(&schedule(ScheduleKind::Duration, Some("soon"), None, 0)),
        SchedulePlan::Timed { workers: 1, span: Span { secs: 1, nanos: 0 } }
    );
    assert_eq!(
        plan_schedule(&schedule(ScheduleKind::Duration, None, None, 1)),
        SchedulePlan::Timed { workers: 1, span: Span { secs: 1, nanos: 0 } }
    );
}

fn hooks() -> HooksConfig {
    HooksConfig {
        before: vec![ExecHook { command: "pause".into(), timeout: Some("5s".into()) }],
        after: vec![ExecHook { command: "resume".into(), timeout: None }],
    }
}

#[test]
fn scenario_hooks() {
    let once = plan_scenario(&scenario("s", schedule(ScheduleKind::Once, None, None, 1), Some(hooks()), vec![]));
    assert_eq!(once.schedule, SchedulePlan::Once);
    assert_eq!(once.before.len(), 1);
    assert_eq!(once.before[0].command, "pause");
    assert_eq!(once.before[0].timeout, Some("5s".to_string()));
    assert_eq!(once.before[0].when, "before");
    assert_eq!(once.before[0].limit, Some(Span { secs: 5, nanos: 0 }));
    assert_eq!(once.after[0].limit, None);
    assert_eq!(once.after.len(), 1);
    assert_eq!(once.after[0].command, "resume");
    assert_eq!(once.after[0].when, "after");
    let iter = plan_scenario(&scenario("s", schedule(ScheduleKind::Iterations, None, None, 1), Some(hooks()), vec![]));
    assert_eq!(iter.before.len(), 1);
    assert_eq!(iter.after.len(), 1);
    assert_eq!(iter.after[0].command, "resume");
    let timed = plan_scenario(&scenario("s", schedule(ScheduleKind::Duration, Some("1s"), None, 1), Some(hooks()), vec![]));
    assert_eq!(timed.after.len(), 1);
    let none = plan_scenario(&scenario("s", schedule(ScheduleKind::Once, None, None, 1), None, vec![]));
    assert!(none.before.is_empty() && none.after.is_empty());
}

#[test]
fn clients_by_kind() {
    assert_eq!(target_protocol(&TargetKind::Redis), ProtocolKind::Redis);
    match build_client(&target("mc", TargetKind::Memcached, "a:1")).unwrap() {
        ClientHandle::Memcached(c) => assert_eq!(c.at, "a:1"),
        _ => panic!("expected a memcached client"),
    }
    match build_client(&target("rd", TargetKind::Redis, "b:2")).unwrap() {
        ClientHandle::Noop(c) => {
            assert_eq!(c.bound_to, "rd");
            assert_eq!(c.at, "b:2");
        }
        _ => panic!("expected a no-op client"),
    }
}

#[test]
fn default_client_choice() {
    let empty = SuiteConfig { name: "e".into(), targets: vec![], scenarios: vec![] };
    assert!(choose_default_client(&empty).unwrap().is_none());
    let one = SuiteConfig { name: "o".into(), targets: vec![target("mc", TargetKind::Memcached, "a:1")], scenarios: vec![] };
    match choose_default_client(&one).unwrap() {
        Some(ClientHandle::Memcached(c)) => assert_eq!(c.at, "a:1"),
        _ => panic!("expected the only client"),
    }
    // Two targets of one name: the later one's client is the one kept.
    let dup = SuiteConfig {
        name: "d".into(),
        targets: vec![target("x", TargetKind::Memcached, "a:1"), target("x", TargetKind::Redis, "b:2")],
        scenarios: vec![],
    };
    match choose_default_client(&dup).unwrap() {
        Some(ClientHandle::Noop(c)) => assert_eq!(c.at, "b:2"),
        _ => panic!("expected the later client"),
    }
    let two = SuiteConfig {
        name: "t".into(),
        targets: vec![target("x", TargetKind::Memcached, "a:1"), target("y", TargetKind::Redis, "b:2")],
        scenarios: vec![],
    };
    assert!(choose_default_client(&two).unwrap().is_some());
}

#[test]
fn noop_client_answers_noop() {
    let c = NoopClientFactory
        .build(ProtocolKind::Redis, TargetSpec { name: "n".into(), address: "z:9".into() })
        .unwrap();
    assert_eq!(c.bound_to, "n");
    assert!(c.set("k", "v", None).is_ok());
    assert_eq!(c.get("k").unwrap(), Some("noop".to_string()));
    let keys = vec!["a".to_string(), "b".to_string()];
    assert_eq!(c.mget(&keys).unwrap(), vec![Some("noop".to_string()), Some("noop".to_string())]);
    assert!(c.delete("k").is_ok());
}

fn failure(msg: &str) -> Result<(), memsanity::StepError> {
    Err(memsanity::StepError::Client { message: msg.to_string() })
}

#[test]
fn a_tally_keeps_the_first_failure() {
    let mut t = memsanity::ScenarioTally::new();
    t.record(Ok(()));
    t.record(failure("first"));
    t.record(Ok(()));
    t.record(failure("second"));
    assert_eq!(t.pass_count(), 4);
    assert_eq!(t.failure_count(), 2);
    assert_eq!(t.outcome().unwrap_err().message(), "first");
    let mut clean = memsanity::ScenarioTally::new();
    clean.record(Ok(()));
    assert!(clean.outcome().is_ok());
    assert!(memsanity::ScenarioTally::new().outcome().is_ok());
}

#[test]
fn merged_tallies_keep_the_earlier_worker_failure() {
    let mut a = memsanity::ScenarioTally::new();
    a.record(Ok(()));
    let mut b = memsanity::ScenarioTally::new();
    b.record(failure("b"));
    let mut c = memsanity::ScenarioTally::new();
    c.record(failure("c"));
    a.merge(b);
    a.merge(c);
    assert_eq!(a.pass_count(), 3);
    assert_eq!(a.failure_count(), 2);
    assert_eq!(a.outcome().unwrap_err().message(), "b");
}

#[test]
fn a_suite_stops_at_its_first_failing_scenario() {
    let mut run = memsanity::SuiteRun::new(3, true);
    assert!(!run.has_current());
    assert_eq!(run.next_scenario(), Some((0, memsanity::ScenarioAction::Run)));
    run.record(Ok(()));
    assert_eq!(run.next_scenario(), Some((1, memsanity::ScenarioAction::Run)));
    run.record(failure("boom"));
    assert_eq!(run.next_scenario(), None);
    assert_eq!(run.outcome().unwrap_err().message(), "boom");
}

#[test]
fn a_suite_without_client_skips_every_scenario() {
    let mut run = memsanity::SuiteRun::new(2, false);
    assert_eq!(run.next_scenario(), Some((0, memsanity::ScenarioAction::Skip)));
    run.record(Ok(()));
    assert_eq!(run.next_scenario(), Some((1, memsanity::ScenarioAction::Skip)));
    run.record(Ok(()));
    assert_eq!(run.next_scenario(), None);
    assert!(run.outcome().is_ok());
}

#[test]
fn expected_values_behave_as_a_map() {
    let mut pairs = Vec::new();
    memsanity::insert_expected_value(&mut pairs, "a".to_string(), "1".to_string());
    memsanity::insert_expected_value(&mut pairs, "b".to_string(), "2".to_string());
    memsanity::insert_expected_value(&mut pairs, "a".to_string(), "3".to_string());
    assert_eq!(pairs, vec![("a".to_string(), "3".to_string()), ("b".to_string(), "2".to_string())]);
}
