use memsanity::{judge_step, reply_fits, StepReply};
use memsanity::{
    check_get, check_mget, plan_step, print_expect, print_expect_multi, ExpectConfig, ExpectMultiConfig,
    ExpectNote, Span, StepConfig, StepError, StepRequest,
};

fn s(x: &str) -> String {
    x.to_string()
}

fn expect(value: Option<&str>, miss: Option<bool>, lat: Option<u64>) -> Option<ExpectConfig> {
    Some(ExpectConfig { value: value.map(s), miss, latency_ms_lt: lat })
}

#[test]
fn step_requests() {
    match plan_step(&StepConfig::Store { key: s("k"), value: s("v"), ttl: Some(s("2s")) }) {
        StepRequest::Store { key, value, ttl } => {
            assert_eq!((key.as_str(), value.as_str()), ("k", "v"));
            assert_eq!(ttl, Some(Span { secs: 2, nanos: 0 }));
        }
        _ => panic!("wrong request"),
    }
    match plan_step(&StepConfig::Store { key: s("k"), value: s("v"), ttl: Some(s("later")) }) {
        StepRequest::Store { ttl, .. } => assert_eq!(ttl, None),
        _ => panic!("wrong request"),
    }
    match plan_step(&StepConfig::Sleep { duration: s("20ms") }) {
        StepRequest::Sleep { pause } => assert_eq!(pause, Some(Span { secs: 0, nanos: 20_000_000 })),
        _ => panic!("wrong request"),
    }
    match plan_step(&StepConfig::Sleep { duration: s("a while") }) {
        StepRequest::Sleep { pause } => assert_eq!(pause, None),
        _ => panic!("wrong request"),
    }
    match plan_step(&StepConfig::Mget { keys: vec![s("a"), s("b")], expect: None }) {
        StepRequest::Mget { keys } => assert_eq!(keys, vec![s("a"), s("b")]),
        _ => panic!("wrong request"),
    }
    match plan_step(&StepConfig::Delete { key: s("d") }) {
        StepRequest::Delete { key } => assert_eq!(key, "d"),
        _ => panic!("wrong request"),
    }
    match plan_step(&StepConfig::Get { key: s("g"), expect: None }) {
        StepRequest::Get { key } => assert_eq!(key, "g"),
        _ => panic!("wrong request"),
    }
}

#[test]
fn get_without_expectation_passes() {
    assert!(check_get(&None, &None, 10_000).is_ok());
    assert!(check_get(&expect(None, None, None), &Some(s("x")), 5).is_ok());
}

#[test]
fn get_value_checks() {
    assert!(check_get(&expect(Some("v"), None, None), &Some(s("v")), 0).is_ok());
    let e = check_get(&expect(Some("v"), None, None), &Some(s("w")), 0).unwrap_err();
    assert_eq!(e.message(), "get value mismatch: expected='v' got='w'");
    let e = check_get(&expect(Some("v"), Some(true), None), &None, 0).unwrap_err();
    assert_eq!(e.message(), "get value mismatch: expected='v' got=''");
}

#[test]
fn get_hit_and_miss_checks() {
    let e = check_get(&expect(None, Some(true), None), &Some(s("x")), 0).unwrap_err();
    assert!(matches!(e, StepError::ExpectedMiss));
    assert_eq!(e.message(), "expected miss but got value");
    let e = check_get(&expect(None, Some(false), None), &None, 0).unwrap_err();
    assert_eq!(e.message(), "expected hit but got miss");
    assert!(check_get(&expect(None, Some(true), None), &None, 0).is_ok());
    assert!(check_get(&expect(None, Some(false), None), &Some(s("x")), 0).is_ok());
}

#[test]
fn get_latency_checks() {
    assert!(check_get(&expect(None, None, Some(50)), &None, 49).is_ok());
    let e = check_get(&expect(None, None, Some(50)), &None, 50).unwrap_err();
    assert_eq!(e.message(), "latency too high: 50ms >= 50ms");
    // The value is checked before the time.
    let e = check_get(&expect(Some("v"), None, Some(1)), &Some(s("w")), 99).unwrap_err();
    assert!(matches!(e, StepError::GetValueMismatch { .. }));
}

fn multi(values: Option<Vec<(&str, &str)>>, misses: Option<Vec<&str>>) -> Option<ExpectMultiConfig> {
    Some(ExpectMultiConfig {
        values: values.map(|v| v.into_iter().map(|(a, b)| (s(a), s(b))).collect()),
        misses: misses.map(|v| v.into_iter().map(s).collect()),
    })
}

#[test]
fn mget_checks_pass() {
    let keys = vec![s("a"), s("b"), s("c")];
    let got = vec![Some(s("1")), None, Some(s("3"))];
    assert!(check_mget(&keys, &None, &got).is_ok());
    assert!(check_mget(&keys, &multi(Some(vec![("a", "1"), ("c", "3")]), Some(vec!["b"])), &got).is_ok());
}

#[test]
fn mget_value_failures() {
    let keys = vec![s("a"), s("b")];
    let got = vec![Some(s("1")), None];
    let e = check_mget(&keys, &multi(Some(vec![("a", "2")]), None), &got).unwrap_err();
    assert_eq!(e.message(), "mget value mismatch for key 'a': expected='2' got=Some(Some(\"1\"))");
    let e = check_mget(&keys, &multi(Some(vec![("b", "2")]), None), &got).unwrap_err();
    assert_eq!(e.message(), "mget value mismatch for key 'b': expected='2' got=Some(None)");
    let e = check_mget(&keys, &multi(Some(vec![("b", "2")]), None), &vec![Some(s("1"))]).unwrap_err();
    assert_eq!(e.message(), "mget value mismatch for key 'b': expected='2' got=None");
    let e = check_mget(&keys, &multi(Some(vec![("z", "2")]), None), &got).unwrap_err();
    assert_eq!(e.message(), "mget expected key 'z' not in requested keys");
}

#[test]
fn mget_miss_failures() {
    let keys = vec![s("a"), s("b")];
    let got = vec![Some(s("1")), None];
    let e = check_mget(&keys, &multi(None, Some(vec!["a"])), &got).unwrap_err();
    assert_eq!(e.message(), "mget expected miss for 'a' but got value");
    let e = check_mget(&keys, &multi(None, Some(vec!["q"])), &got).unwrap_err();
    assert_eq!(e.message(), "mget expected miss key 'q' not in requested keys");
    // Values are checked before misses.
    let e = check_mget(&keys, &multi(Some(vec![("a", "9")]), Some(vec!["a"])), &got).unwrap_err();
    assert!(matches!(e, StepError::MgetValueMismatch { .. }));
}

#[test]
fn mget_uses_first_position_of_a_key() {
    let keys = vec![s("a"), s("a")];
    let got = vec![None, Some(s("1"))];
    let e = check_mget(&keys, &multi(Some(vec![("a", "1")]), None), &got).unwrap_err();
    assert!(matches!(e, StepError::MgetValueMismatch { .. }));
}

#[test]
fn client_error_message_is_kept() {
    let e = StepError::Client { message: s("connection refused") };
    assert_eq!(e.message(), "connection refused");
}

#[test]
fn expectation_notes() {
    let notes = print_expect(7, &ExpectConfig { value: Some(s("v")), miss: Some(false), latency_ms_lt: Some(5) });
    assert_eq!(notes.len(), 3);
    assert!(matches!(&notes[0], ExpectNote::Value { op_id: 7, value } if value == "v"));
    assert!(matches!(&notes[1], ExpectNote::Miss { op_id: 7, miss: false }));
    assert!(matches!(&notes[2], ExpectNote::LatencyLt { op_id: 7, limit_ms: 5 }));
    assert!(print_expect(1, &ExpectConfig { value: None, miss: None, latency_ms_lt: None }).is_empty());
    let notes = print_expect_multi(3, &multi(None, Some(vec!["x"])).unwrap());
    assert_eq!(notes.len(), 1);
    assert!(matches!(&notes[0], ExpectNote::Misses { op_id: 3, misses } if misses == &vec![s("x")]));
}

#[test]
fn judging_steps() {
    let get = StepConfig::Get { key: s("k"), expect: expect(Some("v"), None, None) };
    let fetched = StepReply::Fetched { got: Some(s("v")), elapsed_ms: 1 };
    assert!(reply_fits(&get, &fetched));
    assert!(judge_step(&get, &fetched).is_ok());
    let wrong = StepReply::Fetched { got: Some(s("w")), elapsed_ms: 1 };
    assert_eq!(judge_step(&get, &wrong).unwrap_err().message(), "get value mismatch: expected='v' got='w'");
    let failed = StepReply::ClientFailed { message: s("connection refused") };
    assert!(reply_fits(&get, &failed));
    assert_eq!(judge_step(&get, &failed).unwrap_err().message(), "connection refused");
    assert!(!reply_fits(&get, &StepReply::Done));

    let mget = StepConfig::Mget { keys: vec![s("a")], expect: multi(None, Some(vec!["a"])) };
    let many = StepReply::FetchedMany { got: vec![Some(s("1"))] };
    assert!(reply_fits(&mget, &many));
    assert_eq!(judge_step(&mget, &many).unwrap_err().message(), "mget expected miss for 'a' but got value");
    assert!(!reply_fits(&mget, &fetched));

    let del = StepConfig::Delete { key: s("k") };
    assert!(reply_fits(&del, &StepReply::Done));
    assert!(judge_step(&del, &StepReply::Done).is_ok());
    assert!(!reply_fits(&del, &many));
    let sleep = StepConfig::Sleep { duration: s("1ms") };
    assert!(judge_step(&sleep, &StepReply::Done).is_ok());
}

#[test]
fn a_run_hands_out_steps_in_order_and_stops_at_a_failure() {
    let steps = vec![
        StepConfig::Store { key: s("k"), value: s("v"), ttl: None },
        StepConfig::Get { key: s("k"), expect: expect(Some("v"), None, None) },
        StepConfig::Delete { key: s("k") },
    ];
    let mut ids = memsanity::OpIds::new();
    let mut run = memsanity::StepRun::new(steps);
    assert!(!run.has_current());
    let (i, op, req) = run.next_step(&mut ids).unwrap();
    assert_eq!((i, op), (0, 1));
    assert!(matches!(req, StepRequest::Store { .. }));
    assert!(run.current_fits(&StepReply::Done));
    assert!(run.record(&StepReply::Done).is_ok());
    let (i, op, req) = run.next_step(&mut ids).unwrap();
    assert_eq!((i, op), (1, 2));
    assert!(matches!(req, StepRequest::Get { .. }));
    let bad = StepReply::Fetched { got: Some(s("x")), elapsed_ms: 0 };
    assert!(run.current_fits(&bad));
    assert!(run.record(&bad).is_err());
    // The failure ends the run: the delete is never handed out and no id is taken.
    assert!(run.next_step(&mut ids).is_none());
    assert_eq!(memsanity::next_op_id(&mut ids), 3);
}

#[test]
fn a_run_that_passes_hands_out_every_step() {
    let steps = vec![StepConfig::Sleep { duration: s("1ms") }, StepConfig::Delete { key: s("k") }];
    let mut ids = memsanity::OpIds::new();
    let mut run = memsanity::StepRun::new(steps);
    let mut seen = Vec::new();
    while let Some((i, op, _)) = run.next_step(&mut ids) {
        seen.push((i, op));
        assert!(run.record(&StepReply::Done).is_ok());
    }
    assert_eq!(seen, vec![(0, 1), (1, 2)]);
}
