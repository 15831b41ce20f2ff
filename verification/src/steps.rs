//! What each step asks of the client, and how the answer is judged against the
//! step's expectations.

use vstd::prelude::*;

use crate::client::opt_view;
use crate::drivers::memcached::texts;
use crate::text::{chars_of, decimal, format_u64, push_all, string_from_chars};
use crate::config::{ExpectConfig, ExpectMultiConfig, StepConfig};
use crate::duration::{duration_spec, parse_duration, Span};
use crate::engine::{following_id, next_op_id, OpIds};

verus! {

/// What a step asks of the client.
#[derive(Debug, Clone)]
pub enum StepRequest {
    /// Store `value` under `key`, with the time to live when its text reads as one.
    Store { key: String, value: String, ttl: Option<Span> },
    /// Read `key`.
    Get { key: String },
    /// Read all of `keys` at once.
    Mget { keys: Vec<String> },
    /// Remove `key`.
    Delete { key: String },
    /// Pause for `pause`; nothing happens when the text did not read as a duration.
    Sleep { pause: Option<Span> },
}

/// A duration text that may be absent, read as a duration.
pub open spec fn opt_duration(t: Option<String>) -> Option<Span> {
    match t {
        Some(s) => duration_spec(s@),
        None => None,
    }
}

/// `r` is what `step` asks of the client.
pub open spec fn requests(step: StepConfig, r: StepRequest) -> bool {
    match (step, r) {
        (StepConfig::Store { key, value, ttl }, StepRequest::Store { key: k, value: v, ttl: t }) => {
            k == key && v == value && t == opt_duration(ttl)
        },
        (StepConfig::Get { key, .. }, StepRequest::Get { key: k }) => k == key,
        (StepConfig::Mget { keys, .. }, StepRequest::Mget { keys: ks }) => ks@ == keys@,
        (StepConfig::Delete { key }, StepRequest::Delete { key: k }) => k == key,
        (StepConfig::Sleep { duration }, StepRequest::Sleep { pause }) => pause == duration_spec(
            duration@,
        ),
        _ => false,
    }
}

/// A copy of a list of strings.
pub fn copy_strings(v: &Vec<String>) -> (r: Vec<String>)
    ensures
        r@ == v@,
{
    let mut out: Vec<String> = Vec::new();
    let mut i: usize = 0;
    while i < v.len()
        invariant
            i <= v@.len(),
            out@ == v@.take(i as int),
        decreases v.len() - i,
    {
        out.push(v[i].clone());
        assert(v@.take(i + 1) =~= v@.take(i as int).push(v@[i as int]));
        i = i + 1;
    }
    assert(v@.take(v@.len() as int) =~= v@);
    out
}

/// What `step` asks of the client.
pub fn plan_step(step: &StepConfig) -> (r: StepRequest)
    ensures
        requests(*step, r),
{
    match step {
        StepConfig::Store { key, value, ttl } => {
            let ttl = match ttl {
                Some(t) => parse_duration(t.as_str()),
                None => None,
            };
            StepRequest::Store { key: key.clone(), value: value.clone(), ttl }
        },
        StepConfig::Get { key, .. } => StepRequest::Get { key: key.clone() },
        StepConfig::Mget { keys, .. } => StepRequest::Mget { keys: copy_strings(keys) },
        StepConfig::Delete { key } => StepRequest::Delete { key: key.clone() },
        StepConfig::Sleep { duration } => StepRequest::Sleep {
            pause: parse_duration(duration.as_str()),
        },
    }
}

/// Why a step failed.
#[derive(Debug, Clone)]
#[allow(inconsistent_fields)]
pub enum StepError {
    /// The client itself failed, with this message.
    Client { message: String },
    /// A read gave another value than the one expected (`got` is `None` on a miss).
    GetValueMismatch { expected: String, got: Option<String> },
    /// A read was expected to miss and hit.
    ExpectedMiss,
    /// A read was expected to hit and missed.
    ExpectedHit,
    /// A read took at least as long as its bound.
    LatencyTooHigh { elapsed_ms: u64, limit_ms: u64 },
    /// A multi-key read gave another value for `key` than the one expected; `got`
    /// is the answer at the key's position, `None` where the answer is too short.
    MgetValueMismatch { key: String, expected: String, got: Option<Option<String>> },
    /// A multi-key expectation names a key that was not requested.
    MgetKeyNotRequested { key: String },
    /// A multi-key read was expected to miss `key` and hit it.
    MgetExpectedMiss { key: String },
    /// A multi-key expected miss names a key that was not requested.
    MgetMissKeyNotRequested { key: String },
}

/// How a single-key read is judged, in the order of the checks: the value, then a
/// hit or miss, then the time it took.
pub open spec fn get_verdict(expect: Option<ExpectConfig>, got: Option<String>, elapsed_ms: u64) -> Result<
    (),
    StepError,
> {
    match expect {
        None => Ok(()),
        Some(e) => {
            if e.value is Some && !(got is Some && got->0@ == e.value->0@) {
                Err(StepError::GetValueMismatch { expected: e.value->0, got })
            } else if e.miss == Some(true) && got is Some {
                Err(StepError::ExpectedMiss)
            } else if e.miss == Some(false) && got is None {
                Err(StepError::ExpectedHit)
            } else if e.latency_ms_lt is Some && elapsed_ms >= e.latency_ms_lt->0 {
                Err(
                    StepError::LatencyTooHigh { elapsed_ms, limit_ms: e.latency_ms_lt->0 },
                )
            } else {
                Ok(())
            }
        },
    }
}

/// Judges the answer `got` of a single-key read that took `elapsed_ms`.
pub fn check_get(expect: &Option<ExpectConfig>, got: &Option<String>, elapsed_ms: u64) -> (r: Result<
    (),
    StepError,
>)
    ensures
        r == get_verdict(*expect, *got, elapsed_ms),
{
    match expect {
        None => Ok(()),
        Some(e) => {
            match &e.value {
                Some(expected) => {
                    let same = match got {
                        Some(actual) => *actual == *expected,
                        None => false,
                    };
                    if !same {
                        return Err(
                            StepError::GetValueMismatch {
                                expected: expected.clone(),
                                got: copy_opt_string(got),
                            },
                        );
                    }
                },
                None => {},
            }
            match e.miss {
                Some(expect_miss) => {
                    if expect_miss && got.is_some() {
                        return Err(StepError::ExpectedMiss);
                    }
                    if !expect_miss && got.is_none() {
                        return Err(StepError::ExpectedHit);
                    }
                },
                None => {},
            }
            match e.latency_ms_lt {
                Some(limit_ms) => {
                    if elapsed_ms >= limit_ms {
                        return Err(StepError::LatencyTooHigh { elapsed_ms, limit_ms });
                    }
                },
                None => {},
            }
            Ok(())
        },
    }
}

/// A copy of an optional string.
pub fn copy_opt_string(o: &Option<String>) -> (r: Option<String>)
    ensures
        r == *o,
{
    match o {
        Some(s) => Some(s.clone()),
        None => None,
    }
}

/// The first position of `k` among `keys`, as `position(|kk| kk == k)` finds it.
pub open spec fn position(keys: Seq<Seq<char>>, k: Seq<char>) -> Option<int>
    decreases keys.len(),
{
    if keys.len() == 0 {
        None
    } else if keys[0] == k {
        Some(0)
    } else {
        match position(keys.drop_first(), k) {
            Some(p) => Some(p + 1),
            None => None,
        }
    }
}

/// The answer at position `p`, as `got.get(p)` gives it.
pub open spec fn answer_at(got: Seq<Option<String>>, p: int) -> Option<Option<String>> {
    if 0 <= p < got.len() {
        Some(got[p])
    } else {
        None
    }
}

/// How one expected pair of a multi-key read fails, if it does.
pub open spec fn value_failure(keys: Seq<Seq<char>>, got: Seq<Option<String>>, pair: (String, String)) -> Option<
    StepError,
> {
    match position(keys, pair.0@) {
        None => Some(StepError::MgetKeyNotRequested { key: pair.0 }),
        Some(p) => {
            if 0 <= p < got.len() && opt_view(got[p]) == Some(pair.1@) {
                None
            } else {
                Some(
                    StepError::MgetValueMismatch {
                        key: pair.0,
                        expected: pair.1,
                        got: answer_at(got, p),
                    },
                )
            }
        },
    }
}

/// How one expected miss of a multi-key read fails, if it does.
pub open spec fn miss_failure(keys: Seq<Seq<char>>, got: Seq<Option<String>>, k: String) -> Option<
    StepError,
> {
    match position(keys, k@) {
        None => Some(StepError::MgetMissKeyNotRequested { key: k }),
        Some(p) => {
            if 0 <= p < got.len() && got[p] is Some {
                Some(StepError::MgetExpectedMiss { key: k })
            } else {
                None
            }
        },
    }
}

/// The first failing pair, in order.
pub open spec fn first_value_failure(
    keys: Seq<Seq<char>>,
    got: Seq<Option<String>>,
    pairs: Seq<(String, String)>,
) -> Option<StepError>
    decreases pairs.len(),
{
    if pairs.len() == 0 {
        None
    } else {
        match value_failure(keys, got, pairs[0]) {
            Some(e) => Some(e),
            None => first_value_failure(keys, got, pairs.drop_first()),
        }
    }
}

/// The first failing expected miss, in order.
pub open spec fn first_miss_failure(
    keys: Seq<Seq<char>>,
    got: Seq<Option<String>>,
    misses: Seq<String>,
) -> Option<StepError>
    decreases misses.len(),
{
    if misses.len() == 0 {
        None
    } else {
        match miss_failure(keys, got, misses[0]) {
            Some(e) => Some(e),
            None => first_miss_failure(keys, got, misses.drop_first()),
        }
    }
}

/// How a multi-key read is judged: the expected values first, then the expected
/// misses, each list in its order; the first failure is the verdict.
pub open spec fn mget_verdict(
    keys: Seq<Seq<char>>,
    expect: Option<ExpectMultiConfig>,
    got: Seq<Option<String>>,
) -> Result<(), StepError> {
    match expect {
        None => Ok(()),
        Some(e) => {
            let vf = match e.values {
                Some(vs) => first_value_failure(keys, got, vs@),
                None => None,
            };
            let mf = match e.misses {
                Some(ms) => first_miss_failure(keys, got, ms@),
                None => None,
            };
            match (vf, mf) {
                (Some(err), _) => Err(err),
                (None, Some(err)) => Err(err),
                (None, None) => Ok(()),
            }
        },
    }
}

/// The first position of `k` among `keys`.
pub fn find_key(keys: &[String], k: &String) -> (r: Option<usize>)
    ensures
        match r {
            Some(p) => position(texts(keys@), k@) == Some(p as int),
            None => position(texts(keys@), k@) is None,
        },
{
    let ghost t = texts(keys@);
    let mut i: usize = 0;
    assert(t.skip(0) =~= t);
    while i < keys.len()
        invariant
            i <= keys@.len(),
            t == texts(keys@),
            position(t, k@) == match position(t.skip(i as int), k@) {
                Some(p) => Some(p + i),
                None => None,
            },
        decreases keys.len() - i,
    {
        assert(t.skip(i as int)[0] == keys@[i as int]@);
        if keys[i] == *k {
            return Some(i);
        }
        assert(t.skip(i as int).drop_first() =~= t.skip(i + 1));
        i = i + 1;
    }
    assert(t.skip(i as int).len() == 0);
    None
}

/// A copy of the answer at position `p`.
fn answer_copy(got: &Vec<Option<String>>, p: usize) -> (r: Option<Option<String>>)
    ensures
        r == answer_at(got@, p as int),
{
    if p < got.len() {
        Some(copy_opt_string(&got[p]))
    } else {
        None
    }
}

/// Judges the answer `got` of a multi-key read of `keys`.
pub fn check_mget(keys: &Vec<String>, expect: &Option<ExpectMultiConfig>, got: &Vec<Option<String>>) -> (r: Result<
    (),
    StepError,
>)
    ensures
        r == mget_verdict(texts(keys@), *expect, got@),
{
    let ghost t = texts(keys@);
    match expect {
        None => Ok(()),
        Some(e) => {
            match &e.values {
                Some(vs) => {
                    let mut i: usize = 0;
                    assert(vs@.skip(0) =~= vs@);
                    while i < vs.len()
                        invariant
                            i <= vs@.len(),
                            t == texts(keys@),
                            *expect == Some(*e),
                            e.values == Some(*vs),
                            first_value_failure(t, got@, vs@) == first_value_failure(
                                t,
                                got@,
                                vs@.skip(i as int),
                            ),
                        decreases vs.len() - i,
                    {
                        let pair = &vs[i];
                        assert(vs@.skip(i as int)[0] == vs@[i as int]);
                        assert(vs@.skip(i as int).drop_first() =~= vs@.skip(i + 1));
                        match find_key(keys.as_slice(), &pair.0) {
                            Some(p) => {
                                let hit = p < got.len() && match &got[p] {
                                    Some(actual) => *actual == pair.1,
                                    None => false,
                                };
                                if !hit {
                                    return Err(
                                        StepError::MgetValueMismatch {
                                            key: pair.0.clone(),
                                            expected: pair.1.clone(),
                                            got: answer_copy(got, p),
                                        },
                                    );
                                }
                            },
                            None => {
                                return Err(StepError::MgetKeyNotRequested { key: pair.0.clone() });
                            },
                        }
                        i = i + 1;
                    }
                    assert(vs@.skip(i as int).len() == 0);
                    assert(first_value_failure(t, got@, vs@) is None);
                },
                None => {},
            }
            match &e.misses {
                Some(ms) => {
                    let mut i: usize = 0;
                    assert(ms@.skip(0) =~= ms@);
                    while i < ms.len()
                        invariant
                            i <= ms@.len(),
                            t == texts(keys@),
                            *expect == Some(*e),
                            e.misses == Some(*ms),
                            match e.values {
                                Some(vs) => first_value_failure(t, got@, vs@) is None,
                                None => true,
                            },
                            first_miss_failure(t, got@, ms@) == first_miss_failure(
                                t,
                                got@,
                                ms@.skip(i as int),
                            ),
                        decreases ms.len() - i,
                    {
                        let k = &ms[i];
                        assert(ms@.skip(i as int)[0] == ms@[i as int]);
                        assert(ms@.skip(i as int).drop_first() =~= ms@.skip(i + 1));
                        match find_key(keys.as_slice(), k) {
                            Some(p) => {
                                if p < got.len() && got[p].is_some() {
                                    return Err(StepError::MgetExpectedMiss { key: k.clone() });
                                }
                            },
                            None => {
                                return Err(StepError::MgetMissKeyNotRequested { key: k.clone() });
                            },
                        }
                        i = i + 1;
                    }
                    assert(ms@.skip(i as int).len() == 0);
                },
                None => {},
            }
            Ok(())
        },
    }
}

/// The text that `{:?}` writes for the answer found at a key's position.
pub uninterp spec fn debug_text(v: Option<Option<Seq<char>>>) -> Seq<char>;

/// Writes `v` with `{:?}`; what that text is, is left to the name `debug_text`.
#[verifier::external_body]
fn debug_answer(v: &Option<Option<String>>) -> (r: String)
    ensures
        r@ == debug_text(v.deep_view()),
{
    format!("{:?}", v)
}

/// The message of a step error.
pub open spec fn step_error_text(e: StepError) -> Seq<char> {
    match e {
        StepError::Client { message } => message@,
        StepError::GetValueMismatch { expected, got } => "get value mismatch: expected='"@
            + expected@ + "' got='"@ + match got {
            Some(g) => g@,
            None => Seq::empty(),
        } + "'"@,
        StepError::ExpectedMiss => "expected miss but got value"@,
        StepError::ExpectedHit => "expected hit but got miss"@,
        StepError::LatencyTooHigh { elapsed_ms, limit_ms } => "latency too high: "@ + decimal(
            elapsed_ms as nat,
        ) + "ms >= "@ + decimal(limit_ms as nat) + "ms"@,
        StepError::MgetValueMismatch { key, expected, got } => "mget value mismatch for key '"@
            + key@ + "': expected='"@ + expected@ + "' got="@ + debug_text(got.deep_view()),
        StepError::MgetKeyNotRequested { key } => "mget expected key '"@ + key@
            + "' not in requested keys"@,
        StepError::MgetExpectedMiss { key } => "mget expected miss for '"@ + key@
            + "' but got value"@,
        StepError::MgetMissKeyNotRequested { key } => "mget expected miss key '"@ + key@
            + "' not in requested keys"@,
    }
}

impl StepError {
    /// The message of this error, as a failed run reports it.
    pub fn message(&self) -> (r: String)
        ensures
            r@ == step_error_text(*self),
    {
        match self {
            StepError::Client { message } => message.clone(),
            StepError::GetValueMismatch { expected, got } => {
                let mut out = chars_of("get value mismatch: expected='");
                push_all(&mut out, &chars_of(expected.as_str()));
                push_all(&mut out, &chars_of("' got='"));
                match got {
                    Some(g) => push_all(&mut out, &chars_of(g.as_str())),
                    None => {},
                }
                push_all(&mut out, &chars_of("'"));
                string_from_chars(&out)
            },
            StepError::ExpectedMiss => string_from_chars(&chars_of("expected miss but got value")),
            StepError::ExpectedHit => string_from_chars(&chars_of("expected hit but got miss")),
            StepError::LatencyTooHigh { elapsed_ms, limit_ms } => {
                let mut out = chars_of("latency too high: ");
                push_all(&mut out, &format_u64(*elapsed_ms));
                push_all(&mut out, &chars_of("ms >= "));
                push_all(&mut out, &format_u64(*limit_ms));
                push_all(&mut out, &chars_of("ms"));
                string_from_chars(&out)
            },
            StepError::MgetValueMismatch { key, expected, got } => {
                let mut out = chars_of("mget value mismatch for key '");
                push_all(&mut out, &chars_of(key.as_str()));
                push_all(&mut out, &chars_of("': expected='"));
                push_all(&mut out, &chars_of(expected.as_str()));
                push_all(&mut out, &chars_of("' got="));
                let d = debug_answer(got);
                push_all(&mut out, &chars_of(d.as_str()));
                string_from_chars(&out)
            },
            StepError::MgetKeyNotRequested { key } => {
                let mut out = chars_of("mget expected key '");
                push_all(&mut out, &chars_of(key.as_str()));
                push_all(&mut out, &chars_of("' not in requested keys"));
                string_from_chars(&out)
            },
            StepError::MgetExpectedMiss { key } => {
                let mut out = chars_of("mget expected miss for '");
                push_all(&mut out, &chars_of(key.as_str()));
                push_all(&mut out, &chars_of("' but got value"));
                string_from_chars(&out)
            },
            StepError::MgetMissKeyNotRequested { key } => {
                let mut out = chars_of("mget expected miss key '");
                push_all(&mut out, &chars_of(key.as_str()));
                push_all(&mut out, &chars_of("' not in requested keys"));
                string_from_chars(&out)
            },
        }
    }
}

/// One expectation that a step reports before it is judged.
#[derive(Debug, Clone)]
pub enum ExpectNote {
    Value { op_id: u64, value: String },
    Miss { op_id: u64, miss: bool },
    LatencyLt { op_id: u64, limit_ms: u64 },
    Values { op_id: u64, values: Vec<(String, String)> },
    Misses { op_id: u64, misses: Vec<String> },
}

/// The reports of a single-key expectation: its value, its hit or miss, its time
/// bound, each when it is given, in that order.
pub open spec fn expect_notes(op_id: u64, e: ExpectConfig) -> Seq<ExpectNote> {
    (match e.value {
        Some(v) => seq![ExpectNote::Value { op_id, value: v }],
        None => Seq::empty(),
    }) + (match e.miss {
        Some(m) => seq![ExpectNote::Miss { op_id, miss: m }],
        None => Seq::empty(),
    }) + (match e.latency_ms_lt {
        Some(l) => seq![ExpectNote::LatencyLt { op_id, limit_ms: l }],
        None => Seq::empty(),
    })
}

/// The expectations of a single-key read, as the step reports them.
pub fn print_expect(op_id: u64, e: &ExpectConfig) -> (r: Vec<ExpectNote>)
    ensures
        r@ == expect_notes(op_id, *e),
{
    let mut out: Vec<ExpectNote> = Vec::new();
    match &e.value {
        Some(v) => out.push(ExpectNote::Value { op_id, value: v.clone() }),
        None => {},
    }
    match e.miss {
        Some(m) => out.push(ExpectNote::Miss { op_id, miss: m }),
        None => {},
    }
    match e.latency_ms_lt {
        Some(l) => out.push(ExpectNote::LatencyLt { op_id, limit_ms: l }),
        None => {},
    }
    assert(out@ =~= expect_notes(op_id, *e));
    out
}

/// A copy of a list of pairs of strings.
fn copy_pairs(v: &Vec<(String, String)>) -> (r: Vec<(String, String)>)
    ensures
        r@ == v@,
{
    let mut out: Vec<(String, String)> = Vec::new();
    let mut i: usize = 0;
    while i < v.len()
        invariant
            i <= v@.len(),
            out@ == v@.take(i as int),
        decreases v.len() - i,
    {
        out.push((v[i].0.clone(), v[i].1.clone()));
        assert(v@.take(i + 1) =~= v@.take(i as int).push(v@[i as int]));
        i = i + 1;
    }
    assert(v@.take(v@.len() as int) =~= v@);
    out
}

/// The reports of a multi-key expectation: its expected values, then its expected
/// misses, each when it is given.
pub open spec fn multi_notes_match(op_id: u64, e: ExpectMultiConfig, r: Seq<ExpectNote>) -> bool {
    let nv: int = if e.values is Some { 1 } else { 0 };
    let nm: int = if e.misses is Some { 1 } else { 0 };
    &&& r.len() == nv + nm
    &&& e.values matches Some(vs) ==> r[0] matches ExpectNote::Values { op_id: o, values } && o
        == op_id && values@ == vs@
    &&& e.misses matches Some(ms) ==> r[nv] matches ExpectNote::Misses { op_id: o, misses } && o
        == op_id && misses@ == ms@
}

/// The expectations of a multi-key read, as the step reports them.
pub fn print_expect_multi(op_id: u64, e: &ExpectMultiConfig) -> (r: Vec<ExpectNote>)
    ensures
        multi_notes_match(op_id, *e, r@),
{
    let mut out: Vec<ExpectNote> = Vec::new();
    match &e.values {
        Some(vs) => out.push(ExpectNote::Values { op_id, values: copy_pairs(vs) }),
        None => {},
    }
    match &e.misses {
        Some(ms) => out.push(ExpectNote::Misses { op_id, misses: copy_strings(ms) }),
        None => {},
    }
    out
}

/// A single-key read passes exactly when each expectation it has holds: the value
/// when one is expected, a hit or a miss when one is expected, and a time under the
/// bound when one is given. A read without expectations always passes.
pub proof fn law_get_passes_iff_expectations_hold(
    expect: Option<ExpectConfig>,
    got: Option<String>,
    elapsed_ms: u64,
)
    ensures
        get_verdict(expect, got, elapsed_ms) is Ok <==> (expect matches Some(e) ==> {
            &&& e.value matches Some(v) ==> (got matches Some(g) && g@ == v@)
            &&& e.miss == Some(true) ==> got is None
            &&& e.miss == Some(false) ==> got is Some
            &&& e.latency_ms_lt matches Some(l) ==> elapsed_ms < l
        }),
{
}

/// An expected pair holds: its key was requested, and the answer at the key's first
/// position is that value.
pub open spec fn pair_holds(keys: Seq<Seq<char>>, got: Seq<Option<String>>, pair: (String, String)) -> bool {
    position(keys, pair.0@) matches Some(p) && 0 <= p < got.len() && opt_view(got[p]) == Some(
        pair.1@,
    )
}

/// An expected miss holds: its key was requested, and there is no value at the key's
/// first position.
pub open spec fn miss_holds(keys: Seq<Seq<char>>, got: Seq<Option<String>>, k: String) -> bool {
    position(keys, k@) matches Some(p) && !(0 <= p < got.len() && got[p] is Some)
}

proof fn lemma_first_value_failure(keys: Seq<Seq<char>>, got: Seq<Option<String>>, pairs: Seq<(String, String)>)
    ensures
        first_value_failure(keys, got, pairs) is None <==> forall|i: int|
            0 <= i < pairs.len() ==> pair_holds(keys, got, #[trigger] pairs[i]),
    decreases pairs.len(),
{
    if pairs.len() > 0 {
        lemma_first_value_failure(keys, got, pairs.drop_first());
        if first_value_failure(keys, got, pairs) is None {
            assert forall|i: int| 0 <= i < pairs.len() implies pair_holds(keys, got, #[trigger] pairs[i]) by {
                if i > 0 {
                    assert(pairs[i] == pairs.drop_first()[i - 1]);
                }
            }
        }
        if forall|i: int| 0 <= i < pairs.len() ==> pair_holds(keys, got, #[trigger] pairs[i]) {
            assert(pair_holds(keys, got, pairs[0]));
            assert forall|i: int| 0 <= i < pairs.drop_first().len() implies pair_holds(keys, got, #[trigger] pairs.drop_first()[i]) by {
                assert(pairs.drop_first()[i] == pairs[i + 1]);
            }
        }
    }
}

proof fn lemma_first_miss_failure(keys: Seq<Seq<char>>, got: Seq<Option<String>>, misses: Seq<String>)
    ensures
        first_miss_failure(keys, got, misses) is None <==> forall|i: int|
            0 <= i < misses.len() ==> miss_holds(keys, got, #[trigger] misses[i]),
    decreases misses.len(),
{
    if misses.len() > 0 {
        lemma_first_miss_failure(keys, got, misses.drop_first());
        if first_miss_failure(keys, got, misses) is None {
            assert forall|i: int| 0 <= i < misses.len() implies miss_holds(keys, got, #[trigger] misses[i]) by {
                if i > 0 {
                    assert(misses[i] == misses.drop_first()[i - 1]);
                }
            }
        }
        if forall|i: int| 0 <= i < misses.len() ==> miss_holds(keys, got, #[trigger] misses[i]) {
            assert(miss_holds(keys, got, misses[0]));
            assert forall|i: int| 0 <= i < misses.drop_first().len() implies miss_holds(keys, got, #[trigger] misses.drop_first()[i]) by {
                assert(misses.drop_first()[i] == misses[i + 1]);
            }
        }
    }
}

/// A multi-key read passes exactly when every expected pair holds and every expected
/// miss holds. A read without expectations always passes.
pub proof fn law_mget_passes_iff_expectations_hold(
    keys: Seq<Seq<char>>,
    expect: Option<ExpectMultiConfig>,
    got: Seq<Option<String>>,
)
    ensures
        mget_verdict(keys, expect, got) is Ok <==> (expect matches Some(e) ==> {
            &&& e.values matches Some(vs) ==> forall|i: int|
                0 <= i < vs@.len() ==> pair_holds(keys, got, #[trigger] vs@[i])
            &&& e.misses matches Some(ms) ==> forall|i: int|
                0 <= i < ms@.len() ==> miss_holds(keys, got, #[trigger] ms@[i])
        }),
{
    if let Some(e) = expect {
        if let Some(vs) = e.values {
            lemma_first_value_failure(keys, got, vs@);
        }
        if let Some(ms) = e.misses {
            lemma_first_miss_failure(keys, got, ms@);
        }
    }
}

/// The position of a key is its first occurrence, and a key without a position
/// occurs nowhere.
pub proof fn law_position_is_first_occurrence(keys: Seq<Seq<char>>, k: Seq<char>)
    ensures
        position(keys, k) matches Some(p) ==> 0 <= p < keys.len() && keys[p] == k && forall|j: int|
            0 <= j < p ==> keys[j] != k,
        position(keys, k) is None ==> forall|j: int| 0 <= j < keys.len() ==> keys[j] != k,
    decreases keys.len(),
{
    if keys.len() > 0 && keys[0] != k {
        law_position_is_first_occurrence(keys.drop_first(), k);
        assert forall|j: int| 1 <= j < keys.len() implies keys[j] == keys.drop_first()[j - 1] by {}
    }
}

/// What the client answered to a step's request.
#[derive(Debug, Clone)]
pub enum StepReply {
    /// A write, a delete or a pause completed.
    Done,
    /// A single-key read answered `got` after `elapsed_ms` milliseconds.
    Fetched { got: Option<String>, elapsed_ms: u64 },
    /// A multi-key read answered `got`, one entry per requested key.
    FetchedMany { got: Vec<Option<String>> },
    /// The client failed with this message.
    ClientFailed { message: String },
}

/// `reply` is an answer of the kind that `step` asks for, or a client failure.
pub open spec fn fits(step: StepConfig, reply: StepReply) -> bool {
    match reply {
        StepReply::ClientFailed { .. } => true,
        StepReply::Fetched { .. } => step is Get,
        StepReply::FetchedMany { .. } => step is Mget,
        StepReply::Done => !(step is Get) && !(step is Mget),
    }
}

/// The verdict on a step given its answer: a client failure fails the step with the
/// client's message; a read is judged against its expectations; anything else passes.
pub open spec fn step_verdict(step: StepConfig, reply: StepReply) -> Result<(), StepError> {
    match reply {
        StepReply::ClientFailed { message } => Err(StepError::Client { message }),
        StepReply::Fetched { got, elapsed_ms } => match step {
            StepConfig::Get { expect, .. } => get_verdict(expect, got, elapsed_ms),
            _ => Ok(()),
        },
        StepReply::FetchedMany { got } => match step {
            StepConfig::Mget { keys, expect } => mget_verdict(texts(keys@), expect, got@),
            _ => Ok(()),
        },
        StepReply::Done => Ok(()),
    }
}

/// A client failure fails the step with the client's own message, whatever the step:
/// a write, a read, a delete or a pause alike.
pub proof fn law_client_failure_fails_every_step(step: StepConfig, message: String)
    ensures
        step_verdict(step, StepReply::ClientFailed { message }) == Err::<(), StepError>(
            StepError::Client { message },
        ),
{
}

/// A single-key read step is judged on the answer and on the time that the reply
/// itself reports: it passes exactly when each of its expectations holds, a time
/// bound included; and when only the time bound fails, the failure names the
/// reported time and the bound.
pub proof fn law_get_step_judged_on_its_reply(
    key: String,
    expect: Option<ExpectConfig>,
    got: Option<String>,
    elapsed_ms: u64,
)
    ensures
        step_verdict(
            StepConfig::Get { key, expect },
            StepReply::Fetched { got, elapsed_ms },
        ) is Ok <==> (expect matches Some(e) ==> {
            &&& e.value matches Some(v) ==> (got matches Some(g) && g@ == v@)
            &&& e.miss == Some(true) ==> got is None
            &&& e.miss == Some(false) ==> got is Some
            &&& e.latency_ms_lt matches Some(l) ==> elapsed_ms < l
        }),
        expect matches Some(e) ==> (e.latency_ms_lt matches Some(l) ==> (elapsed_ms >= l
            && (e.value matches Some(v) ==> (got matches Some(g) && g@ == v@))
            && (e.miss == Some(true) ==> got is None)
            && (e.miss == Some(false) ==> got is Some) ==> step_verdict(
            StepConfig::Get { key, expect },
            StepReply::Fetched { got, elapsed_ms },
        ) == Err::<(), StepError>(StepError::LatencyTooHigh { elapsed_ms, limit_ms: l }))),
{
}

/// Judges the answer to a step.
pub fn judge_step(step: &StepConfig, reply: &StepReply) -> (r: Result<(), StepError>)
    requires
        fits(*step, *reply),
    ensures
        r == step_verdict(*step, *reply),
{
    match reply {
        StepReply::ClientFailed { message } => Err(StepError::Client { message: message.clone() }),
        StepReply::Fetched { got, elapsed_ms } => match step {
            StepConfig::Get { expect, .. } => check_get(expect, got, *elapsed_ms),
            _ => Ok(()),
        },
        StepReply::FetchedMany { got } => match step {
            StepConfig::Mget { keys, expect } => check_mget(keys, expect, got),
            _ => Ok(()),
        },
        StepReply::Done => Ok(()),
    }
}

/// Whether `reply` answers the kind of request that `step` makes.
pub fn reply_fits(step: &StepConfig, reply: &StepReply) -> (b: bool)
    ensures
        b == fits(*step, *reply),
{
    match reply {
        StepReply::ClientFailed { .. } => true,
        StepReply::Fetched { .. } => match step {
            StepConfig::Get { .. } => true,
            _ => false,
        },
        StepReply::FetchedMany { .. } => match step {
            StepConfig::Mget { .. } => true,
            _ => false,
        },
        StepReply::Done => match step {
            StepConfig::Get { .. } => false,
            StepConfig::Mget { .. } => false,
            _ => true,
        },
    }
}

/// One run through a scenario's steps: the steps in order, each with a fresh
/// operation id, until all have passed or one has failed.
pub struct StepRun {
    steps: Vec<StepConfig>,
    next: usize,
    failed: bool,
}

impl StepRun {
    /// The steps handed out never outnumber the steps.
    #[verifier::type_invariant]
    spec fn handed_out_within(&self) -> bool {
        self.next <= self.steps@.len()
    }

    /// The steps of the run.
    pub closed spec fn steps(&self) -> Seq<StepConfig> {
        self.steps@
    }

    /// How many steps have been handed out.
    pub closed spec fn position(&self) -> nat {
        self.next as nat
    }

    /// Whether a step has failed, which ends the run.
    pub closed spec fn stopped(&self) -> bool {
        self.failed
    }

    /// A run that has handed out no step yet.
    pub fn new(steps: Vec<StepConfig>) -> (r: StepRun)
        ensures
            r.steps() == steps@,
            r.position() == 0,
            !r.stopped(),
    {
        StepRun { steps, next: 0, failed: false }
    }

    /// The next step to perform: its index, a fresh operation id and what it asks of
    /// the client. Nothing comes once every step has been handed out or one failed.
    pub fn next_step(&mut self, ids: &mut OpIds) -> (r: Option<(usize, u64, StepRequest)>)
        ensures
            final(self).steps() == old(self).steps(),
            final(self).stopped() == old(self).stopped(),
            final(self).position() <= final(self).steps().len(),
            old(self).stopped() || old(self).position() == old(self).steps().len() ==> {
                &&& r is None
                &&& final(self).position() == old(self).position()
                &&& final(ids).upcoming() == old(ids).upcoming()
            },
            !(old(self).stopped() || old(self).position() == old(self).steps().len()) ==> {
                &&& r matches Some((i, op_id, req))
                &&& i == old(self).position()
                &&& op_id == old(ids).upcoming()
                &&& final(ids).upcoming() == following_id(op_id)
                &&& requests(old(self).steps()[i as int], req)
                &&& final(self).position() == old(self).position() + 1
            },
    {
        proof {
            use_type_invariant(&*self);
        }
        if self.failed || self.next == self.steps.len() {
            return None;
        }
        let i = self.next;
        let op_id = next_op_id(ids);
        let req = plan_step(&self.steps[i]);
        self.next = i + 1;
        Some((i, op_id, req))
    }

    /// Whether a step has been handed out, so that an answer can be recorded.
    pub fn has_current(&self) -> (b: bool)
        ensures
            b == (self.position() > 0),
    {
        self.next > 0
    }

    /// Judges the answer to the step last handed out; a failure ends the run.
    pub fn record(&mut self, reply: &StepReply) -> (r: Result<(), StepError>)
        requires
            old(self).position() > 0,
            fits(old(self).steps()[old(self).position() - 1], *reply),
        ensures
            final(self).steps() == old(self).steps(),
            final(self).position() == old(self).position(),
            r == step_verdict(old(self).steps()[old(self).position() - 1], *reply),
            final(self).stopped() == (old(self).stopped() || r is Err),
    {
        proof {
            use_type_invariant(&*self);
        }
        let r = judge_step(&self.steps[self.next - 1], reply);
        if r.is_err() {
            self.failed = true;
        }
        r
    }

    /// Whether `reply` is of the kind that the step last handed out asks for.
    pub fn current_fits(&self, reply: &StepReply) -> (b: bool)
        requires
            self.position() > 0,
        ensures
            b == fits(self.steps()[self.position() - 1], *reply),
    {
        proof {
            use_type_invariant(self);
        }
        reply_fits(&self.steps[self.next - 1], reply)
    }
}

} // verus!
