//! Memsanity: sanity and functional checks for in-memory key-value stores.
//!
//! A suite names targets and scenarios; each scenario runs steps (set, get, mget,
//! delete, sleep) on a schedule and judges the answers against expectations. This
//! library holds the verified logic: the suite model, duration texts, the memcached
//! text protocol, the no-op driver, and the engine's planning and judging.

pub mod client;
pub mod config;
pub mod drivers;
pub mod duration;
pub mod engine;
pub mod steps;
pub mod text;

pub use client::{ProtocolKind, TargetSpec};
pub use config::{
    default_concurrency, insert_expected_value, ExecHook, ExpectConfig, ExpectMultiConfig, HooksConfig, ScenarioConfig,
    ScheduleConfig, ScheduleKind, StepConfig, SuiteConfig, TargetConfig, TargetKind,
};
pub use drivers::memcached::{
    delete_command, delete_reply, exptime, get_command, mget_command, set_command, store_reply,
    DriverError, MemcachedClient, MemcachedClientFactory, ReplyStep, RetrievalReply,
};
pub use drivers::noop::{NoopClient, NoopClientFactory};
pub use duration::{parse_duration, Span};
pub use engine::{
    build_client, choose_default_client, client_table, next_op_id, plan_scenario, plan_schedule,
    print_plan, protocol_label, step_label, target_protocol, ClientHandle, HookNote, OpIds,
    PlanEvent, ScenarioAction, ScenarioPlan, ScenarioTally, SchedulePlan, SuiteRun,
};
pub use steps::{
    check_get, check_mget, judge_step, plan_step, print_expect, print_expect_multi, reply_fits,
    ExpectNote, StepError, StepReply, StepRequest, StepRun,
};
