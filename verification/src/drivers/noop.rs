//! A driver that talks to nothing: every write succeeds and every read hits the
//! value `noop`.

use vstd::prelude::*;

use crate::client::{opt_view, ProtocolKind, TargetSpec};
use crate::drivers::memcached::DriverError;
use crate::text::{chars_of, string_from_chars};

verus! {

/// Builds clients that talk to nothing, whatever the protocol.
pub struct NoopClientFactory;

/// A client that talks to nothing, bound to a target's name and address.
#[derive(Debug, Clone)]
pub struct NoopClient {
    pub bound_to: String,
    pub at: String,
}

impl NoopClientFactory {
    /// A client bound to `target`; this never fails.
    pub fn build(&self, protocol: ProtocolKind, target: TargetSpec) -> (r: Result<
        NoopClient,
        DriverError,
    >)
        ensures
            r matches Ok(c) && c.bound_to == target.name && c.at == target.address,
    {
        Ok(NoopClient { bound_to: target.name, at: target.address })
    }
}

/// The value every read of a no-op client gives.
pub open spec fn noop_value() -> Seq<char> {
    "noop"@
}

fn noop_string() -> (r: String)
    ensures
        r@ == noop_value(),
{
    string_from_chars(&chars_of("noop"))
}

impl NoopClient {
    /// Storing succeeds without doing anything.
    pub fn set(&self, key: &str, value: &str, ttl: Option<crate::duration::Span>) -> (r: Result<
        (),
        DriverError,
    >)
        ensures
            r is Ok,
    {
        Ok(())
    }

    /// Every read hits the value `noop`.
    pub fn get(&self, key: &str) -> (r: Result<Option<String>, DriverError>)
        ensures
            r matches Ok(v) && opt_view(v) == Some(noop_value()),
    {
        Ok(Some(noop_string()))
    }

    /// Every key of a multi-key read hits the value `noop`.
    pub fn mget(&self, keys: &[String]) -> (r: Result<Vec<Option<String>>, DriverError>)
        ensures
            r matches Ok(v) && v@.len() == keys@.len() && forall|i: int|
                0 <= i < v@.len() ==> opt_view(#[trigger] v@[i]) == Some(noop_value()),
    {
        let mut out: Vec<Option<String>> = Vec::new();
        let mut i: usize = 0;
        while i < keys.len()
            invariant
                i <= keys@.len(),
                out@.len() == i,
                forall|j: int| 0 <= j < i ==> opt_view(#[trigger] out@[j]) == Some(noop_value()),
            decreases keys.len() - i,
        {
            out.push(Some(noop_string()));
            i = i + 1;
        }
        Ok(out)
    }

    /// Deleting succeeds without doing anything.
    pub fn delete(&self, key: &str) -> (r: Result<(), DriverError>)
        ensures
            r is Ok,
    {
        Ok(())
    }
}

} // verus!
