//! What a client is bound to, and the protocols the drivers speak.

use vstd::prelude::*;

verus! {

/// The target a client talks to: its name in the suite and its address.
#[derive(Debug, Clone)]
pub struct TargetSpec {
    pub name: String,
    pub address: String,
}

/// The protocol a client speaks.
#[derive(Debug, Clone, Copy, PartialEq, Eq, Structural)]
pub enum ProtocolKind {
    Memcached,
    Redis,
}

/// The text of an optional string, as a sequence of characters.
pub open spec fn opt_view(o: Option<String>) -> Option<Seq<char>> {
    match o {
        Some(s) => Some(s@),
        None => None,
    }
}

} // verus!
