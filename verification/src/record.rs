//! The instance record held by the registry, and the summary of it that the
//! front-end receives.

use vstd::prelude::*;

verus! {

/// One provisioned instance, as the registry stores it.
///
/// `name` is stored case-normalized (lower-cased) and is unique among
/// records; `port` is unique among records; `id` is assigned by the registry
/// at creation and never reused; `started` tells whether the instance is
/// `Running` (`true`) or `Stopped` (`false`).
#[derive(Debug)]
pub struct Servers {
    pub id: i64,
    pub name: String,
    pub version: String,
    pub difficulty: String,
    pub port: i64,
    pub started: bool,
}

impl Servers {
    /// An identical copy of the record.
    pub fn duplicate(&self) -> (r: Servers)
        ensures
            r == *self,
    {
        Servers {
            id: self.id,
            name: self.name.clone(),
            version: self.version.clone(),
            difficulty: self.difficulty.clone(),
            port: self.port,
            started: self.started,
        }
    }
}

/// The record with its lifecycle state replaced.
pub open spec fn with_started(r: Servers, started: bool) -> Servers {
    Servers {
        id: r.id,
        name: r.name,
        version: r.version,
        difficulty: r.difficulty,
        port: r.port,
        started,
    }
}

/// What a listing hands to the front-end for one instance.
#[derive(Debug)]
pub struct InstanceSummary {
    pub name: String,
    pub version: String,
    pub difficulty: String,
    pub port: i64,
    pub started: bool,
}

/// The summary of a record: every field of the record but its internal id.
pub open spec fn summary_of(r: Servers) -> InstanceSummary {
    InstanceSummary {
        name: r.name,
        version: r.version,
        difficulty: r.difficulty,
        port: r.port,
        started: r.started,
    }
}

/// The summary of `r`, as an executable conversion.
pub fn summarize(r: &Servers) -> (s: InstanceSummary)
    ensures
        s == summary_of(*r),
{
    InstanceSummary {
        name: r.name.clone(),
        version: r.version.clone(),
        difficulty: r.difficulty.clone(),
        port: r.port,
        started: r.started,
    }
}

} // verus!
