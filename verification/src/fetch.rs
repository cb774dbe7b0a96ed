//! The remote-config fetch cycle: what the fetch task does with the outcome
//! of one bridged HTTP GET. The request itself runs outside on a worker
//! thread; this module owns the decision — classify the bridge's outcome,
//! parse the fetched text, and say how the cycle is to be logged.

use vstd::prelude::*;

use crate::bridge::BridgeError;
use crate::mapping_config::{scan_mapping_sp, MappingConfig};
use crate::task::{Severity, WorkOutcome};

verus! {

/// Why one fetch cycle produced no configuration.
#[derive(Clone, Copy, Debug, PartialEq, Eq, Structural)]
pub enum FetchFailure {
    /// The request exceeded its deadline.
    Timeout,
    /// The request failed in transit.
    Transport,
    /// The fetched text was not a well-formed configuration.
    Parse,
    /// The worker running the request crashed.
    WorkerPanicked,
}

/// One fetch cycle's decision: a fetched body is parsed, and succeeds exactly
/// when it is a well-formed configuration text; a missed deadline is a
/// `Timeout`, a transport error a `Transport` failure, and a crashed worker
/// its own `WorkerPanicked` failure. Nothing here ends the task — the caller
/// logs and retries next interval.
pub fn fetch_cycle(fetch: Result<String, BridgeError<String>>) -> (r: Result<
    MappingConfig,
    FetchFailure,
>)
    ensures
        match fetch {
            Ok(body) => {
                &&& (r is Ok) == (scan_mapping_sp(body@) is Some)
                &&& (r matches Ok(c) ==> Some(c.model()) == scan_mapping_sp(body@))
                &&& (r is Err ==> r == Err::<MappingConfig, FetchFailure>(FetchFailure::Parse))
            },
            Err(BridgeError::Timeout) => r == Err::<MappingConfig, FetchFailure>(
                FetchFailure::Timeout,
            ),
            Err(BridgeError::OperationFailed(_)) => r == Err::<MappingConfig, FetchFailure>(
                FetchFailure::Transport,
            ),
            Err(BridgeError::WorkerPanicked) => r == Err::<MappingConfig, FetchFailure>(
                FetchFailure::WorkerPanicked,
            ),
        },
{
    match fetch {
        Ok(body) => match MappingConfig::from_toml(body.as_str()) {
            Ok(config) => Ok(config),
            Err(_) => Err(FetchFailure::Parse),
        },
        Err(BridgeError::Timeout) => Err(FetchFailure::Timeout),
        Err(BridgeError::OperationFailed(_)) => Err(FetchFailure::Transport),
        Err(BridgeError::WorkerPanicked) => Err(FetchFailure::WorkerPanicked),
    }
}

/// How a fetch cycle's end is logged: INFO for a parsed configuration, WARN
/// for any failure — and the outcome the periodic task records.
pub fn fetch_cycle_outcome(r: &Result<MappingConfig, FetchFailure>) -> (o: WorkOutcome)
    ensures
        o == (if r is Ok {
            WorkOutcome::Success
        } else {
            WorkOutcome::Failure
        }),
        crate::task::severity_of(o) == (if r is Ok {
            Severity::Info
        } else {
            Severity::Warn
        }),
{
    match r {
        Ok(_) => WorkOutcome::Success,
        Err(_) => WorkOutcome::Failure,
    }
}

} // verus!
