//! The background worker's handling of one refresh request, as a state machine:
//! the worker performs each action it is handed and reports back what happened.
use crate::network::WirelessNetwork;
use crate::state::RefreshRequest;
use vstd::prelude::*;

verus! {

/// Where one refresh request stands.
#[derive(Debug, Clone, Copy, PartialEq, Eq, Structural)]
pub enum RefreshPhase {
    /// Accepted; the consumer has not been told yet.
    Requested,
    /// Waiting this many milliseconds for the interface to settle.
    Settling(u64),
    /// About to scan.
    Ready,
    /// The scan is running.
    Scanning,
    /// The scan's networks were handed on.
    Completed,
    /// The scan failed; nothing was handed on.
    Failed,
}

/// What the worker is to do next.
#[derive(Debug)]
pub enum WorkerAction {
    /// Tell the consumer that a scan is under way.
    ShowPending,
    /// Sleep this many milliseconds.
    Sleep(u64),
    /// Scan this interface and report the outcome.
    Scan(String),
    /// Hand these networks to the consumer.
    Publish(Vec<WirelessNetwork>),
    /// Report that the scan failed.
    ReportFailure,
    /// Nothing is left to do for this request.
    Idle,
}

/// What the worker reports back.
#[derive(Debug)]
pub enum WorkerEvent {
    /// The last action was performed.
    Proceed,
    /// The scan ended, with its networks or without them.
    Scanned(Option<Vec<WirelessNetwork>>),
}

/// One refresh request on its way through the worker.
#[derive(Debug)]
pub struct RefreshJob {
    pub interface: String,
    pub delay_ms: Option<u64>,
    pub phase: RefreshPhase,
}

impl RefreshJob {
    /// A job for `request`, not yet begun.
    pub fn new(request: RefreshRequest) -> (r: RefreshJob)
        ensures
            r.interface == request.interface,
            r.delay_ms == request.delay_ms,
            r.phase == RefreshPhase::Requested,
    {
        RefreshJob {
            interface: request.interface,
            delay_ms: request.delay_ms,
            phase: RefreshPhase::Requested,
        }
    }

    /// The phase that a job with `delay_ms` enters once the consumer was told.
    pub open spec fn after_request(delay_ms: Option<u64>) -> RefreshPhase {
        match delay_ms {
            Some(ms) => RefreshPhase::Settling(ms),
            None => RefreshPhase::Ready,
        }
    }

    /// Tells the consumer that a scan is under way; then, when the request
    /// carries a delay, sleeps; then scans; then hands on the networks, or
    /// reports a failure. A finished job does nothing more, and an event that
    /// does not fit the phase changes nothing.
    pub fn step(&mut self, event: WorkerEvent) -> (r: WorkerAction)
        ensures
            final(self).interface == old(self).interface,
            final(self).delay_ms == old(self).delay_ms,
            match (old(self).phase, event) {
                (RefreshPhase::Requested, WorkerEvent::Proceed) => r is ShowPending
                    && final(self).phase == Self::after_request(old(self).delay_ms),
                (RefreshPhase::Settling(ms), WorkerEvent::Proceed) => r == WorkerAction::Sleep(ms)
                    && final(self).phase == RefreshPhase::Ready,
                (RefreshPhase::Ready, WorkerEvent::Proceed) => (r matches WorkerAction::Scan(i)
                    && i == old(self).interface) && final(self).phase == RefreshPhase::Scanning,
                (RefreshPhase::Scanning, WorkerEvent::Scanned(Some(v))) => r
                    == WorkerAction::Publish(v) && final(self).phase == RefreshPhase::Completed,
                (RefreshPhase::Scanning, WorkerEvent::Scanned(None)) => r is ReportFailure
                    && final(self).phase == RefreshPhase::Failed,
                _ => r is Idle && final(self).phase == old(self).phase,
            },
    {
        match (self.phase, event) {
            (RefreshPhase::Requested, WorkerEvent::Proceed) => {
                self.phase =
                match self.delay_ms {
                    Some(ms) => RefreshPhase::Settling(ms),
                    None => RefreshPhase::Ready,
                };
                WorkerAction::ShowPending
            },
            (RefreshPhase::Settling(ms), WorkerEvent::Proceed) => {
                self.phase = RefreshPhase::Ready;
                WorkerAction::Sleep(ms)
            },
            (RefreshPhase::Ready, WorkerEvent::Proceed) => {
                self.phase = RefreshPhase::Scanning;
                WorkerAction::Scan(self.interface.clone())
            },
            (RefreshPhase::Scanning, WorkerEvent::Scanned(Some(v))) => {
                self.phase = RefreshPhase::Completed;
                WorkerAction::Publish(v)
            },
            (RefreshPhase::Scanning, WorkerEvent::Scanned(None)) => {
                self.phase = RefreshPhase::Failed;
                WorkerAction::ReportFailure
            },
            _ => WorkerAction::Idle,
        }
    }
}

} // verus!
