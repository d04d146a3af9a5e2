//! Memory admission control for the warmup phase.
//!
//! The true memory footprint of a leaf request is unknown before it runs,
//! so each request commits a fixed, conservative "cushion" while it is
//! fetching data. The controller admits a new request only while the
//! committed estimate is at or below a configured threshold; requests
//! already admitted keep running even if the threshold is later exceeded.
//! Waiting until admission is possible is the scheduler's business;
//! here, `try_reserve` is the admission decision itself, and it either
//! commits the cushion or leaves the controller unchanged.

use vstd::prelude::*;

verus! {

/// An opaque handle standing for "`cushion_bytes` bytes committed".
/// Created only by a successful admission and given back exactly once
/// through [`MemoryController::release`].
#[derive(Debug)]
pub struct MemoryReservation {
    cushion_bytes: u64,
}

impl MemoryReservation {
    /// The number of bytes this reservation committed.
    pub fn cushion_bytes(&self) -> (n: u64)
        ensures
            n == self.spec_cushion_bytes(),
    {
        self.cushion_bytes
    }

    /// The committed size, for contracts.
    pub closed spec fn spec_cushion_bytes(&self) -> u64 {
        self.cushion_bytes
    }
}

/// The process-wide gate bounding the aggregate memory committed to
/// in-flight warmup phases. The committed counter is the only mutable
/// state; it never underflows because it only ever decreases by the
/// cushion of a reservation it handed out itself.
#[derive(Debug)]
pub struct MemoryController {
    committed_bytes: u64,
}

impl MemoryController {
    /// A fresh controller with nothing committed.
    pub fn new() -> (c: MemoryController)
        ensures
            c.committed() == 0,
    {
        MemoryController { committed_bytes: 0 }
    }

    /// The controller's current estimate of committed memory, for contracts.
    pub closed spec fn committed(&self) -> u64 {
        self.committed_bytes
    }

    /// The controller's current estimate of committed memory.
    pub fn committed_bytes(&self) -> (n: u64)
        ensures
            n == self.committed(),
    {
        self.committed_bytes
    }

    /// Whether a new request would be admitted right now. The decision
    /// reads only the memory already committed, never the incoming
    /// cushion, so even a very small threshold admits a request whenever
    /// nothing is committed.
    pub open spec fn admits(&self, threshold_bytes: u64) -> bool {
        self.committed() <= threshold_bytes
    }

    /// One admission attempt. While the committed estimate is over the
    /// threshold the controller refuses and is left unchanged; otherwise
    /// it atomically commits `cushion_bytes` and hands out the
    /// reservation.
    pub fn try_reserve(&mut self, cushion_bytes: u64, threshold_bytes: u64) -> (r: Option<
        MemoryReservation,
    >)
        requires
            old(self).committed() + cushion_bytes <= u64::MAX,
        ensures
            r is Some <==> old(self).admits(threshold_bytes),
            (match r {
                Some(reservation) => {
                    &&& reservation.spec_cushion_bytes() == cushion_bytes
                    &&& final(self).committed() == old(self).committed() + cushion_bytes
                },
                None => *final(self) == *old(self),
            }),
    {
        if self.committed_bytes <= threshold_bytes {
            self.committed_bytes = self.committed_bytes + cushion_bytes;
            Some(MemoryReservation { cushion_bytes })
        } else {
            None
        }
    }

    /// Releasing a reservation decrements the committed estimate by
    /// exactly the cushion it committed, which may unblock waiters. The
    /// reservation is consumed, so it cannot be released twice.
    pub fn release(&mut self, reservation: MemoryReservation)
        requires
            reservation.spec_cushion_bytes() <= old(self).committed(),
        ensures
            final(self).committed() == old(self).committed()
                - reservation.spec_cushion_bytes(),
    {
        self.committed_bytes = self.committed_bytes - reservation.cushion_bytes;
    }
}

/// Admission control makes progress: once every in-flight reservation
/// has been released, the controller admits the next request whatever
/// the threshold is, so no configuration can wedge it for good.
pub proof fn lemma_admission_progress(controller: MemoryController, threshold_bytes: u64)
    requires
        controller.committed() == 0,
    ensures
        controller.admits(threshold_bytes),
{
}

/// With the threshold at zero the controller serialises admissions: an
/// idle controller admits a request, every further attempt is refused
/// while that cushion is committed, and releasing it makes the next
/// admission possible.
pub proof fn lemma_zero_threshold_single_file(
    controller: MemoryController,
    cushion_bytes: u64,
    after: MemoryController,
)
    requires
        controller.committed() == 0,
        cushion_bytes > 0,
        after.committed() == controller.committed() + cushion_bytes,
    ensures
        controller.admits(0),
        !after.admits(0),
        after.committed() - cushion_bytes == 0,
{
}

} // verus!
