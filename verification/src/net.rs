//! Wireless association and address acquisition.
//!
//! The radio, the scan, and the cooperative network stack live outside this
//! machine; the machine holds the decisions. The driving loop reports each
//! observation (one `is connected?` answer, one interface poll) as an event,
//! and the machine moves through its modes: forward only, except a radio
//! error, which is terminal for the association attempt.

use vstd::prelude::*;

verus! {

/// Mode of the association attempt, forward-only except `Failed`.
#[derive(Clone, Copy, PartialEq, Eq, Structural, Debug)]
pub enum RadioMode {
    Off,
    Scanning,
    Connecting,
    Connected,
    Failed,
}

/// Why an association attempt failed; fatal for the attempt.
#[derive(Clone, Copy, PartialEq, Eq, Structural, Debug)]
pub enum AssociationError {
    ScanFailure,
    ConnectFailure,
}

/// One answer of the radio to an `is connected?` poll.
#[derive(Clone, Copy, PartialEq, Eq, Structural, Debug)]
pub enum StatusReport {
    Connected,
    NotConnected,
    RadioError,
}

/// The state of one association attempt.
pub struct AssociationState {
    pub mode: RadioMode,
    /// Assigned IPv4 address, as a number; present only once the interface
    /// reports up while connected.
    pub address: Option<u32>,
    /// The interface reported up at the latest poll.
    pub iface_up: bool,
    /// Upper bound on access points the diagnostic scan may report.
    pub scan_limit: u64,
    /// Access points seen by the diagnostic scan, never above the limit.
    pub ap_seen: u64,
    /// Status checks performed so far.
    pub checks: u64,
    pub failure: Option<AssociationError>,
}

impl AssociationState {
    /// The address is present only while connected with the interface up,
    /// and a failure reason is recorded exactly in the failed mode.
    pub open spec fn wf(self) -> bool {
        &&& self.address is Some ==> (self.mode == RadioMode::Connected && self.iface_up)
        &&& self.failure is Some <==> self.mode == RadioMode::Failed
        &&& self.ap_seen <= self.scan_limit
    }

    /// Bring-up is complete: connected, interface up, address assigned.
    pub open spec fn associated(self) -> bool {
        self.mode == RadioMode::Connected && self.iface_up && self.address is Some
    }

    /// A fresh attempt: radio off, nothing observed yet.
    pub fn new() -> (s: AssociationState)
        ensures
            s.wf(),
            s.mode == RadioMode::Off,
            s.address is None,
            !s.iface_up,
            s.scan_limit == 0,
            s.ap_seen == 0,
            s.checks == 0,
            s.failure is None,
    {
        AssociationState {
            mode: RadioMode::Off,
            address: None,
            iface_up: false,
            scan_limit: 0,
            ap_seen: 0,
            checks: 0,
            failure: None,
        }
    }

    /// The radio is started (power saving off) and the diagnostic scan
    /// begins, bounded to at most `scan_limit` access points.
    pub fn begin_scan(&mut self, scan_limit: u64)
        requires
            old(self).wf(),
            old(self).mode == RadioMode::Off,
        ensures
            final(self).wf(),
            *final(self) == (AssociationState {
                mode: RadioMode::Scanning,
                scan_limit,
                ap_seen: 0,
                ..*old(self)
            }),
    {
        self.mode = RadioMode::Scanning;
        self.scan_limit = scan_limit;
        self.ap_seen = 0;
    }

    /// The bounded scan came back with `count` access points; the record is
    /// clamped to the scan limit. The scan is diagnostic only: it never
    /// gates the association.
    pub fn on_scan_complete(&mut self, count: u64)
        requires
            old(self).wf(),
            old(self).mode == RadioMode::Scanning,
        ensures
            final(self).wf(),
            *final(self) == (AssociationState {
                ap_seen: if count <= old(self).scan_limit {
                    count
                } else {
                    old(self).scan_limit
                },
                ..*old(self)
            }),
    {
        self.ap_seen = if count <= self.scan_limit {
            count
        } else {
            self.scan_limit
        };
    }

    /// Credentials are applied and a connection requested; polling starts.
    pub fn begin_connect(&mut self)
        requires
            old(self).wf(),
            old(self).mode == RadioMode::Scanning,
        ensures
            final(self).wf(),
            *final(self) == (AssociationState { mode: RadioMode::Connecting, ..*old(self) }),
    {
        self.mode = RadioMode::Connecting;
    }

    /// Digests one `is connected?` answer while polling: `Connected` ends
    /// the poll loop, `NotConnected` keeps polling, a radio error is fatal
    /// for the attempt.
    pub fn on_status_check(&mut self, r: StatusReport)
        requires
            old(self).wf(),
            old(self).mode == RadioMode::Connecting,
            old(self).checks < u64::MAX,
        ensures
            final(self).wf(),
            *final(self) == status_step(*old(self), r),
            final(self).checks == old(self).checks + 1,
            final(self).mode == (match r {
                StatusReport::Connected => RadioMode::Connected,
                StatusReport::NotConnected => RadioMode::Connecting,
                StatusReport::RadioError => RadioMode::Failed,
            }),
            final(self).address == old(self).address,
    {
        self.checks = self.checks + 1;
        match r {
            StatusReport::Connected => {
                self.mode = RadioMode::Connected;
            },
            StatusReport::NotConnected => {},
            StatusReport::RadioError => {
                self.mode = RadioMode::Failed;
                self.failure = Some(AssociationError::ConnectFailure);
            },
        }
    }

    /// Digests one interface poll (one advance of the cooperative stack):
    /// records whether the interface is up and, exactly when it is up with
    /// an address assigned, the non-empty address.
    pub fn on_iface_poll(&mut self, up: bool, addr: Option<u32>)
        requires
            old(self).wf(),
            old(self).mode == RadioMode::Connected,
        ensures
            final(self).wf(),
            final(self).mode == old(self).mode,
            final(self).checks == old(self).checks,
            final(self).ap_seen == old(self).ap_seen,
            final(self).failure == old(self).failure,
            final(self).iface_up == up,
            final(self).address == (if up {
                addr
            } else {
                Option::<u32>::None
            }),
            (up && addr is Some) ==> final(self).associated(),
    {
        self.iface_up = up;
        self.address = if up {
            addr
        } else {
            None
        };
    }
}

/// One status check, as a function on states.
pub open spec fn status_step(s: AssociationState, r: StatusReport) -> AssociationState {
    match r {
        StatusReport::Connected => AssociationState {
            mode: RadioMode::Connected,
            checks: (s.checks + 1) as u64,
            ..s
        },
        StatusReport::NotConnected => AssociationState { checks: (s.checks + 1) as u64, ..s },
        StatusReport::RadioError => AssociationState {
            mode: RadioMode::Failed,
            failure: Some(AssociationError::ConnectFailure),
            checks: (s.checks + 1) as u64,
            ..s
        },
    }
}

/// The state after digesting a whole sequence of status answers.
pub open spec fn run_status_checks(s: AssociationState, rs: Seq<StatusReport>) -> AssociationState
    decreases rs.len(),
{
    if rs.len() == 0 {
        s
    } else {
        run_status_checks(status_step(s, rs[0]), rs.drop_first())
    }
}

/// Law: while every answer is `NotConnected` the machine keeps polling: it
/// stays in `Connecting`, counting one status check per answer, with the
/// address still absent.
pub proof fn lemma_still_connecting(s: AssociationState, rs: Seq<StatusReport>)
    requires
        s.mode == RadioMode::Connecting,
        forall|i: int| 0 <= i < rs.len() ==> rs[i] == StatusReport::NotConnected,
        s.checks + rs.len() <= u64::MAX,
    ensures
        run_status_checks(s, rs).mode == RadioMode::Connecting,
        run_status_checks(s, rs).checks == s.checks + rs.len(),
        run_status_checks(s, rs).address == s.address,
    decreases rs.len(),
{
    if rs.len() > 0 {
        lemma_still_connecting(status_step(s, rs[0]), rs.drop_first());
    }
}

/// Law: a radio that answers `NotConnected` to the first N polls and
/// `Connected` to the next brings the machine to `Connected` after exactly
/// N + 1 status checks — and to no earlier prefix of them.
pub proof fn lemma_connects_after_n_checks(s: AssociationState, rs: Seq<StatusReport>)
    requires
        s.mode == RadioMode::Connecting,
        rs.len() >= 1,
        forall|i: int| 0 <= i < rs.len() - 1 ==> rs[i] == StatusReport::NotConnected,
        rs.last() == StatusReport::Connected,
        s.checks + rs.len() <= u64::MAX,
    ensures
        run_status_checks(s, rs).mode == RadioMode::Connected,
        run_status_checks(s, rs).checks == s.checks + rs.len(),
        run_status_checks(s, rs).address == s.address,
        forall|k: int|
            0 <= k < rs.len() ==> run_status_checks(s, #[trigger] rs.take(k)).mode
                == RadioMode::Connecting,
    decreases rs.len(),
{
    if rs.len() == 1 {
        assert(rs.take(0) =~= Seq::<StatusReport>::empty());
    } else {
        let s1 = status_step(s, rs[0]);
        lemma_connects_after_n_checks(s1, rs.drop_first());
        assert forall|k: int| 0 <= k < rs.len() implies run_status_checks(
            s,
            #[trigger] rs.take(k),
        ).mode == RadioMode::Connecting by {
            if k == 0 {
                assert(rs.take(0) =~= Seq::<StatusReport>::empty());
            } else {
                assert(rs.take(k).drop_first() =~= rs.drop_first().take(k - 1));
                assert(rs.take(k)[0] == rs[0]);
                assert(run_status_checks(s, rs.take(k)) == run_status_checks(
                    s1,
                    rs.drop_first().take(k - 1),
                ));
            }
        }
    }
}

} // verus!
