//! The classification of one TCP connection attempt.

use vstd::prelude::*;

verus! {

/// What a port probe found.
#[derive(Debug, Clone, Copy, PartialEq, Eq, Structural)]
pub enum PortStatus {
    Open,
    Closed,
    Filtered,
    HostDown,
}

impl PortStatus {
    /// The name of the status, as it is shown.
    pub fn name(&self) -> (r: &'static str)
        ensures
            *self is Open ==> r@ == "Open"@,
            *self is Closed ==> r@ == "Closed"@,
            *self is Filtered ==> r@ == "Filtered"@,
            *self is HostDown ==> r@ == "HostDown"@,
    {
        match self {
            PortStatus::Open => "Open",
            PortStatus::Closed => "Closed",
            PortStatus::Filtered => "Filtered",
            PortStatus::HostDown => "HostDown",
        }
    }
}

/// How a connection attempt ended.
#[derive(Debug, Clone, Copy, PartialEq, Eq, Structural)]
pub enum ConnectOutcome {
    /// The connection was made.
    Connected,
    /// The attempt ran out of time.
    TimedOut,
    /// The peer refused the connection.
    Refused,
    /// The peer reset the connection.
    Reset,
    /// Another failure, with the operating system's error number.
    Os(i32),
    /// Another failure without an error number.
    Unknown,
}

/// What the operating system's error number means to a port probe.
#[derive(Debug, Clone, Copy, PartialEq, Eq, Structural)]
pub enum OsErrorClass {
    NetworkUnreachable,
    HostUnreachable,
    Other,
}

/// Relies on nix's `Errno::from_i32`: the error number read as this platform's
/// errno and told apart as "network unreachable", "no route to host" or another
/// error. The numbers differ between platforms, so nothing is stated of them.
#[verifier::external_body]
fn os_error_class(code: i32) -> (r: OsErrorClass) {
    match nix::errno::Errno::from_i32(code) {
        nix::errno::Errno::ENETUNREACH => OsErrorClass::NetworkUnreachable,
        nix::errno::Errno::EHOSTUNREACH => OsErrorClass::HostUnreachable,
        _ => OsErrorClass::Other,
    }
}

/// The status for an attempt that ended with `outcome`, where `class` is what
/// its error number means; `None` where the failure is no scan outcome and is
/// handed to the caller.
pub open spec fn port_status_of(outcome: ConnectOutcome, class: OsErrorClass) -> Option<
    PortStatus,
> {
    match outcome {
        ConnectOutcome::Connected => Some(PortStatus::Open),
        ConnectOutcome::TimedOut => Some(PortStatus::Filtered),
        ConnectOutcome::Refused => Some(PortStatus::Closed),
        ConnectOutcome::Reset => Some(PortStatus::Closed),
        ConnectOutcome::Os(_) => match class {
            OsErrorClass::NetworkUnreachable => Some(PortStatus::HostDown),
            OsErrorClass::HostUnreachable => Some(PortStatus::HostDown),
            OsErrorClass::Other => None,
        },
        ConnectOutcome::Unknown => None,
    }
}

/// The status for an attempt that ended with `outcome`, given what its error
/// number means.
pub fn classify_with(outcome: ConnectOutcome, class: OsErrorClass) -> (r: Option<PortStatus>)
    ensures
        r == port_status_of(outcome, class),
{
    match outcome {
        ConnectOutcome::Connected => Some(PortStatus::Open),
        ConnectOutcome::TimedOut => Some(PortStatus::Filtered),
        ConnectOutcome::Refused | ConnectOutcome::Reset => Some(PortStatus::Closed),
        ConnectOutcome::Os(_) => match class {
            OsErrorClass::NetworkUnreachable | OsErrorClass::HostUnreachable => Some(
                PortStatus::HostDown,
            ),
            OsErrorClass::Other => None,
        },
        ConnectOutcome::Unknown => None,
    }
}

/// The status for an attempt that ended with `outcome`; an error number is read
/// as this platform's errno.
pub fn classify_connect(outcome: ConnectOutcome) -> (r: Option<PortStatus>)
    ensures
        !(outcome is Os) ==> r == port_status_of(outcome, OsErrorClass::Other),
        outcome is Os ==> exists|class: OsErrorClass| r == port_status_of(outcome, class),
{
    match outcome {
        ConnectOutcome::Os(code) => classify_with(outcome, os_error_class(code)),
        _ => classify_with(outcome, OsErrorClass::Other),
    }
}

} // verus!
