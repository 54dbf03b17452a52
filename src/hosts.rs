//! The decisions of the host probe: an echo request is sent and answered until a
//! decodable reply arrives, the receive times out, or the time budget is spent.
//! The caller owns the raw socket and the clock; it performs each action and
//! hands the outcome back.

use crate::cidr::IpAddr;
use crate::icmp::{decoding, decoding_after_ipv4, encoding, IcmpEchoPacket, IcmpEchoType};
use vstd::prelude::*;

verus! {

/// Whether a host answered.
#[derive(Debug, Clone, Copy, PartialEq, Eq, Structural)]
pub enum HostStatus {
    Up,
    Down,
}

impl HostStatus {
    /// The name of the status, as it is shown.
    pub fn name(&self) -> (r: &'static str)
        ensures
            *self is Up ==> r@ == "Up"@,
            *self is Down ==> r@ == "Down"@,
    {
        match self {
            HostStatus::Up => "Up",
            HostStatus::Down => "Down",
        }
    }
}

/// What one receive on the raw socket gave.
#[derive(Debug, PartialEq, Eq)]
pub enum ReceiveOutcome {
    /// The bytes of one received datagram.
    Packet(Vec<u8>),
    /// The receive deadline passed without a datagram.
    TimedOut,
    /// Any other receive error.
    Failed,
}

/// What the probe does after a receive.
#[derive(Debug, Clone, Copy, PartialEq, Eq, Structural)]
pub enum ProbeStep {
    /// Send and receive again, if time remains.
    Retry,
    /// The probe is over with this status.
    Finish(HostStatus),
    /// The receive error is handed to the caller.
    Fail,
}

/// The identifier of the echo requests that the probe sends.
pub const ECHO_IDENTIFIER: u16 = 12345;

/// One host probe: the address family and the absolute deadline, in nanoseconds
/// of the caller's monotonic clock.
#[derive(Debug, Clone, Copy, PartialEq, Eq, Structural)]
pub struct HostProbe {
    pub ipv4: bool,
    pub deadline: u64,
}

/// The kind of echo request sent to a host of the given family.
pub open spec fn request_type(ipv4: bool) -> IcmpEchoType {
    if ipv4 {
        IcmpEchoType::Request
    } else {
        IcmpEchoType::RequestV6
    }
}

/// The step after a receive: a decodable echo packet means the host is up, any
/// other datagram is ignored, a timeout means the host is down, and any other
/// error fails the probe. Raw IPv4 sockets deliver the IP header too, raw IPv6
/// sockets do not.
pub open spec fn step_after(ipv4: bool, outcome: ReceiveOutcome) -> ProbeStep {
    match outcome {
        ReceiveOutcome::Packet(b) => {
            let decoded = if ipv4 {
                decoding_after_ipv4(b@)
            } else {
                decoding(b@)
            };
            if decoded is Some {
                ProbeStep::Finish(HostStatus::Up)
            } else {
                ProbeStep::Retry
            }
        },
        ReceiveOutcome::TimedOut => ProbeStep::Finish(HostStatus::Down),
        ReceiveOutcome::Failed => ProbeStep::Fail,
    }
}

impl HostProbe {
    /// Starts a probe of `addr` at time `now` with `budget` nanoseconds to spend;
    /// a deadline past the clock's range is held at its end.
    pub fn start(addr: &IpAddr, now: u64, budget: u64) -> (r: HostProbe)
        ensures
            r.ipv4 == (*addr is V4),
            r.deadline == if now + budget > u64::MAX {
                u64::MAX as int
            } else {
                now + budget
            },
    {
        let deadline: u64 = if budget > u64::MAX - now {
            u64::MAX
        } else {
            now + budget
        };
        HostProbe { ipv4: addr.is_ipv4(), deadline }
    }

    /// The time left at `now`, always measured against the fixed deadline so that
    /// retries never extend the budget; zero once the deadline has passed.
    pub fn remaining(&self, now: u64) -> (r: u64)
        ensures
            r == if now < self.deadline {
                self.deadline - now
            } else {
                0
            },
    {
        if now < self.deadline {
            self.deadline - now
        } else {
            0
        }
    }

    /// The echo request to send: sequence number zero, the probe's identifier and
    /// `payload` as its tag.
    pub fn request(&self, payload: &[u8]) -> (r: Vec<u8>)
        requires
            payload@.len() + 8 <= usize::MAX,
        ensures
            r@ == encoding((request_type(self.ipv4), ECHO_IDENTIFIER, 0u16, payload@)),
    {
        let t = if self.ipv4 {
            IcmpEchoType::Request
        } else {
            IcmpEchoType::RequestV6
        };
        let packet = IcmpEchoPacket::new(t, ECHO_IDENTIFIER, 0, payload);
        packet.encode()
    }

    /// The step after a receive that gave `outcome`.
    pub fn on_receive(&self, outcome: &ReceiveOutcome) -> (r: ProbeStep)
        ensures
            r == step_after(self.ipv4, *outcome),
    {
        match outcome {
            ReceiveOutcome::Packet(b) => {
                let decoded = if self.ipv4 {
                    IcmpEchoPacket::from_ipv4(b.as_slice())
                } else {
                    IcmpEchoPacket::from(b.as_slice())
                };
                if decoded.is_some() {
                    ProbeStep::Finish(HostStatus::Up)
                } else {
                    ProbeStep::Retry
                }
            },
            ReceiveOutcome::TimedOut => ProbeStep::Finish(HostStatus::Down),
            ReceiveOutcome::Failed => ProbeStep::Fail,
        }
    }
}

} // verus!
