//! Which sockets are bound, and which failures are let pass.

use vstd::prelude::*;

verus! {

/// The systems whose error codes are known.
#[derive(Clone, Copy, Debug, PartialEq, Eq, Structural)]
pub enum System {
    Linux,
    Bsd,
    Windows,
    Other,
}

/// The kinds of an error that are told apart.
#[derive(Clone, Copy, Debug, PartialEq, Eq, Structural)]
pub enum BindErrorKind {
    AddrNotAvailable,
    PermissionDenied,
    AddrInUse,
    InvalidInput,
    Other,
}

/// An error of binding: its kind, and the code of the system.
#[derive(Clone, Copy, Debug, PartialEq, Eq, Structural)]
pub struct BindError {
    pub kind: BindErrorKind,
    pub code: Option<i32>,
}

/// Whether a code says that a protocol or a family is not supported.
pub open spec fn is_unsupported(system: System, code: i32) -> bool {
    match system {
        System::Linux => code == 93 || code == 97,
        System::Bsd => code == 43 || code == 47,
        System::Windows => code == 10043 || code == 10047,
        System::Other => false,
    }
}

/// Whether an error says that there is no IPv6, rather than that something is set up wrong.
pub open spec fn lacks_ipv6(error: BindError, system: System) -> bool {
    error.kind is AddrNotAvailable || (error.code is Some && is_unsupported(system, error.code->0))
}

/// Whether an error says that there is no IPv6.
pub fn ipv6_unavailable(error: BindError, system: System) -> (unavailable: bool)
    ensures
        unavailable == lacks_ipv6(error, system),
{
    if matches!(error.kind, BindErrorKind::AddrNotAvailable) {
        return true;
    }
    match error.code {
        None => false,
        Some(code) => match system {
            System::Linux => code == 93 || code == 97,
            System::Bsd => code == 43 || code == 47,
            System::Windows => code == 10043 || code == 10047,
            System::Other => false,
        },
    }
}

/// What is asked for.
#[derive(Clone, Copy, Debug, PartialEq, Eq, Structural)]
pub struct BindRequest {
    pub ipv4_only: bool,
    pub ipv6_only: bool,
    /// Whether an address for IPv6 was given.
    pub listens_v6: bool,
}

/// What becomes of a failure to bind the socket for IPv6.
#[derive(Clone, Copy, Debug, PartialEq, Eq, Structural)]
pub enum BindFailure {
    /// The service goes on without IPv6.
    ContinueIpv4,
    /// The service does not start.
    Fail,
}

impl BindRequest {
    /// Whether a socket for IPv4 is bound.
    pub fn binds_v4(&self) -> (binds: bool)
        ensures
            binds == !self.ipv6_only,
    {
        !self.ipv6_only
    }

    /// Whether a socket for IPv6 is bound.
    pub fn binds_v6(&self) -> (binds: bool)
        ensures
            binds == !self.ipv4_only,
    {
        !self.ipv4_only
    }

    /// What becomes of a failure to bind the socket for IPv6: it is let pass only where nobody asked
    /// for IPv6 and there is none.
    pub fn v6_failure(&self, error: BindError, system: System) -> (failure: BindFailure)
        ensures
            failure == if !self.listens_v6 && !self.ipv6_only && lacks_ipv6(error, system) {
                BindFailure::ContinueIpv4
            } else {
                BindFailure::Fail
            },
    {
        if !self.listens_v6 && !self.ipv6_only && ipv6_unavailable(error, system) {
            BindFailure::ContinueIpv4
        } else {
            BindFailure::Fail
        }
    }
}

/// IPv6 is taken as missing where its address is not there, or where the system says by its own codes
/// that the protocol or the family is not supported.
pub proof fn lemma_missing_ipv6(error: BindError, system: System, code: i32)
    ensures
        error.kind is AddrNotAvailable ==> lacks_ipv6(error, system),
        !(error.kind is AddrNotAvailable) && error.code is None ==> !lacks_ipv6(error, system),
        !(error.kind is AddrNotAvailable) && error.code == Some(code) ==> {
            &&& system is Linux ==> (lacks_ipv6(error, system) <==> code == 93 || code == 97)
            &&& system is Bsd ==> (lacks_ipv6(error, system) <==> code == 43 || code == 47)
            &&& system is Windows ==> (lacks_ipv6(error, system) <==> code == 10043 || code == 10047)
            &&& system is Other ==> !lacks_ipv6(error, system)
        },
{
}

} // verus!
