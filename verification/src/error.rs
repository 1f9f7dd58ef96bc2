//! The crate's error type.
use vstd::prelude::*;
use vstd::string::*;

verus! {

/// What went wrong while resolving or running a port-forward.
#[derive(Debug, Clone, PartialEq, Eq)]
pub enum PortForwardError {
    /// The Kubernetes API refused or failed a request; holds its message.
    KubeError(String),
    /// A target or DNS-style name could not be parsed.
    DnsError(String),
    /// A forward could not be established or kept up.
    ConnectionError(String),
}

impl PortForwardError {
    /// The human-readable message of an error.
    pub open spec fn message_of(self) -> Seq<char> {
        match self {
            PortForwardError::KubeError(m) => "kubernetes error: "@ + m@,
            PortForwardError::DnsError(m) => "invalid DNS name: "@ + m@,
            PortForwardError::ConnectionError(m) => "connection error: "@ + m@,
        }
    }

    /// Renders the error as text (`kubernetes error: ...`, `invalid DNS name: ...`,
    /// `connection error: ...`).
    #[allow(clippy::inherent_to_string)]
    pub fn to_string(&self) -> (r: String)
        ensures
            r@ == self.message_of(),
    {
        match self {
            PortForwardError::KubeError(m) => {
                let mut s = String::from_str("kubernetes error: ");
                s.append(m.as_str());
                s
            },
            PortForwardError::DnsError(m) => {
                let mut s = String::from_str("invalid DNS name: ");
                s.append(m.as_str());
                s
            },
            PortForwardError::ConnectionError(m) => {
                let mut s = String::from_str("connection error: ");
                s.append(m.as_str());
                s
            },
        }
    }
}

} // verus!
