//! What a listener is told about the port it serves.

use vstd::prelude::*;

verus! {

/// The policy of one listening port. It does not change while the
/// listener runs.
#[derive(Clone, Copy, Debug, PartialEq, Eq, Structural)]
pub struct SMTPPortConfiguration {
    /// Whether clients may authenticate on this port.
    pub auth_enabled: bool,
    /// Whether incoming mail is to be filtered.
    pub filtering_enabled: bool,
    /// Whether the socket is wrapped in TLS before the first byte.
    pub implicit_tls: bool,
    pub port: u16,
}

impl SMTPPortConfiguration {
    /// The port that other mail servers deliver to: no authentication,
    /// filtering on.
    pub fn transfer() -> (policy: SMTPPortConfiguration)
        ensures
            policy == (SMTPPortConfiguration {
                auth_enabled: false,
                filtering_enabled: true,
                implicit_tls: false,
                port: 2525,
            }),
    {
        SMTPPortConfiguration {
            auth_enabled: false,
            filtering_enabled: true,
            implicit_tls: false,
            port: 2525,
        }
    }

    /// The port that mail clients submit to: authentication on, no
    /// filtering.
    pub fn submission() -> (policy: SMTPPortConfiguration)
        ensures
            policy == (SMTPPortConfiguration {
                auth_enabled: true,
                filtering_enabled: false,
                implicit_tls: false,
                port: 5870,
            }),
    {
        SMTPPortConfiguration {
            auth_enabled: true,
            filtering_enabled: false,
            implicit_tls: false,
            port: 5870,
        }
    }
}

} // verus!
