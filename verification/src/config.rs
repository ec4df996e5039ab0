//! What a session is set up from.

use crate::session::Session;
use crate::transport::Transport;
use vstd::prelude::*;

verus! {

/// The arguments of one session.
#[derive(Debug)]
pub struct Args {
    /// Host to connect to (used for DNS resolution).
    pub host: String,
    /// Port to connect to.
    pub port: u16,
    /// The SNI (Server Name Indication) to send during the handshake.
    pub sni: String,
    /// Transport to use.
    pub transport: Transport,
    /// Number of handshakes to run in a given session.
    pub number_of_handshakes: u64,
}

impl Args {
    /// The session that these arguments describe, with an empty
    /// distribution.
    pub fn into_session(self) -> (r: Session)
        ensures
            r.wf(),
            r.spec_host() == self.host@,
            r.spec_port() == self.port,
            r.spec_sni() == self.sni@,
            r.spec_transport() == self.transport,
            r.spec_num_handshakes() == self.number_of_handshakes,
            r.is_empty(),
    {
        Session::new(self.host, self.port, self.sni, self.transport, self.number_of_handshakes)
    }
}

} // verus!
