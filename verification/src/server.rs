//! What the host needs to bind the listening socket: the address the server
//! was configured with. The accept loop itself is the host's.

use vstd::prelude::*;

verus! {

/// The listening address, as an IP and a port.
#[derive(Clone, Copy)]
pub struct ServerParams<'a> {
    pub ip: &'a str,
    pub port: &'a str,
}

impl<'a> ServerParams<'a> {
    /// Builds the parameters from their parts.
    pub fn new(ip: &'a str, port: &'a str) -> (r: Self)
        ensures
            r.ip@ == ip@,
            r.port@ == port@,
    {
        Self { ip, port }
    }

    /// The `ip:port` form the listener binds.
    pub fn get_ip_port(&self) -> (r: String)
        ensures
            r@ == self.ip@ + seq![':'] + self.port@,
    {
        let r = self.ip.to_owned().concat(":").concat(self.port);
        proof {
            reveal_strlit(":");
            assert(":"@ =~= seq![':']);
        }
        r
    }
}

} // verus!
