use vstd::prelude::*;

verus! {

/// A server for remote procedure calls on a local port.
pub struct RpcServer {
    port: u16,
}

impl RpcServer {
    /// A server for port `port`.
    pub fn new(port: u16) -> (s: RpcServer)
        ensures
            s.port() == port,
    {
        RpcServer { port }
    }

    pub closed spec fn port(&self) -> u16 {
        self.port
    }

    /// The port the server listens on.
    pub fn get_port(&self) -> (r: u16)
        ensures
            r == self.port(),
    {
        self.port
    }
}

} // verus!
