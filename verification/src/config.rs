//! The TCP endpoint configuration: a host name and a port, with builders
//! and setters. Resolving the address is I/O and lives outside the library.

use vstd::prelude::*;

verus! {

/// Where the server listens.
#[derive(Debug)]
pub struct TcpConfig {
    host: String,
    port: u16,
}

impl TcpConfig {
    /// The configured host name.
    pub closed spec fn host_view(&self) -> Seq<char> {
        self.host@
    }

    /// The configured port.
    pub closed spec fn port_view(&self) -> u16 {
        self.port
    }

    /// The default endpoint.
    pub fn new() -> (r: Self)
        ensures
            r.host_view() == "127.0.0.1"@,
            r.port_view() == 6669,
    {
        Self { host: "127.0.0.1".to_owned(), port: 6669 }
    }

    /// This configuration with another port.
    pub fn port(self, port: u16) -> (r: Self)
        ensures
            r.host_view() == self.host_view(),
            r.port_view() == port,
    {
        Self { host: self.host, port }
    }

    /// This configuration with another host.
    pub fn host(self, host: &str) -> (r: Self)
        ensures
            r.host_view() == host@,
            r.port_view() == self.port_view(),
    {
        Self { host: host.to_owned(), port: self.port }
    }

    /// Change the port in place.
    pub fn set_port(&mut self, port: u16)
        ensures
            final(self).host_view() == old(self).host_view(),
            final(self).port_view() == port,
    {
        self.port = port;
    }

    /// Change the host in place.
    pub fn set_host(&mut self, host: &str)
        ensures
            final(self).host_view() == host@,
            final(self).port_view() == old(self).port_view(),
    {
        self.host = host.to_owned();
    }

    /// The configured host name.
    pub fn host_str(&self) -> (r: &str)
        ensures
            r@ == self.host_view(),
    {
        self.host.as_str()
    }

    /// The configured port.
    pub fn port_u16(&self) -> (r: u16)
        ensures
            r == self.port_view(),
    {
        self.port
    }
}

impl Default for TcpConfig {
    /// The default endpoint: host 127.0.0.1, port 6669.
    fn default() -> (r: Self)
        ensures
            r.host_view() == "127.0.0.1"@,
            r.port_view() == 6669,
    {
        Self::new()
    }
}

} // verus!
