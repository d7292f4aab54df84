use vstd::prelude::*;
use crate::json::JsonVal;

verus! {

/// An HTTP method the server accepts; any other method is rejected.
#[derive(PartialEq, Eq, Structural, Clone, Copy, Debug)]
pub enum ConfigMethod {
    Get,
    Post,
    Put,
    Delete,
}

/// A character sequence read byte for byte, for ASCII-only text.
pub open spec fn ascii_bytes(s: Seq<char>) -> Seq<u8> {
    s.map_values(|c: char| c as u8)
}

/// The method a raw request-line token names, if any; the comparison is
/// case-sensitive and exact.
pub open spec fn spec_method_of(tok: Seq<u8>) -> Option<ConfigMethod> {
    if tok == ascii_bytes("GET"@) {
        Some(ConfigMethod::Get)
    } else if tok == ascii_bytes("POST"@) {
        Some(ConfigMethod::Post)
    } else if tok == ascii_bytes("PUT"@) {
        Some(ConfigMethod::Put)
    } else if tok == ascii_bytes("DELETE"@) {
        Some(ConfigMethod::Delete)
    } else {
        None
    }
}

impl ConfigMethod {
    /// The wire form of the method, as it stands in a request line.
    pub open spec fn spec_str(self) -> Seq<char> {
        match self {
            ConfigMethod::Get => "GET"@,
            ConfigMethod::Post => "POST"@,
            ConfigMethod::Put => "PUT"@,
            ConfigMethod::Delete => "DELETE"@,
        }
    }

    /// The wire form of the method.
    pub fn as_str(&self) -> (r: &'static str)
        ensures
            r@ == self.spec_str(),
    {
        match self {
            ConfigMethod::Get => "GET",
            ConfigMethod::Post => "POST",
            ConfigMethod::Put => "PUT",
            ConfigMethod::Delete => "DELETE",
        }
    }

    /// Reads a method token from the raw bytes of a request line.
    pub fn from_bytes(tok: &[u8]) -> (r: Option<ConfigMethod>)
        ensures
            r == spec_method_of(tok@),
    {
        proof {
            reveal_strlit("GET");
            reveal_strlit("POST");
            reveal_strlit("PUT");
            reveal_strlit("DELETE");
            broadcast use vstd::string::is_ascii_spec_bytes;

            assert(vstd::string::is_ascii("GET"));
            assert(vstd::string::is_ascii("POST"));
            assert(vstd::string::is_ascii("PUT"));
            assert(vstd::string::is_ascii("DELETE"));
        }
        let g = "GET".as_bytes();
        let po = "POST".as_bytes();
        let pu = "PUT".as_bytes();
        let d = "DELETE".as_bytes();
        proof {
            assert(g@ =~= ascii_bytes("GET"@));
            assert(po@ =~= ascii_bytes("POST"@));
            assert(pu@ =~= ascii_bytes("PUT"@));
            assert(d@ =~= ascii_bytes("DELETE"@));
        }
        if crate::bytes::bytes_eq(tok, g) {
            Some(ConfigMethod::Get)
        } else if crate::bytes::bytes_eq(tok, po) {
            Some(ConfigMethod::Post)
        } else if crate::bytes::bytes_eq(tok, pu) {
            Some(ConfigMethod::Put)
        } else if crate::bytes::bytes_eq(tok, d) {
            Some(ConfigMethod::Delete)
        } else {
            None
        }
    }
}

/// Where unmatched requests are forwarded.
#[derive(Debug)]
pub struct ProxyAddr {
    pub host: String,
    pub port: u16,
}

impl ProxyAddr {
    pub fn new(host: String, port: u16) -> (r: ProxyAddr)
        ensures
            r.host == host,
            r.port == port,
    {
        ProxyAddr { host, port }
    }

    /// The address as a host and port pair.
    pub fn to_tuple(&self) -> (r: (&str, u16))
        ensures
            r.0@ == self.host@,
            r.1 == self.port,
    {
        (self.host.as_str(), self.port)
    }

    pub fn host(&self) -> (r: &str)
        ensures
            r@ == self.host@,
    {
        self.host.as_str()
    }

    pub fn port(&self) -> (r: u16)
        ensures
            r == self.port,
    {
        self.port
    }
}

/// One configured mock rule: a route, the method it answers, and the
/// response it renders.
#[derive(Debug)]
pub struct ConfigResponse {
    pub path: String,
    pub method: ConfigMethod,
    pub status: usize,
    pub body: JsonVal,
    pub enabled: Option<bool>,
    pub delay: Option<u64>,
}

impl ConfigResponse {
    /// Whether this rule may answer a request with the given method:
    /// it is enabled (the default) and declares that method.
    pub open spec fn spec_is_valid(self, method: ConfigMethod) -> bool {
        &&& match self.enabled {
            Some(b) => b,
            None => true,
        }
        &&& self.method == method
    }

    pub fn path(&self) -> (r: &str)
        ensures
            r@ == self.path@,
    {
        self.path.as_str()
    }

    pub fn status(&self) -> (r: usize)
        ensures
            r == self.status,
    {
        self.status
    }

    pub fn body(&self) -> (r: &JsonVal)
        ensures
            r == &self.body,
    {
        &self.body
    }

    pub fn delay(&self) -> (r: Option<u64>)
        ensures
            r == self.delay,
    {
        self.delay
    }

    pub fn is_valid(&self, method: ConfigMethod) -> (r: bool)
        ensures
            r == self.spec_is_valid(method),
    {
        let enabled = match self.enabled {
            Some(b) => b,
            None => true,
        };
        enabled && self.method == method
    }
}

/// The configuration one request is served under: the upstream address,
/// an optional global delay, and the ordered rule list.
#[derive(Debug)]
pub struct Config {
    pub proxy_addr: ProxyAddr,
    pub delay: Option<u64>,
    pub responses: Vec<ConfigResponse>,
}

impl Config {
    pub fn proxy_addr(&self) -> (r: &ProxyAddr)
        ensures
            r == &self.proxy_addr,
    {
        &self.proxy_addr
    }

    pub fn responses(&self) -> (r: &Vec<ConfigResponse>)
        ensures
            r == &self.responses,
    {
        &self.responses
    }

    pub fn delay(&self) -> (r: Option<u64>)
        ensures
            r == self.delay,
    {
        self.delay
    }
}

} // verus!
