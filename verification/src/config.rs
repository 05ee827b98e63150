//! The server configuration, immutable once loaded.  Reading and
//! deserializing a configuration file happens outside the library;
//! the library receives the plain values.

use vstd::prelude::*;

use crate::text::bytes_eq;

verus! {

/// Optional owner metadata.
pub struct ServerOwner {
    pub name: String,
    pub email: String,
    pub website: Option<String>,
}

/// Optional TLS material.
pub struct ServerSecurity {
    pub use_tls: bool,
    pub key_file: Option<String>,
    pub cert_file: Option<String>,
}

/// Configuration details for the HTTP daemon.
pub struct HttpdConfig {
    pub host: String,
    pub port: u32,
    /// Methods answered with content; any other gets 405.
    pub allowed_methods: Vec<Vec<u8>>,
    pub threads: Option<usize>,
    pub owner: Option<ServerOwner>,
    pub security: Option<ServerSecurity>,
}

/// The method `m` stands in the allow list.
pub open spec fn method_allowed(allowed: Seq<Seq<u8>>, m: Seq<u8>) -> bool {
    exists|i: int| 0 <= i < allowed.len() && #[trigger] allowed[i] == m
}

impl HttpdConfig {
    /// A configuration from its parts.
    pub fn new(
        host: String,
        port: u32,
        allowed_methods: Vec<Vec<u8>>,
        threads: Option<usize>,
        owner: Option<ServerOwner>,
        security: Option<ServerSecurity>,
    ) -> (r: HttpdConfig)
        ensures
            r.host == host,
            r.port == port,
            r.allowed_methods == allowed_methods,
            r.threads == threads,
            r.owner == owner,
            r.security == security,
    {
        HttpdConfig { host, port, allowed_methods, threads, owner, security }
    }

    /// Whether the configuration allows the method.
    pub fn allows_method(&self, m: &[u8]) -> (r: bool)
        ensures
            r == method_allowed(self.allowed_methods.deep_view(), m@),
    {
        let ghost av = self.allowed_methods.deep_view();
        let mut i: usize = 0;
        while i < self.allowed_methods.len()
            invariant
                i <= self.allowed_methods@.len(),
                av == self.allowed_methods.deep_view(),
                forall|j: int| 0 <= j < i ==> #[trigger] av[j] != m@,
            decreases self.allowed_methods@.len() - i,
        {
            if bytes_eq(self.allowed_methods[i].as_slice(), m) {
                proof {
                    assert(self.allowed_methods@[i as int].deep_view() =~= self.allowed_methods@[i as int]@);
                    assert(av[i as int] == m@);
                }
                return true;
            }
            proof {
                assert(self.allowed_methods@[i as int].deep_view() =~= self.allowed_methods@[i as int]@);
            }
            i = i + 1;
        }
        proof {
            assert(!method_allowed(av, m@));
        }
        false
    }
}

} // verus!
