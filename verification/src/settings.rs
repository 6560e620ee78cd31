//! Server-wide settings: file-storage root, bind address, and worker count.
//! Immutable once the server starts.
use vstd::prelude::*;

use crate::num::dec_rep;
use crate::num::dec_string;

verus! {

/// A host address as four plain octets.
#[derive(Clone, Copy, PartialEq, Eq, Structural, Debug)]
pub struct Ipv4Address {
    pub octet1: u8,
    pub octet2: u8,
    pub octet3: u8,
    pub octet4: u8,
}

/// What the server was started with: where files live, where to listen,
/// and how many workers to run.
pub struct ServerSettings {
    pub root_dir: String,
    pub host_addr: Ipv4Address,
    pub port: u16,
    pub threads_count: usize,
}

/// The text of a bind address: dotted octets, a colon, the port.
pub open spec fn addr_view(host: Ipv4Address, port: u16) -> Seq<char> {
    dec_rep(host.octet1 as nat) + "."@ + dec_rep(host.octet2 as nat) + "."@ + dec_rep(
        host.octet3 as nat,
    ) + "."@ + dec_rep(host.octet4 as nat) + ":"@ + dec_rep(port as nat)
}

impl ServerSettings {
    /// The address to bind, as `host:port` text.
    pub fn get_addr(&self) -> (r: String)
        ensures
            r@ == addr_view(self.host_addr, self.port),
    {
        let r = dec_string(self.host_addr.octet1 as usize).concat(".").concat(
            dec_string(self.host_addr.octet2 as usize).as_str(),
        ).concat(".").concat(dec_string(self.host_addr.octet3 as usize).as_str()).concat(
            ".",
        ).concat(dec_string(self.host_addr.octet4 as usize).as_str()).concat(":").concat(
            dec_string(self.port as usize).as_str(),
        );
        r
    }

    /// The settings used when none are supplied: no file root, the local
    /// address, and four workers.
    pub fn create_default() -> (r: ServerSettings)
        ensures
            r.root_dir@ == Seq::<char>::empty(),
            r.host_addr == (Ipv4Address { octet1: 127, octet2: 0, octet3: 0, octet4: 1 }),
            r.port == 4221,
            r.threads_count == 4,
    {
        ServerSettings {
            root_dir: String::new(),
            host_addr: Ipv4Address { octet1: 127, octet2: 0, octet3: 0, octet4: 1 },
            port: 4221,
            threads_count: 4,
        }
    }

    /// Reads the settings from the argument list: a `--directory` flag
    /// followed by the root; anything else yields nothing.
    pub fn try_read_settings(args: &Vec<String>) -> (r: Option<ServerSettings>)
        ensures
            match r {
                Some(s) => args@.len() >= 3 && args.deep_view()[1] == "--directory"@
                    && s.root_dir@ == args.deep_view()[2] && s.host_addr == (Ipv4Address {
                    octet1: 127,
                    octet2: 0,
                    octet3: 0,
                    octet4: 1,
                }) && s.port == 4221 && s.threads_count == 4,
                None => args@.len() < 2 || args.deep_view()[1] != "--directory"@ || args@.len() < 3,
            },
    {
        if args.len() < 2 {
            return None;
        }
        proof {
            assert(args.deep_view()[1] =~= args@[1]@);
        }
        if !(args[1] == String::from_str("--directory")) {
            return None;
        }
        if args.len() < 3 {
            return None;
        }
        proof {
            assert(args.deep_view()[2] =~= args@[2]@);
        }
        Some(
            ServerSettings {
                root_dir: args[2].clone(),
                host_addr: Ipv4Address { octet1: 127, octet2: 0, octet3: 0, octet4: 1 },
                port: 4221,
                threads_count: 4,
            },
        )
    }
}

} // verus!
