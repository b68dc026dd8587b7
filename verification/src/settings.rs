//! Node configuration. The file itself is read and parsed outside the
//! library; the engine receives the parsed values.

use vstd::prelude::*;

use crate::bytes::Bytes;
use crate::codec::{from_hex, from_hex_spec};

verus! {

use vstd::string::StringSliceAdditionalSpecFns;

/// The node's configuration: the accepted genesis hash in hex (empty when
/// the node may mine its own genesis), the key file, how deep the startup
/// chain check goes, and the collaborator sections.
pub struct Settings {
    pub origin: String,
    pub key_file: String,
    pub check_blocks: u64,
    pub net: Net,
    pub dns: Dns,
    pub mining: Mining,
}

/// The DNS front-end section.
pub struct Dns {
    pub listen: String,
    pub threads: usize,
    pub forwarders: Vec<String>,
    pub hosts: Vec<String>,
}

/// The miner section.
pub struct Mining {
    pub threads: usize,
    pub lower: bool,
}

/// The peer network section.
pub struct Net {
    pub peers: Vec<String>,
    pub listen: String,
    pub public: bool,
    pub yggdrasil_only: bool,
}

impl Settings {
    /// The origin as raw bytes: thirty-two zero bytes when none is
    /// configured, else the decoded hex.
    pub open spec fn origin_spec(&self) -> Seq<u8> {
        if self.origin@.len() == 0 {
            Seq::new(32, |i: int| 0u8)
        } else {
            from_hex_spec(vstd::utf8::encode_utf8(self.origin@))->Some_0
        }
    }

    /// Decodes the configured origin. An empty setting reads as all zero: no
    /// genesis hash is pinned. A non-empty setting must be valid hex.
    pub fn get_origin(&self) -> (r: Bytes)
        requires
            self.origin@ == Seq::<char>::empty() || from_hex_spec(vstd::utf8::encode_utf8(self.origin@))
                is Some,
        ensures
            r@ == self.origin_spec(),
    {
        if self.origin.as_str().unicode_len() == 0 {
            let z = Bytes::zero32();
            proof {
                assert(z@ =~= self.origin_spec());
            }
            return z;
        }
        match from_hex(self.origin.as_str()) {
            Some(v) => Bytes::from_vec(v),
            None => Bytes::zero32(),
        }
    }
}

impl Clone for Settings {
    fn clone(&self) -> (r: Self)
        ensures
            r.origin@ == self.origin@,
            r.key_file@ == self.key_file@,
            r.check_blocks == self.check_blocks,
            r.mining.threads == self.mining.threads,
            r.mining.lower == self.mining.lower,
    {
        Settings {
            origin: self.origin.clone(),
            key_file: self.key_file.clone(),
            check_blocks: self.check_blocks,
            net: Net {
                peers: self.net.peers.clone(),
                listen: self.net.listen.clone(),
                public: self.net.public,
                yggdrasil_only: self.net.yggdrasil_only,
            },
            dns: Dns {
                listen: self.dns.listen.clone(),
                threads: self.dns.threads,
                forwarders: self.dns.forwarders.clone(),
                hosts: self.dns.hosts.clone(),
            },
            mining: Mining { threads: self.mining.threads, lower: self.mining.lower },
        }
    }
}

impl Default for Settings {
    /// A node with no pinned origin, the default key file, and the default
    /// check depth.
    fn default() -> (r: Self)
        ensures
            r.origin@ == Seq::<char>::empty(),
            r.key_file@ == "default.key"@,
            r.check_blocks == 8,
    {
        Settings {
            origin: String::new(),
            key_file: "default.key".to_owned(),
            check_blocks: default_check_blocks(),
            net: Net::default(),
            dns: Dns::default(),
            mining: Mining { threads: 0, lower: false },
        }
    }
}

impl Default for Dns {
    /// The DNS front-end listens locally on the DNS port.
    fn default() -> (r: Self)
        ensures
            r.listen@ == "127.0.0.1:53"@,
            r.threads == 20,
    {
        Dns {
            listen: "127.0.0.1:53".to_owned(),
            threads: 20,
            forwarders: Vec::new(),
            hosts: Vec::new(),
        }
    }
}

impl Default for Net {
    /// The peer network listens on every interface.
    fn default() -> (r: Self)
        ensures
            r.listen@ == "[::]:46866"@,
            r.public,
            !r.yggdrasil_only,
    {
        Net {
            peers: Vec::new(),
            listen: "[::]:46866".to_owned(),
            public: true,
            yggdrasil_only: false,
        }
    }
}

impl Default for Mining {
    /// Zero threads asks for one worker per host CPU.
    fn default() -> (r: Self)
        ensures
            r.threads == 0,
            !r.lower,
    {
        Mining { threads: 0, lower: false }
    }
}

/// The default peer listen address.
pub fn default_listen() -> (r: String)
    ensures
        r@ == "[::]:46866"@,
{
    "[::]:46866".to_owned()
}

/// The default DNS listen address.
pub fn default_listen_dns() -> (r: String)
    ensures
        r@ == "0.0.0.0:53"@,
{
    "0.0.0.0:53".to_owned()
}

/// The default DNS worker count.
pub fn default_threads() -> (r: usize)
    ensures
        r == 100,
{
    100
}

/// How many blocks the startup check walks by default.
pub fn default_check_blocks() -> (r: u64)
    ensures
        r == 8,
{
    8
}

} // verus!
