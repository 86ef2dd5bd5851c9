//! The service layer's data model and its verified core: remote-sync
//! configuration, and the packet-observation sink that the network
//! services share with the display path. The services' socket loops run
//! above this crate; each of their decisions that touches shared state
//! goes through the functions here.

use vstd::prelude::*;
use std::collections::HashMap;
use vstd::slice::slice_to_vec;
use crate::ring::{BoundedRing, ring_push_spec};

verus! {

/// Configuration for the (stubbed) remote sync: peer addresses, an
/// optional auth token, and custom header names and values. Pure data;
/// the core attaches no behavior to it.
pub struct RemoteConfig {
    pub servers: Vec<String>,
    pub auth_token: Option<String>,
    pub custom_headers: HashMap<String, String>,
}

impl Default for RemoteConfig {
    fn default() -> (r: RemoteConfig)
        ensures
            r.servers@.len() == 1,
            r.servers@[0]@ == "127.0.0.1:8080"@,
            r.auth_token is None,
    {
        let mut servers: Vec<String> = Vec::new();
        let addr: &str = "127.0.0.1:8080";
        servers.push(addr.to_owned());
        RemoteConfig { servers, auth_token: None, custom_headers: HashMap::new() }
    }
}

/// A client of the remote sync. Connecting and transfer live above the
/// core; only the configuration is held here.
pub struct RemoteClient {
    pub config: RemoteConfig,
}

impl RemoteClient {
    /// Replaces the client's configuration wholesale.
    pub fn set_config(&mut self, config: RemoteConfig)
        ensures
            final(self).config == config,
    {
        self.config = config;
    }
}

/// The remote sync's serving side; a placeholder with no state.
pub struct RemoteServer;

/// How many observed chunks the service-layer packet log retains.
pub const PACKET_LOG_CAPACITY: usize = 1000;

/// An empty packet log of the service layer's capacity.
pub fn new_packet_log() -> (r: BoundedRing<Vec<u8>>)
    ensures
        r@ == Seq::<Vec<u8>>::empty(),
        r.cap() == PACKET_LOG_CAPACITY,
{
    BoundedRing::new(PACKET_LOG_CAPACITY)
}

/// The demonstration network services: a transparent echo proxy, a
/// reverse proxy and a static DNS responder. Their socket loops run
/// outside the core; the per-chunk decisions stand here. The reverse
/// proxy and the DNS responder accept the observation sink but leave
/// it unwired: their relayed and answered bytes never reach the log.
pub struct ExampleServers;

impl ExampleServers {
    /// What the transparent proxy does with one chunk read from a
    /// connection: the chunk goes to the shared observation sink, with
    /// the log's ring discipline, and the reply sent back to the peer
    /// is the chunk itself (demonstration echo semantics).
    pub fn handle_proxy_chunk(log: &mut BoundedRing<Vec<u8>>, chunk: &[u8]) -> (reply: Vec<u8>)
        ensures
            final(log)@ == ring_push_spec(old(log)@, old(log).cap(), final(log)@.last()),
            final(log)@.last()@ == chunk@,
            final(log).cap() == old(log).cap(),
            final(log)@.len() <= final(log).cap(),
            reply@ == chunk@,
    {
        let stored = slice_to_vec(chunk);
        let reply = slice_to_vec(chunk);
        log.push(stored);
        reply
    }

}

} // verus!
