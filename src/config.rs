//! Configuration of the trace server.

use vstd::prelude::*;
use std::collections::HashMap;

verus! {

broadcast use vstd::std_specs::hash::group_hash_axioms;

/// Options of the trace server: whether it runs, where it listens, and
/// where transactions are read from (a local store, or a remote endpoint
/// per chain id), and where modules are compiled.
#[derive(Debug)]
pub struct DebuggerServerConfig {
    /// Whether to disable the server.
    pub disable: bool,
    /// Address to listen on, e.g. localhost or 0.0.0.0.
    pub listen_address: String,
    /// Port to listen on.
    pub listen_port: u16,
    /// Path of the local store.
    pub db_path: String,
    /// Remote endpoint for each chain id.
    pub rest_endpoint_map: HashMap<u16, String>,
    /// Whether to read from the local store rather than a remote endpoint.
    pub use_db: bool,
    /// Endpoint of the compilation service.
    pub sentio_endpoint: String,
}

impl DebuggerServerConfig {
    /// The configuration with every option at its default.
    pub fn default() -> (r: Self)
        ensures
            !r.disable,
            r.listen_address@ == Self::default_listen_address_spec(),
            r.listen_port == 9201,
            r.db_path@.len() == 0,
            r.rest_endpoint_map@.dom() == set![1u16, 2001u16],
            r.rest_endpoint_map@[1u16]@ == Self::mainnet_endpoint_spec(),
            r.rest_endpoint_map@[2001u16]@ == Self::testnet_endpoint_spec(),
            !r.use_db,
            r.sentio_endpoint@ == Self::default_sentio_endpoint_spec(),
    {
        DebuggerServerConfig {
            disable: Self::default_disable(),
            listen_address: Self::default_listen_address(),
            listen_port: Self::default_listen_port(),
            db_path: Self::default_db_path(),
            rest_endpoint_map: Self::default_rest_endpoint_map(),
            use_db: Self::default_use_db(),
            sentio_endpoint: Self::default_sentio_endpoint(),
        }
    }

    pub fn set_db_path(&mut self, db_path: String)
        ensures
            *final(self) == (DebuggerServerConfig { db_path, ..*old(self) }),
    {
        self.db_path = db_path
    }

    pub fn set_rest_endpoints(&mut self, rest_endpoint_map: HashMap<u16, String>)
        ensures
            *final(self) == (DebuggerServerConfig { rest_endpoint_map, ..*old(self) }),
    {
        self.rest_endpoint_map = rest_endpoint_map
    }

    pub fn set_use_db(&mut self, use_db: bool)
        ensures
            *final(self) == (DebuggerServerConfig { use_db, ..*old(self) }),
    {
        self.use_db = use_db
    }

    pub fn set_sentio_endpoint(&mut self, sentio_endpoint: String)
        ensures
            *final(self) == (DebuggerServerConfig { sentio_endpoint, ..*old(self) }),
    {
        self.sentio_endpoint = sentio_endpoint
    }

    /// The endpoint to read chain `chain_id` from: the one configured for
    /// it, else the default endpoint.
    pub fn rest_endpoint_for(&self, chain_id: u16) -> (r: String)
        ensures
            self.rest_endpoint_map@.contains_key(chain_id) ==> r@
                == self.rest_endpoint_map@[chain_id]@,
            !self.rest_endpoint_map@.contains_key(chain_id) ==> r@
                == Self::mainnet_endpoint_spec(),
    {
        match self.rest_endpoint_map.get(&chain_id) {
            Some(endpoint) => endpoint.clone(),
            None => Self::default_rest_endpoint(),
        }
    }

    pub open spec fn default_listen_address_spec() -> Seq<char> {
        "0.0.0.0"@
    }

    pub open spec fn mainnet_endpoint_spec() -> Seq<char> {
        "https://fullnode.mainnet.aptoslabs.com/v1"@
    }

    pub open spec fn testnet_endpoint_spec() -> Seq<char> {
        "https://aptos.testnet.suzuka.movementlabs.xyz/v1"@
    }

    pub open spec fn default_sentio_endpoint_spec() -> Seq<char> {
        "https://test.sentio.xyz"@
    }

    fn default_disable() -> (r: bool)
        ensures
            !r,
    {
        false
    }

    fn default_listen_address() -> (r: String)
        ensures
            r@ == Self::default_listen_address_spec(),
    {
        String::from_str("0.0.0.0")
    }

    fn default_listen_port() -> (r: u16)
        ensures
            r == 9201,
    {
        9201
    }

    fn default_db_path() -> (r: String)
        ensures
            r@.len() == 0,
    {
        String::new()
    }

    fn default_rest_endpoint() -> (r: String)
        ensures
            r@ == Self::mainnet_endpoint_spec(),
    {
        String::from_str("https://fullnode.mainnet.aptoslabs.com/v1")
    }

    fn default_rest_endpoint_map() -> (r: HashMap<u16, String>)
        ensures
            r@.dom() == set![1u16, 2001u16],
            r@[1u16]@ == Self::mainnet_endpoint_spec(),
            r@[2001u16]@ == Self::testnet_endpoint_spec(),
    {
        let mut m: HashMap<u16, String> = HashMap::new();
        m.insert(1, Self::default_rest_endpoint());
        m.insert(2001, String::from_str("https://aptos.testnet.suzuka.movementlabs.xyz/v1"));
        assert(m@.dom() =~= set![1u16, 2001u16]);
        m
    }

    fn default_use_db() -> (r: bool)
        ensures
            !r,
    {
        false
    }

    fn default_sentio_endpoint() -> (r: String)
        ensures
            r@ == Self::default_sentio_endpoint_spec(),
    {
        String::from_str("https://test.sentio.xyz")
    }
}

} // verus!
