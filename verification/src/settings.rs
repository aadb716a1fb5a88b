//! Process configuration as plain values. Loading the values from
//! configuration files is the application's job; the library only defines
//! the shape it consumes.

use vstd::prelude::*;

verus! {

/// Configuration the server needs before it can accept traffic: where the
/// store lives and which port to listen on.
pub struct Settings {
    pub db_uri: String,
    pub server_port: u16,
}

impl Settings {
    /// Packs the two configuration values; the caller has already read them
    /// from whatever source it uses.
    pub fn new(db_uri: String, server_port: u16) -> (s: Settings)
        ensures
            s.db_uri@ == db_uri@,
            s.server_port == server_port,
    {
        Settings { db_uri, server_port }
    }
}

} // verus!
