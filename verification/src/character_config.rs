//! The character service's runtime configuration, as read from its
//! environment at startup.

use vstd::prelude::*;

verus! {

/// Where the character service finds its database and which port it serves.
#[derive(Clone, Debug)]
pub struct Config {
    pub database_url: String,
    pub port: u16,
}

impl Config {
    /// A configuration from its two settings, held as given.
    pub fn new(database_url: String, port: u16) -> (c: Config)
        ensures
            c.database_url@ == database_url@,
            c.port == port,
    {
        Config { database_url, port }
    }
}

} // verus!
