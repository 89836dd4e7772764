//! The game client's runtime configuration: where its supporting services
//! live, as read from its environment at startup.

use vstd::prelude::*;

verus! {

/// The addresses of the authentication and character services, the database
/// the client-side tools reach, and the port to listen on.
#[derive(Clone, Debug)]
pub struct Config {
    pub auth_service: String,
    pub character_service: String,
    pub database_url: String,
    pub port: u16,
}

impl Config {
    /// A configuration from its settings, held as given.
    pub fn new(auth_service: String, character_service: String, database_url: String, port: u16)
        -> (c: Config)
        ensures
            c.auth_service@ == auth_service@,
            c.character_service@ == character_service@,
            c.database_url@ == database_url@,
            c.port == port,
    {
        Config { auth_service, character_service, database_url, port }
    }
}

} // verus!
