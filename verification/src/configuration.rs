//! The application configuration.

use crate::store::Store;
use vstd::prelude::*;

verus! {

/// The application configuration.
#[derive(Clone, Debug)]
pub struct Configuration {
    /// Server related configurations.
    server: Server,
    /// Session related configurations.
    session: SessionSettings,
    /// Redis connection information.
    redis: Redis,
}

/// Server related configurations.
#[derive(Clone, Debug)]
struct Server {
    /// The bind string.
    bind: String,
}

/// Session related configurations.
#[derive(Clone, Debug)]
pub struct SessionSettings {
    /// The secret used to protect cookies.
    pub secret: String,
    /// Whether the cookie should be secure.
    pub secure: bool,
    /// The name of the cookie
    pub name: String,
}

/// Redis connection information.
#[derive(Clone, Debug)]
struct Redis {
    /// The connection information.
    connection_string: String,
    /// The TTL for records, in milliseconds.
    ttl: u64,
}

/// What a configuration holds.
pub struct ConfigurationView {
    /// The bind string.
    pub bind: Seq<char>,
    /// The secret used to protect cookies.
    pub secret: Seq<char>,
    /// Whether the cookie should be secure.
    pub secure: bool,
    /// The name of the cookie
    pub name: Seq<char>,
    /// The connection information.
    pub connection_string: Seq<char>,
    /// The TTL for records, in milliseconds.
    pub ttl: u64,
}

impl View for Configuration {
    type V = ConfigurationView;

    closed spec fn view(&self) -> ConfigurationView {
        ConfigurationView {
            bind: self.server.bind@,
            secret: self.session.secret@,
            secure: self.session.secure,
            name: self.session.name@,
            connection_string: self.redis.connection_string@,
            ttl: self.redis.ttl,
        }
    }
}

impl Configuration {
    /// Puts a configuration together.
    ///
    /// # Arguments
    /// *  `bind` - The bind string to which to listen.
    /// *  `session` - The description of the cookie session.
    /// *  `connection_string` - Where the key-value service is found.
    /// *  `ttl` - The time-to-live for records, in milliseconds.
    pub fn new(
        bind: String,
        session: SessionSettings,
        connection_string: String,
        ttl: u64,
    ) -> (r: Self)
        ensures
            r@ == (ConfigurationView {
                bind: bind@,
                secret: session.secret@,
                secure: session.secure,
                name: session.name@,
                connection_string: connection_string@,
                ttl,
            }),
    {
        Configuration {
            server: Server { bind },
            session,
            redis: Redis { connection_string, ttl },
        }
    }

    /// The bind string to which to listen.
    pub fn server_bind(&self) -> (r: String)
        ensures
            r@ == self@.bind,
    {
        self.server.bind.clone()
    }

    /// A cookie session description.
    pub fn session(&self) -> (r: SessionSettings)
        ensures
            r.secret@ == self@.secret,
            r.secure == self@.secure,
            r.name@ == self@.name,
    {
        SessionSettings {
            secret: self.session.secret.clone(),
            secure: self.session.secure,
            name: self.session.name.clone(),
        }
    }

    /// A store for values.
    pub fn store(&self) -> (r: Store)
        ensures
            r.spec_connection_info() == self@.connection_string,
            r.spec_ttl() == self@.ttl,
    {
        Store::new(self.redis.connection_string.clone(), self.redis.ttl)
    }
}

} // verus!
