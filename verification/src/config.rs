//! Process configuration: the backend address, the externally visible base
//! URL and the bind address/port. The values are environment-supplied with
//! defaults; reading the environment happens outside the library, which then
//! hands the raw values to `Config::resolve`.

use vstd::prelude::*;

verus! {

/// The configuration surface the service consumes.
#[derive(Clone)]
pub struct Config {
    pub redis_url: String,
    pub jpaste_public_url: String,
    pub jpaste_localhost_ip: String,
    pub jpaste_localhost_port: String,
}

/// The value a configuration field takes: the supplied one, or the default
/// where none was supplied.
pub open spec fn resolved(supplied: Option<String>, default: Seq<char>) -> Seq<char> {
    match supplied {
        Some(s) => s@,
        None => default,
    }
}

impl Config {
    /// Builds the configuration from the optionally supplied raw values,
    /// falling back to the default for each field that is absent.
    pub fn resolve(
        redis_url: Option<String>,
        public_url: Option<String>,
        localhost_ip: Option<String>,
        localhost_port: Option<String>,
    ) -> (c: Config)
        ensures
            c.redis_url@ == resolved(redis_url, "redis://127.0.0.1/"@),
            c.jpaste_public_url@ == resolved(public_url, "http://127.0.0.1"@),
            c.jpaste_localhost_ip@ == resolved(localhost_ip, "127.0.0.1"@),
            c.jpaste_localhost_port@ == resolved(localhost_port, "3030"@),
    {
        Config {
            redis_url: match redis_url {
                Some(s) => s,
                None => String::from_str("redis://127.0.0.1/"),
            },
            jpaste_public_url: match public_url {
                Some(s) => s,
                None => String::from_str("http://127.0.0.1"),
            },
            jpaste_localhost_ip: match localhost_ip {
                Some(s) => s,
                None => String::from_str("127.0.0.1"),
            },
            jpaste_localhost_port: match localhost_port {
                Some(s) => s,
                None => String::from_str("3030"),
            },
        }
    }
}

} // verus!
