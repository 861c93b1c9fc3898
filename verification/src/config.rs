//! Process configuration as an explicit immutable value: the connection
//! string, the port, the signing secret and the token expiry, with the
//! defaults and number parsing the environment loader relies on.

use vstd::prelude::*;
use crate::numerals::{spec_all_digits, spec_dec_val, parse_u64_dec};

verus! {

/// Immutable process configuration, resolved once at startup.
#[derive(Debug, Clone)]
pub struct Config {
    pub database_url: String,
    pub server_port: u16,
    pub jwt_secret: String,
    pub jwt_expiration: u64,
}

/// Whether `b` is decimal text whose value is at most `bound`.
pub open spec fn spec_number_upto(b: Seq<u8>, bound: int) -> bool {
    spec_all_digits(b) && b.len() >= 1 && spec_dec_val(b) <= bound
}

impl Config {
    /// Resolves a configuration from the raw environment values: the port
    /// defaults to 3000 and the expiry to 86400 seconds when unset, and a
    /// present but non-numeric value refuses the configuration (the
    /// program fails fast at startup).
    pub fn resolve(
        database_url: String,
        server_port: Option<String>,
        jwt_secret: String,
        jwt_expiration: Option<String>,
    ) -> (r: Option<Config>)
        ensures
            r matches Some(c) ==> {
                &&& c.database_url == database_url
                &&& c.jwt_secret == jwt_secret
                &&& match server_port {
                    None => c.server_port == 3000,
                    Some(s) => spec_number_upto(vstd::utf8::encode_utf8(s@), 65535)
                        && c.server_port == spec_dec_val(vstd::utf8::encode_utf8(s@)),
                }
                &&& match jwt_expiration {
                    None => c.jwt_expiration == 86400,
                    Some(s) => spec_number_upto(vstd::utf8::encode_utf8(s@), u64::MAX as int)
                        && c.jwt_expiration == spec_dec_val(vstd::utf8::encode_utf8(s@)),
                }
            },
            r is None <==> ((server_port matches Some(s) && !spec_number_upto(
                vstd::utf8::encode_utf8(s@),
                65535,
            )) || (jwt_expiration matches Some(s) && !spec_number_upto(
                vstd::utf8::encode_utf8(s@),
                u64::MAX as int,
            ))),
    {
        let port: u16 = match &server_port {
            None => 3000,
            Some(s) => {
                let b = s.as_str().as_bytes_vec();
                match parse_u64_dec(b.as_slice()) {
                    Some(v) => {
                        if v <= 65535 {
                            v as u16
                        } else {
                            return None;
                        }
                    },
                    None => {
                        return None;
                    },
                }
            },
        };
        let expiration: u64 = match &jwt_expiration {
            None => 86400,
            Some(s) => {
                let b = s.as_str().as_bytes_vec();
                match parse_u64_dec(b.as_slice()) {
                    Some(v) => v,
                    None => {
                        return None;
                    },
                }
            },
        };
        Some(Config { database_url, server_port: port, jwt_secret, jwt_expiration: expiration })
    }
}

} // verus!
