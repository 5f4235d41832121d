//! Server configuration and its defaults. Paths are held as text.

use vstd::prelude::*;

verus! {

/// Where the TLS identity comes from.
pub struct Certificates {
    /// Path of the PKCS#12 identity bundle.
    pub identity_pfx: String,
    /// Passphrase of the bundle.
    pub pfx_passphrase: String,
}

/// Server settings; a missing entry falls back to its default.
pub struct Config {
    pub content_root: Option<String>,
    pub port: Option<u16>,
    pub host: Option<String>,
    pub debug: Option<String>,
    pub certs: Certificates,
}

impl Certificates {
    /// The bundle `localhost.pfx`, with an empty passphrase.
    pub fn default() -> (r: Self)
        ensures
            r.identity_pfx@ == "localhost.pfx"@,
            r.pfx_passphrase@ == Seq::<char>::empty(),
    {
        Self { identity_pfx: "localhost.pfx".to_owned(), pfx_passphrase: String::new() }
    }
}

impl Config {
    /// Content under `content-root`, listening on 0.0.0.0:1965, logging at `info`.
    pub fn default() -> (r: Self)
        ensures
            r.content_root is Some && r.content_root->0@ == "content-root"@,
            r.port == Some(1965u16),
            r.host is Some && r.host->0@ == "0.0.0.0"@,
            r.debug is Some && r.debug->0@ == "info"@,
            r.certs.identity_pfx@ == "localhost.pfx"@,
            r.certs.pfx_passphrase@ == Seq::<char>::empty(),
    {
        Self {
            content_root: Some("content-root".to_owned()),
            port: Some(1965),
            host: Some("0.0.0.0".to_owned()),
            certs: Certificates::default(),
            debug: Some("info".to_owned()),
        }
    }
}

} // verus!
