//! Site settings shared by the library and the server around it.
use vstd::prelude::*;

verus! {

/// Site settings; the two secrets key invite tokens and password hashes.
pub struct Config {
    pub server_addr: String,
    pub database_path: String,
    pub site_root: String,
    pub base_url: String,
    pub cookie_path: String,
    pub site_title: String,
    pub secret_invite: String,
    pub secret_passwd: String,
}

} // verus!
