//! Verified core of the Surmount edge and its Namecheap DNS-01 helpers.

pub mod acme;
pub mod console;
pub mod ip;
pub mod proxy_vaultwarden;
pub mod rate_limit;
pub mod redirect;
pub mod text;
pub mod tls;
