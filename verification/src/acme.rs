//! Namecheap DNS-01 ACME helpers: credentials, the challenge hook and its
//! zone dispatcher, the lab hook and the laptop renew planner. Never logs
//! the ApiKey.

pub mod cred;
pub mod zone;
pub mod hook;
pub mod dispatch;
pub mod lab;
pub mod laptop;
