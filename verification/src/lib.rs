//! Request redirection logic for an Unreal Engine HTTP client, with the
//! pattern scanning, PE header walking and URL rewriting it relies on.

pub mod hooks;
pub mod opts;
pub mod patchfinder;
pub mod pe;
pub mod redirection;
pub mod unreal;
pub mod url;
