use vstd::prelude::*;

verus! {

/// Which requests are rewritten to the backend.
#[derive(Clone, Copy, PartialEq, Eq, Structural)]
pub enum UrlSet {
    /// Epic's domains, the normal private server setup.
    Default,
    /// Only profile, version and content paths.
    Hybrid,
    /// Only profile and content paths.
    Dev,
    /// Every request.
    All,
}

/// The backend that matching requests are sent to.
pub const BACKEND: &'static str = "http://127.0.0.1:3551";

/// The redirection mode.
pub const URL_SET: UrlSet = UrlSet::All;

/// Whether a console window is created.
pub const CONSOLE: bool = true;

/// Whether every URL and rewrite is logged.
pub const LOG_REQUESTS: bool = true;

/// Whether the exit functions are patched once the EOS SDK is loaded.
pub const B_HAS_PUSH_WIDGET: bool = false;

/// Whether the backend is read from `-backend=` on the command line.
pub const B_USE_ARG_PARAMS: bool = false;

/// Whether initialisation runs inline rather than on a new thread.
pub const B_MANUAL_MAPPING: bool = false;

/// RVA of the `ProcessRequest` vtable slot of the known build (0 = always scan).
pub const PROCESS_REQUEST_VTABLE_RVA: u64 = 0x0A793690;

/// `SetURL` vtable index (0 = detect at runtime).
pub const SET_URL_INDEX: i64 = 0;

} // verus!
