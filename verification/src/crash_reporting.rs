//! Crash reporting. This build reports no crashes: every entry point is a
//! no-op that succeeds.

use std::borrow::Cow;

use vstd::prelude::*;

verus! {

/// Would serve minidumps on `_socket_path`; this build has no server and succeeds at once.
pub fn run_minidump_server(_socket_path: &str) -> (r: Result<(), anyhow::Error>)
    ensures
        r is Ok,
{
    Ok(())
}

/// Would attach a tag to crash reports.
pub fn set_tag<'a, 'b>(_key: impl Into<Cow<'a, str>>, _value: impl Into<Cow<'b, str>>) {
}

/// Would shut down the crash reporter.
pub fn uninit_sentry() {
}

/// Would start the native crash reporter on macOS.
pub fn init_cocoa_sentry() {
}

/// Would shut down the native crash reporter on macOS.
pub fn uninit_cocoa_sentry() {
}

/// Would crash the app on purpose, to test crash reporting.
pub fn crash() {
}

/// Would tag crash reports with the kind of client.
pub fn set_client_type_tag(_client_id: &str) {
}

} // verus!
