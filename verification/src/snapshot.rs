//! Still-image capture planning.
//!
//! A snapshot request is served one of two ways.  While a broadcast
//! session is active, a transient sink is registered under a synthesized
//! key and a transcoding process turns the tapped access units into one
//! still frame — a JPEG.  While idle, a dedicated one-shot still capture
//! runs instead and yields the camera's raw still format, a BMP.  The
//! processes and pipes are the caller's side effects; this module
//! decides the path, the key, the media type, and how the outcome of the
//! spawned process is classified.

use vstd::prelude::*;
use vstd::string::StringExecFns;

verus! {

/// How a snapshot is produced.
#[derive(Clone, Copy, PartialEq, Eq, Structural, Debug)]
pub enum CapturePath {
    /// Tap the live broadcast session through a transient sink feeding a
    /// transcoding process.
    LiveTap,
    /// Run a dedicated one-shot still capture.
    OneShot,
}

/// Why a snapshot attempt failed.
#[derive(Clone, Copy, PartialEq, Eq, Structural, Debug)]
pub enum CaptureError {
    /// The capture or transcoding process could not be started.
    SpawnFailed,
    /// The spawned process's input pipe could not be obtained.
    NoInputPipe,
    /// The spawned process exited abnormally.
    AbnormalExit,
    /// The spawned process exited without producing any output.
    EmptyOutput,
}

/// The path a snapshot takes: tap the live session exactly when one is
/// active, otherwise capture directly.
pub fn capture_path(session_active: bool) -> (r: CapturePath)
    ensures
        r == (if session_active {
            CapturePath::LiveTap
        } else {
            CapturePath::OneShot
        }),
{
    if session_active {
        CapturePath::LiveTap
    } else {
        CapturePath::OneShot
    }
}

/// The media type each path yields: the transcoder emits JPEG, the
/// one-shot capture the camera's BMP stills.
pub fn mime_type(path: CapturePath) -> (m: String)
    ensures
        path == CapturePath::LiveTap ==> m@ == "image/jpeg"@,
        path == CapturePath::OneShot ==> m@ == "image/bmp"@,
{
    match path {
        CapturePath::LiveTap => String::from_str("image/jpeg"),
        CapturePath::OneShot => String::from_str("image/bmp"),
    }
}

/// The registry key a snapshot requester's transient sink is registered
/// under, derived from the requester's identity.
pub fn snapshot_key(requester: &str) -> (k: String)
    ensures
        k@ == "[snapshot "@ + requester@ + "]"@,
{
    let k = String::from_str("[snapshot ").concat(requester).concat("]");
    proof {
        assert(k@ =~= "[snapshot "@ + requester@ + "]"@);
    }
    k
}

/// Classify the outcome of the spawned snapshot process.  The output
/// bytes come through exactly when the process started, its input pipe
/// was obtained, it exited normally and it produced output; each failure
/// is reported as the first condition that did not hold.
pub fn check_capture(spawned: bool, pipe_ok: bool, exit_ok: bool, output: Vec<u8>) -> (r: Result<
    Vec<u8>,
    CaptureError,
>)
    ensures
        !spawned ==> r == Err::<Vec<u8>, CaptureError>(CaptureError::SpawnFailed),
        spawned && !pipe_ok ==> r == Err::<Vec<u8>, CaptureError>(CaptureError::NoInputPipe),
        spawned && pipe_ok && !exit_ok ==> r == Err::<Vec<u8>, CaptureError>(
            CaptureError::AbnormalExit,
        ),
        spawned && pipe_ok && exit_ok && output@.len() == 0 ==> r == Err::<Vec<u8>, CaptureError>(
            CaptureError::EmptyOutput,
        ),
        spawned && pipe_ok && exit_ok && output@.len() > 0 ==> (r matches Ok(b) && b@ == output@),
        r is Ok <==> (spawned && pipe_ok && exit_ok && output@.len() > 0),
{
    if !spawned {
        Err(CaptureError::SpawnFailed)
    } else if !pipe_ok {
        Err(CaptureError::NoInputPipe)
    } else if !exit_ok {
        Err(CaptureError::AbnormalExit)
    } else if output.len() == 0 {
        Err(CaptureError::EmptyOutput)
    } else {
        Ok(output)
    }
}

} // verus!
