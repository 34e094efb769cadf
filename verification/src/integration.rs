//! Desktop integration switches that this platform either lacks or leaves to
//! the operating system.

use vstd::prelude::*;
use vstd::string::*;

verus! {

/// Why a desktop integration request was refused.
#[derive(Debug, Clone, Copy, PartialEq, Eq, Structural)]
pub enum IntegrationError {
    /// No file-manager entry exists on this platform.
    FileManagerEntryUnavailable,
    /// Notification delivery is a System Settings switch.
    NotificationsSetBySystem,
}

/// The sentence each refusal is reported with.
pub open spec fn integration_error_message(e: IntegrationError) -> Seq<char> {
    match e {
        IntegrationError::FileManagerEntryUnavailable =>
            "a file-manager entry is not available on this platform"@,
        IntegrationError::NotificationsSetBySystem =>
            "notification delivery is set in System Settings, not by this application"@,
    }
}

impl IntegrationError {
    /// The sentence this refusal is reported with.
    pub fn message(&self) -> (r: String)
        ensures
            r@ == integration_error_message(*self),
    {
        match self {
            IntegrationError::FileManagerEntryUnavailable => String::from_str(
                "a file-manager entry is not available on this platform",
            ),
            IntegrationError::NotificationsSetBySystem => String::from_str(
                "notification delivery is set in System Settings, not by this application",
            ),
        }
    }
}

/// Register the file-manager entry that opens a directory in this terminal.
///
/// A file manager on this platform is reached through its own mechanism, and
/// none has been implemented, so the request is always refused.
pub fn register_shell_integration() -> (r: Result<(), IntegrationError>)
    ensures
        r == Err::<(), IntegrationError>(IntegrationError::FileManagerEntryUnavailable),
{
    Err(IntegrationError::FileManagerEntryUnavailable)
}

/// Remove the file-manager entry; refused for the same reason.
pub fn unregister_shell_integration() -> (r: Result<(), IntegrationError>)
    ensures
        r == Err::<(), IntegrationError>(IntegrationError::FileManagerEntryUnavailable),
{
    Err(IntegrationError::FileManagerEntryUnavailable)
}

/// Whether the file-manager entry is registered: never, on this platform.
pub fn is_shell_integration_registered() -> (r: bool)
    ensures
        !r,
{
    false
}

/// Whether a registered entry belongs to another build: never, since none is
/// registered.
pub fn shell_integration_dll_mismatched() -> (r: bool)
    ensures
        !r,
{
    false
}

/// Whether the operating system will deliver this application's
/// notifications. The application always asks; a denial is honoured by the
/// notification centre itself.
pub fn system_notification_enabled() -> (r: bool)
    ensures
        r,
{
    true
}

/// Turn notification delivery on or off: refused, the switch is the
/// user's in System Settings.
pub fn set_system_notification_enabled(enabled: bool) -> (r: Result<(), IntegrationError>)
    ensures
        r == Err::<(), IntegrationError>(IntegrationError::NotificationsSetBySystem),
{
    Err(IntegrationError::NotificationsSetBySystem)
}

} // verus!
