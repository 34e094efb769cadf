use nmt_platform::integration::{
    is_shell_integration_registered, register_shell_integration, set_system_notification_enabled,
    shell_integration_dll_mismatched, system_notification_enabled, unregister_shell_integration,
    IntegrationError,
};
use nmt_platform::updater::{refusal, start_precheck, StartError};

#[test]
fn file_manager_entries_are_refused() {
    assert_eq!(
        register_shell_integration(),
        Err(IntegrationError::FileManagerEntryUnavailable)
    );
    assert_eq!(
        unregister_shell_integration(),
        Err(IntegrationError::FileManagerEntryUnavailable)
    );
    assert!(!is_shell_integration_registered());
    assert!(!shell_integration_dll_mismatched());
    assert_eq!(
        IntegrationError::FileManagerEntryUnavailable.message(),
        "a file-manager entry is not available on this platform"
    );
}

#[test]
fn notifications_are_the_systems_switch() {
    assert!(system_notification_enabled());
    let refused = set_system_notification_enabled(false).unwrap_err();
    assert_eq!(refused, IntegrationError::NotificationsSetBySystem);
    assert_eq!(
        refused.message(),
        "notification delivery is set in System Settings, not by this application"
    );
    assert!(set_system_notification_enabled(true).is_err());
}

#[test]
fn the_updater_starts_only_on_the_main_thread_with_a_feed() {
    assert!(start_precheck(true, true).is_ok());
    assert!(matches!(start_precheck(false, true), Err(StartError::NotMainThread)));
    assert!(matches!(start_precheck(false, false), Err(StartError::NotMainThread)));
    assert!(matches!(start_precheck(true, false), Err(StartError::NoFeedConfigured)));
}

#[test]
fn start_failures_read_as_sentences() {
    assert_eq!(
        StartError::NotMainThread.message(),
        "the updater can only start on the main thread"
    );
    assert_eq!(StartError::NoFeedConfigured.message(), "this build names no update feed");
    assert_eq!(
        StartError::InitFailed("SPUUpdater").message(),
        "SPUUpdater could not be created"
    );
    assert_eq!(
        refusal(Some(String::from("the feed is unreachable"))).message(),
        "Sparkle did not start: the feed is unreachable"
    );
    assert_eq!(refusal(None).message(), "Sparkle did not start: no reason given");
}

#[test]
fn only_a_missing_feed_is_expected() {
    assert!(StartError::NoFeedConfigured.is_expected());
    assert!(!StartError::NotMainThread.is_expected());
    assert!(!refusal(None).is_expected());
    assert!(!StartError::InitFailed("SPUUpdater").is_expected());
}
