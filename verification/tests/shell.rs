use nmt_platform::shell::{
    default_shell, prompt_integration, prompt_integration_args, shell_name, staging_file_name,
    supports_prompt_integration, user_zdotdir, wants_zsh_integration, zsh_startup_files,
};

fn session() -> Option<String> {
    Some(String::from("/bin/zsh"))
}

const INTEGRATION_DIR: &str = "/home/user/.local/share/nmt/shell-integration/zsh";

fn zsh_integration_dir() -> Option<String> {
    Some(String::from(INTEGRATION_DIR))
}

#[test]
fn a_configured_shell_is_identified_by_its_file_name() {
    assert_eq!(shell_name(Some("/bin/zsh"), session()).as_deref(), Some("zsh"));
    assert_eq!(
        shell_name(Some("  /opt/bin/bash  "), session()).as_deref(),
        Some("bash")
    );
    assert_eq!(shell_name(Some("fish"), session()).as_deref(), Some("fish"));
}

/// An empty or absent shell means "whatever the user's login shell is", which
/// only the default resolution can answer.
#[test]
fn a_blank_shell_falls_back_to_the_default() {
    assert_eq!(shell_name(Some(""), session()), shell_name(None, session()));
    assert_eq!(shell_name(Some("   "), session()), shell_name(None, session()));
}

/// Only zsh has an integration; every other shell must be told so rather than
/// launched with startup files that would not load.
#[test]
fn only_zsh_reports_an_integration() {
    assert!(prompt_integration(Some("/bin/bash"), session(), zsh_integration_dir(), None, None).is_none());
    assert!(
        prompt_integration(Some("/usr/local/bin/fish"), session(), zsh_integration_dir(), None, None)
            .is_none()
    );
    assert!(prompt_integration(Some("/bin/sh"), session(), zsh_integration_dir(), None, None).is_none());
}

/// zsh is reached through the environment, not through arguments.
#[test]
fn zsh_is_integrated_through_zdotdir_alone() {
    let integration = prompt_integration(
        Some("/bin/zsh"),
        session(),
        zsh_integration_dir(),
        None,
        Some(String::from("/home/user")),
    )
    .expect("zsh is integrated");

    assert!(integration.args.is_empty());

    let names: Vec<&str> = integration
        .environment
        .iter()
        .map(|(name, _)| name.as_str())
        .collect();
    assert_eq!(names, ["ZDOTDIR", "NMT_ZDOTDIR", "NMT_USER_ZDOTDIR"]);

    let zdotdir = &integration.environment[0].1;
    assert_eq!(zdotdir, &integration.environment[1].1);
    assert_ne!(zdotdir, &integration.environment[2].1);
}

#[test]
fn default_shell_prefers_the_session_shell() {
    assert_eq!(default_shell(Some(String::from("/usr/bin/fish"))), "/usr/bin/fish");
    assert_eq!(default_shell(Some(String::new())), "/bin/sh");
    assert_eq!(default_shell(None), "/bin/sh");
}

#[test]
fn a_blank_configuration_resolves_through_the_session_shell() {
    assert_eq!(shell_name(Some(" \t "), Some(String::from("/usr/bin/fish"))).as_deref(), Some("fish"));
    assert_eq!(shell_name(None, None).as_deref(), Some("sh"));
    assert_eq!(shell_name(None, Some(String::new())).as_deref(), Some("sh"));
}

#[test]
fn trimming_removes_unicode_whitespace() {
    assert_eq!(shell_name(Some("\u{3000}/bin/zsh\u{a0}\n"), None).as_deref(), Some("zsh"));
    assert_eq!(shell_name(Some("\u{2003}"), Some(String::from("/bin/dash"))).as_deref(), Some("dash"));
}

#[test]
fn shell_names_follow_path_components() {
    assert_eq!(shell_name(Some("/usr/bin/zsh/"), None).as_deref(), Some("zsh"));
    assert_eq!(shell_name(Some("/usr/bin/zsh/."), None).as_deref(), Some("zsh"));
    assert_eq!(shell_name(Some("/usr/bin/.."), None), None);
    assert_eq!(shell_name(Some("/"), None), None);
    assert_eq!(shell_name(Some("."), None), None);
    assert_eq!(shell_name(Some("./"), None), None);
    assert_eq!(shell_name(Some("./..."), None).as_deref(), Some("..."));
    assert_eq!(shell_name(Some("a/./."), None).as_deref(), Some("a"));
}

#[test]
fn the_integration_needs_an_installed_directory() {
    assert!(prompt_integration(Some("/bin/zsh"), session(), None, None, None).is_none());
    assert!(wants_zsh_integration(Some("zsh"), None));
    assert!(wants_zsh_integration(None, session()));
    assert!(!wants_zsh_integration(None, None));
    assert!(!wants_zsh_integration(Some("/bin/zsh5"), None));
}

#[test]
fn the_users_zdotdir_is_never_the_integration_directory() {
    let home = Some(String::from("/home/user"));
    assert_eq!(
        user_zdotdir(Some(String::from("/home/user/.config/zsh")), home.clone(), INTEGRATION_DIR),
        "/home/user/.config/zsh"
    );
    assert_eq!(
        user_zdotdir(Some(String::from(INTEGRATION_DIR)), home.clone(), INTEGRATION_DIR),
        "/home/user"
    );
    assert_eq!(user_zdotdir(Some(String::new()), home, INTEGRATION_DIR), "/home/user");
    assert_eq!(user_zdotdir(None, None, INTEGRATION_DIR), "");
}

#[test]
fn an_inherited_zdotdir_is_forwarded() {
    let integration = prompt_integration(
        Some("zsh"),
        None,
        zsh_integration_dir(),
        Some(String::from("/home/user/dots")),
        Some(String::from("/home/user")),
    )
    .expect("zsh is integrated");
    assert_eq!(integration.environment[0].1, INTEGRATION_DIR);
    assert_eq!(integration.environment[2].1, "/home/user/dots");
}

#[test]
fn no_shell_takes_the_integration_through_arguments() {
    assert!(!supports_prompt_integration(Some("/bin/zsh")));
    assert!(!supports_prompt_integration(None));
    assert!(prompt_integration_args().is_empty());
}

#[test]
fn the_startup_series_is_complete() {
    assert_eq!(
        zsh_startup_files(),
        [".zshenv", ".zprofile", ".zshrc", "nmt-integration.zsh"]
    );
}

#[test]
fn staging_files_are_named_by_process_and_counter() {
    assert_eq!(staging_file_name(".zshrc", 4242, 0), ".zshrc.4242-0.staging");
    assert_eq!(
        staging_file_name("nmt-integration.zsh", u32::MAX, u64::MAX),
        "nmt-integration.zsh.4294967295-18446744073709551615.staging"
    );
    assert_ne!(staging_file_name(".zshrc", 1, 23), staging_file_name(".zshrc", 12, 3));
}
