use workingcopy::cli::MainCommand;
use workingcopy::cli::Subcommand;
use workingcopy::cli::TopLevelSubcommand;
use workingcopy::clone_cmd::aliases;
use workingcopy::clone_cmd::clone_type;
use workingcopy::clone_cmd::convert_to_remote;
use workingcopy::clone_cmd::doc;
use workingcopy::clone_cmd::force_rust_requested;
use workingcopy::clone_cmd::has_segmented_changelog;
use workingcopy::clone_cmd::needs_python_fallback;
use workingcopy::clone_cmd::repo_config_file_content;
use workingcopy::clone_cmd::revlog_clone_args;
use workingcopy::clone_cmd::scheme_supported;
use workingcopy::clone_cmd::synopsis;
use workingcopy::clone_cmd::update_target;
use workingcopy::clone_cmd::validate_eden_options;
use workingcopy::healer::healing_should_stop;
use workingcopy::healer::validate_healer_args;
use workingcopy::manifest::HgId;

fn main_command(sc: TopLevelSubcommand) -> MainCommand {
    MainCommand {
        config_dir: None,
        etc_eden_dir: None,
        home_dir: None,
        checkout_dir: None,
        debug: false,
        subcommand: sc,
    }
}

#[test]
fn etc_eden_dir_defaults() {
    let cmd = main_command(TopLevelSubcommand::Status);
    assert_eq!(cmd.get_etc_eden_dir(), "/etc/eden");
    let mut given = main_command(TopLevelSubcommand::Status);
    given.etc_eden_dir = Some("/opt/eden".to_string());
    assert_eq!(given.get_etc_eden_dir(), "/opt/eden");
}

#[test]
fn rollout_gating_decides_enablement() {
    let status = main_command(TopLevelSubcommand::Status);
    assert!(status.is_enabled(None));
    assert!(!status.is_enabled(Some(false)));

    let redirect = main_command(TopLevelSubcommand::Redirect);
    assert!(!redirect.is_enabled(None));
    assert!(redirect.is_enabled(Some(true)));
}

#[test]
fn subcommand_names() {
    assert_eq!(TopLevelSubcommand::Status.name(), "status");
    assert_eq!(TopLevelSubcommand::Redirect.name(), "redirect");
    assert_eq!(TopLevelSubcommand::PrefetchProfile.name(), "prefetch-profile");
}

#[test]
fn clone_command_surface() {
    assert_eq!(aliases(), "clone");
    assert!(doc().starts_with("make a copy of an existing repository"));
    assert_eq!(synopsis(), Some("[OPTION]... SOURCE [DEST]"));
}

#[test]
fn eden_option_conflicts() {
    assert!(validate_eden_options(false, false, false, false).is_ok());
    assert_eq!(
        validate_eden_options(false, true, false, false),
        Err("--eden-backing-repo requires --eden")
    );
    assert_eq!(
        validate_eden_options(true, false, true, false),
        Err("--enable-profile is not compatible with --eden")
    );
    assert_eq!(
        validate_eden_options(true, false, false, true),
        Err("--noupdate is not compatible with --eden")
    );
}

#[test]
fn scheme_support_and_fallback() {
    assert!(scheme_supported(Some("https")));
    assert!(!scheme_supported(Some("file")));
    assert!(!scheme_supported(Some("ssh")));
    assert!(!scheme_supported(None));

    assert!(!needs_python_fallback(false, false, false, false, true, false, true));
    assert!(needs_python_fallback(true, false, false, false, true, false, true));
    assert!(needs_python_fallback(false, false, false, false, false, false, true));
    assert!(needs_python_fallback(false, false, false, false, true, false, false));
}

#[test]
fn clone_type_names() {
    assert_eq!(clone_type(true, false), "eden_fs");
    assert_eq!(clone_type(false, true), "sparse");
    assert_eq!(clone_type(false, false), "full");
}

#[test]
fn capability_and_force_rust_lookups() {
    let caps = vec!["lazy-trees".to_string(), "segmented-changelog".to_string()];
    assert!(has_segmented_changelog(&caps));
    assert!(!has_segmented_changelog(&vec!["other".to_string()]));

    assert!(force_rust_requested(&vec!["status".to_string(), "clone".to_string()]));
    assert!(!force_rust_requested(&vec!["status".to_string()]));
}

#[test]
fn repo_config_content_is_exact() {
    let files = vec!["/etc/a.rc".to_string(), "/etc/b.rc".to_string()];
    let text = repo_config_file_content(&files, "https://example.com/repo");
    assert_eq!(
        text,
        "%include /etc/a.rc\n%include /etc/b.rc\n\n[paths]\ndefault = https://example.com/repo\n"
    );
}

#[test]
fn revlog_arguments_are_exact() {
    let args = revlog_clone_args(
        "https://example.com/repo",
        "/tmp/dest",
        &vec!["ui.ssh=x".to_string()],
        true,
        false,
        true,
    );
    assert_eq!(
        args,
        vec![
            "hg".to_string(),
            "debugrevlogclone".to_string(),
            "https://example.com/repo".to_string(),
            "-R".to_string(),
            "/tmp/dest".to_string(),
            "--config".to_string(),
            "ui.ssh=x".to_string(),
            "-q".to_string(),
            "--debug".to_string(),
        ]
    );
}

#[test]
fn update_target_decisions() {
    let bookmarks = vec!["main".to_string()];
    let remote = vec![("remote/main".to_string(), HgId { id: 77 })];

    assert_eq!(convert_to_remote("main"), "remote/main");
    assert!(update_target(true, &bookmarks, &remote).unwrap().is_none());

    let picked = update_target(false, &bookmarks, &remote).unwrap().unwrap();
    assert_eq!(picked.0, HgId { id: 77 });
    assert_eq!(picked.1, "main");

    let missing = update_target(false, &bookmarks, &vec![]).unwrap();
    assert!(missing.is_none());

    let err = update_target(false, &vec![], &remote).unwrap_err();
    assert_eq!(err.message, "remotenames.selectivepulldefault config list is empty");
}

#[test]
fn healer_decisions() {
    assert!(!healing_should_stop(5, None));
    assert!(!healing_should_stop(5, Some(5)));
    assert!(healing_should_stop(6, Some(5)));

    assert!(validate_healer_args(false, false).is_ok());
    assert!(validate_healer_args(true, true).is_ok());
    assert_eq!(
        validate_healer_args(true, false),
        Err("Missing --blobstore-key-like restriction for --drain-only")
    );
}
