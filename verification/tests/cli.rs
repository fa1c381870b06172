use bugsee_cli::cli::{log_path, should_daemonize, usage_code, Cli, Command};
use bugsee_cli::debug_files::{DebugFileType, DebugFilesCommand};
use bugsee_cli::exit_code::ExitCode;
use bugsee_cli::paths::{file_name, parent, parse_path};
use bugsee_cli::vcs_metadata::VcsMetadataArgs;
use bugsee_cli::xcode::{PostActionOverrides, XcodeCommand};

/// The command line of a few words, taken apart by hand.
fn parse(args: &[&str]) -> Cli {
    assert_eq!(args[0], "bugsee-cli");
    let value = |flag: &str| {
        let at = args.iter().position(|a| *a == flag)?;
        Some(args[at + 1].to_string())
    };
    let command = match args[1] {
        "xcode" => {
            assert_eq!(args[2], "post-action");
            Command::Xcode(XcodeCommand::PostAction {
                force_foreground: args.contains(&"--force-foreground"),
                overrides: PostActionOverrides::default(),
            })
        }
        "debug-files" => {
            assert_eq!(args[2], "upload");
            assert_eq!(value("--type").as_deref(), Some("dsym"));
            Command::DebugFiles(DebugFilesCommand::Upload {
                paths: vec![args[args.len() - 1].to_string()],
                kind: Some(DebugFileType::Dsym),
                version: value("--version").unwrap(),
                build: value("--build").unwrap(),
                uuid: None,
                icon: None,
                no_zstd: false,
                zstd_level: None,
                force: false,
                dry_run: false,
            })
        }
        "vcs-metadata" => Command::VcsMetadata(VcsMetadataArgs { working_dir: None }),
        other => panic!("unknown command {other}"),
    };
    Cli { endpoint: None, app_token: value("--app-token"), command }
}

#[test]
fn post_action_daemonizes_by_default() {
    let cli = parse(&["bugsee-cli", "xcode", "post-action"]);
    assert!(should_daemonize(&cli, true));
}

#[test]
fn post_action_force_foreground_stays_synchronous() {
    let cli = parse(&["bugsee-cli", "xcode", "post-action", "--force-foreground"]);
    assert!(!should_daemonize(&cli, true));
}

#[test]
fn debug_files_upload_never_daemonizes() {
    let cli = parse(&[
        "bugsee-cli",
        "debug-files",
        "upload",
        "--type",
        "dsym",
        "--app-token",
        "TKN",
        "--version",
        "1.0",
        "--build",
        "1",
        ".",
    ]);
    assert!(!should_daemonize(&cli, true));
}

#[test]
fn metadata_commands_never_daemonize() {
    let cli = parse(&["bugsee-cli", "vcs-metadata"]);
    assert!(!should_daemonize(&cli, true));
}

#[test]
fn nothing_daemonizes_where_a_process_cannot_fork() {
    let cli = parse(&["bugsee-cli", "xcode", "post-action"]);
    assert!(!should_daemonize(&cli, false));
}

#[test]
fn help_is_no_mistake() {
    assert_eq!(usage_code(true), ExitCode::Success);
    assert_eq!(usage_code(false), ExitCode::Usage);
}

#[test]
fn log_path_prefers_project_temp_dir() {
    let project = Some("/p/tmp".to_string());
    let tmpdir = Some("/t".to_string());
    let p = log_path(&project, &tmpdir, "/tmp");
    assert_eq!(file_name(&p).unwrap(), "bugsee-cli.log");
    assert!(parent(&p).is_some());
    assert_eq!(p, parse_path("/p/tmp/bugsee-cli.log"));
    assert_eq!(log_path(&None, &tmpdir, "/tmp"), parse_path("/t/bugsee-cli.log"));
    assert_eq!(log_path(&None, &None, "/tmp"), parse_path("/tmp/bugsee-cli.log"));
}
