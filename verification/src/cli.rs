//! The command line.
use crate::build_env::BuildEnvCommand;
use crate::debug_files::DebugFilesCommand;
use crate::dsym::DsymCommand;
use crate::exclude::SourcemapsCommand;
use crate::exit_code::ExitCode;
use crate::ios_deps::IosDepsCommand;
use crate::pack::PackArgs;
use crate::paths::{Part, join_path, joined_path, parse_path, part_views, path_parts};
use crate::upload::UploadCommand;
use crate::vcs_metadata::VcsMetadataArgs;
use crate::xcode::XcodeCommand;
use vstd::prelude::*;
use vstd::string::*;

verus! {

/// What the tool is called with.
#[derive(Debug)]
pub struct Cli {
    /// The server.
    pub endpoint: Option<String>,
    /// The app that uploads are for.
    pub app_token: Option<String>,
    pub command: Command,
}

/// The commands.
#[derive(Debug)]
pub enum Command {
    /// Debug information files: mappings, symbols, source maps.
    DebugFiles(DebugFilesCommand),
    /// JavaScript source maps.
    Sourcemaps(SourcemapsCommand),
    /// Uploads of builds.
    Upload(UploadCommand),
    /// Pack an artefact for upload.
    Pack(PackArgs),
    /// Where the build comes from.
    VcsMetadata(VcsMetadataArgs),
    /// The dependencies of an iOS app.
    IosDeps(IosDepsCommand),
    /// The environment of a build.
    BuildEnv(BuildEnvCommand),
    /// Ids of debug symbols.
    Dsym(DsymCommand),
    /// Steps of Xcode builds.
    Xcode(XcodeCommand),
}

/// The post-action of Xcode, where it is not kept in the foreground.
pub open spec fn is_background(c: Command) -> bool {
    match c {
        Command::Xcode(XcodeCommand::PostAction { force_foreground, .. }) => !force_foreground,
        _ => false,
    }
}

/// Whether the tool goes to the background before it starts to work: only for the
/// post-action of Xcode, unless that is kept in the foreground, and only where a
/// process can fork (`unix`).
pub fn should_daemonize(cli: &Cli, unix: bool) -> (r: bool)
    ensures
        r == (unix && is_background(cli.command)),
{
    if !unix {
        return false;
    }
    match &cli.command {
        Command::Xcode(XcodeCommand::PostAction { force_foreground, .. }) => !*force_foreground,
        _ => false,
    }
}

/// The exit code where the command line was not taken: help and version that were
/// asked for are no mistake.
pub fn usage_code(help_or_version: bool) -> (r: ExitCode)
    ensures
        r == if help_or_version {
            ExitCode::Success
        } else {
            ExitCode::Usage
        },
{
    if help_or_version {
        ExitCode::Success
    } else {
        ExitCode::Usage
    }
}

/// The file that a tool in the background writes to: in the directory that Xcode names,
/// or else that of the user's temporary files, or else that of the machine's.
pub fn log_path(project_temp_dir: &Option<String>, tmpdir: &Option<String>, temp: &str) -> (r: Vec<
    Part,
>)
    ensures
        part_views(r@) == joined_path(
            path_parts(
                match (*project_temp_dir, *tmpdir) {
                    (Some(d), _) => d@,
                    (None, Some(d)) => d@,
                    (None, None) => temp@,
                },
            ),
            "bugsee-cli.log"@,
        ),
{
    let dir = match (project_temp_dir, tmpdir) {
        (Some(d), _) => parse_path(d.as_str()),
        (None, Some(d)) => parse_path(d.as_str()),
        (None, None) => parse_path(temp),
    };
    join_path(&dir, "bugsee-cli.log")
}

/// Only the post-action of Xcode goes to the background, and only where it is not kept.
pub proof fn law_what_goes_to_the_background(c: Command)
    ensures
        c !is Xcode ==> !is_background(c),
        c is Xcode && c->Xcode_0 !is PostAction ==> !is_background(c),
        c is Xcode && c->Xcode_0 is PostAction ==> is_background(c)
            == !c->Xcode_0->force_foreground,
{
}

} // verus!
