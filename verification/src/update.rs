//! Updating the server in place: what is fetched, what is swapped in which order, and
//! how the previous version comes back.
use vstd::prelude::*;

use crate::error::{AppCommandError, AppErrorCode, ErrorView};
use crate::number::decimal_text;
use crate::text::same_text;

verus! {

/// The largest update archive, in bytes.
pub const MAX_ARCHIVE_BYTES: u64 = 600 * 1024 * 1024;

/// How far an update has come.
#[derive(Clone, Copy, PartialEq, Eq, Structural, Debug)]
pub enum UpdatePhase {
    Downloading,
    Verifying,
    Extracting,
    Swapping,
}

impl UpdatePhase {
    /// The phase as it is reported.
    pub open spec fn name(self) -> Seq<char> {
        match self {
            UpdatePhase::Downloading => "downloading"@,
            UpdatePhase::Verifying => "verifying"@,
            UpdatePhase::Extracting => "extracting"@,
            UpdatePhase::Swapping => "swapping"@,
        }
    }

    pub fn as_str(self) -> (r: &'static str)
        ensures
            r@ == self.name(),
    {
        match self {
            UpdatePhase::Downloading => "downloading",
            UpdatePhase::Verifying => "verifying",
            UpdatePhase::Extracting => "extracting",
            UpdatePhase::Swapping => "swapping",
        }
    }
}

/// What an update that succeeded installed.
#[derive(Debug)]
pub struct InstallOutcome {
    pub version: String,
}

// ---------------------------------------------------------------------------
// Names
// ---------------------------------------------------------------------------

/// The name of the release asset for a platform.
pub open spec fn asset_for(os: Seq<char>, arch: Seq<char>) -> Option<Seq<char>> {
    if os == "linux"@ && arch == "x86_64"@ {
        Some("codeg-server-linux-x64"@)
    } else if os == "linux"@ && arch == "aarch64"@ {
        Some("codeg-server-linux-arm64"@)
    } else if os == "macos"@ && arch == "x86_64"@ {
        Some("codeg-server-darwin-x64"@)
    } else if os == "macos"@ && arch == "aarch64"@ {
        Some("codeg-server-darwin-arm64"@)
    } else if os == "windows"@ && arch == "x86_64"@ {
        Some("codeg-server-windows-x64"@)
    } else {
        None
    }
}

/// The name of the release asset for a platform.
pub fn asset_basename(os: &str, arch: &str) -> (r: Option<&'static str>)
    ensures
        crate::json::opt_str(r) == asset_for(os@, arch@),
{
    if same_text(os, "linux") && same_text(arch, "x86_64") {
        Some("codeg-server-linux-x64")
    } else if same_text(os, "linux") && same_text(arch, "aarch64") {
        Some("codeg-server-linux-arm64")
    } else if same_text(os, "macos") && same_text(arch, "x86_64") {
        Some("codeg-server-darwin-x64")
    } else if same_text(os, "macos") && same_text(arch, "aarch64") {
        Some("codeg-server-darwin-arm64")
    } else if same_text(os, "windows") && same_text(arch, "x86_64") {
        Some("codeg-server-windows-x64")
    } else {
        None
    }
}

/// The extension of the release archive.
pub fn archive_ext(windows: bool) -> (r: &'static str)
    ensures
        r@ == if windows {
            ".zip"@
        } else {
            ".tar.gz"@
        },
{
    if windows {
        ".zip"
    } else {
        ".tar.gz"
    }
}

/// The file name of the server's binary.
pub fn server_bin_filename(windows: bool) -> (r: &'static str)
    ensures
        r@ == if windows {
            "codeg-server.exe"@
        } else {
            "codeg-server"@
        },
{
    if windows {
        "codeg-server.exe"
    } else {
        "codeg-server"
    }
}

/// The file name of the companion's binary.
pub fn mcp_bin_filename(windows: bool) -> (r: &'static str)
    ensures
        r@ == if windows {
            "codeg-mcp.exe"@
        } else {
            "codeg-mcp"@
        },
{
    if windows {
        "codeg-mcp.exe"
    } else {
        "codeg-mcp"
    }
}

/// `path` with `.bak` behind it.
pub open spec fn backup_of(path: Seq<u8>) -> Seq<u8> {
    path + seq![46u8, 98u8, 97u8, 107u8]
}

/// The path at which the previous version of `target` is kept.
pub fn bak_path(target: &[u8]) -> (r: Vec<u8>)
    ensures
        r@ == backup_of(target@),
{
    let mut out: Vec<u8> = crate::bytes::slice_of(target, 0, target.len());
    out.push(46);
    out.push(98);
    out.push(97);
    out.push(107);
    assert(out@ =~= backup_of(target@));
    out
}

/// The name under which the new version of the file or directory `name` is prepared,
/// beside its target.
pub fn staged_name(name: &str) -> (r: String)
    ensures
        r@ == "."@ + name@ + ".new"@,
{
    let mut out: String = ".".to_owned();
    out.append(name);
    out.append(".new");
    out
}

fn with_pid(head: &str, pid: u32) -> (r: String)
    ensures
        r@ == head@ + crate::number::decimal(pid as nat),
{
    let mut out: String = head.to_owned();
    out.append(decimal_text(pid as u64).as_str());
    out
}

/// The name of the directory into which the process `pid` extracts an update.
pub fn scratch_dir_name(pid: u32) -> (r: String)
    ensures
        r@ == ".codeg-update-"@ + crate::number::decimal(pid as nat),
{
    with_pid(".codeg-update-", pid)
}

/// The name of the file with which the process `pid` tries whether it may write.
pub fn write_probe_name(pid: u32) -> (r: String)
    ensures
        r@ == ".codeg-write-probe-"@ + crate::number::decimal(pid as nat),
{
    with_pid(".codeg-write-probe-", pid)
}

/// The addresses of the archive `asset` under `base`, and of its signature.
pub fn download_urls(base: &str, asset: &str, ext: &str) -> (r: (String, String))
    ensures
        r.0@ == base@ + "/"@ + asset@ + ext@,
        r.1@ == r.0@ + ".sig"@,
{
    let mut archive: String = base.to_owned();
    archive.append("/");
    archive.append(asset);
    archive.append(ext);
    let mut signature: String = archive.clone();
    signature.append(".sig");
    (archive, signature)
}

/// An upgrade was swapped in and awaits a restart. `marker` tells whether the marker
/// stands beside the server's binary; `None` where that place is not known.
pub open spec fn staged_by(marker: Option<bool>) -> bool {
    marker == Some(true)
}

/// Whether an upgrade was swapped in and awaits a restart.
pub fn upgrade_staged(marker: Option<bool>) -> (r: bool)
    ensures
        r == staged_by(marker),
{
    match marker {
        Some(present) => present,
        None => false,
    }
}

/// What is left of the marker of a staged upgrade once it was taken.
pub open spec fn marker_taken(marker: Option<bool>) -> Option<bool> {
    match marker {
        Some(_) => Some(false),
        None => None,
    }
}

/// Takes the marker of a staged upgrade: whether there was one, and what is to be left
/// of it. The caller removes the marker where it is to be gone.
pub fn take_upgrade_staged(marker: Option<bool>) -> (r: (bool, Option<bool>))
    ensures
        r.0 == staged_by(marker),
        r.1 == marker_taken(marker),
{
    match marker {
        Some(present) => (present, Some(false)),
        None => (false, None),
    }
}

/// The marker of a staged upgrade is taken once: whoever takes it learns of the upgrade,
/// and from then on none is staged and there is nothing more to take.
pub proof fn law_marker_is_taken_once(marker: Option<bool>)
    ensures
        !staged_by(marker_taken(marker)),
        marker_taken(marker_taken(marker)) == marker_taken(marker),
        !staged_by(marker) ==> marker_taken(marker) == marker,
{
}

/// Whether a rollback can be offered. `backups` tells of which artifacts a previous
/// version is kept: of the server's binary, of its companion's and of the web directory;
/// `None` where their places are not known.
pub fn rollback_available(backups: Option<(bool, bool, bool)>) -> (r: bool)
    ensures
        r == (backups matches Some(b) && (b.0 || b.1 || b.2)),
{
    match backups {
        Some(b) => b.0 || b.1 || b.2,
        None => false,
    }
}

// ---------------------------------------------------------------------------
// Downloading
// ---------------------------------------------------------------------------

/// Refuses an archive that announces more than the limit.
pub fn check_announced_size(total: Option<u64>) -> (r: Result<(), AppCommandError>)
    ensures
        match r {
            Ok(_) => !(total matches Some(t) && t > MAX_ARCHIVE_BYTES),
            Err(e) => total matches Some(t) && t > MAX_ARCHIVE_BYTES && e@ == ErrorView::plain(
                AppErrorCode::InvalidInput,
                "Update package is unexpectedly large ("@ + crate::number::decimal(t as nat)
                    + " bytes)"@,
            ),
        },
{
    match total {
        Some(t) => {
            if t > MAX_ARCHIVE_BYTES {
                let mut message: String = "Update package is unexpectedly large (".to_owned();
                message.append(decimal_text(t).as_str());
                message.append(" bytes)");
                return Err(AppCommandError::invalid_input(message));
            }
            Ok(())
        },
        None => Ok(()),
    }
}

/// How much of an archive has arrived.
#[derive(Clone, Copy, PartialEq, Eq, Structural, Debug)]
pub struct Download {
    pub received: u64,
}

impl Download {
    pub fn new() -> (r: Download)
        ensures
            r.received == 0,
    {
        Download { received: 0 }
    }

    /// Takes the size of the next chunk. Past the limit the download ends.
    pub fn accept_chunk(&mut self, len: u64) -> (r: Result<u64, AppCommandError>)
        requires
            old(self).received <= MAX_ARCHIVE_BYTES,
        ensures
            match r {
                Ok(total) => old(self).received + len <= MAX_ARCHIVE_BYTES && total
                    == old(self).received + len && final(self).received == total,
                Err(e) => old(self).received + len > MAX_ARCHIVE_BYTES && e@ == ErrorView::plain(
                    AppErrorCode::InvalidInput,
                    "Update package exceeded the maximum allowed size"@,
                ) && *final(self) == *old(self),
            },
            final(self).received <= MAX_ARCHIVE_BYTES,
    {
        if len > MAX_ARCHIVE_BYTES - self.received {
            return Err(
                AppCommandError::invalid_input(
                    "Update package exceeded the maximum allowed size".to_owned(),
                ),
            );
        }
        self.received = self.received + len;
        Ok(self.received)
    }
}

/// What is fetched over the network for an update.
#[derive(Clone, Copy, PartialEq, Eq, Structural, Debug)]
pub enum Fetch {
    Package,
    Signature,
}

/// The error for a request that could not be sent.
pub fn fetch_failed(what: Fetch, detail: String) -> (r: AppCommandError)
    ensures
        r@ == ErrorView::plain(
            AppErrorCode::Network,
            if what is Package {
                "Failed to download update package"@
            } else {
                "Failed to download update signature"@
            },
        ).with_detail(detail@),
{
    let message: &str = match what {
        Fetch::Package => "Failed to download update package",
        Fetch::Signature => "Failed to download update signature",
    };
    AppCommandError::network(message.to_owned()).with_detail(detail)
}

/// The error for a request that was answered with another status than success.
pub fn fetch_refused(what: Fetch, status: &str) -> (r: AppCommandError)
    ensures
        r@ == ErrorView::plain(
            AppErrorCode::Network,
            if what is Package {
                "Update package download returned status "@ + status@
            } else {
                "Update signature download returned status "@ + status@
            },
        ),
{
    let mut message: String = match what {
        Fetch::Package => "Update package download returned status ".to_owned(),
        Fetch::Signature => "Update signature download returned status ".to_owned(),
    };
    message.append(status);
    AppCommandError::network(message)
}

/// The error for an answer that broke off.
pub fn fetch_interrupted(what: Fetch, detail: String) -> (r: AppCommandError)
    ensures
        r@ == ErrorView::plain(
            AppErrorCode::Network,
            if what is Package {
                "Update download interrupted"@
            } else {
                "Failed to read update signature"@
            },
        ).with_detail(detail@),
{
    let message: &str = match what {
        Fetch::Package => "Update download interrupted",
        Fetch::Signature => "Failed to read update signature",
    };
    AppCommandError::network(message.to_owned()).with_detail(detail)
}

/// The error for a signature that does not fit the archive.
pub fn signature_rejected(detail: String) -> (r: AppCommandError)
    ensures
        r@ == ErrorView::plain(
            AppErrorCode::TaskExecutionFailed,
            "Update signature verification failed"@,
        ).with_detail(detail@),
{
    AppCommandError::new(
        AppErrorCode::TaskExecutionFailed,
        "Update signature verification failed".to_owned(),
    ).with_detail(detail)
}

/// The error for a directory `shown` that cannot be written to.
pub fn not_writable(shown: &str, detail: String) -> (r: AppCommandError)
    ensures
        r@ == ErrorView::plain(
            AppErrorCode::PermissionDenied,
            "Update target is not writable: "@ + shown@,
        ).with_detail(detail@),
{
    let mut message: String = "Update target is not writable: ".to_owned();
    message.append(shown);
    AppCommandError::permission_denied(message).with_detail(detail)
}

// ---------------------------------------------------------------------------
// The bundle
// ---------------------------------------------------------------------------

/// Where the bundle stands among what was extracted.
#[derive(Clone, Copy, PartialEq, Eq, Structural, Debug)]
pub enum BundleRoot {
    /// In the directory that is called like the asset.
    AssetDirectory,
    /// In the extraction directory itself.
    ExtractDirectory,
    /// In the entry of the extraction directory at this position.
    Entry(usize),
}

/// An entry of the extraction directory.
#[derive(Clone, Copy, PartialEq, Eq, Structural, Debug)]
pub struct ExtractedEntry {
    pub is_dir: bool,
    /// The server's binary stands in it.
    pub has_server: bool,
}

impl ExtractedEntry {
    pub open spec fn holds_bundle(self) -> bool {
        self.is_dir && self.has_server
    }
}

/// The first place that holds the server's binary.
pub open spec fn bundle_root(
    in_asset_dir: bool,
    in_extract_dir: bool,
    entries: Seq<ExtractedEntry>,
) -> Option<BundleRoot> {
    if in_asset_dir {
        Some(BundleRoot::AssetDirectory)
    } else if in_extract_dir {
        Some(BundleRoot::ExtractDirectory)
    } else {
        first_bundle(entries, 0)
    }
}

/// The first entry at or after `from` that holds the bundle.
pub open spec fn first_bundle(entries: Seq<ExtractedEntry>, from: int) -> Option<BundleRoot>
    decreases entries.len() - from,
{
    if from < 0 || from >= entries.len() {
        None
    } else if entries[from].holds_bundle() {
        Some(BundleRoot::Entry(from as usize))
    } else {
        first_bundle(entries, from + 1)
    }
}

/// Finds the bundle among what was extracted: in the directory called like the asset,
/// in the extraction directory, or in the first directory below it that holds the
/// server's binary.
pub fn find_bundle_root(
    in_asset_dir: bool,
    in_extract_dir: bool,
    entries: &Vec<ExtractedEntry>,
) -> (r: Result<BundleRoot, AppCommandError>)
    ensures
        match r {
            Ok(root) => bundle_root(in_asset_dir, in_extract_dir, entries@) == Some(root),
            Err(e) => bundle_root(in_asset_dir, in_extract_dir, entries@) is None && e@
                == ErrorView::plain(
                AppErrorCode::TaskExecutionFailed,
                "Could not locate the server binary inside the update package"@,
            ),
        },
{
    if in_asset_dir {
        return Ok(BundleRoot::AssetDirectory);
    }
    if in_extract_dir {
        return Ok(BundleRoot::ExtractDirectory);
    }
    let mut i: usize = 0;
    while i < entries.len()
        invariant
            i <= entries@.len(),
            !in_asset_dir,
            !in_extract_dir,
            first_bundle(entries@, 0) == first_bundle(entries@, i as int),
        decreases entries.len() - i,
    {
        if entries[i].is_dir && entries[i].has_server {
            return Ok(BundleRoot::Entry(i));
        }
        i = i + 1;
    }
    Err(
        AppCommandError::new(
            AppErrorCode::TaskExecutionFailed,
            "Could not locate the server binary inside the update package".to_owned(),
        ),
    )
}

/// Checks that a bundle is complete.
pub fn check_bundle(has_server: bool, has_mcp: bool, has_web_dir: bool) -> (r: Result<
    (),
    AppCommandError,
>)
    ensures
        match r {
            Ok(_) => has_server && has_mcp && has_web_dir,
            Err(e) => !(has_server && has_mcp && has_web_dir) && e@ == ErrorView::plain(
                AppErrorCode::TaskExecutionFailed,
                "Downloaded update is incomplete (expected codeg-server, codeg-mcp and a web/ directory)"@,
            ),
        },
{
    if !has_server || !has_mcp || !has_web_dir {
        return Err(
            AppCommandError::new(
                AppErrorCode::TaskExecutionFailed,
                "Downloaded update is incomplete (expected codeg-server, codeg-mcp and a web/ directory)".to_owned(),
            ),
        );
    }
    Ok(())
}

// ---------------------------------------------------------------------------
// Replacing one artifact
// ---------------------------------------------------------------------------

#[derive(Clone, Copy, PartialEq, Eq, Structural, Debug)]
pub enum ArtifactKind {
    File,
    Directory,
}

/// A step of replacing a file or a directory. Each is one request to the file system.
#[derive(Clone, Copy, PartialEq, Eq, Structural, Debug)]
pub enum ReplaceStep {
    /// Remove what an earlier attempt prepared.
    ClearStaged,
    /// Copy the new version beside the target.
    CopyNew,
    /// Let the new version be run.
    MakeExecutable,
    /// Remove the version before the last.
    ClearBackup,
    /// See whether there is a target.
    ProbeTarget,
    /// Move the target to its backup path.
    MoveTargetAside,
    /// Move the new version to the target's path.
    MoveNewIn,
    /// Move the backup to the target's path again.
    PutBack,
    Done,
    Failed,
}

/// The step after `step`, where `yes` tells whether the step succeeded or, for the
/// probe, whether there is a target.
pub open spec fn replace_after(kind: ArtifactKind, step: ReplaceStep, yes: bool) -> ReplaceStep {
    match step {
        ReplaceStep::ClearStaged => ReplaceStep::CopyNew,
        ReplaceStep::CopyNew => if !yes {
            ReplaceStep::Failed
        } else if kind is File {
            ReplaceStep::MakeExecutable
        } else {
            ReplaceStep::ClearBackup
        },
        ReplaceStep::MakeExecutable => ReplaceStep::ClearBackup,
        ReplaceStep::ClearBackup => ReplaceStep::ProbeTarget,
        ReplaceStep::ProbeTarget => if yes {
            ReplaceStep::MoveTargetAside
        } else {
            ReplaceStep::MoveNewIn
        },
        ReplaceStep::MoveTargetAside => if yes {
            ReplaceStep::MoveNewIn
        } else {
            ReplaceStep::Failed
        },
        ReplaceStep::MoveNewIn => if yes {
            ReplaceStep::Done
        } else {
            ReplaceStep::PutBack
        },
        ReplaceStep::PutBack => ReplaceStep::Failed,
        ReplaceStep::Done => ReplaceStep::Done,
        ReplaceStep::Failed => ReplaceStep::Failed,
    }
}

/// The first step of replacing an artifact. Its directory and its name have to be
/// known.
pub fn begin_replace(kind: ArtifactKind, has_parent: bool, has_name: bool) -> (r: Result<
    ReplaceStep,
    AppCommandError,
>)
    ensures
        match r {
            Ok(step) => has_parent && has_name && step == ReplaceStep::ClearStaged,
            Err(e) => {
                ||| !has_parent && e@ == ErrorView::plain(
                    AppErrorCode::IoError,
                    "Cannot resolve target directory"@,
                )
                ||| has_parent && !has_name && kind is File && e@ == ErrorView::plain(
                    AppErrorCode::IoError,
                    "Invalid target filename"@,
                )
                ||| has_parent && !has_name && kind is Directory && e@ == ErrorView::plain(
                    AppErrorCode::IoError,
                    "Invalid target directory name"@,
                )
            },
        },
{
    if !has_parent {
        return Err(AppCommandError::io_error("Cannot resolve target directory"));
    }
    if !has_name {
        return Err(
            match kind {
                ArtifactKind::File => AppCommandError::io_error("Invalid target filename"),
                ArtifactKind::Directory => AppCommandError::io_error(
                    "Invalid target directory name",
                ),
            },
        );
    }
    Ok(ReplaceStep::ClearStaged)
}

/// The step after `step`.
pub fn next_replace(kind: ArtifactKind, step: ReplaceStep, yes: bool) -> (r: ReplaceStep)
    ensures
        r == replace_after(kind, step, yes),
{
    match step {
        ReplaceStep::ClearStaged => ReplaceStep::CopyNew,
        ReplaceStep::CopyNew => if !yes {
            ReplaceStep::Failed
        } else {
            match kind {
                ArtifactKind::File => ReplaceStep::MakeExecutable,
                ArtifactKind::Directory => ReplaceStep::ClearBackup,
            }
        },
        ReplaceStep::MakeExecutable => ReplaceStep::ClearBackup,
        ReplaceStep::ClearBackup => ReplaceStep::ProbeTarget,
        ReplaceStep::ProbeTarget => if yes {
            ReplaceStep::MoveTargetAside
        } else {
            ReplaceStep::MoveNewIn
        },
        ReplaceStep::MoveTargetAside => if yes {
            ReplaceStep::MoveNewIn
        } else {
            ReplaceStep::Failed
        },
        ReplaceStep::MoveNewIn => if yes {
            ReplaceStep::Done
        } else {
            ReplaceStep::PutBack
        },
        ReplaceStep::PutBack => ReplaceStep::Failed,
        ReplaceStep::Done => ReplaceStep::Done,
        ReplaceStep::Failed => ReplaceStep::Failed,
    }
}

/// A step of bringing the previous version of an artifact back.
#[derive(Clone, Copy, PartialEq, Eq, Structural, Debug)]
pub enum RestoreStep {
    /// See whether there is a backup.
    ProbeBackup,
    /// Remove the target.
    RemoveTarget,
    /// Move the backup to the target's path.
    MoveBackupIn,
    /// The previous version is back.
    Restored,
    /// There is no previous version.
    NothingToRestore,
    Failed,
}

/// The step after `step`, where `yes` tells whether the step succeeded or, for the
/// probe, whether there is a backup.
pub open spec fn restore_after(step: RestoreStep, yes: bool) -> RestoreStep {
    match step {
        RestoreStep::ProbeBackup => if yes {
            RestoreStep::RemoveTarget
        } else {
            RestoreStep::NothingToRestore
        },
        RestoreStep::RemoveTarget => RestoreStep::MoveBackupIn,
        RestoreStep::MoveBackupIn => if yes {
            RestoreStep::Restored
        } else {
            RestoreStep::Failed
        },
        RestoreStep::Restored => RestoreStep::Restored,
        RestoreStep::NothingToRestore => RestoreStep::NothingToRestore,
        RestoreStep::Failed => RestoreStep::Failed,
    }
}

/// The step after `step`.
pub fn next_restore(step: RestoreStep, yes: bool) -> (r: RestoreStep)
    ensures
        r == restore_after(step, yes),
{
    match step {
        RestoreStep::ProbeBackup => if yes {
            RestoreStep::RemoveTarget
        } else {
            RestoreStep::NothingToRestore
        },
        RestoreStep::RemoveTarget => RestoreStep::MoveBackupIn,
        RestoreStep::MoveBackupIn => if yes {
            RestoreStep::Restored
        } else {
            RestoreStep::Failed
        },
        RestoreStep::Restored => RestoreStep::Restored,
        RestoreStep::NothingToRestore => RestoreStep::NothingToRestore,
        RestoreStep::Failed => RestoreStep::Failed,
    }
}

/// What stands at the four paths that replacing an artifact touches.
pub struct Places<C> {
    pub target: Option<C>,
    pub backup: Option<C>,
    pub staged: Option<C>,
    pub source: C,
}

/// What a request to the file system leaves behind: a request that fails changes
/// nothing, and moving something overwrites what stood there.
pub open spec fn replace_effect<C>(step: ReplaceStep, ok: bool, p: Places<C>) -> Places<C> {
    if !ok {
        p
    } else {
        match step {
            ReplaceStep::ClearStaged => Places { staged: None, ..p },
            ReplaceStep::CopyNew => Places { staged: Some(p.source), ..p },
            ReplaceStep::ClearBackup => Places { backup: None, ..p },
            ReplaceStep::MoveTargetAside => Places { backup: p.target, target: None, ..p },
            ReplaceStep::MoveNewIn => Places { target: p.staged, staged: None, ..p },
            ReplaceStep::PutBack => if p.backup is Some {
                Places { target: p.backup, backup: None, ..p }
            } else {
                p
            },
            _ => p,
        }
    }
}

/// The number of steps that can still follow.
pub open spec fn replace_rank(step: ReplaceStep) -> nat {
    match step {
        ReplaceStep::ClearStaged => 8,
        ReplaceStep::CopyNew => 7,
        ReplaceStep::MakeExecutable => 6,
        ReplaceStep::ClearBackup => 5,
        ReplaceStep::ProbeTarget => 4,
        ReplaceStep::MoveTargetAside => 3,
        ReplaceStep::MoveNewIn => 2,
        ReplaceStep::PutBack => 1,
        ReplaceStep::Done => 0,
        ReplaceStep::Failed => 0,
    }
}

/// Where replacing an artifact ends and what it leaves behind, from `step` on. `ok`
/// tells which requests succeed.
pub open spec fn replace_run<C>(
    kind: ArtifactKind,
    step: ReplaceStep,
    ok: spec_fn(ReplaceStep) -> bool,
    p: Places<C>,
) -> (ReplaceStep, Places<C>)
    decreases replace_rank(step),
{
    if step is Done || step is Failed {
        (step, p)
    } else {
        let yes = if step is ProbeTarget {
            p.target is Some
        } else {
            ok(step)
        };
        replace_run(kind, replace_after(kind, step, yes), ok, replace_effect(step, yes, p))
    }
}

/// The same for bringing the previous version back.
pub open spec fn restore_run<C>(remove_ok: bool, move_ok: bool, p: Places<C>) -> (
    RestoreStep,
    Places<C>,
) {
    if p.backup is None {
        (restore_after(RestoreStep::ProbeBackup, false), p)
    } else {
        let cleared = if remove_ok {
            Places { target: None, ..p }
        } else {
            p
        };
        let step = restore_after(
            restore_after(restore_after(RestoreStep::ProbeBackup, true), remove_ok),
            move_ok,
        );
        if move_ok {
            (step, Places { target: cleared.backup, backup: None, ..cleared })
        } else {
            (step, cleared)
        }
    }
}

/// A replacement that is done leaves the new version at the target and the previous
/// one, if there was one, at the backup path.
pub proof fn law_replace_keeps_backup<C>(
    kind: ArtifactKind,
    ok: spec_fn(ReplaceStep) -> bool,
    p: Places<C>,
)
    ensures
        ({
            let (end, q) = replace_run(kind, ReplaceStep::ClearStaged, ok, p);
            end is Done ==> q.target == Some(p.source) && (p.target is Some ==> q.backup
                == p.target)
        }),
{
    reveal_with_fuel(replace_run, 9);
}

/// A replacement that fails leaves the target as it was, unless both moving the new
/// version in and putting the previous one back fail.
pub proof fn law_failed_replace_keeps_target<C>(
    kind: ArtifactKind,
    ok: spec_fn(ReplaceStep) -> bool,
    p: Places<C>,
)
    requires
        ok(ReplaceStep::MoveNewIn) || ok(ReplaceStep::PutBack),
        p.target is Some,
    ensures
        ({
            let (end, q) = replace_run(kind, ReplaceStep::ClearStaged, ok, p);
            end is Failed ==> q.target == p.target
        }),
{
    reveal_with_fuel(replace_run, 9);
}

/// A replacement always ends, in success or in failure.
pub proof fn law_replace_ends<C>(
    kind: ArtifactKind,
    ok: spec_fn(ReplaceStep) -> bool,
    p: Places<C>,
)
    ensures
        ({
            let (end, q) = replace_run(kind, ReplaceStep::ClearStaged, ok, p);
            end is Done || end is Failed
        }),
{
    reveal_with_fuel(replace_run, 9);
}

/// Restoring undoes a replacement: the target is what it was before.
pub proof fn law_restore_undoes_replace<C>(
    kind: ArtifactKind,
    ok: spec_fn(ReplaceStep) -> bool,
    remove_ok: bool,
    p: Places<C>,
)
    requires
        p.target is Some,
    ensures
        ({
            let (end, q) = replace_run(kind, ReplaceStep::ClearStaged, ok, p);
            let (last, z) = restore_run(remove_ok, true, q);
            end is Done ==> last is Restored && z.target == p.target
        }),
{
    reveal_with_fuel(replace_run, 9);
}

// ---------------------------------------------------------------------------
// Rolling back
// ---------------------------------------------------------------------------

/// A part of the server that an update replaces.
#[derive(Clone, Copy, PartialEq, Eq, Structural, Debug)]
pub enum Artifact {
    Server,
    Mcp,
    Web,
}

/// What a rollback has brought so far.
#[derive(Debug)]
pub struct RollbackSoFar {
    /// An artifact was restored.
    pub restored: bool,
    /// Why the first artifact that did not come back did not.
    pub failure: Option<AppCommandError>,
}

/// The model of a [`RollbackSoFar`].
pub struct RollbackSoFarView {
    pub restored: bool,
    pub failure: Option<ErrorView>,
}

impl View for RollbackSoFar {
    type V = RollbackSoFarView;

    open spec fn view(&self) -> RollbackSoFarView {
        RollbackSoFarView {
            restored: self.restored,
            failure: match self.failure {
                Some(e) => Some(e@),
                None => None,
            },
        }
    }
}

impl RollbackSoFarView {
    pub open spec fn nothing() -> RollbackSoFarView {
        RollbackSoFarView { restored: false, failure: None }
    }

    /// After one more attempt. Of several failures the first is kept.
    pub open spec fn with(self, outcome: Result<bool, ErrorView>) -> RollbackSoFarView {
        match outcome {
            Ok(back) => RollbackSoFarView { restored: self.restored || back, ..self },
            Err(e) => if self.failure is Some {
                self
            } else {
                RollbackSoFarView { failure: Some(e), ..self }
            },
        }
    }
}

/// What has happened in a rollback.
#[derive(Debug)]
pub enum RollbackEvent {
    /// The places of the artifacts are known, or why they are not.
    Resolved(Result<(), AppCommandError>),
    /// The attempt to restore an artifact is over: whether there was a previous
    /// version, or why it did not come back. `so_far` tells of the attempts before.
    Attempted { artifact: Artifact, so_far: RollbackSoFar, outcome: Result<bool, AppCommandError> },
}

/// The model of a [`RollbackEvent`].
pub enum RollbackEventView {
    Resolved(Result<(), ErrorView>),
    Attempted { artifact: Artifact, so_far: RollbackSoFarView, outcome: Result<bool, ErrorView> },
}

impl View for RollbackEvent {
    type V = RollbackEventView;

    open spec fn view(&self) -> RollbackEventView {
        match self {
            RollbackEvent::Resolved(Ok(_)) => RollbackEventView::Resolved(Ok(())),
            RollbackEvent::Resolved(Err(e)) => RollbackEventView::Resolved(Err(e@)),
            RollbackEvent::Attempted { artifact, so_far, outcome } => {
                RollbackEventView::Attempted {
                    artifact: *artifact,
                    so_far: so_far@,
                    outcome: match outcome {
                        Ok(back) => Ok(*back),
                        Err(e) => Err(e@),
                    },
                }
            },
        }
    }
}

/// What to do next in a rollback.
#[derive(Debug)]
pub enum RollbackStep {
    /// Restore an artifact.
    Restore { artifact: Artifact, so_far: RollbackSoFar },
    /// The rollback is over.
    Finish(Result<(), AppCommandError>),
}

/// The model of a [`RollbackStep`].
pub enum RollbackView {
    Restore { artifact: Artifact, so_far: RollbackSoFarView },
    Finish(Result<(), ErrorView>),
}

impl View for RollbackStep {
    type V = RollbackView;

    open spec fn view(&self) -> RollbackView {
        match self {
            RollbackStep::Restore { artifact, so_far } => RollbackView::Restore {
                artifact: *artifact,
                so_far: so_far@,
            },
            RollbackStep::Finish(Ok(_)) => RollbackView::Finish(Ok(())),
            RollbackStep::Finish(Err(e)) => RollbackView::Finish(Err(e@)),
        }
    }
}

/// The error for a rollback where no artifact has a previous version.
pub open spec fn nothing_to_roll_back() -> ErrorView {
    ErrorView::plain(
        AppErrorCode::NotFound,
        "No previous version is available to roll back to"@,
    )
}

/// What a rollback is answered with once every artifact was attempted.
pub open spec fn rollback_answer(so_far: RollbackSoFarView) -> Result<(), ErrorView> {
    match so_far.failure {
        Some(e) => Err(e),
        None => if so_far.restored {
            Ok(())
        } else {
            Err(nothing_to_roll_back())
        },
    }
}

/// What to do after an event: the server comes first, then its companion, then the web
/// interface. An artifact that does not come back does not keep the others from being
/// attempted.
pub open spec fn rollback_after(event: RollbackEventView) -> RollbackView {
    match event {
        RollbackEventView::Resolved(Err(e)) => RollbackView::Finish(Err(e)),
        RollbackEventView::Resolved(Ok(_)) => RollbackView::Restore {
            artifact: Artifact::Server,
            so_far: RollbackSoFarView::nothing(),
        },
        RollbackEventView::Attempted { artifact, so_far, outcome } => match artifact {
            Artifact::Server => RollbackView::Restore {
                artifact: Artifact::Mcp,
                so_far: so_far.with(outcome),
            },
            Artifact::Mcp => RollbackView::Restore {
                artifact: Artifact::Web,
                so_far: so_far.with(outcome),
            },
            Artifact::Web => RollbackView::Finish(rollback_answer(so_far.with(outcome))),
        },
    }
}

impl RollbackSoFar {
    fn after(self, outcome: Result<bool, AppCommandError>) -> (r: RollbackSoFar)
        ensures
            r@ == self@.with(
                match outcome {
                    Ok(back) => Ok(back),
                    Err(e) => Err(e@),
                },
            ),
    {
        match outcome {
            Ok(back) => RollbackSoFar { restored: self.restored || back, failure: self.failure },
            Err(e) => match self.failure {
                Some(first) => RollbackSoFar { restored: self.restored, failure: Some(first) },
                None => RollbackSoFar { restored: self.restored, failure: Some(e) },
            },
        }
    }

    fn answer(self) -> (r: Result<(), AppCommandError>)
        ensures
            match r {
                Ok(_) => rollback_answer(self@) == Ok::<(), ErrorView>(()),
                Err(e) => rollback_answer(self@) == Err::<(), _>(e@),
            },
    {
        match self.failure {
            Some(e) => Err(e),
            None => {
                if self.restored {
                    return Ok(());
                }
                Err(
                    AppCommandError::not_found(
                        "No previous version is available to roll back to".to_owned(),
                    ),
                )
            },
        }
    }
}

/// Decides the next step of a rollback.
pub fn rollback(event: RollbackEvent) -> (r: RollbackStep)
    ensures
        r@ == rollback_after(event@),
{
    match event {
        RollbackEvent::Resolved(Err(e)) => RollbackStep::Finish(Err(e)),
        RollbackEvent::Resolved(Ok(_)) => RollbackStep::Restore {
            artifact: Artifact::Server,
            so_far: RollbackSoFar { restored: false, failure: None },
        },
        RollbackEvent::Attempted { artifact, so_far, outcome } => {
            let so_far: RollbackSoFar = so_far.after(outcome);
            match artifact {
                Artifact::Server => RollbackStep::Restore { artifact: Artifact::Mcp, so_far },
                Artifact::Mcp => RollbackStep::Restore { artifact: Artifact::Web, so_far },
                Artifact::Web => RollbackStep::Finish(so_far.answer()),
            }
        },
    }
}

/// The step after `step`, where `outcome` tells what comes of restoring each artifact.
pub open spec fn rollback_next(
    step: RollbackView,
    outcome: spec_fn(Artifact) -> Result<bool, ErrorView>,
) -> RollbackView {
    match step {
        RollbackView::Restore { artifact, so_far } => rollback_after(
            RollbackEventView::Attempted { artifact, so_far, outcome: outcome(artifact) },
        ),
        RollbackView::Finish(_) => step,
    }
}

/// The steps of a rollback whose artifacts could be located.
pub open spec fn rollback_steps(outcome: spec_fn(Artifact) -> Result<bool, ErrorView>) -> Seq<
    RollbackView,
> {
    let first = rollback_after(RollbackEventView::Resolved(Ok(())));
    let second = rollback_next(first, outcome);
    let third = rollback_next(second, outcome);
    seq![first, second, third, rollback_next(third, outcome)]
}

/// A rollback attempts every artifact, whatever becomes of the others. It succeeds if
/// and only if a previous version came back and no attempt failed; otherwise it reports
/// the first failure or, where there was none, that there is no previous version.
pub proof fn law_rollback_attempts_every_artifact(
    outcome: spec_fn(Artifact) -> Result<bool, ErrorView>,
)
    ensures
        rollback_steps(outcome)[0] matches RollbackView::Restore { artifact, .. } && artifact
            is Server,
        rollback_steps(outcome)[1] matches RollbackView::Restore { artifact, .. } && artifact
            is Mcp,
        rollback_steps(outcome)[2] matches RollbackView::Restore { artifact, .. } && artifact
            is Web,
        rollback_steps(outcome)[3] == RollbackView::Finish(
            match (outcome(Artifact::Server), outcome(Artifact::Mcp), outcome(Artifact::Web)) {
                (Err(e), _, _) => Err(e),
                (_, Err(e), _) => Err(e),
                (_, _, Err(e)) => Err(e),
                (Ok(a), Ok(b), Ok(c)) => if a || b || c {
                    Ok(())
                } else {
                    Err(nothing_to_roll_back())
                },
            },
        ),
{
}

/// A rollback is offered exactly where it would find something: with `kept` telling of
/// which artifacts a previous version is kept, [`rollback_available`] answers yes if and
/// only if the rollback does not end with the error that there is no previous version.
/// Restoring an artifact finds nothing if and only if no previous version of it is kept,
/// and fails with other errors than that one.
pub proof fn law_rollback_is_offered_where_it_finds_something(
    kept: spec_fn(Artifact) -> bool,
    outcome: spec_fn(Artifact) -> Result<bool, ErrorView>,
)
    requires
        forall|a: Artifact| #[trigger] outcome(a) == Ok::<bool, ErrorView>(false) <==> !kept(a),
        forall|a: Artifact| #[trigger] outcome(a) matches Err(e) ==> e != nothing_to_roll_back(),
    ensures
        (kept(Artifact::Server) || kept(Artifact::Mcp) || kept(Artifact::Web))
            == (rollback_steps(outcome)[3] != RollbackView::Finish(Err(nothing_to_roll_back()))),
{
    assert(outcome(Artifact::Server) == Ok::<bool, ErrorView>(false) <==> !kept(Artifact::Server));
    assert(outcome(Artifact::Mcp) == Ok::<bool, ErrorView>(false) <==> !kept(Artifact::Mcp));
    assert(outcome(Artifact::Web) == Ok::<bool, ErrorView>(false) <==> !kept(Artifact::Web));
}

// ---------------------------------------------------------------------------
// The whole update
// ---------------------------------------------------------------------------

/// A step of an update.
#[derive(Clone, Copy, PartialEq, Eq, Structural, Debug)]
pub enum UpdateStep {
    ResolveTargets,
    CheckWritable,
    FetchManifest,
    DownloadArchive,
    DownloadSignature,
    VerifySignature,
    PrepareScratch,
    Extract,
    LocateBundle,
    CheckBundle,
    SwapWeb,
    SwapMcp,
    SwapServer,
    UndoMcp,
    UndoWeb,
    MarkStaged,
    /// The new version is in place.
    Installed,
    /// The update is given up, for the reason that the last step to fail gave.
    Stopped,
}

/// The step after `step`. Up to the swap a failure ends the update; in the swap it
/// first brings back what was swapped before. Undoing and marking are attempts: what
/// becomes of them changes nothing.
pub open spec fn update_after(step: UpdateStep, ok: bool) -> UpdateStep {
    match step {
        UpdateStep::SwapMcp if !ok => UpdateStep::UndoWeb,
        UpdateStep::SwapServer if !ok => UpdateStep::UndoMcp,
        UpdateStep::UndoMcp => UpdateStep::UndoWeb,
        UpdateStep::UndoWeb => UpdateStep::Stopped,
        UpdateStep::MarkStaged => UpdateStep::Installed,
        UpdateStep::Installed => UpdateStep::Installed,
        UpdateStep::Stopped => UpdateStep::Stopped,
        _ => if ok {
            match step {
                UpdateStep::ResolveTargets => UpdateStep::CheckWritable,
                UpdateStep::CheckWritable => UpdateStep::FetchManifest,
                UpdateStep::FetchManifest => UpdateStep::DownloadArchive,
                UpdateStep::DownloadArchive => UpdateStep::DownloadSignature,
                UpdateStep::DownloadSignature => UpdateStep::VerifySignature,
                UpdateStep::VerifySignature => UpdateStep::PrepareScratch,
                UpdateStep::PrepareScratch => UpdateStep::Extract,
                UpdateStep::Extract => UpdateStep::LocateBundle,
                UpdateStep::LocateBundle => UpdateStep::CheckBundle,
                UpdateStep::CheckBundle => UpdateStep::SwapWeb,
                UpdateStep::SwapWeb => UpdateStep::SwapMcp,
                UpdateStep::SwapMcp => UpdateStep::SwapServer,
                _ => UpdateStep::MarkStaged,
            }
        } else {
            UpdateStep::Stopped
        },
    }
}

/// The step after `step`.
pub fn next_update(step: UpdateStep, ok: bool) -> (r: UpdateStep)
    ensures
        r == update_after(step, ok),
{
    match step {
        UpdateStep::UndoMcp => UpdateStep::UndoWeb,
        UpdateStep::UndoWeb => UpdateStep::Stopped,
        UpdateStep::MarkStaged => UpdateStep::Installed,
        UpdateStep::Installed => UpdateStep::Installed,
        UpdateStep::Stopped => UpdateStep::Stopped,
        _ => {
            if ok {
                match step {
                    UpdateStep::ResolveTargets => UpdateStep::CheckWritable,
                    UpdateStep::CheckWritable => UpdateStep::FetchManifest,
                    UpdateStep::FetchManifest => UpdateStep::DownloadArchive,
                    UpdateStep::DownloadArchive => UpdateStep::DownloadSignature,
                    UpdateStep::DownloadSignature => UpdateStep::VerifySignature,
                    UpdateStep::VerifySignature => UpdateStep::PrepareScratch,
                    UpdateStep::PrepareScratch => UpdateStep::Extract,
                    UpdateStep::Extract => UpdateStep::LocateBundle,
                    UpdateStep::LocateBundle => UpdateStep::CheckBundle,
                    UpdateStep::CheckBundle => UpdateStep::SwapWeb,
                    UpdateStep::SwapWeb => UpdateStep::SwapMcp,
                    UpdateStep::SwapMcp => UpdateStep::SwapServer,
                    _ => UpdateStep::MarkStaged,
                }
            } else {
                match step {
                    UpdateStep::SwapMcp => UpdateStep::UndoWeb,
                    UpdateStep::SwapServer => UpdateStep::UndoMcp,
                    _ => UpdateStep::Stopped,
                }
            }
        },
    }
}

/// The phase to report before `step`. A download reports its own progress.
pub fn phase_before(step: UpdateStep) -> (r: Option<UpdatePhase>)
    ensures
        r == (match step {
            UpdateStep::VerifySignature => Some(UpdatePhase::Verifying),
            UpdateStep::PrepareScratch => Some(UpdatePhase::Extracting),
            UpdateStep::SwapWeb => Some(UpdatePhase::Swapping),
            _ => None,
        }),
{
    match step {
        UpdateStep::VerifySignature => Some(UpdatePhase::Verifying),
        UpdateStep::PrepareScratch => Some(UpdatePhase::Extracting),
        UpdateStep::SwapWeb => Some(UpdatePhase::Swapping),
        _ => None,
    }
}

/// The error for a platform without a release asset.
pub open spec fn platform_unsupported(os: Seq<char>, arch: Seq<char>) -> ErrorView {
    ErrorView::plain(
        AppErrorCode::DependencyMissing,
        "Self-update is not available for this platform ("@ + os + "/"@ + arch + ")"@,
    )
}

/// The error for an update on top of one that awaits a restart.
pub open spec fn already_staged() -> ErrorView {
    ErrorView::plain(
        AppErrorCode::AlreadyExists,
        "An update is already staged; restart the server to apply it before updating again"@,
    )
}

/// Begins an update: the asset to fetch and the first step. There has to be an asset
/// for the platform, and no update may be staged already, since its backups are the
/// way back.
pub fn begin_update(os: &str, arch: &str, staged: bool) -> (r: Result<
    (&'static str, UpdateStep),
    AppCommandError,
>)
    ensures
        match r {
            Ok((asset, step)) => asset_for(os@, arch@) == Some(asset@) && !staged && step
                == UpdateStep::ResolveTargets,
            Err(e) => {
                ||| asset_for(os@, arch@) is None && e@ == platform_unsupported(os@, arch@)
                ||| asset_for(os@, arch@) is Some && staged && e@ == already_staged()
            },
        },
{
    match asset_basename(os, arch) {
        None => {
            let mut message: String = "Self-update is not available for this platform (".to_owned();
            message.append(os);
            message.append("/");
            message.append(arch);
            message.append(")");
            Err(AppCommandError::new(AppErrorCode::DependencyMissing, message))
        },
        Some(asset) => {
            if staged {
                return Err(
                    AppCommandError::already_exists(
                        "An update is already staged; restart the server to apply it before updating again",
                    ),
                );
            }
            Ok((asset, UpdateStep::ResolveTargets))
        },
    }
}

/// The number of steps that can still follow.
pub open spec fn update_rank(step: UpdateStep) -> nat {
    match step {
        UpdateStep::ResolveTargets => 16,
        UpdateStep::CheckWritable => 15,
        UpdateStep::FetchManifest => 14,
        UpdateStep::DownloadArchive => 13,
        UpdateStep::DownloadSignature => 12,
        UpdateStep::VerifySignature => 11,
        UpdateStep::PrepareScratch => 10,
        UpdateStep::Extract => 9,
        UpdateStep::LocateBundle => 8,
        UpdateStep::CheckBundle => 7,
        UpdateStep::SwapWeb => 6,
        UpdateStep::SwapMcp => 5,
        UpdateStep::SwapServer => 4,
        UpdateStep::UndoMcp => 3,
        UpdateStep::UndoWeb => 2,
        UpdateStep::MarkStaged => 1,
        UpdateStep::Installed => 0,
        UpdateStep::Stopped => 0,
    }
}

/// The steps of an update from `step` on. `ok` tells which steps succeed.
pub open spec fn update_trace(step: UpdateStep, ok: spec_fn(UpdateStep) -> bool) -> Seq<UpdateStep>
    decreases update_rank(step),
{
    if step is Installed || step is Stopped {
        seq![step]
    } else {
        seq![step] + update_trace(update_after(step, ok(step)), ok)
    }
}

/// The artifacts that hold the new version.
pub struct Installed {
    pub web: bool,
    pub mcp: bool,
    pub server: bool,
}

/// What a step leaves behind: a swap that fails leaves the artifact as it was, and so
/// does an undo that fails.
pub open spec fn update_effect(step: UpdateStep, ok: bool, i: Installed) -> Installed {
    match step {
        UpdateStep::SwapWeb => Installed { web: ok || i.web, ..i },
        UpdateStep::SwapMcp => Installed { mcp: ok || i.mcp, ..i },
        UpdateStep::SwapServer => Installed { server: ok || i.server, ..i },
        UpdateStep::UndoMcp => Installed { mcp: i.mcp && !ok, ..i },
        UpdateStep::UndoWeb => Installed { web: i.web && !ok, ..i },
        _ => i,
    }
}

/// Where an update ends and which artifacts then hold the new version, from `step` on.
pub open spec fn update_run(step: UpdateStep, ok: spec_fn(UpdateStep) -> bool, i: Installed) -> (
    UpdateStep,
    Installed,
)
    decreases update_rank(step),
{
    if step is Installed || step is Stopped {
        (step, i)
    } else {
        update_run(update_after(step, ok(step)), ok, update_effect(step, ok(step), i))
    }
}

/// The step replaces or restores an artifact of the running server.
pub open spec fn touches_live_files(step: UpdateStep) -> bool {
    step is SwapWeb || step is SwapMcp || step is SwapServer || step is UndoMcp || step is UndoWeb
        || step is MarkStaged
}

/// Nothing of the running server is touched unless the signature was verified and the
/// bundle found complete.
pub proof fn law_no_swap_before_verification(ok: spec_fn(UpdateStep) -> bool)
    requires
        !(ok(UpdateStep::VerifySignature) && ok(UpdateStep::CheckBundle)),
    ensures
        forall|i: int|
            0 <= i < update_trace(UpdateStep::ResolveTargets, ok).len() ==> !touches_live_files(
                #[trigger] update_trace(UpdateStep::ResolveTargets, ok)[i],
            ),
{
    lemma_trace_before_swap(UpdateStep::ResolveTargets, ok);
}

proof fn lemma_trace_before_swap(step: UpdateStep, ok: spec_fn(UpdateStep) -> bool)
    requires
        !(ok(UpdateStep::VerifySignature) && ok(UpdateStep::CheckBundle)),
        update_rank(step) >= 7 || step is Stopped,
        update_rank(step) < 11 ==> ok(UpdateStep::VerifySignature) || step is Stopped,
    ensures
        forall|i: int|
            0 <= i < update_trace(step, ok).len() ==> !touches_live_files(
                #[trigger] update_trace(step, ok)[i],
            ),
    decreases update_rank(step),
{
    if !(step is Stopped) {
        let next = update_after(step, ok(step));
        lemma_trace_before_swap(next, ok);
        let rest = update_trace(next, ok);
        let all = update_trace(step, ok);
        assert forall|i: int| 0 <= i < all.len() implies !touches_live_files(#[trigger] all[i]) by {
            if i > 0 {
                assert(all[i] == rest[i - 1]);
            }
        }
    }
}

/// An update installs all or nothing: where it succeeds all three artifacts hold the
/// new version, and where it is given up none does, as long as what has to be undone
/// can be undone.
pub proof fn law_update_is_all_or_nothing(ok: spec_fn(UpdateStep) -> bool)
    requires
        ok(UpdateStep::UndoMcp),
        ok(UpdateStep::UndoWeb),
    ensures
        ({
            let old_version = Installed { web: false, mcp: false, server: false };
            let (end, i) = update_run(UpdateStep::ResolveTargets, ok, old_version);
            &&& end is Installed || end is Stopped
            &&& end is Installed ==> i.web && i.mcp && i.server
            &&& end is Stopped ==> !i.web && !i.mcp && !i.server
        }),
{
    reveal_with_fuel(update_run, 18);
}

// ---------------------------------------------------------------------------
// Requests
// ---------------------------------------------------------------------------

/// What a request to update, restart or roll back is answered with. `C` tells what
/// kind of update the runtime is capable of.
#[derive(Debug)]
pub struct UpdateActionResult<C> {
    /// The version that was installed, after an update.
    pub version: Option<String>,
    /// Whether a restart has to follow.
    pub need_restart: bool,
    /// How long the restart takes to begin, in milliseconds.
    pub restart_delay_ms: u64,
    pub capability: C,
}

/// The error for an update of a desktop application.
pub fn not_supported() -> (r: AppCommandError)
    ensures
        r@ == ErrorView::plain(
            AppErrorCode::InvalidInput,
            "In-place update is only available in server mode"@,
        ),
{
    AppCommandError::invalid_input("In-place update is only available in server mode".to_owned())
}

/// The error for an operation while another one is under way.
pub fn busy() -> (r: AppCommandError)
    ensures
        r@ == ErrorView::plain(
            AppErrorCode::AlreadyExists,
            "An update operation is already in progress"@,
        ),
{
    AppCommandError::already_exists("An update operation is already in progress")
}

/// Refuses platforms on which a server cannot be updated in place.
pub fn ensure_supported(windows: bool) -> (r: Result<(), AppCommandError>)
    ensures
        match r {
            Ok(_) => !windows,
            Err(e) => windows && e@ == ErrorView::plain(
                AppErrorCode::InvalidInput,
                "In-place server self-update is not supported on Windows yet"@,
            ),
        },
{
    if windows {
        return Err(
            AppCommandError::invalid_input(
                "In-place server self-update is not supported on Windows yet".to_owned(),
            ),
        );
    }
    Ok(())
}

/// Admits an operation: the platform has to support it, and no other may be under way.
pub fn admit_operation(windows: bool, lock_free: bool) -> (r: Result<(), AppCommandError>)
    ensures
        match r {
            Ok(_) => !windows && lock_free,
            Err(e) => {
                ||| windows && e@ == ErrorView::plain(
                    AppErrorCode::InvalidInput,
                    "In-place server self-update is not supported on Windows yet"@,
                )
                ||| !windows && !lock_free && e@ == ErrorView::plain(
                    AppErrorCode::AlreadyExists,
                    "An update operation is already in progress"@,
                )
            },
        },
{
    ensure_supported(windows)?;
    if !lock_free {
        return Err(busy());
    }
    Ok(())
}

/// The answer to an update.
pub fn update_result<C>(outcome: InstallOutcome, restart_delay_ms: u64, capability: C) -> (r:
    UpdateActionResult<C>)
    ensures
        r.version matches Some(v) && v@ == outcome.version@,
        r.need_restart,
        r.restart_delay_ms == restart_delay_ms,
        r.capability == capability,
{
    UpdateActionResult {
        version: Some(outcome.version),
        need_restart: true,
        restart_delay_ms,
        capability,
    }
}

/// The answer to a restart.
pub fn restart_result<C>(restart_delay_ms: u64, capability: C) -> (r: UpdateActionResult<C>)
    ensures
        r.version is None,
        !r.need_restart,
        r.restart_delay_ms == restart_delay_ms,
        r.capability == capability,
{
    UpdateActionResult { version: None, need_restart: false, restart_delay_ms, capability }
}

/// The answer to a rollback.
pub fn rollback_result<C>(restart_delay_ms: u64, capability: C) -> (r: UpdateActionResult<C>)
    ensures
        r.version is None,
        r.need_restart,
        r.restart_delay_ms == restart_delay_ms,
        r.capability == capability,
{
    UpdateActionResult { version: None, need_restart: true, restart_delay_ms, capability }
}

/// The steps of a replacement, by what became of the one before. A failed copy, or a target
/// that cannot be moved aside, ends it; leftovers that cannot be cleared do not. A file is
/// made executable, a directory is not. Where the new version cannot be moved in, the old
/// one is put back.
pub proof fn law_steps_of_a_replacement(kind: ArtifactKind, yes: bool)
    ensures
        replace_after(kind, ReplaceStep::ClearStaged, yes) == ReplaceStep::CopyNew,
        replace_after(kind, ReplaceStep::CopyNew, false) == ReplaceStep::Failed,
        replace_after(ArtifactKind::File, ReplaceStep::CopyNew, true)
            == ReplaceStep::MakeExecutable,
        replace_after(ArtifactKind::Directory, ReplaceStep::CopyNew, true)
            == ReplaceStep::ClearBackup,
        replace_after(kind, ReplaceStep::MakeExecutable, yes) == ReplaceStep::ClearBackup,
        replace_after(kind, ReplaceStep::ClearBackup, yes) == ReplaceStep::ProbeTarget,
        replace_after(kind, ReplaceStep::ProbeTarget, true) == ReplaceStep::MoveTargetAside,
        replace_after(kind, ReplaceStep::ProbeTarget, false) == ReplaceStep::MoveNewIn,
        replace_after(kind, ReplaceStep::MoveTargetAside, true) == ReplaceStep::MoveNewIn,
        replace_after(kind, ReplaceStep::MoveTargetAside, false) == ReplaceStep::Failed,
        replace_after(kind, ReplaceStep::MoveNewIn, true) == ReplaceStep::Done,
        replace_after(kind, ReplaceStep::MoveNewIn, false) == ReplaceStep::PutBack,
        replace_after(kind, ReplaceStep::PutBack, yes) == ReplaceStep::Failed,
        replace_after(kind, ReplaceStep::Done, yes) == ReplaceStep::Done,
        replace_after(kind, ReplaceStep::Failed, yes) == ReplaceStep::Failed,
{
}

/// A replacement succeeds if and only if the new version can be copied and moved in and the
/// target, if there is one, moved aside; whatever else goes wrong does not matter.
pub proof fn law_when_a_replacement_succeeds<C>(
    kind: ArtifactKind,
    ok: spec_fn(ReplaceStep) -> bool,
    p: Places<C>,
)
    ensures
        replace_run(kind, ReplaceStep::ClearStaged, ok, p).0 is Done <==> ok(ReplaceStep::CopyNew)
            && (p.target is None || ok(ReplaceStep::MoveTargetAside)) && ok(ReplaceStep::MoveNewIn),
{
    reveal_with_fuel(replace_run, 10);
}

/// The previous version comes back if and only if there is one and it can be moved in,
/// whether the present one could be removed before or not. Without one, nothing is touched.
pub proof fn law_when_a_version_comes_back<C>(remove_ok: bool, move_ok: bool, p: Places<C>, yes: bool)
    ensures
        restore_run(remove_ok, move_ok, p).0 is Restored <==> p.backup is Some && move_ok,
        restore_run(remove_ok, move_ok, p).0 is NothingToRestore <==> p.backup is None,
        restore_run(remove_ok, move_ok, p).0 is Failed <==> p.backup is Some && !move_ok,
        p.backup is None ==> restore_run(remove_ok, move_ok, p).1 == p,
        p.backup is Some && move_ok ==> restore_run(remove_ok, move_ok, p).1.target == p.backup,
        restore_after(RestoreStep::ProbeBackup, true) == RestoreStep::RemoveTarget,
        restore_after(RestoreStep::ProbeBackup, false) == RestoreStep::NothingToRestore,
        restore_after(RestoreStep::RemoveTarget, yes) == RestoreStep::MoveBackupIn,
        restore_after(RestoreStep::MoveBackupIn, true) == RestoreStep::Restored,
        restore_after(RestoreStep::MoveBackupIn, false) == RestoreStep::Failed,
        restore_after(RestoreStep::Restored, yes) == RestoreStep::Restored,
        restore_after(RestoreStep::NothingToRestore, yes) == RestoreStep::NothingToRestore,
        restore_after(RestoreStep::Failed, yes) == RestoreStep::Failed,
{
}

/// The steps of an update that goes well, each of which follows from the success of the one
/// before it.
pub proof fn law_steps_of_an_update(ok: bool)
    ensures
        update_after(UpdateStep::ResolveTargets, true) == UpdateStep::CheckWritable,
        update_after(UpdateStep::CheckWritable, true) == UpdateStep::FetchManifest,
        update_after(UpdateStep::FetchManifest, true) == UpdateStep::DownloadArchive,
        update_after(UpdateStep::DownloadArchive, true) == UpdateStep::DownloadSignature,
        update_after(UpdateStep::DownloadSignature, true) == UpdateStep::VerifySignature,
        update_after(UpdateStep::VerifySignature, true) == UpdateStep::PrepareScratch,
        update_after(UpdateStep::PrepareScratch, true) == UpdateStep::Extract,
        update_after(UpdateStep::Extract, true) == UpdateStep::LocateBundle,
        update_after(UpdateStep::LocateBundle, true) == UpdateStep::CheckBundle,
        update_after(UpdateStep::CheckBundle, true) == UpdateStep::SwapWeb,
        update_after(UpdateStep::SwapWeb, true) == UpdateStep::SwapMcp,
        update_after(UpdateStep::SwapMcp, true) == UpdateStep::SwapServer,
        update_after(UpdateStep::SwapServer, true) == UpdateStep::MarkStaged,
        update_after(UpdateStep::MarkStaged, ok) == UpdateStep::Installed,
        update_after(UpdateStep::Installed, ok) == UpdateStep::Installed,
{
}

/// What follows a failure: before anything was swapped the update stops, and so it does
/// where the first swap fails; a later swap that fails has those before it undone, the last
/// first.
pub proof fn law_steps_of_a_failed_update(step: UpdateStep, ok: bool)
    ensures
        step is ResolveTargets || step is CheckWritable || step is FetchManifest
            || step is DownloadArchive || step is DownloadSignature || step is VerifySignature
            || step is PrepareScratch || step is Extract || step is LocateBundle
            || step is CheckBundle || step is SwapWeb ==> update_after(step, false)
            == UpdateStep::Stopped,
        update_after(UpdateStep::SwapMcp, false) == UpdateStep::UndoWeb,
        update_after(UpdateStep::SwapServer, false) == UpdateStep::UndoMcp,
        update_after(UpdateStep::UndoMcp, ok) == UpdateStep::UndoWeb,
        update_after(UpdateStep::UndoWeb, ok) == UpdateStep::Stopped,
        update_after(UpdateStep::Stopped, ok) == UpdateStep::Stopped,
{
}

/// An update installs the new version if and only if every step up to the last swap
/// succeeds.
pub proof fn law_when_an_update_installs(ok: spec_fn(UpdateStep) -> bool, i: Installed)
    ensures
        update_run(UpdateStep::ResolveTargets, ok, i).0 is Installed <==> ok(
            UpdateStep::ResolveTargets,
        ) && ok(UpdateStep::CheckWritable) && ok(UpdateStep::FetchManifest) && ok(
            UpdateStep::DownloadArchive,
        ) && ok(UpdateStep::DownloadSignature) && ok(UpdateStep::VerifySignature) && ok(
            UpdateStep::PrepareScratch,
        ) && ok(UpdateStep::Extract) && ok(UpdateStep::LocateBundle) && ok(
            UpdateStep::CheckBundle,
        ) && ok(UpdateStep::SwapWeb) && ok(UpdateStep::SwapMcp) && ok(UpdateStep::SwapServer),
{
    reveal_with_fuel(update_run, 18);
}

/// The asset of a platform is called after it: by the system, with macOS as darwin, and by
/// the processor, as x64 or arm64. There is one for Linux and macOS on either, and for
/// Windows on x64.
pub proof fn law_assets_are_called_after_platforms(os: Seq<char>, arch: Seq<char>)
    ensures
        asset_for("linux"@, "x86_64"@) == Some("codeg-server-linux-x64"@),
        asset_for("linux"@, "aarch64"@) == Some("codeg-server-linux-arm64"@),
        asset_for("macos"@, "x86_64"@) == Some("codeg-server-darwin-x64"@),
        asset_for("macos"@, "aarch64"@) == Some("codeg-server-darwin-arm64"@),
        asset_for("windows"@, "x86_64"@) == Some("codeg-server-windows-x64"@),
        asset_for("windows"@, "aarch64"@) is None,
        os != "linux"@ && os != "macos"@ && os != "windows"@ ==> asset_for(os, arch) is None,
        arch != "x86_64"@ && arch != "aarch64"@ ==> asset_for(os, arch) is None,
{
    reveal_strlit("linux");
    reveal_strlit("macos");
    reveal_strlit("windows");
    reveal_strlit("x86_64");
    reveal_strlit("aarch64");
    assert("linux"@[0] == 'l');
    assert("macos"@[0] == 'm');
    assert("windows"@[0] == 'w');
    assert("x86_64"@[0] == 'x');
    assert("aarch64"@[0] == 'a');
}

/// The bundle is looked for in the directory called like the asset, then in the extraction
/// directory, then in that directory's entries, the first before the others; it is not
/// found only where it is in none of them.
pub proof fn law_bundle_is_looked_for_in_order(
    in_extract_dir: bool,
    entries: Seq<ExtractedEntry>,
    at: int,
)
    requires
        entries.len() <= usize::MAX,
    ensures
        bundle_root(true, in_extract_dir, entries) == Some(BundleRoot::AssetDirectory),
        bundle_root(false, true, entries) == Some(BundleRoot::ExtractDirectory),
        0 <= at < entries.len() && entries[at].is_dir && entries[at].has_server && (forall|k: int|
            0 <= k < at ==> !(#[trigger] entries[k]).is_dir || !entries[k].has_server)
            ==> bundle_root(false, false, entries) == Some(BundleRoot::Entry(at as usize)),
        (forall|k: int|
            0 <= k < entries.len() ==> !(#[trigger] entries[k]).is_dir || !entries[k].has_server)
            ==> bundle_root(false, false, entries) is None,
{
    lemma_first_bundle_is(entries, 0, at);
}

proof fn lemma_first_bundle_is(entries: Seq<ExtractedEntry>, from: int, at: int)
    requires
        0 <= from,
    ensures
        from <= at < entries.len() && entries[at].holds_bundle() && (forall|k: int|
            from <= k < at ==> !(#[trigger] entries[k]).is_dir || !entries[k].has_server)
            ==> first_bundle(entries, from) == Some(BundleRoot::Entry(at as usize)),
        (forall|k: int|
            from <= k < entries.len() ==> !(#[trigger] entries[k]).is_dir || !entries[k].has_server)
            ==> first_bundle(entries, from) is None,
    decreases entries.len() - from,
{
    if from < entries.len() {
        lemma_first_bundle_is(entries, from + 1, at);
        if from <= at < entries.len() && (forall|k: int|
            from <= k < at ==> !(#[trigger] entries[k]).is_dir || !entries[k].has_server) {
            if from < at {
                assert(!entries[from].holds_bundle());
            }
        }
        if forall|k: int|
            from <= k < entries.len() ==> !(#[trigger] entries[k]).is_dir
                || !entries[k].has_server {
            assert(!entries[from].holds_bundle());
        }
    }
}

/// A backup stands beside its target, under the target's path with `.bak` behind it; no two
/// targets share one.
pub proof fn law_backups_stand_beside_their_targets(path: Seq<u8>, other: Seq<u8>)
    ensures
        backup_of(path).len() == path.len() + 4,
        backup_of(path).take(path.len() as int) == path,
        backup_of(path)[path.len() as int] == 46,
        backup_of(path)[path.len() as int + 1] == 98,
        backup_of(path)[path.len() as int + 2] == 97,
        backup_of(path)[path.len() as int + 3] == 107,
        backup_of(path) == backup_of(other) ==> path == other,
{
    assert(backup_of(path).take(path.len() as int) =~= path);
    assert(backup_of(other).take(other.len() as int) =~= other);
}

/// A restart is owed where the marker says so, and only there.
pub proof fn law_marker_says_what_is_staged()
    ensures
        staged_by(Some(true)),
        !staged_by(Some(false)),
        !staged_by(None),
        marker_taken(Some(true)) == Some(false),
        marker_taken(Some(false)) == Some(false),
        marker_taken(None) is None,
{
}

/// How the phases are written, how large a package may be, and what is reported where there
/// is no update for a platform, one is staged already, or none can be undone.
pub proof fn law_update_reports(os: Seq<char>, arch: Seq<char>)
    ensures
        UpdatePhase::Downloading.name() == "downloading"@,
        UpdatePhase::Verifying.name() == "verifying"@,
        UpdatePhase::Extracting.name() == "extracting"@,
        UpdatePhase::Swapping.name() == "swapping"@,
        MAX_ARCHIVE_BYTES == 629_145_600,
        platform_unsupported(os, arch).code == AppErrorCode::DependencyMissing,
        platform_unsupported(os, arch).message
            == "Self-update is not available for this platform ("@ + os + "/"@ + arch + ")"@,
        already_staged().code == AppErrorCode::AlreadyExists,
        already_staged().message
            == "An update is already staged; restart the server to apply it before updating again"@,
        nothing_to_roll_back().code == AppErrorCode::NotFound,
        nothing_to_roll_back().message == "No previous version is available to roll back to"@,
{
}

/// Where the places of the artifacts are not known nothing is restored, and that is the
/// answer.
pub proof fn law_rollback_stops_without_places(e: ErrorView)
    ensures
        rollback_after(RollbackEventView::Resolved(Err(e))) == RollbackView::Finish(Err(e)),
{
}


} // verus!
