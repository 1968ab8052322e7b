use codeg::archive::{
    extract_err, plan_archive, plan_tar_gz, plan_tar_members, plan_zip, plan_zip_members,
    sanitize_entry_path, TarMember, ZipMember, MAX_EXTRACTED_BYTES,
};
use codeg::error::{AppCommandError, AppErrorCode};
use codeg::update::{
    admit_operation, archive_ext, asset_basename, bak_path, begin_replace, begin_update, busy,
    check_announced_size, check_bundle, download_urls, fetch_failed, fetch_interrupted,
    fetch_refused, find_bundle_root, mcp_bin_filename, next_replace, next_restore, next_update,
    not_supported, not_writable, phase_before, restart_result, rollback, rollback_available,
    rollback_result, scratch_dir_name, server_bin_filename, signature_rejected, staged_name,
    take_upgrade_staged, update_result, upgrade_staged, write_probe_name, Artifact, ArtifactKind,
    BundleRoot, Download, ExtractedEntry, Fetch, InstallOutcome, ReplaceStep, RestoreStep,
    RollbackEvent, RollbackStep, UpdatePhase, UpdateStep, MAX_ARCHIVE_BYTES,
};

#[test]
fn sanitize_rejects_parent_escape() {
    assert!(sanitize_entry_path(b"../evil").is_err());
    assert!(sanitize_entry_path(b"a/../../b").is_err());
}

#[test]
fn sanitize_keeps_normal_paths() {
    let p = sanitize_entry_path(b"codeg-server-linux-x64/web/index.html").unwrap();
    assert_eq!(p, b"codeg-server-linux-x64/web/index.html".to_vec());
}

#[test]
fn sanitize_drops_dots_and_doubled_slashes() {
    assert_eq!(sanitize_entry_path(b"./a//b/./c/").unwrap(), b"a/b/c".to_vec());
    assert_eq!(sanitize_entry_path(b"").unwrap(), Vec::<u8>::new());
    assert_eq!(sanitize_entry_path(b"..a/b..").unwrap(), b"..a/b..".to_vec());
}

#[test]
fn sanitize_reports_the_path() {
    let error = sanitize_entry_path(b"/etc/\xffx").expect_err("absolute");
    assert_eq!(error.code, AppErrorCode::InvalidInput);
    assert_eq!(
        error.message,
        "Update archive contains an unsafe path entry: /etc/\u{fffd}x"
    );
}

#[test]
fn asset_basename_is_known_for_supported_targets() {
    assert_eq!(asset_basename("linux", "x86_64"), Some("codeg-server-linux-x64"));
    assert_eq!(asset_basename("linux", "aarch64"), Some("codeg-server-linux-arm64"));
    assert_eq!(asset_basename("macos", "x86_64"), Some("codeg-server-darwin-x64"));
    assert_eq!(asset_basename("macos", "aarch64"), Some("codeg-server-darwin-arm64"));
    assert_eq!(asset_basename("windows", "x86_64"), Some("codeg-server-windows-x64"));
    assert_eq!(asset_basename("windows", "aarch64"), None);
    assert_eq!(asset_basename("freebsd", "x86_64"), None);
}

/// What stands at the paths that a replacement touches.
struct Disk {
    target: Option<&'static str>,
    backup: Option<&'static str>,
    staged: Option<&'static str>,
    source: &'static str,
}

fn replace(kind: ArtifactKind, disk: &mut Disk, fail_at: Option<ReplaceStep>) -> ReplaceStep {
    let mut step = begin_replace(kind, true, true).unwrap();
    while step != ReplaceStep::Done && step != ReplaceStep::Failed {
        let mut yes = fail_at != Some(step);
        if yes {
            match step {
                ReplaceStep::ClearStaged => disk.staged = None,
                ReplaceStep::CopyNew => disk.staged = Some(disk.source),
                ReplaceStep::ClearBackup => disk.backup = None,
                ReplaceStep::ProbeTarget => yes = disk.target.is_some(),
                ReplaceStep::MoveTargetAside => disk.backup = disk.target.take(),
                ReplaceStep::MoveNewIn => disk.target = disk.staged.take(),
                ReplaceStep::PutBack => disk.target = disk.backup.take(),
                _ => {}
            }
        }
        step = next_replace(kind, step, yes);
    }
    step
}

fn restore(disk: &mut Disk) -> RestoreStep {
    let mut step = RestoreStep::ProbeBackup;
    loop {
        let yes = match step {
            RestoreStep::ProbeBackup => disk.backup.is_some(),
            RestoreStep::RemoveTarget => {
                disk.target = None;
                true
            }
            RestoreStep::MoveBackupIn => {
                disk.target = disk.backup.take();
                true
            }
            _ => return step,
        };
        step = next_restore(step, yes);
    }
}

fn old_and_new() -> Disk {
    Disk { target: Some("old"), backup: Some("older"), staged: None, source: "new" }
}

#[test]
fn replace_file_keeps_backup_and_swaps() {
    let mut disk = old_and_new();
    assert_eq!(replace(ArtifactKind::File, &mut disk, None), ReplaceStep::Done);
    assert_eq!(disk.target, Some("new"));
    assert_eq!(disk.backup, Some("old"));
    assert_eq!(restore(&mut disk), RestoreStep::Restored);
    assert_eq!(disk.target, Some("old"));
    assert_eq!(restore(&mut disk), RestoreStep::NothingToRestore);
}

#[test]
fn replace_dir_keeps_backup_and_swaps() {
    let mut disk = old_and_new();
    assert_eq!(replace(ArtifactKind::Directory, &mut disk, None), ReplaceStep::Done);
    assert_eq!(disk.target, Some("new"));
    assert_eq!(disk.backup, Some("old"));
    assert_eq!(restore(&mut disk), RestoreStep::Restored);
    assert_eq!(disk.target, Some("old"));
}

#[test]
fn replace_that_fails_keeps_the_target() {
    for step in [ReplaceStep::CopyNew, ReplaceStep::MoveTargetAside, ReplaceStep::MoveNewIn] {
        let mut disk = old_and_new();
        assert_eq!(replace(ArtifactKind::File, &mut disk, Some(step)), ReplaceStep::Failed);
        assert_eq!(disk.target, Some("old"));
    }
}

#[test]
fn replace_without_target_needs_no_backup() {
    let mut disk = Disk { target: None, backup: None, staged: None, source: "new" };
    assert_eq!(replace(ArtifactKind::File, &mut disk, None), ReplaceStep::Done);
    assert_eq!(disk.target, Some("new"));
    assert_eq!(disk.backup, None);
}

#[test]
fn replace_needs_directory_and_name() {
    let message = |kind, parent, name| begin_replace(kind, parent, name).expect_err("refused").message;
    assert_eq!(message(ArtifactKind::File, false, true), "Cannot resolve target directory");
    assert_eq!(message(ArtifactKind::File, true, false), "Invalid target filename");
    assert_eq!(message(ArtifactKind::Directory, true, false), "Invalid target directory name");
}

fn run_update(failing: &[UpdateStep]) -> (UpdateStep, Vec<UpdateStep>) {
    let mut step = UpdateStep::ResolveTargets;
    let mut steps = Vec::new();
    while step != UpdateStep::Installed && step != UpdateStep::Stopped {
        steps.push(step);
        step = next_update(step, !failing.contains(&step));
    }
    (step, steps)
}

#[test]
fn update_swaps_web_then_mcp_then_server() {
    let (end, steps) = run_update(&[]);
    assert_eq!(end, UpdateStep::Installed);
    assert_eq!(
        steps[9..],
        [
            UpdateStep::CheckBundle,
            UpdateStep::SwapWeb,
            UpdateStep::SwapMcp,
            UpdateStep::SwapServer,
            UpdateStep::MarkStaged
        ]
    );
}

#[test]
fn update_undoes_what_was_swapped() {
    let (end, steps) = run_update(&[UpdateStep::SwapServer]);
    assert_eq!(end, UpdateStep::Stopped);
    assert_eq!(steps[steps.len() - 2..], [UpdateStep::UndoMcp, UpdateStep::UndoWeb]);
    let (end, steps) = run_update(&[UpdateStep::SwapMcp]);
    assert_eq!(end, UpdateStep::Stopped);
    assert_eq!(steps[steps.len() - 2..], [UpdateStep::SwapMcp, UpdateStep::UndoWeb]);
    let (end, steps) = run_update(&[UpdateStep::SwapWeb]);
    assert_eq!(end, UpdateStep::Stopped);
    assert_eq!(steps.last(), Some(&UpdateStep::SwapWeb));
}

#[test]
fn update_stops_before_the_swap_without_signature() {
    let (end, steps) = run_update(&[UpdateStep::VerifySignature]);
    assert_eq!(end, UpdateStep::Stopped);
    assert_eq!(steps.last(), Some(&UpdateStep::VerifySignature));
}

#[test]
fn update_reports_its_phases() {
    assert_eq!(phase_before(UpdateStep::VerifySignature), Some(UpdatePhase::Verifying));
    assert_eq!(phase_before(UpdateStep::PrepareScratch), Some(UpdatePhase::Extracting));
    assert_eq!(phase_before(UpdateStep::SwapWeb), Some(UpdatePhase::Swapping));
    assert_eq!(phase_before(UpdateStep::SwapMcp), None);
    assert_eq!(UpdatePhase::Downloading.as_str(), "downloading");
    assert_eq!(UpdatePhase::Swapping.as_str(), "swapping");
}

#[test]
fn update_begins_where_it_is_possible() {
    let (asset, step) = begin_update("linux", "x86_64", false).unwrap();
    assert_eq!(asset, "codeg-server-linux-x64");
    assert_eq!(step, UpdateStep::ResolveTargets);
    let error = begin_update("plan9", "mips", true).expect_err("platform");
    assert_eq!(error.code, AppErrorCode::DependencyMissing);
    assert_eq!(error.message, "Self-update is not available for this platform (plan9/mips)");
    let error = begin_update("linux", "x86_64", true).expect_err("staged");
    assert_eq!(error.code, AppErrorCode::AlreadyExists);
    assert_eq!(
        error.message,
        "An update is already staged; restart the server to apply it before updating again"
    );
}

fn run_rollback(
    outcomes: [Result<bool, AppCommandError>; 3],
) -> (Vec<Artifact>, Result<(), AppCommandError>) {
    let mut order = Vec::new();
    let mut outcomes = outcomes.into_iter();
    let mut step = rollback(RollbackEvent::Resolved(Ok(())));
    loop {
        match step {
            RollbackStep::Restore { artifact, so_far } => {
                let outcome = outcomes.next().expect("three attempts");
                order.push(artifact);
                step = rollback(RollbackEvent::Attempted { artifact, so_far, outcome });
            }
            RollbackStep::Finish(result) => return (order, result),
        }
    }
}

#[test]
fn rollback_restores_every_artifact() {
    let (order, result) = run_rollback([Ok(true), Ok(false), Ok(false)]);
    assert_eq!(order, [Artifact::Server, Artifact::Mcp, Artifact::Web]);
    assert!(result.is_ok());
    assert!(run_rollback([Ok(false), Ok(false), Ok(true)]).1.is_ok());
}

#[test]
fn rollback_without_backups_is_refused() {
    let error = run_rollback([Ok(false), Ok(false), Ok(false)]).1.expect_err("nothing kept");
    assert_eq!(error.code, AppErrorCode::NotFound);
    assert_eq!(error.message, "No previous version is available to roll back to");
}

#[test]
fn rollback_goes_on_after_a_failure_and_reports_the_first() {
    let failed = |message: &str| Err(AppCommandError::io_error(message));
    let (order, result) = run_rollback([failed("busy"), Ok(true), failed("gone")]);
    assert_eq!(order, [Artifact::Server, Artifact::Mcp, Artifact::Web]);
    assert_eq!(result.expect_err("one failed").message, "busy");
    let (order, result) = run_rollback([Ok(true), Ok(false), failed("gone")]);
    assert_eq!(order.len(), 3);
    assert_eq!(result.expect_err("the last failed").message, "gone");
    match rollback(RollbackEvent::Resolved(Err(AppCommandError::io_error("lost")))) {
        RollbackStep::Finish(Err(e)) => assert_eq!(e.message, "lost"),
        other => panic!("{other:?}"),
    }
}

#[test]
fn rollback_is_offered_where_it_finds_something() {
    for bits in 0..8u8 {
        let kept = [bits & 1 != 0, bits & 2 != 0, bits & 4 != 0];
        let found = run_rollback([Ok(kept[0]), Ok(kept[1]), Ok(kept[2])]).1.is_ok();
        assert_eq!(rollback_available(Some((kept[0], kept[1], kept[2]))), found);
    }
    assert!(rollback_available(Some((false, true, false))));
    assert!(rollback_available(Some((false, false, true))));
    assert!(!rollback_available(Some((false, false, false))));
    assert!(!rollback_available(None));
}

#[test]
fn staged_upgrades_are_taken_once() {
    assert!(upgrade_staged(Some(true)));
    assert!(!upgrade_staged(Some(false)));
    assert!(!upgrade_staged(None));
    let (taken, left) = take_upgrade_staged(Some(true));
    assert!(taken);
    assert_eq!(left, Some(false));
    assert!(!upgrade_staged(left));
    assert_eq!(take_upgrade_staged(left), (false, Some(false)));
    assert_eq!(take_upgrade_staged(None), (false, None));
}

#[test]
fn names_of_files_and_addresses() {
    assert_eq!(archive_ext(true), ".zip");
    assert_eq!(archive_ext(false), ".tar.gz");
    assert_eq!(server_bin_filename(true), "codeg-server.exe");
    assert_eq!(server_bin_filename(false), "codeg-server");
    assert_eq!(mcp_bin_filename(true), "codeg-mcp.exe");
    assert_eq!(mcp_bin_filename(false), "codeg-mcp");
    assert_eq!(bak_path(b"/opt/codeg-server"), b"/opt/codeg-server.bak".to_vec());
    assert_eq!(staged_name("web"), ".web.new");
    assert_eq!(scratch_dir_name(4321), ".codeg-update-4321");
    assert_eq!(write_probe_name(10), ".codeg-write-probe-10");
    let (archive, signature) = download_urls("https://host/latest", "asset", ".tar.gz");
    assert_eq!(archive, "https://host/latest/asset.tar.gz");
    assert_eq!(signature, "https://host/latest/asset.tar.gz.sig");
}

#[test]
fn downloads_are_bounded() {
    assert!(check_announced_size(None).is_ok());
    assert!(check_announced_size(Some(MAX_ARCHIVE_BYTES)).is_ok());
    let error = check_announced_size(Some(MAX_ARCHIVE_BYTES + 1)).expect_err("announced");
    assert_eq!(error.message, "Update package is unexpectedly large (629145601 bytes)");
    let mut download = Download::new();
    assert_eq!(download.accept_chunk(100).unwrap(), 100);
    assert_eq!(download.accept_chunk(MAX_ARCHIVE_BYTES - 100).unwrap(), MAX_ARCHIVE_BYTES);
    let error = download.accept_chunk(1).expect_err("received");
    assert_eq!(error.message, "Update package exceeded the maximum allowed size");
}

#[test]
fn network_errors_name_what_was_fetched() {
    let e = fetch_failed(Fetch::Package, "dns".to_string());
    assert_eq!(e.code, AppErrorCode::Network);
    assert_eq!(e.message, "Failed to download update package");
    assert_eq!(e.detail.as_deref(), Some("dns"));
    assert_eq!(
        fetch_refused(Fetch::Signature, "404 Not Found").message,
        "Update signature download returned status 404 Not Found"
    );
    assert_eq!(
        fetch_interrupted(Fetch::Package, String::new()).message,
        "Update download interrupted"
    );
    assert_eq!(
        signature_rejected("bad key".to_string()).message,
        "Update signature verification failed"
    );
    let e = not_writable("/usr/local/bin", "read-only".to_string());
    assert_eq!(e.code, AppErrorCode::PermissionDenied);
    assert_eq!(e.message, "Update target is not writable: /usr/local/bin");
}

#[test]
fn bundle_is_found_and_checked() {
    let other = ExtractedEntry { is_dir: true, has_server: false };
    let file = ExtractedEntry { is_dir: false, has_server: true };
    let bundle = ExtractedEntry { is_dir: true, has_server: true };
    let entries = vec![other, file, bundle, bundle];
    assert_eq!(find_bundle_root(true, true, &entries).unwrap(), BundleRoot::AssetDirectory);
    assert_eq!(find_bundle_root(false, true, &entries).unwrap(), BundleRoot::ExtractDirectory);
    assert_eq!(find_bundle_root(false, false, &entries).unwrap(), BundleRoot::Entry(2));
    let error = find_bundle_root(false, false, &vec![other, file]).expect_err("nowhere");
    assert_eq!(
        error.message,
        "Could not locate the server binary inside the update package"
    );
    assert!(check_bundle(true, true, true).is_ok());
    assert!(check_bundle(true, true, false).is_err());
    assert!(check_bundle(true, false, true).is_err());
    let error = check_bundle(false, true, true).expect_err("incomplete");
    assert_eq!(error.code, AppErrorCode::TaskExecutionFailed);
}

#[test]
fn requests_are_admitted_one_at_a_time() {
    assert!(admit_operation(false, true).is_ok());
    assert_eq!(admit_operation(false, false).expect_err("busy").message, busy().message);
    assert_eq!(
        admit_operation(true, false).expect_err("windows").message,
        "In-place server self-update is not supported on Windows yet"
    );
    assert_eq!(
        not_supported().message,
        "In-place update is only available in server mode"
    );
}

#[test]
fn answers_tell_whether_to_restart() {
    let done = update_result(InstallOutcome { version: "1.2.3".to_string() }, 500, "full");
    assert_eq!(done.version.as_deref(), Some("1.2.3"));
    assert!(done.need_restart);
    assert_eq!(done.restart_delay_ms, 500);
    assert_eq!(done.capability, "full");
    assert!(!restart_result(1, ()).need_restart);
    assert!(rollback_result(1, ()).need_restart);
    assert!(rollback_result(1, ()).version.is_none());
}

fn tar_member(path: &str, is_dir: bool, is_file: bool, size: Option<u64>) -> Result<TarMember, String> {
    Ok(TarMember {
        path: path.as_bytes().to_vec(),
        is_dir,
        is_file,
        kind_label: "Symlink".to_string(),
        size,
    })
}

#[test]
fn tar_plan_follows_the_entries() {
    let plan = plan_tar_members(&vec![
        tar_member("bundle/", true, false, None),
        tar_member("./bundle/server", false, true, Some(10)),
    ]);
    assert!(plan.error.is_none());
    assert_eq!(plan.actions.len(), 2);
    assert_eq!((plan.actions[0].index, plan.actions[0].is_dir), (0, true));
    assert_eq!(plan.actions[0].path, b"bundle".to_vec());
    assert_eq!((plan.actions[1].index, plan.actions[1].is_dir), (1, false));
    assert_eq!(plan.actions[1].path, b"bundle/server".to_vec());
}

#[test]
fn tar_plan_ends_at_what_it_refuses() {
    let plan = plan_tar_members(&vec![
        tar_member("a", false, true, Some(1)),
        tar_member("link", false, false, None),
        tar_member("b", false, true, Some(1)),
    ]);
    assert_eq!(plan.actions.len(), 1);
    assert_eq!(
        plan.error.expect("link").message,
        "Update archive contains an unsupported entry type (Symlink): link"
    );
    let plan = plan_tar_members(&vec![
        tar_member("a", false, true, Some(MAX_EXTRACTED_BYTES)),
        tar_member("b", false, true, Some(1)),
    ]);
    assert_eq!(plan.actions.len(), 1);
    assert_eq!(
        plan.error.expect("large").message,
        "Update archive decompresses to more than the allowed size"
    );
    let plan = plan_tar_members(&vec![Err("truncated".to_string())]);
    let error = plan.error.expect("unreadable");
    assert_eq!(error.message, "Failed to read tar entry from update package");
    assert_eq!(error.detail.as_deref(), Some("truncated"));
    let plan = plan_tar_members(&vec![tar_member("../x", false, true, None)]);
    assert!(plan.actions.is_empty());
    assert_eq!(
        plan.error.expect("escape").message,
        "Update archive contains an unsafe path entry: ../x"
    );
}

#[test]
fn zip_plan_follows_the_entries() {
    let member = |path: Option<&str>, is_dir, size| {
        Ok(ZipMember {
            name: path.unwrap_or("../x").as_bytes().to_vec(),
            enclosed: path.map(|p| p.as_bytes().to_vec()),
            is_dir,
            size,
        })
    };
    let plan = plan_zip_members(&vec![
        member(Some("bundle/"), true, 0),
        member(Some("bundle/server"), false, 5),
        member(None, false, 1),
    ]);
    assert_eq!(plan.actions.len(), 2);
    assert_eq!(plan.actions[1].path, b"bundle/server".to_vec());
    assert_eq!(
        plan.error.expect("escape").message,
        "Update archive contains an unsafe path entry"
    );
    let plan = plan_zip_members(&vec![member(Some("a"), false, MAX_EXTRACTED_BYTES + 1)]);
    assert!(plan.error.is_some());
    let plan = plan_zip_members(&vec![Err("bad".to_string())]);
    assert_eq!(
        plan.error.expect("unreadable").message,
        "Failed to read zip entry from update package"
    );
}

fn tar_gz(with_link: bool) -> Vec<u8> {
    let encoder = flate2::write::GzEncoder::new(Vec::new(), flate2::Compression::default());
    let mut builder = tar::Builder::new(encoder);
    let mut dir = tar::Header::new_gnu();
    dir.set_entry_type(tar::EntryType::Directory);
    dir.set_size(0);
    dir.set_cksum();
    builder.append_data(&mut dir, "bundle", std::io::empty()).unwrap();
    let mut file = tar::Header::new_gnu();
    file.set_size(5);
    file.set_mode(0o755);
    file.set_cksum();
    builder.append_data(&mut file, "bundle/server", &b"hello"[..]).unwrap();
    if with_link {
        let mut link = tar::Header::new_gnu();
        link.set_entry_type(tar::EntryType::Symlink);
        link.set_size(0);
        builder.append_link(&mut link, "bundle/link", "/etc").unwrap();
    }
    builder.into_inner().unwrap().finish().unwrap()
}

#[test]
fn real_tar_archives_are_listed() {
    let plan = plan_tar_gz(&tar_gz(false));
    assert!(plan.error.is_none());
    assert_eq!(plan.actions.len(), 2);
    assert!(plan.actions[0].is_dir);
    assert_eq!(plan.actions[1].path, b"bundle/server".to_vec());
    let plan = plan_archive(&tar_gz(true), ".tar.gz");
    assert_eq!(plan.actions.len(), 2);
    assert_eq!(
        plan.error.expect("link").message,
        "Update archive contains an unsupported entry type (Symlink): bundle/link"
    );
    let plan = plan_tar_gz(b"not a gzip stream");
    assert!(plan.actions.is_empty());
    assert_eq!(
        plan.error.expect("garbage").message,
        "Failed to read tar entry from update package"
    );
}

#[test]
fn real_zip_archives_are_listed() {
    let mut writer = zip::ZipWriter::new(std::io::Cursor::new(Vec::new()));
    let options = zip::write::SimpleFileOptions::default();
    writer.add_directory("bundle/", options).unwrap();
    writer.start_file("bundle/server.exe", options).unwrap();
    std::io::Write::write_all(&mut writer, b"hello").unwrap();
    let bytes = writer.finish().unwrap().into_inner();
    let plan = plan_zip(&bytes);
    assert!(plan.error.is_none());
    assert_eq!(plan.actions.len(), 2);
    assert!(plan.actions[0].is_dir);
    assert_eq!(plan.actions[1].path, b"bundle/server.exe".to_vec());
    let plan = plan_archive(b"no zip", ".zip");
    assert_eq!(
        plan.error.expect("garbage").message,
        "Failed to open zip from update package"
    );
}

fn zip_of(names: &[&str]) -> Vec<u8> {
    let mut writer = zip::ZipWriter::new(std::io::Cursor::new(Vec::new()));
    let options = zip::write::SimpleFileOptions::default();
    for name in names {
        writer.start_file(*name, options).unwrap();
        std::io::Write::write_all(&mut writer, b"x").unwrap();
    }
    writer.finish().unwrap().into_inner()
}

#[test]
fn zip_entries_go_to_their_names_or_nowhere() {
    let plan = plan_zip(&zip_of(&["a/../b", "./c//d", "e/f/../../g"]));
    assert!(plan.error.is_none());
    let paths: Vec<&[u8]> = plan.actions.iter().map(|a| a.path.as_slice()).collect();
    assert_eq!(paths, [&b"a/../b"[..], b"./c//d", b"e/f/../../g"]);
    for refused in ["../x", "/x", "a/../../x", "a/b/../../../x", ".."] {
        let plan = plan_archive(&zip_of(&["ok", refused, "later"]), ".zip");
        assert_eq!(plan.actions.len(), 1, "{refused}");
        assert_eq!(plan.actions[0].path, b"ok".to_vec());
        assert_eq!(
            plan.error.expect("escape").message,
            "Update archive contains an unsafe path entry"
        );
    }
}

#[test]
fn extraction_errors_carry_their_reason() {
    let error = extract_err("unpack tar entry", "disk full");
    assert_eq!(error.code, AppErrorCode::TaskExecutionFailed);
    assert_eq!(error.message, "Failed to unpack tar entry from update package");
    assert_eq!(error.detail.as_deref(), Some("disk full"));
}
