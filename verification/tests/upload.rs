use std::sync::atomic::{AtomicU64, Ordering};

use codeg::upload::{
    admit_upload, current_uploads_total_bytes, ensure_path_inside, next_in_flight,
    parse_strict_mode, parse_upload_quota_config, sanitize_session_bucket,
    sanitize_upload_filename, staging_name, try_reserve_in_flight, upload_failure,
    upload_quota_notice, FieldPlan, QuotaNotice, UploadEntry, UploadIntake, UploadNode,
    UploadQuotaConfig, UploadStage, UPLOAD_MAX_BYTES,
};
use codeg::error::{AppErrorCode, I18nKey};

#[test]
fn sanitize_filename_strips_traversal() {
    assert_eq!(sanitize_upload_filename("../../etc/passwd"), "passwd");
    assert_eq!(sanitize_upload_filename("..\\..\\boot.ini"), "boot.ini");
}

#[test]
fn sanitize_filename_handles_empty_and_dots() {
    assert_eq!(sanitize_upload_filename("..."), "file");
    assert_eq!(sanitize_upload_filename(""), "file");
    assert_eq!(sanitize_upload_filename("   "), "file");
}

#[test]
fn sanitize_filename_replaces_hostile_chars() {
    assert_eq!(sanitize_upload_filename("a:b*c?\"d"), "a_b_c__d");
}

#[test]
fn sanitize_session_bucket_allows_safe_chars() {
    assert_eq!(sanitize_session_bucket("abc-123_XY"), "abc-123_XY");
}

#[test]
fn sanitize_session_bucket_collapses_unsafe() {
    assert_eq!(sanitize_session_bucket("../etc"), "etc");
    assert_eq!(sanitize_session_bucket("...."), "anon");
    assert_eq!(sanitize_session_bucket(""), "anon");
}

#[test]
fn parse_upload_quota_config_classifies_branches() {
    assert_eq!(parse_upload_quota_config(None), UploadQuotaConfig::Unset);
    assert_eq!(parse_upload_quota_config(Some("")), UploadQuotaConfig::Unset);
    assert_eq!(parse_upload_quota_config(Some("   ")), UploadQuotaConfig::Unset);
    assert_eq!(parse_upload_quota_config(Some("0")), UploadQuotaConfig::Disabled);
    assert_eq!(
        parse_upload_quota_config(Some("  1048576  ")),
        UploadQuotaConfig::Enabled(1_048_576),
        "trim + parse"
    );
    assert_eq!(
        parse_upload_quota_config(Some("10GB")),
        UploadQuotaConfig::Invalid("10GB".to_string())
    );
    assert_eq!(
        parse_upload_quota_config(Some("1g")),
        UploadQuotaConfig::Invalid("1g".to_string())
    );
    assert_eq!(
        parse_upload_quota_config(Some("not-a-number")),
        UploadQuotaConfig::Invalid("not-a-number".to_string())
    );
    assert_eq!(
        parse_upload_quota_config(Some("-1")),
        UploadQuotaConfig::Invalid("-1".to_string())
    );
}

#[test]
fn parse_strict_mode_recognises_truthy_values() {
    assert!(!parse_strict_mode(None), "unset → false");
    assert!(!parse_strict_mode(Some("")), "empty → false");
    assert!(!parse_strict_mode(Some("0")), "zero → false");
    assert!(!parse_strict_mode(Some("false")), "false → false");
    assert!(!parse_strict_mode(Some("no")), "no → false");
    assert!(!parse_strict_mode(Some("off")), "off → false");
    assert!(parse_strict_mode(Some("1")), "1 → true");
    assert!(parse_strict_mode(Some("true")), "true → true");
    assert!(parse_strict_mode(Some("TRUE")), "TRUE → true (case-insensitive)");
    assert!(parse_strict_mode(Some(" Yes ")), "trim + case → true");
    assert!(parse_strict_mode(Some("on")), "on → true");
    assert!(
        !parse_strict_mode(Some("strict")),
        "unknown values → false; we don't guess intent"
    );
}

#[test]
fn upload_quota_config_cap_bytes_active_only_when_enabled() {
    assert_eq!(UploadQuotaConfig::Unset.cap_bytes(), None);
    assert_eq!(UploadQuotaConfig::Disabled.cap_bytes(), None);
    assert_eq!(UploadQuotaConfig::Enabled(42).cap_bytes(), Some(42));
    assert_eq!(
        UploadQuotaConfig::Invalid("oops".into()).cap_bytes(),
        None,
        "invalid disables the cap — fail-open so a typo doesn't 5xx uploads"
    );
}

#[test]
fn try_reserve_in_flight_admits_when_under_cap() {
    let counter = AtomicU64::new(0);
    let guard = try_reserve_in_flight(&counter, 2, 0, 10).expect("under cap");
    assert_eq!(counter.load(Ordering::Acquire), 2);
    drop(guard);
    assert_eq!(counter.load(Ordering::Acquire), 0, "released on drop");
}

#[test]
fn try_reserve_in_flight_rejects_when_full() {
    let counter = AtomicU64::new(0);
    let _g1 = try_reserve_in_flight(&counter, 2, 6, 10).expect("first fits: 6+0+2=8");
    let _g2 = try_reserve_in_flight(&counter, 2, 6, 10).expect("boundary: 6+2+2=10");
    assert!(
        try_reserve_in_flight(&counter, 2, 6, 10).is_err(),
        "12 > 10 must reject"
    );
}

#[test]
fn try_reserve_in_flight_serializes_concurrent_admits() {
    let counter: &'static AtomicU64 = Box::leak(Box::new(AtomicU64::new(0)));
    let cap = 4;
    let bytes = 2;
    let used = 0;

    let runtime = tokio::runtime::Builder::new_multi_thread()
        .worker_threads(2)
        .build()
        .expect("runtime");
    let h1 = runtime.spawn_blocking(move || try_reserve_in_flight(counter, bytes, used, cap));
    let h2 = runtime.spawn_blocking(move || try_reserve_in_flight(counter, bytes, used, cap));
    let r1 = runtime.block_on(h1).unwrap();
    let r2 = runtime.block_on(h2).unwrap();

    let admits = [r1.is_ok(), r2.is_ok()].iter().filter(|ok| **ok).count();
    let counter_val = counter.load(Ordering::Acquire);
    assert_eq!(
        counter_val,
        admits as u64 * bytes,
        "counter must reflect exactly the admits"
    );
    assert!(admits >= 1, "at least one must admit");
    assert!(counter_val <= cap, "counter {counter_val} exceeded cap {cap}");

    drop(r1);
    drop(r2);
    assert_eq!(counter.load(Ordering::Acquire), 0, "drops returned to zero");
}

#[test]
fn try_reserve_in_flight_handles_saturating_used() {
    let counter = AtomicU64::new(0);
    assert!(try_reserve_in_flight(&counter, 1, u64::MAX, 100).is_err());
    assert_eq!(counter.load(Ordering::Acquire), 0, "no leak on rejection");
}

#[test]
fn tally_is_what_the_living_guards_hold() {
    let counter = AtomicU64::new(0);
    let first = try_reserve_in_flight(&counter, 2, 1, 10).expect("1+0+2=3");
    let second = try_reserve_in_flight(&counter, 5, 1, 10).expect("1+2+5=8");
    assert!(try_reserve_in_flight(&counter, 3, 1, 10).is_err(), "11 > 10");
    assert_eq!(counter.load(Ordering::Acquire), 7);
    drop(first);
    assert_eq!(counter.load(Ordering::Acquire), 5);
    let third = try_reserve_in_flight(&counter, 4, 1, 10).expect("1+5+4=10");
    drop(second);
    assert_eq!(counter.load(Ordering::Acquire), 4);
    drop(third);
    assert_eq!(counter.load(Ordering::Acquire), 0);
}

#[test]
fn next_in_flight_counts_disk_tally_and_reservation() {
    assert_eq!(next_in_flight(2, 2, 6, 10), Some(4));
    assert_eq!(next_in_flight(4, 2, 6, 10), None);
    assert_eq!(next_in_flight(u64::MAX, 1, 0, u64::MAX), None);
}

fn file(len: u64) -> Option<UploadNode> {
    Some(UploadNode::File(Some(len)))
}

fn entry(name: &str, node: UploadNode) -> Option<UploadEntry> {
    Some(UploadEntry { name: name.to_string(), node })
}

fn bucket(name: &str, sizes: &[u64]) -> Option<UploadEntry> {
    entry(name, UploadNode::Directory(Some(sizes.iter().map(|len| file(*len)).collect())))
}

#[test]
fn current_uploads_total_bytes_is_zero_for_missing_root() {
    assert_eq!(current_uploads_total_bytes(None), 0);
}

#[test]
fn current_uploads_total_bytes_sums_files_under_buckets() {
    let listing = vec![bucket("session-a", &[100, 250]), bucket("session-b", &[700])];
    assert_eq!(current_uploads_total_bytes(Some(&listing)), 1050);
}

#[test]
fn current_uploads_total_bytes_skips_staging_tmp() {
    let listing = vec![bucket(".tmp", &[9999]), bucket("session-a", &[5])];
    assert_eq!(current_uploads_total_bytes(Some(&listing)), 5);
}

#[test]
fn current_uploads_total_bytes_counts_loose_top_level_files() {
    let listing = vec![entry("legacy.bin", UploadNode::File(Some(42)))];
    assert_eq!(current_uploads_total_bytes(Some(&listing)), 42);
}

#[test]
fn total_bytes_counts_deeper_trees() {
    let deep = UploadNode::Directory(Some(vec![file(7)]));
    let hidden = UploadNode::Directory(Some(vec![file(2)]));
    let mut listing = vec![
        bucket(".tmp", &[9999]),
        entry("session-a", UploadNode::Directory(Some(vec![file(5), Some(deep)]))),
        entry("legacy.bin", UploadNode::File(Some(42))),
    ];
    assert_eq!(current_uploads_total_bytes(Some(&listing)), 54);
    listing.push(entry("b", UploadNode::Directory(Some(vec![Some(hidden)]))));
    assert_eq!(current_uploads_total_bytes(Some(&listing)), 56);
}

#[test]
fn total_bytes_passes_over_what_cannot_be_read() {
    let listing = vec![
        None,
        entry("a", UploadNode::File(None)),
        entry("b", UploadNode::Directory(None)),
        entry("c", UploadNode::Other),
        entry("d", UploadNode::Directory(Some(vec![None, Some(UploadNode::Other), file(3)]))),
    ];
    assert_eq!(current_uploads_total_bytes(Some(&listing)), 3);
    let huge = vec![bucket("x", &[u64::MAX, 10])];
    assert_eq!(current_uploads_total_bytes(Some(&huge)), u64::MAX);
}

#[test]
fn startup_notice_follows_setting_and_strictness() {
    let invalid = parse_upload_quota_config(Some("10GB"));
    assert_eq!(upload_quota_notice(&UploadQuotaConfig::Unset, true), QuotaNotice::NotSet);
    assert_eq!(upload_quota_notice(&UploadQuotaConfig::Disabled, true), QuotaNotice::SwitchedOff);
    assert_eq!(upload_quota_notice(&UploadQuotaConfig::Enabled(9), true), QuotaNotice::Cap(9));
    assert_eq!(upload_quota_notice(&invalid, false), QuotaNotice::Warn("10GB".to_string()));
    assert_eq!(upload_quota_notice(&invalid, true), QuotaNotice::Fatal("10GB".to_string()));
}

#[test]
fn admission_without_cap_reserves_nothing() {
    let counter = AtomicU64::new(0);
    assert!(admit_upload(&counter, u64::MAX, None).expect("no cap").is_none());
    assert_eq!(counter.load(Ordering::Acquire), 0);
}

#[test]
fn admission_over_cap_reports_both_amounts() {
    let counter = AtomicU64::new(0);
    let guard = admit_upload(&counter, 0, Some(UPLOAD_MAX_BYTES)).expect("fits");
    assert_eq!(counter.load(Ordering::Acquire), UPLOAD_MAX_BYTES);
    let error = admit_upload(&counter, 7, Some(UPLOAD_MAX_BYTES)).expect_err("over");
    assert_eq!(error.code, AppErrorCode::IoError);
    assert_eq!(error.message, "Upload quota exceeded for this server");
    assert_eq!(error.detail.as_deref(), Some("used=7 limit=2097152"));
    let i18n = error.i18n.expect("translatable");
    assert_eq!(i18n.key, I18nKey::UploadQuotaExceeded);
    assert_eq!(
        i18n.params,
        vec![
            ("limit".to_string(), "2097152".to_string()),
            ("used".to_string(), "7".to_string())
        ]
    );
    drop(guard);
    assert_eq!(counter.load(Ordering::Acquire), 0);
}

#[test]
fn names_are_cut_at_their_limits() {
    let long = "x".repeat(300);
    assert_eq!(sanitize_upload_filename(&long).chars().count(), 120);
    assert_eq!(sanitize_session_bucket(&long).chars().count(), 80);
    assert_eq!(sanitize_upload_filename("a\u{7}b.txt"), "ab.txt");
    assert_eq!(sanitize_upload_filename("dir/"), "file");
}

fn staged_intake() -> UploadIntake {
    let mut intake = UploadIntake::new();
    let plan = intake.begin_field("file", Some("../notes.txt"), Some("text/plain")).unwrap();
    assert_eq!(plan, FieldPlan::StageFile);
    intake
}

#[test]
fn intake_places_a_complete_upload() {
    let mut intake = staged_intake();
    intake.accept_chunk(10).unwrap();
    intake.accept_chunk(5).unwrap();
    assert_eq!(intake.begin_field("sessionId", None, None).unwrap(), FieldPlan::ReadSessionId);
    intake.session_field("  s/1 ");
    assert_eq!(intake.begin_field("other", None, None).unwrap(), FieldPlan::Drain);
    let placement = intake.finish().expect("complete");
    assert_eq!(placement.bucket, "s_1");
    assert_eq!(placement.name, "notes.txt");
    assert_eq!(placement.size, 15);
    assert_eq!(placement.stored_name.len(), 32 + 1 + "notes.txt".len());
    assert!(placement.stored_name.ends_with("-notes.txt"));
    let result = placement.result("/uploads/s_1/x".to_string());
    assert_eq!(result.path, "/uploads/s_1/x");
    assert_eq!(result.mime_type.as_deref(), Some("text/plain"));
}

#[test]
fn intake_without_session_goes_to_anon() {
    let mut intake = staged_intake();
    intake.session_field("   ");
    intake.accept_chunk(1).unwrap();
    assert_eq!(intake.finish().unwrap().bucket, "anon");
}

#[test]
fn intake_refuses_a_second_file() {
    let mut intake = staged_intake();
    let error = intake.begin_field("file", None, None).expect_err("second");
    assert_eq!(error.message, "Multiple `file` fields are not supported per request");
}

#[test]
fn intake_refuses_what_exceeds_the_limit() {
    let mut intake = staged_intake();
    intake.accept_chunk(UPLOAD_MAX_BYTES).expect("exactly the limit");
    let error = intake.accept_chunk(1).expect_err("one too many");
    assert_eq!(error.message, "Upload exceeds the maximum allowed size");
    assert_eq!(error.detail.as_deref(), Some("size=2097153 limit=2097152"));
    assert_eq!(error.i18n.expect("translatable").key, I18nKey::UploadTooLarge);
}

#[test]
fn intake_refuses_missing_and_empty_files() {
    let missing = UploadIntake::new().finish().expect_err("missing");
    assert_eq!(missing.message, "Missing `file` field in multipart upload");
    let empty = staged_intake().finish().expect_err("empty");
    assert_eq!(empty.message, "Uploaded file is empty");
}

#[test]
fn staging_names_are_random_ids() {
    let name = staging_name();
    let id = name.strip_suffix(".part").expect("suffix");
    assert_eq!(id.len(), 32);
    assert!(id.chars().all(|c| c.is_ascii_digit() || ('a'..='f').contains(&c)));
    assert_eq!(id.chars().nth(12), Some('4'));
    assert_ne!(name, staging_name());
}

#[test]
fn failures_name_their_stage() {
    let error = upload_failure(UploadStage::WriteChunk, "disk full".to_string());
    assert_eq!(error.message, "Failed to write chunk");
    assert_eq!(error.detail.as_deref(), Some("disk full"));
}

#[test]
fn paths_are_compared_by_component() {
    let root = vec![b"srv".to_vec(), b"uploads".to_vec()];
    let within = vec![b"srv".to_vec(), b"uploads".to_vec(), b"a".to_vec()];
    let beside = vec![b"srv".to_vec(), b"uploads-old".to_vec()];
    assert!(ensure_path_inside(&within, &root, "x".to_string()).is_ok());
    let error = ensure_path_inside(&beside, &root, "/srv/uploads-old".to_string()).expect_err("out");
    assert_eq!(error.message, "Resolved upload path escapes uploads root");
    assert_eq!(error.detail.as_deref(), Some("/srv/uploads-old"));
}

#[test]
fn chunks_are_accepted_up_to_the_limit() {
    for cuts in [vec![UPLOAD_MAX_BYTES], vec![UPLOAD_MAX_BYTES - 1, 0, 1]] {
        let mut intake = UploadIntake::new();
        intake.begin_field("file", Some("a.bin"), None).unwrap();
        for len in cuts {
            intake.accept_chunk(len).unwrap();
        }
        assert!(intake.accept_chunk(1).is_err());
        assert_eq!(intake.finish().unwrap().size, UPLOAD_MAX_BYTES);
    }
}

#[test]
fn names_are_kept_when_they_are_made_again() {
    for raw in ["../../etc/passwd", "a:b*c?\"d", " .x. y. ", "...", ""] {
        let name = sanitize_upload_filename(raw);
        assert_eq!(sanitize_upload_filename(&name), name);
    }
    for raw in ["session-1", "__a b/c__", "", "!!"] {
        let bucket = sanitize_session_bucket(raw);
        assert_eq!(sanitize_session_bucket(&bucket), bucket);
    }
    let cut = format!("{}.b", "a".repeat(119));
    let name = sanitize_upload_filename(&cut);
    assert_eq!(name, format!("{}.", "a".repeat(119)));
    assert_eq!(sanitize_upload_filename(&name), "a".repeat(119));
}
