use ps5upload::control::{
    clamp_connections, connections_for_files, downgrade_compression, effective_use_temp, has_enough_space,
    may_send, per_worker_limit, plan_upload, since_progress, AdaptiveController, RateLimiter, UploadPlan,
};
use ps5upload::partition::{assign_buckets, partition_files_by_size};
use ps5upload::resume::{hashes_match, needs_hash, plan_resume, should_skip, RemoteFile, ResumeMode};
use ps5upload::sanitize::{sanitize_archive_rel_path, sanitize_path_bytes, ArchivePathError};
use ps5upload::ui::{ManageDestAction, PayloadState};
use ps5upload::{format_bytes, join_remote_path, CompressionMode, DialogState, FileEntry};

fn file(rel: &str, size: u64, mtime: Option<i64>) -> FileEntry {
    FileEntry { rel_path: rel.to_string(), abs_path: format!("/local/{}", rel), size, mtime }
}

fn remote(rel: &str, size: u64, mtime: Option<i64>) -> RemoteFile {
    RemoteFile { rel_path: rel.to_string(), size, mtime }
}

#[test]
fn controller_narrows_then_widens() {
    let mut c = AdaptiveController::new(4);
    assert_eq!(c.allowed(), 4);
    c.tick(None);
    assert_eq!(c.allowed(), 4);
    let mut seen = Vec::new();
    for _ in 0..6 {
        c.tick(Some(3000));
        seen.push(c.allowed());
    }
    assert_eq!(seen, vec![3, 2, 1, 1, 1, 1]);
    for _ in 0..5 {
        c.tick(Some(100));
        assert_eq!(c.allowed(), 1);
    }
    c.tick(Some(100));
    assert_eq!(c.allowed(), 2);
    for _ in 0..18 {
        c.tick(Some(100));
    }
    assert_eq!(c.allowed(), 4);
    for _ in 0..12 {
        c.tick(Some(0));
    }
    assert_eq!(c.allowed(), 4);
}

#[test]
fn controller_middle_band_resets_streak() {
    let mut c = AdaptiveController::new(3);
    c.tick(Some(5000));
    assert_eq!(c.allowed(), 2);
    for _ in 0..5 {
        c.tick(Some(100));
    }
    c.tick(Some(1000));
    c.tick(Some(100));
    assert_eq!(c.allowed(), 2);
    c.tick(Some(2000));
    assert_eq!(c.allowed(), 2);
}

#[test]
fn progress_timing_and_gate() {
    assert_eq!(since_progress(5000, 0), None);
    assert_eq!(since_progress(5000, 1000), Some(4000));
    assert_eq!(since_progress(500, 1000), Some(0));
    assert!(may_send(0, 1));
    assert!(!may_send(1, 1));
}

#[test]
fn connection_counts() {
    assert_eq!(clamp_connections(0), 1);
    assert_eq!(clamp_connections(4), 4);
    assert_eq!(clamp_connections(50), 10);
    assert_eq!(connections_for_files(4, 2), 2);
    assert_eq!(connections_for_files(4, 0), 1);
    assert_eq!(connections_for_files(4, 9), 4);
    assert_eq!(per_worker_limit(0, 3), None);
    assert_eq!(per_worker_limit(1000, 3), Some(333));
    assert_eq!(per_worker_limit(2, 3), Some(1));
    assert!(effective_use_temp(true, 1));
    assert!(!effective_use_temp(true, 2));
    assert!(!effective_use_temp(false, 1));
    assert_eq!(downgrade_compression(CompressionMode::Zstd, false), CompressionMode::Lz4);
    assert_eq!(downgrade_compression(CompressionMode::Lzma, false), CompressionMode::Lz4);
    assert_eq!(downgrade_compression(CompressionMode::Zstd, true), CompressionMode::Zstd);
    assert_eq!(downgrade_compression(CompressionMode::Uncompressed, false), CompressionMode::Uncompressed);
    assert!(has_enough_space(64 * 1024 * 1024 + 10, 10));
    assert!(!has_enough_space(64 * 1024 * 1024 + 9, 10));
    assert!(!has_enough_space(u64::MAX - 1, u64::MAX));
}

#[test]
fn rate_limiter_sleeps() {
    let mut r = RateLimiter::new(Some(1000));
    assert_eq!(r.throttle(1000, 500), 500);
    assert_eq!(r.throttle(0, 900), 100);
    assert_eq!(r.throttle(0, 1000), 0);
    assert_eq!(r.throttle(100, 0), 0);
    assert_eq!(r.throttle(0, 1000), 100);
    let mut free = RateLimiter::new(None);
    assert_eq!(free.throttle(1 << 40, 1), 0);
    let mut zero = RateLimiter::new(Some(0));
    assert_eq!(zero.throttle(1 << 40, 1), 0);
}

#[test]
fn rate_limited_average_stays_at_limit() {
    let limit = 1_000_000u64;
    let mut r = RateLimiter::new(Some(limit));
    let mut clock: u64 = 1;
    let mut sent: u64 = 0;
    for _ in 0..50 {
        let chunk = 4 * 1024 * 1024;
        sent += chunk;
        let mut sleep = r.throttle(chunk, clock);
        clock += sleep;
        while sleep == 500 {
            sleep = r.throttle(0, clock);
            clock += sleep;
        }
        assert!(sent as u128 * 1000 < limit as u128 * (clock as u128 + 1) * 11 / 10);
    }
}

#[test]
fn resume_size_mode_skips_identical() {
    let files = vec![file("a.txt", 5, Some(100))];
    let inv = vec![remote("a.txt", 5, Some(7))];
    let plan = plan_resume(ResumeMode::Size, &files, &inv, &vec![false]);
    assert!(plan.kept.is_empty());
    assert_eq!(plan.skipped_files, 1);
    assert_eq!(plan.skipped_bytes, 5);
}

#[test]
fn resume_modes() {
    let files = vec![
        file("a.txt", 5, Some(100)),
        file("b.bin", 10, Some(200)),
        file("c.dat", 3, None),
        file("new.txt", 1, Some(1)),
    ];
    let inv = vec![remote("a.txt", 5, Some(100)), remote("b.bin", 11, Some(200)), remote("c.dat", 3, Some(5))];
    let hm = vec![false; 4];
    let kept: Vec<String> = plan_resume(ResumeMode::Size, &files, &inv, &hm).kept.into_iter().map(|f| f.rel_path).collect();
    assert_eq!(kept, vec!["b.bin", "new.txt"]);
    let kept: Vec<String> = plan_resume(ResumeMode::SizeMtime, &files, &inv, &hm).kept.into_iter().map(|f| f.rel_path).collect();
    assert_eq!(kept, vec!["b.bin", "c.dat", "new.txt"]);
    let plan = plan_resume(ResumeMode::Off, &files, &inv, &hm);
    assert_eq!(plan.kept.len(), 4);
    assert_eq!(plan.skipped_files, 0);
    let hm = vec![true, true, false, true];
    let plan = plan_resume(ResumeMode::Sha256, &files, &inv, &hm);
    let kept: Vec<String> = plan.kept.into_iter().map(|f| f.rel_path).collect();
    assert_eq!(kept, vec!["b.bin", "c.dat", "new.txt"]);
    assert_eq!(plan.skipped_bytes, 5);
    assert!(needs_hash(ResumeMode::Sha256, &files[0], &inv));
    assert!(!needs_hash(ResumeMode::Sha256, &files[1], &inv));
    assert!(!needs_hash(ResumeMode::Size, &files[0], &inv));
    assert!(!should_skip(ResumeMode::Size, &files[3], &inv, true));
}

#[test]
fn buckets_longest_first() {
    let files = vec![file("dir/y", 1024, None), file("dir/x", 20 * 1024 * 1024, None)];
    let (buckets, assign) = partition_files_by_size(&files, 2);
    assert_eq!(assign, vec![1, 0]);
    assert_eq!(buckets.len(), 2);
    assert_eq!(buckets[0].len(), 1);
    assert_eq!(buckets[0][0].rel_path, "dir/x");
    assert_eq!(buckets[1][0].rel_path, "dir/y");
}

#[test]
fn buckets_balance() {
    let sizes = vec![7, 5, 4, 3, 3, 2, 1];
    let assign = assign_buckets(&sizes, 3);
    assert_eq!(assign, vec![0, 1, 2, 2, 1, 0, 2]);
    let mut loads = [0u64; 3];
    for (i, b) in assign.iter().enumerate() {
        loads[*b] += sizes[i];
    }
    assert_eq!(loads, [9, 8, 8]);
    assert_eq!(assign_buckets(&vec![], 3), Vec::<usize>::new());
    assert_eq!(assign_buckets(&vec![5, 5], 1), vec![0, 0]);
    assert_eq!(assign_buckets(&vec![1, 1, 1], 5), vec![0, 1, 2]);
}

#[test]
fn archive_paths() {
    assert_eq!(sanitize_archive_rel_path("dir/file.txt"), Ok("dir/file.txt".to_string()));
    assert_eq!(sanitize_archive_rel_path("./a//b\\c/"), Ok("a/b/c".to_string()));
    assert_eq!(sanitize_archive_rel_path("a/./b"), Ok("a/b".to_string()));
    assert_eq!(sanitize_archive_rel_path("a/../b"), Err(ArchivePathError::Unsafe));
    assert_eq!(sanitize_archive_rel_path(".."), Err(ArchivePathError::Unsafe));
    assert_eq!(sanitize_archive_rel_path("/etc/passwd"), Err(ArchivePathError::Unsafe));
    assert_eq!(sanitize_archive_rel_path("\\windows"), Err(ArchivePathError::Unsafe));
    assert_eq!(sanitize_archive_rel_path("C:/x"), Err(ArchivePathError::Unsafe));
    assert_eq!(sanitize_archive_rel_path("."), Err(ArchivePathError::Empty));
    assert_eq!(sanitize_archive_rel_path(""), Err(ArchivePathError::Empty));
    assert_eq!(sanitize_archive_rel_path("./"), Err(ArchivePathError::Empty));
    assert_eq!(sanitize_archive_rel_path("ü/ñ.txt"), Ok("ü/ñ.txt".to_string()));
    assert_eq!(sanitize_path_bytes(b"x\\..\\y"), Err(ArchivePathError::Unsafe));
    assert_eq!(ArchivePathError::Unsafe.message(), "Unsafe path in archive");
    assert_eq!(ArchivePathError::Empty.message(), "Empty path in archive");
}

#[test]
fn byte_counts_for_people() {
    assert_eq!(format_bytes(0), "0 B");
    assert_eq!(format_bytes(1023), "1023 B");
    assert_eq!(format_bytes(1024), "1.00 KB");
    assert_eq!(format_bytes(1536), "1.50 KB");
    assert_eq!(format_bytes(1024 * 1024 + 10 * 1024), "1.01 MB");
    assert_eq!(format_bytes(5 * 1024 * 1024 * 1024), "5.00 GB");
    assert_eq!(format_bytes(1024 * 1024 - 1), "1024.00 KB");
    assert_eq!(format_bytes(1029), "1.00 KB");
}

#[test]
fn remote_paths() {
    assert_eq!(join_remote_path("/data", "x"), "/data/x");
    assert_eq!(join_remote_path("/data/", "x"), "/data/x");
    assert_eq!(join_remote_path("", "x"), "/x");
}

#[test]
fn dialog_state() {
    let mut d = DialogState::new();
    assert!(!d.any_open());
    assert!(d.pending_archive_trim);
    assert!(d.archive_overwrite_confirmed);
    assert_eq!(d.history_resume_mode, "size");
    d.open_archive_confirm("/tmp/a.zip", "zip");
    assert!(d.any_open());
    assert_eq!(d.pending_archive_path.as_deref(), Some("/tmp/a.zip"));
    assert_eq!(d.pending_archive_kind.as_deref(), Some("zip"));
    d.open_dest_picker(ManageDestAction::Copy, "/a".to_string(), "a".to_string());
    assert_eq!(d.dest_action, Some(ManageDestAction::Copy));
    d.close_dest_picker();
    assert!(!d.show_dest_picker);
    assert_eq!(d.dest_action, None);
    assert!(d.any_open());
    d.close_all();
    assert!(!d.any_open());
    assert_eq!(d.pending_archive_path.as_deref(), Some("/tmp/a.zip"));
    let p = PayloadState::new();
    assert_eq!(p.status, "Unknown (not checked)");
}

#[test]
fn upload_plans() {
    assert_eq!(
        plan_upload(4, 2, true, CompressionMode::Zstd, false, 1000),
        UploadPlan { connections: 2, use_temp: false, compression: CompressionMode::Lz4, rate_limit_bps: Some(500) }
    );
    assert_eq!(
        plan_upload(1, 1, true, CompressionMode::Lzma, true, 0),
        UploadPlan { connections: 1, use_temp: true, compression: CompressionMode::Lzma, rate_limit_bps: None }
    );
    assert_eq!(
        plan_upload(30, 100, false, CompressionMode::Uncompressed, false, 5),
        UploadPlan { connections: 10, use_temp: false, compression: CompressionMode::Uncompressed, rate_limit_bps: Some(1) }
    );
    assert_eq!(plan_upload(0, 0, false, CompressionMode::Lz4, false, 0).connections, 1);
}

#[test]
fn digest_comparison_ignores_case() {
    assert!(hashes_match("ab12EF", "AB12ef"));
    assert!(!hashes_match("ab12ef", "ab12ee"));
    assert!(!hashes_match("ab12", "ab12ef"));
    assert!(hashes_match("", ""));
    assert!(!hashes_match("g", "G0"));
}
