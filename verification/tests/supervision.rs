use ytdl_core::manager::{ActiveDownload, CancelToken, DownloadManager};
use ytdl_core::runner::assemble_extra_flags;
use ytdl_core::stream::PlaylistEntry;
use ytdl_core::supervisor::plan_playlist_downloads;
use ytdl_core::runner::{build_download_args, classify_run_exit, RunOutcome};
use ytdl_core::scheduler::{should_notify, RssScheduler, TickAction};
use ytdl_core::store::{Database, JobStatus};
use ytdl_core::supervisor::{
    cancel_all_downloads, cancel_download, delete_download_plan, on_run_exit, pause_all_downloads,
    pause_download, resume_all_downloads, resume_download, start_download_existing,
    submit_download, DeletePlan,
};

fn submit_one(db: &mut Database, dm: &mut DownloadManager, url: &str) -> String {
    submit_download(db, dm, url, "", "a title", "").expect("submit should succeed")
}

#[test]
fn submit_returns_fresh_id_and_tracks_run() {
    let mut db = Database::new();
    let mut dm = DownloadManager::new();
    let id = submit_one(&mut db, &mut dm, "https://example.com/video");
    assert_eq!(id.len(), 36);
    assert_eq!(db.downloads.len(), 1);
    assert_eq!(db.downloads[0].status, JobStatus::Downloading);
    assert_eq!(dm.active.len(), 1);
    assert_eq!(dm.active[0].id, id);
}

#[test]
fn submit_rejects_invalid_url_before_any_side_effect() {
    let mut db = Database::new();
    let mut dm = DownloadManager::new();
    assert!(submit_download(&mut db, &mut dm, "http://192.168.1.5/x", "", "", "").is_err());
    assert!(db.downloads.is_empty());
    assert!(dm.active.is_empty());
}

#[test]
fn submit_rejects_duplicate_key() {
    let mut db = Database::new();
    let mut dm = DownloadManager::new();
    let _ = submit_one(&mut db, &mut dm, "https://example.com/video");
    let second = submit_download(&mut db, &mut dm, "https://example.com/video", "", "t", "");
    assert!(second.is_err());
    assert_eq!(db.downloads.len(), 1);
    assert_eq!(dm.active.len(), 1);
    // a different variant of the same source is a different key
    let third = submit_download(&mut db, &mut dm, "https://example.com/video", "720p", "t", "");
    assert!(third.is_ok());
}

#[test]
fn cancel_token_is_latched() {
    let mut t = CancelToken::new();
    assert!(!t.is_cancelled());
    t.set();
    // a waiter subscribing only now still observes the signal immediately
    assert!(t.is_cancelled());
    t.set();
    assert!(t.is_cancelled());
}

#[test]
fn signal_before_any_waiter_is_not_lost() {
    let mut db = Database::new();
    let mut dm = DownloadManager::new();
    let id = submit_one(&mut db, &mut dm, "https://example.com/video");
    // cancel before the run ever polls its token
    cancel_download(&mut db, &mut dm, id.as_str()).unwrap();
    let i = dm.find_run(id.as_str()).expect("run still registered");
    assert!(dm.active[i].cancel_token.is_cancelled());
}

#[test]
fn round_trip_completion_records_path() {
    let mut db = Database::new();
    let mut dm = DownloadManager::new();
    let id = submit_one(&mut db, &mut dm, "https://example.com/video");
    let outcome = classify_run_exit(false, true, "/tmp/out.mp4", "", id.as_str());
    on_run_exit(&mut db, &mut dm, id.as_str(), &outcome, 42).unwrap();
    assert!(dm.active.is_empty());
    assert_eq!(db.downloads[0].status, JobStatus::Completed);
    assert_eq!(db.downloads[0].file_path, "/tmp/out.mp4");
    assert_eq!(db.downloads[0].file_size, 42);
    assert_eq!(db.downloads[0].progress_permille, 1000);
}

#[test]
fn round_trip_completion_falls_back_to_id() {
    let mut db = Database::new();
    let mut dm = DownloadManager::new();
    let id = submit_one(&mut db, &mut dm, "https://example.com/video");
    let outcome = classify_run_exit(false, true, "", "", id.as_str());
    match &outcome {
        RunOutcome::Completed { output_path } => assert_eq!(output_path, &id),
        _ => panic!("expected completion"),
    }
    on_run_exit(&mut db, &mut dm, id.as_str(), &outcome, 0).unwrap();
    assert_eq!(db.downloads[0].file_path, id);
}

#[test]
fn round_trip_failure_records_error() {
    let mut db = Database::new();
    let mut dm = DownloadManager::new();
    let id = submit_one(&mut db, &mut dm, "https://example.com/video");
    let outcome = classify_run_exit(false, false, "", "exit code 1", id.as_str());
    on_run_exit(&mut db, &mut dm, id.as_str(), &outcome, 0).unwrap();
    assert_eq!(db.downloads[0].status, JobStatus::Error);
    assert!(!db.downloads[0].error.is_empty());
}

#[test]
fn cancel_is_not_overwritten_by_late_failure() {
    let mut db = Database::new();
    let mut dm = DownloadManager::new();
    let id = submit_one(&mut db, &mut dm, "https://example.com/video");
    cancel_download(&mut db, &mut dm, id.as_str()).unwrap();
    assert_eq!(db.downloads[0].status, JobStatus::Cancelled);
    // the dying run reports its own failure afterwards
    let outcome = classify_run_exit(false, false, "", "killed", id.as_str());
    on_run_exit(&mut db, &mut dm, id.as_str(), &outcome, 0).unwrap();
    assert_eq!(db.downloads[0].status, JobStatus::Cancelled);
    assert!(!db.downloads[0].error.is_empty());
}

#[test]
fn cancelled_outcome_leaves_paused_status_alone() {
    let mut db = Database::new();
    let mut dm = DownloadManager::new();
    let id = submit_one(&mut db, &mut dm, "https://example.com/video");
    pause_download(&mut db, &mut dm, id.as_str()).unwrap();
    assert_eq!(db.downloads[0].status, JobStatus::Paused);
    let outcome = classify_run_exit(true, false, "", "", id.as_str());
    on_run_exit(&mut db, &mut dm, id.as_str(), &outcome, 0).unwrap();
    assert_eq!(db.downloads[0].status, JobStatus::Paused);
    assert!(dm.active.is_empty());
}

#[test]
fn resume_reads_back_source_and_variant() {
    let mut db = Database::new();
    let mut dm = DownloadManager::new();
    let id = submit_download(&mut db, &mut dm, "https://example.com/video", "720p", "t", "")
        .unwrap();
    let (url, fmt) = resume_download(&db, id.as_str()).unwrap();
    assert_eq!(url, "https://example.com/video");
    assert_eq!(fmt, "720p");
    assert!(resume_download(&db, "missing-id").is_err());
    // relaunch under the same identifier
    dm.remove_run(id.as_str());
    start_download_existing(&mut db, &mut dm, id.as_str(), url.as_str()).unwrap();
    assert_eq!(db.downloads[0].status, JobStatus::Downloading);
    assert_eq!(dm.active.len(), 1);
}

#[test]
fn batch_cancel_all_counts_three() {
    let mut db = Database::new();
    let mut dm = DownloadManager::new();
    let a = submit_one(&mut db, &mut dm, "https://example.com/a");
    let b = submit_one(&mut db, &mut dm, "https://example.com/b");
    let c = submit_one(&mut db, &mut dm, "https://example.com/c");
    let _ = db.update_download_status(b.as_str(), JobStatus::Paused);
    let _ = db.update_download_status(c.as_str(), JobStatus::Queued);
    let count = cancel_all_downloads(&mut db, &mut dm);
    assert_eq!(count, 3);
    for rec in &db.downloads {
        assert_eq!(rec.status, JobStatus::Cancelled);
    }
    assert!(dm.active.is_empty());
    let _ = a;
}

#[test]
fn batch_cancel_all_skips_terminal_jobs() {
    let mut db = Database::new();
    let mut dm = DownloadManager::new();
    let a = submit_one(&mut db, &mut dm, "https://example.com/a");
    let _ = db.update_download_status(a.as_str(), JobStatus::Completed);
    let count = cancel_all_downloads(&mut db, &mut dm);
    assert_eq!(count, 0);
    assert_eq!(db.downloads[0].status, JobStatus::Completed);
}

#[test]
fn batch_pause_and_resume_all() {
    let mut db = Database::new();
    let mut dm = DownloadManager::new();
    let _a = submit_one(&mut db, &mut dm, "https://example.com/a");
    let _b = submit_one(&mut db, &mut dm, "https://example.com/b");
    let paused = pause_all_downloads(&mut db, &mut dm);
    assert_eq!(paused, 2);
    assert_eq!(db.downloads[0].status, JobStatus::Paused);
    assert_eq!(db.downloads[1].status, JobStatus::Paused);
    let resumed = resume_all_downloads(&mut db, &mut dm);
    assert_eq!(resumed, 2);
    assert_eq!(db.downloads[0].status, JobStatus::Downloading);
}

#[test]
fn manager_counts_and_queues() {
    let mut dm = DownloadManager::new();
    let mk = |id: &str, st: JobStatus| ActiveDownload {
        id: id.to_string(),
        url: "https://example.com/x".to_string(),
        status: st,
        cancel_token: CancelToken::new(),
    };
    assert!(dm.insert_run(mk("one", JobStatus::Downloading)));
    assert!(dm.insert_run(mk("two", JobStatus::Queued)));
    assert!(!dm.insert_run(mk("one", JobStatus::Queued)));
    assert_eq!(dm.get_active_count(), 1);
    assert!(dm.can_start_download(2));
    assert!(!dm.can_start_download(1));
    assert_eq!(dm.get_queued_ids(), vec!["two".to_string()]);
    assert!(dm.pause("one"));
    assert!(!dm.pause("one"));
    assert!(dm.resume("one"));
    dm.cancel("one");
    assert!(dm.find_run("one").is_none());
}

#[test]
fn delete_plan_orders_file_before_record() {
    let mut db = Database::new();
    let mut dm = DownloadManager::new();
    let id = submit_one(&mut db, &mut dm, "https://example.com/video");
    let plan = delete_download_plan(&db, id.as_str(), true).unwrap();
    match plan {
        DeletePlan::RemoveRecordOnly => {}
        _ => panic!("no file recorded yet"),
    }
    let _ = db.update_download_complete(id.as_str(), "/tmp/file.mp4", 7);
    match delete_download_plan(&db, id.as_str(), true).unwrap() {
        DeletePlan::RemoveFileThenRecord { path } => assert_eq!(path, "/tmp/file.mp4"),
        _ => panic!("expected file removal first"),
    }
    match delete_download_plan(&db, id.as_str(), false).unwrap() {
        DeletePlan::RemoveRecordOnly => {}
        _ => panic!("no file removal requested"),
    }
    assert!(delete_download_plan(&db, "missing", true).is_err());
}

#[test]
fn runner_args_strip_dangerous_flags() {
    let extra = vec!["--exec".to_string(), "rm -rf /".to_string(), "--newline-extra".to_string()];
    let args = build_download_args(
        "/usr/bin/ffmpeg",
        "/downloads",
        &None,
        &extra,
        "https://example.com/v",
    );
    assert!(!args.iter().any(|a| a.to_lowercase().starts_with("--exec")));
    assert!(args.contains(&"rm -rf /".to_string()));
    assert_eq!(args.last().unwrap(), "https://example.com/v");
    assert!(args.contains(&"/downloads/%(title)s.%(ext)s".to_string()));
    assert!(args.contains(&"bestvideo+bestaudio/best".to_string()));
}

#[test]
fn runner_args_format_selection() {
    let args = build_download_args("f", "d", &Some("best".to_string()), &Vec::new(), "u");
    assert!(args.contains(&"bestvideo+bestaudio/best".to_string()));
    let args = build_download_args("f", "d", &Some("137+140".to_string()), &Vec::new(), "u");
    assert!(args.contains(&"137+140".to_string()));
}

#[test]
fn scheduler_state_machine() {
    let mut s = RssScheduler::new();
    assert_eq!(s.get_interval(), 60);
    match s.tick_action() {
        TickAction::Stop => {}
        _ => panic!("stopped scheduler must stop its loop"),
    }
    assert!(s.start());
    assert!(!s.start());
    match s.tick_action() {
        TickAction::RunAfter { minutes } => assert_eq!(minutes, 60),
        _ => panic!("running scheduler should wait its interval"),
    }
    s.set_interval(0);
    match s.tick_action() {
        TickAction::SleepShort => {}
        _ => panic!("disabled scheduler must poll shortly"),
    }
    s.stop();
    match s.tick_action() {
        TickAction::Stop => {}
        _ => panic!("stopped scheduler must stop its loop"),
    }
    assert!(should_notify(3));
    assert!(!should_notify(0));
}

#[test]
fn playlist_plan_inserts_queued_jobs() {
    let mut db = Database::new();
    let mut dm = DownloadManager::new();
    // one entry is already tracked as an active job
    let dup = submit_download(&mut db, &mut dm, "https://example.com/w2", "", "t", "").unwrap();
    let entry = |i: usize, url: &str| PlaylistEntry {
        id: format!("e{}", i),
        title: format!("entry {}", i),
        url: url.to_string(),
        index: i,
        thumbnail: None,
    };
    let entries = vec![
        entry(1, "https://example.com/w1"),
        entry(2, "https://example.com/w2"),
        entry(3, "https://example.com/w3"),
        entry(4, "https://example.com/w4"),
    ];
    let ids = plan_playlist_downloads(&mut db, &entries, 1, 3, "").unwrap();
    // entry 2 is a duplicate key and entry 4 is out of range
    assert_eq!(ids.len(), 2);
    assert_eq!(db.downloads.len(), 3);
    for id in &ids {
        let i = db.find_download(id).unwrap();
        assert_eq!(db.downloads[i].status, JobStatus::Queued);
        assert_eq!(db.downloads[i].source, "playlist");
    }
    assert!(plan_playlist_downloads(&mut db, &entries, 3, 2, "").is_err());
    let _ = dup;
}

#[test]
fn extra_flags_follow_settings() {
    let user = vec!["--exec".to_string(), "--limit-rate".to_string()];
    let flags = assemble_extra_flags(&user, true, true, "firefox");
    assert_eq!(
        flags,
        vec![
            "--limit-rate".to_string(),
            "--embed-thumbnail".to_string(),
            "--embed-metadata".to_string(),
            "--cookies-from-browser".to_string(),
            "firefox".to_string(),
        ]
    );
    let flags = assemble_extra_flags(&Vec::new(), false, false, "none");
    assert!(flags.is_empty());
}
