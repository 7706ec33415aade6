use ytdl_core::applog::{should_log, LogLevel};
use ytdl_core::error::AppError;
use ytdl_core::export::export_downloads_csv;
use ytdl_core::feedops::parse_ffmpeg_version_output;
use ytdl_core::settings::AppSettings;
use ytdl_core::store::{Database, JobStatus};
use ytdl_core::stream::{
    build_quality_list, playlist_entry_url, select_stream_sources, StreamFormat,
};
use ytdl_core::transcribe::{
    choose_transcription_model, effective_api_model, is_audio_extension,
    map_local_model_to_filename, transcription_source_is_remote, validate_api_transcription,
    validate_local_transcription, whisper_model_url, TranscriptionJob, TranscriptionJobs,
};
use ytdl_core::validate::{is_web_url, sanitize_ytdlp_flags, validate_url};
use ytdl_core::manager::CancelToken;

#[test]
fn url_validation_boundary() {
    assert!(validate_url("http://192.168.1.5/x").is_err());
    assert!(validate_url("http://localhost/x").is_err());
    assert!(validate_url("https://example.com/video").is_ok());
    assert!(validate_url("").is_err());
    assert!(validate_url("ftp://example.com/video").is_err());
    assert!(validate_url("http://10.1.2.3/x").is_err());
    assert!(validate_url("http://172.20.0.1/x").is_err());
    assert!(validate_url("http://172.200.0.1/x").is_ok());
    assert!(validate_url("http://169.254.0.1/x").is_err());
    assert!(validate_url("HTTPS://EXAMPLE.COM/VIDEO").is_ok());
    // blocking is scoped to the host: the same words in a path or query pass
    assert!(validate_url("https://example.com/a/localhost").is_ok());
    assert!(validate_url("https://example.com/watch?v=192.168.0.1").is_ok());
    assert!(validate_url("http://localhost:8080/x").is_err());
    assert!(validate_url("http://[::1]/x").is_err());
    assert!(validate_url("http://LOCALHOST/x").is_err());
    assert!(is_web_url("  https://example.com "));
    assert!(!is_web_url("file:///etc/passwd"));
}

#[test]
fn flag_sanitizer_strips_exec_family() {
    let flags = vec!["--exec".to_string(), "rm -rf /".to_string(), "--retries".to_string()];
    let kept = sanitize_ytdlp_flags(&flags);
    assert_eq!(kept, vec!["rm -rf /".to_string(), "--retries".to_string()]);
    let more = vec![
        "--EXEC-before-download".to_string(),
        "--batch-file=x".to_string(),
        "--config-locations".to_string(),
        "-a".to_string(),
        "--download-archive".to_string(),
        "--output-na-placeholder".to_string(),
        "--limit-rate".to_string(),
    ];
    assert_eq!(sanitize_ytdlp_flags(&more), vec!["--limit-rate".to_string()]);
}

#[test]
fn store_settings_upsert() {
    let mut db = Database::new();
    assert!(db.get_setting("theme").is_none());
    db.save_setting("theme", "dark").unwrap();
    db.save_setting("lang", "en").unwrap();
    db.save_setting("theme", "light").unwrap();
    assert_eq!(db.get_setting("theme").unwrap(), "light");
    assert_eq!(db.get_all_settings().len(), 2);
}

#[test]
fn store_download_lifecycle() {
    let mut db = Database::new();
    db.insert_download("d1", "https://example.com/v", "t", "th").unwrap();
    assert!(db.insert_download("d1", "x", "y", "z").is_err());
    db.update_download_progress("d1", 500, "1MiB/s", "00:10").unwrap();
    assert_eq!(db.downloads[0].progress_permille, 500);
    db.update_download_priority("d1", 5).unwrap();
    assert_eq!(db.get_download_priority("d1"), 5);
    assert_eq!(db.get_download_priority("missing"), 0);
    db.update_download_error("d1", "boom").unwrap();
    assert_eq!(db.downloads[0].status, JobStatus::Error);
    db.delete_download("d1").unwrap();
    assert!(db.downloads.is_empty());
}

#[test]
fn store_downloads_sorted_by_priority() {
    let mut db = Database::new();
    db.insert_download("a", "u1", "", "").unwrap();
    db.insert_download("b", "u2", "", "").unwrap();
    db.insert_download("c", "u3", "", "").unwrap();
    db.update_download_priority("b", 9).unwrap();
    db.update_download_priority("c", 4).unwrap();
    let list = db.get_downloads();
    assert_eq!(list[0].id, "b");
    assert_eq!(list[1].id, "c");
    assert_eq!(list[2].id, "a");
}

#[test]
fn store_transcripts_lifecycle() {
    let mut db = Database::new();
    db.insert_transcript("t1", "https://example.com/a", "a").unwrap();
    assert!(db.insert_transcript("t1", "x", "y").is_err());
    db.update_transcript_status("t1", JobStatus::Downloading, 100).unwrap();
    db.update_transcript_complete("t1", "hello world", "en").unwrap();
    assert_eq!(db.transcripts[0].text, "hello world");
    assert_eq!(db.transcripts[0].status, JobStatus::Completed);
    db.update_transcript_error("t1", "late error").unwrap();
    assert_eq!(db.transcripts[0].status, JobStatus::Error);
    db.delete_transcript("t1").unwrap();
    assert!(db.transcripts.is_empty());
}

#[test]
fn store_playlists_replace_on_insert() {
    let mut db = Database::new();
    db.insert_playlist("p1", "https://example.com/list", "L", 10).unwrap();
    db.update_playlist_progress("p1", 3).unwrap();
    assert_eq!(db.playlists[0].downloaded_videos, 3);
    db.insert_playlist("p1", "https://example.com/list", "L", 12).unwrap();
    assert_eq!(db.playlists.len(), 1);
    assert_eq!(db.playlists[0].total_videos, 12);
    assert_eq!(db.playlists[0].downloaded_videos, 0);
    db.update_playlist_settings("p1", "%(id)s.%(ext)s", true).unwrap();
    assert!(db.playlists[0].auto_sync);
    db.delete_playlist("p1").unwrap();
    assert!(db.get_playlists().is_empty());
}

#[test]
fn csv_export_quotes_fields() {
    let mut db = Database::new();
    db.insert_download("id-1", "https://example.com/v", "a \"quoted\" title", "").unwrap();
    let csv = export_downloads_csv(&db.get_downloads());
    let mut lines = csv.lines();
    assert_eq!(lines.next().unwrap(), "id,title,url,status,format");
    let row = lines.next().unwrap();
    assert!(row.contains("\"a \"\"quoted\"\" title\""));
    assert!(row.starts_with("\"id-1\","));
    assert!(row.contains("\"pending\""));
}

#[test]
fn stream_selection_picks_best() {
    let f = |v: &str, a: &str, h: i64, tbr: u64, url: &str| StreamFormat {
        format_id: "f".to_string(),
        ext: "mp4".to_string(),
        vcodec: v.to_string(),
        acodec: a.to_string(),
        height: h,
        tbr_milli: tbr,
        fps_milli: 30000,
        url: url.to_string(),
    };
    let formats = vec![
        f("avc1", "none", 720, 0, "v720"),
        f("avc1", "none", 1080, 0, "v1080"),
        f("none", "opus", 0, 128_000, "a128"),
        f("none", "opus", 0, 160_000, "a160"),
        f("avc1", "mp4a", 360, 0, "c360"),
        f("avc1", "mp4a", 720, 0, "c720"),
    ];
    let sel = select_stream_sources("", &formats);
    assert_eq!(sel.video_url, "v1080");
    assert_eq!(sel.audio_url, "a160");
    assert_eq!(sel.combined_url, "c720");
    let quals = build_quality_list(&formats);
    assert_eq!(quals.len(), 3);
    assert_eq!(quals[0].height, 1080);
    assert_eq!(quals[1].height, 720);
    assert_eq!(quals[2].height, 360);
}

#[test]
fn stream_selection_keeps_preset_combined() {
    let sel = select_stream_sources("preset", &Vec::new());
    assert_eq!(sel.video_url, "");
    assert_eq!(sel.audio_url, "");
    assert_eq!(sel.combined_url, "preset");
}

#[test]
fn playlist_entry_url_fallbacks() {
    assert_eq!(
        playlist_entry_url("x", &Some("direct".to_string()), &None, &None),
        Some("direct".to_string())
    );
    assert_eq!(
        playlist_entry_url("x", &None, &Some("page".to_string()), &None),
        Some("page".to_string())
    );
    assert_eq!(
        playlist_entry_url("x", &None, &None, &Some("YoutubeTab".to_string())),
        Some("https://www.youtube.com/watch?v=x".to_string())
    );
    assert_eq!(playlist_entry_url("x", &None, &None, &Some("Vimeo".to_string())), None);
    assert_eq!(playlist_entry_url("x", &None, &None, &None), None);
}

#[test]
fn transcription_decisions() {
    assert_eq!(map_local_model_to_filename("whisper-tiny").unwrap(), "ggml-tiny.bin");
    assert_eq!(map_local_model_to_filename("whisper-large-v3").unwrap(), "ggml-large-v3.bin");
    assert!(map_local_model_to_filename("vosk-small").is_err());
    assert!(map_local_model_to_filename("nonsense").is_err());
    assert!(is_audio_extension("MP3"));
    assert!(is_audio_extension("flac"));
    assert!(!is_audio_extension("mkv"));
    assert!(transcription_source_is_remote("https://example.com/a.mp3"));
    assert!(!transcription_source_is_remote("/home/u/a.mp3"));
    assert_eq!(choose_transcription_model("small", "whisper-1"), "small");
    assert_eq!(choose_transcription_model("", "whisper-1"), "whisper-1");
    assert_eq!(effective_api_model("  "), "whisper-1");
    assert_eq!(effective_api_model(" gpt-4o-transcribe "), "gpt-4o-transcribe");
    assert!(validate_local_transcription("", "m").is_err());
    assert!(validate_local_transcription("w", "m").is_ok());
    assert!(validate_api_transcription(" ").is_err());
    assert!(validate_api_transcription("SECRET-REDACTED").is_ok());
    assert_eq!(
        whisper_model_url("ggml-tiny.bin"),
        "https://huggingface.co/ggerganov/whisper.cpp/resolve/main/ggml-tiny.bin?download=true"
    );
}

#[test]
fn transcription_job_table_cancels_and_removes() {
    let mut jobs = TranscriptionJobs::new();
    assert!(jobs.insert_job(TranscriptionJob {
        id: "t1".to_string(),
        cancel_token: CancelToken::new(),
    }));
    assert!(!jobs.insert_job(TranscriptionJob {
        id: "t1".to_string(),
        cancel_token: CancelToken::new(),
    }));
    assert!(jobs.cancel_remove("t1"));
    assert!(!jobs.cancel_remove("t1"));
    assert!(jobs.find_job("t1").is_none());
}

#[test]
fn ffmpeg_version_parsing() {
    assert_eq!(
        parse_ffmpeg_version_output("ffmpeg version 6.1.1-3ubuntu5 Copyright (c) 2000"),
        "6.1.1-3ubuntu5"
    );
    assert_eq!(parse_ffmpeg_version_output("something else\nmore"), "something else");
    assert_eq!(parse_ffmpeg_version_output(""), "unknown");
}

#[test]
fn log_levels_filter() {
    assert_eq!(LogLevel::Warn.as_str(), "WARN");
    assert!(should_log(LogLevel::Error, LogLevel::Warn));
    assert!(should_log(LogLevel::Warn, LogLevel::Warn));
    assert!(!should_log(LogLevel::Debug, LogLevel::Info));
}

#[test]
fn settings_defaults() {
    let s = AppSettings::default();
    assert_eq!(s.theme, "system");
    assert_eq!(s.language, "en");
    assert!(s.notifications);
    assert!(s.embed_thumbnail);
    assert_eq!(s.browser_cookies, "none");
    assert_eq!(s.ytdlp_flags, "");
}

#[test]
fn error_messages_are_nonempty() {
    let all = vec![
        AppError::Validation("v".to_string()),
        AppError::NotFound("n".to_string()),
        AppError::Download("d".to_string()),
        AppError::Cancelled,
        AppError::Network("w".to_string()),
        AppError::Parse("p".to_string()),
        AppError::Store("s".to_string()),
    ];
    for e in &all {
        assert!(!e.message().is_empty());
    }
    assert!(AppError::Cancelled.is_cancelled());
    let e = AppError::Validation("bad".to_string());
    assert!(!e.is_cancelled());
    assert!(e.message().contains("bad"));
}
