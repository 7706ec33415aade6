use ytdl_core::progress::{output_path_of_line, parse_ytdlp_progress};
use ytdl_core::feedurl::{
    channel_id_from_channel_url, channel_to_rss_url, extract_channel_id_from_feed_url,
    feed_url_for_channel, looks_like_youtube_url, normalize_feed_url, normalize_input_url,
    upload_date_to_iso, uploads_playlist_id, FeedUrlResolution,
};
use ytdl_core::atom::parse_atom_feed;

#[test]
fn progress_line_with_rate_and_eta() {
    let r = parse_ytdlp_progress("[download]  12.5% of ~10MiB at 1.00MiB/s ETA 00:05");
    let (pm, speed, eta) = r.expect("line should parse");
    assert_eq!(pm, 125);
    assert_eq!(speed, "1.00MiB/s");
    assert_eq!(eta, "00:05");
}

#[test]
fn progress_line_without_percent_sign() {
    assert!(parse_ytdlp_progress("[download] Destination: video.mp4").is_none());
}

#[test]
fn progress_line_without_download_marker() {
    assert!(parse_ytdlp_progress("50.0% of something at 1MiB/s").is_none());
}

#[test]
fn progress_line_with_percent_but_no_markers() {
    let r = parse_ytdlp_progress("[download] 42%");
    let (pm, speed, eta) = r.expect("line should parse");
    assert_eq!(pm, 420);
    assert_eq!(speed, "");
    assert_eq!(eta, "");
}

#[test]
fn progress_full_line() {
    let r = parse_ytdlp_progress("[download] 100% of 3.5MiB at 2.00MiB/s ETA 00:00");
    let (pm, _, _) = r.expect("line should parse");
    assert_eq!(pm, 1000);
}

#[test]
fn progress_number_ending_in_bare_point() {
    let r = parse_ytdlp_progress("[download] 12.% of x");
    let (pm, _, _) = r.expect("line should parse");
    assert_eq!(pm, 120);
}

#[test]
fn progress_takes_first_percentage() {
    let r = parse_ytdlp_progress("[download] 5% then 99%");
    let (pm, _, _) = r.expect("line should parse");
    assert_eq!(pm, 50);
}

#[test]
fn progress_saturates_above_hundred() {
    let r = parse_ytdlp_progress("[download] 250% weird");
    let (pm, _, _) = r.expect("line should parse");
    assert_eq!(pm, 1000);
}

#[test]
fn output_path_line_recognized() {
    let r = output_path_of_line("  /tmp/media/My Title.mp4  ");
    assert_eq!(r.expect("path line"), "/tmp/media/My Title.mp4");
}

#[test]
fn output_path_line_rejects_progress_and_empty() {
    assert!(output_path_of_line("[download] 10% of x").is_none());
    assert!(output_path_of_line("   ").is_none());
    assert!(output_path_of_line("no extension here").is_none());
}

#[test]
fn normalize_input_adds_scheme() {
    assert_eq!(normalize_input_url("  www.youtube.com/@someone  "), "https://www.youtube.com/@someone");
    assert_eq!(normalize_input_url("youtube.com/channel/UCx"), "https://youtube.com/channel/UCx");
    assert_eq!(normalize_input_url("https://example.com/feed"), "https://example.com/feed");
    assert_eq!(normalize_input_url("plain words"), "plain words");
}

#[test]
fn channel_id_extraction() {
    assert_eq!(
        channel_id_from_channel_url("https://www.youtube.com/channel/UCabc123/videos"),
        Some("UCabc123".to_string())
    );
    assert_eq!(
        channel_id_from_channel_url("https://www.youtube.com/channel/UCabc?si=1"),
        Some("UCabc".to_string())
    );
    assert_eq!(channel_id_from_channel_url("https://example.com/"), None);
}

#[test]
fn feed_url_channel_id_extraction() {
    assert_eq!(
        extract_channel_id_from_feed_url(
            "https://www.youtube.com/feeds/videos.xml?channel_id=UCxyz&extra=1"
        ),
        Some("UCxyz".to_string())
    );
    assert_eq!(extract_channel_id_from_feed_url("https://example.com/rss"), None);
}

#[test]
fn uploads_playlist_mapping() {
    assert_eq!(uploads_playlist_id("UCabcdef"), Some("UUabcdef".to_string()));
    assert_eq!(uploads_playlist_id("UC"), None);
    assert_eq!(uploads_playlist_id("XYabcdef"), None);
}

#[test]
fn upload_date_formatting() {
    assert_eq!(upload_date_to_iso("20240101"), "2024-01-01T00:00:00Z");
    assert_eq!(upload_date_to_iso("2024"), "2024");
}

#[test]
fn channel_to_rss_mapping() {
    assert_eq!(
        channel_to_rss_url("https://www.youtube.com/channel/UCabc").unwrap(),
        "https://www.youtube.com/feeds/videos.xml?channel_id=UCabc"
    );
    assert_eq!(
        channel_to_rss_url("https://example.com/blog/feed").unwrap(),
        "https://example.com/blog/feed"
    );
    assert!(channel_to_rss_url("https://example.com/page").is_err());
}

#[test]
fn normalize_feed_url_decisions() {
    match normalize_feed_url("https://www.youtube.com/feeds/videos.xml?channel_id=UCx") {
        FeedUrlResolution::Canonical(u) => {
            assert_eq!(u, "https://www.youtube.com/feeds/videos.xml?channel_id=UCx")
        }
        _ => panic!("expected canonical"),
    }
    match normalize_feed_url("https://www.youtube.com/channel/UCq") {
        FeedUrlResolution::Canonical(u) => {
            assert_eq!(u, feed_url_for_channel("UCq"))
        }
        _ => panic!("expected canonical"),
    }
    match normalize_feed_url("https://www.youtube.com/@handle") {
        FeedUrlResolution::NeedsChannelResolution(u) => {
            assert_eq!(u, "https://www.youtube.com/@handle")
        }
        _ => panic!("expected resolution request"),
    }
    match normalize_feed_url("https://example.com/my.xml") {
        FeedUrlResolution::Canonical(u) => assert_eq!(u, "https://example.com/my.xml"),
        _ => panic!("expected canonical"),
    }
    assert!(looks_like_youtube_url("https://www.youtube.com/watch?v=1"));
    assert!(!looks_like_youtube_url("https://example.com/"));
}

#[test]
fn atom_feed_parse_roundtrip() {
    let xml = "<?xml version=\"1.0\"?>\n<feed>\n<title>My Channel</title>\n<entry>\n<title> First Video </title>\n<yt:videoId>abc123</yt:videoId>\n<published>2024-01-02T00:00:00Z</published>\n<media:thumbnail url=\"https://img.example/t.jpg\"/>\n</entry>\n<entry>\n<title>A #shorts clip</title>\n<yt:videoId>def456</yt:videoId>\n<published>2024-01-03T00:00:00Z</published>\n</entry>\n</feed>";
    let (title, items) = parse_atom_feed(xml).unwrap();
    assert_eq!(title, "My Channel");
    assert_eq!(items.len(), 2);
    assert_eq!(items[0].id, "abc123");
    assert_eq!(items[0].title, "First Video");
    assert_eq!(items[0].url, "https://www.youtube.com/watch?v=abc123");
    assert_eq!(items[0].thumbnail, "https://img.example/t.jpg");
    assert_eq!(items[0].published_at, "2024-01-02T00:00:00Z");
    assert_eq!(items[0].video_type, "video");
    assert!(!items[0].downloaded);
    assert_eq!(items[1].video_type, "short");
}

#[test]
fn atom_feed_link_overrides_url() {
    let xml = "<feed><entry><yt:videoId>x1</yt:videoId><link rel=\"alternate\" href=\"https://www.youtube.com/shorts/x1\"/></entry></feed>";
    let (_, items) = parse_atom_feed(xml).unwrap();
    assert_eq!(items.len(), 1);
    assert_eq!(items[0].url, "https://www.youtube.com/shorts/x1");
    assert_eq!(items[0].video_type, "short");
}

#[test]
fn atom_feed_skips_entries_without_id() {
    let xml = "<feed><entry><title>No id</title></entry></feed>";
    let (_, items) = parse_atom_feed(xml).unwrap();
    assert!(items.is_empty());
}
