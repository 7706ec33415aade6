use ytdl_core::feed::{
    assemble_uploads_items, collect_item_ids, dedup_items_by_id, infer_video_type,
    merge_listing_with_feed, shorts_items_from_entries, sort_items_by_published_desc,
    video_items_from_entries, ListingEntry, RssItem,
};
use ytdl_core::feedops::{
    choose_avatar, choose_channel_name, feed_sync_percent, feed_title_fallback,
};
use ytdl_core::store::Database;

fn item(id: &str, published: &str, kind: &str) -> RssItem {
    RssItem {
        id: id.to_string(),
        title: format!("title {}", id),
        video_id: id.to_string(),
        url: format!("https://www.youtube.com/watch?v={}", id),
        thumbnail: String::new(),
        published_at: published.to_string(),
        downloaded: false,
        video_type: kind.to_string(),
    }
}

#[test]
fn merge_precedence_keeps_kind_adopts_metadata() {
    // secondary-source item: a short with no timestamp or thumbnail
    let mut secondary = item("v1", "", "short");
    secondary.url = "https://www.youtube.com/shorts/v1".to_string();
    // primary-source item: same identity with timestamp and thumbnail
    let mut primary = item("v1", "2024-01-01T00:00:00Z", "video");
    primary.thumbnail = "T".to_string();
    let merged = merge_listing_with_feed(vec![secondary], &vec![primary]);
    assert_eq!(merged.len(), 1);
    assert_eq!(merged[0].video_type, "short");
    assert_eq!(merged[0].url, "https://www.youtube.com/shorts/v1");
    assert_eq!(merged[0].published_at, "2024-01-01T00:00:00Z");
    assert_eq!(merged[0].thumbnail, "T");
}

#[test]
fn merge_keeps_base_fields_when_primary_is_blank() {
    let mut secondary = item("v1", "2023-05-05T00:00:00Z", "short");
    secondary.thumbnail = "orig".to_string();
    let primary = item("v1", "", "video");
    let merged = merge_listing_with_feed(vec![secondary], &vec![primary]);
    assert_eq!(merged[0].published_at, "2023-05-05T00:00:00Z");
    assert_eq!(merged[0].thumbnail, "orig");
}

#[test]
fn merge_appends_unknown_identities() {
    let merged = merge_listing_with_feed(
        vec![item("a", "1", "video")],
        &vec![item("b", "2", "video")],
    );
    assert_eq!(merged.len(), 2);
    assert_eq!(merged[0].id, "a");
    assert_eq!(merged[1].id, "b");
}

#[test]
fn dedup_first_occurrence_wins() {
    let items = vec![item("a", "1", "short"), item("b", "2", "video"), item("a", "3", "video")];
    let deduped = dedup_items_by_id(items);
    assert_eq!(deduped.len(), 2);
    assert_eq!(deduped[0].id, "a");
    assert_eq!(deduped[0].video_type, "short");
    assert_eq!(deduped[1].id, "b");
}

#[test]
fn sort_is_most_recent_first() {
    let items = vec![item("a", "2024-01-01", "video"), item("b", "2024-03-01", "video"), item(
        "c",
        "2024-02-01",
        "video",
    )];
    let sorted = sort_items_by_published_desc(items);
    assert_eq!(sorted[0].id, "b");
    assert_eq!(sorted[1].id, "c");
    assert_eq!(sorted[2].id, "a");
}

#[test]
fn kind_inference_rules() {
    assert_eq!(infer_video_type("A #Shorts clip", "https://x/watch?v=1"), "short");
    assert_eq!(infer_video_type("plain", "https://x/shorts/1"), "short");
    assert_eq!(infer_video_type("plain", "https://x/watch?v=1"), "video");
}

#[test]
fn listing_entries_become_items() {
    let entry = |id: &str, title: &str| ListingEntry {
        id: Some(id.to_string()),
        url: None,
        title: Some(title.to_string()),
        upload_date: Some("20240102".to_string()),
        thumbnail: None,
        last_thumbnail_url: None,
    };
    let shorts = shorts_items_from_entries(&vec![entry("s1", "clip")]);
    assert_eq!(shorts.len(), 1);
    assert_eq!(shorts[0].video_type, "short");
    assert_eq!(shorts[0].url, "https://www.youtube.com/shorts/s1");
    assert_eq!(shorts[0].published_at, "2024-01-02T00:00:00Z");
    assert_eq!(shorts[0].thumbnail, "https://i.ytimg.com/vi/s1/mqdefault.jpg");

    let ids = collect_item_ids(&shorts);
    let videos = video_items_from_entries(&vec![entry("s1", "clip"), entry("v2", "talk")], &ids);
    assert_eq!(videos.len(), 2);
    assert_eq!(videos[0].video_type, "short");
    assert_eq!(videos[1].video_type, "video");
    assert_eq!(videos[1].url, "https://www.youtube.com/watch?v=v2");

    let all = assemble_uploads_items(shorts, videos);
    assert_eq!(all.len(), 2);
    assert_eq!(all[0].id, "s1");
    assert_eq!(all[1].id, "v2");
}

#[test]
fn listing_keeps_every_entry_with_an_identity_in_order() {
    let with_id = |id: &str| ListingEntry {
        id: Some(id.to_string()),
        url: None,
        title: None,
        upload_date: None,
        thumbnail: None,
        last_thumbnail_url: None,
    };
    let without_id = ListingEntry {
        id: None,
        url: None,
        title: Some("skipped".to_string()),
        upload_date: None,
        thumbnail: None,
        last_thumbnail_url: None,
    };
    let items = shorts_items_from_entries(&vec![without_id, with_id("a"), with_id("b")]);
    assert_eq!(items.len(), 2);
    assert_eq!(items[0].id, "a");
    assert_eq!(items[1].id, "b");
}

#[test]
fn listing_entry_without_identity_is_skipped() {
    let e = ListingEntry {
        id: None,
        url: None,
        title: Some("no id".to_string()),
        upload_date: None,
        thumbnail: None,
        last_thumbnail_url: None,
    };
    assert!(shorts_items_from_entries(&vec![e]).is_empty());
}

#[test]
fn reconciliation_is_idempotent_and_keeps_downloaded() {
    let mut db = Database::new();
    let fid = "feed-1".to_string();
    db.insert_feed("feed-1", "https://example.com/feed", "t", "").unwrap();
    let fetched = vec![item("a", "2024-01-01", "video"), item("b", "2024-01-02", "video")];
    db.apply_feed_items(&fid, &fetched).unwrap();
    // the user marks one item downloaded
    db.update_feed_item_downloaded("a", true).unwrap();
    // the same upstream data arrives again
    db.apply_feed_items(&fid, &fetched).unwrap();
    assert_eq!(db.feed_items.len(), 2);
    assert!(db.feed_items[0].item.downloaded, "a refresh must not reset the downloaded flag");
    assert!(!db.feed_items[1].item.downloaded);
    let snapshot: Vec<(String, String, bool)> = db
        .feed_items
        .iter()
        .map(|r| (r.item.id.clone(), r.item.published_at.clone(), r.item.downloaded))
        .collect();
    db.apply_feed_items(&fid, &fetched).unwrap();
    let again: Vec<(String, String, bool)> = db
        .feed_items
        .iter()
        .map(|r| (r.item.id.clone(), r.item.published_at.clone(), r.item.downloaded))
        .collect();
    assert_eq!(snapshot, again, "a second identical pass changes nothing");
}

#[test]
fn upsert_refreshes_metadata() {
    let mut db = Database::new();
    db.insert_feed_item("a", "f", "a", "old title", "", "", "2024-01-01", "video").unwrap();
    db.update_feed_item_downloaded("a", true).unwrap();
    db.insert_feed_item("a", "f", "a", "new title", "th", "u", "2024-02-01", "short").unwrap();
    assert_eq!(db.feed_items.len(), 1);
    assert_eq!(db.feed_items[0].item.title, "new title");
    assert_eq!(db.feed_items[0].item.published_at, "2024-02-01");
    assert!(db.feed_items[0].item.downloaded);
}

#[test]
fn feed_deletion_cascades_to_items() {
    let mut db = Database::new();
    db.insert_feed("f1", "https://example.com/a", "t", "").unwrap();
    db.insert_feed("f2", "https://example.com/b", "t", "").unwrap();
    db.insert_feed_item("i1", "f1", "i1", "x", "", "", "", "video").unwrap();
    db.insert_feed_item("i2", "f2", "i2", "y", "", "", "", "video").unwrap();
    db.delete_feed("f1").unwrap();
    assert_eq!(db.feeds.len(), 1);
    assert_eq!(db.feed_items.len(), 1);
    assert_eq!(db.feed_items[0].item.id, "i2");
}

#[test]
fn feed_items_query_is_sorted_and_scoped() {
    let mut db = Database::new();
    db.insert_feed_item("i1", "f1", "i1", "x", "", "", "2024-01-01", "video").unwrap();
    db.insert_feed_item("i2", "f1", "i2", "y", "", "", "2024-03-01", "video").unwrap();
    db.insert_feed_item("i3", "f2", "i3", "z", "", "", "2024-02-01", "video").unwrap();
    let items = db.get_feed_items("f1");
    assert_eq!(items.len(), 2);
    assert_eq!(items[0].id, "i2");
    assert_eq!(items[1].id, "i1");
}

#[test]
fn blank_fetches_preserve_stored_channel_info() {
    assert_eq!(choose_avatar("  ", "stored.png"), "stored.png");
    assert_eq!(choose_avatar("new.png", "stored.png"), "new.png");
    assert_eq!(choose_channel_name("", "Stored Name"), "Stored Name");
    assert_eq!(choose_channel_name("Fresh", "Stored Name"), "Fresh");
    assert_eq!(feed_title_fallback("", "  https://example.com/feed "), "https://example.com/feed");
    assert_eq!(feed_title_fallback("Fetched", "u"), "Fetched");
}

#[test]
fn sync_percent_math() {
    assert_eq!(feed_sync_percent(0, 0, false), 0);
    assert_eq!(feed_sync_percent(0, 0, true), 100);
    assert_eq!(feed_sync_percent(1, 4, false), 25);
    assert_eq!(feed_sync_percent(4, 4, false), 100);
}
