//! Feed-URL normalization: turning channel pages and bare host names into
//! canonical syndication endpoints.
use vstd::prelude::*;
use vstd::string::*;

use crate::error::{AppError, AppResult};
use crate::text::{
    contains_seq, contains_sub, ends_with_seq, ends_with_sub, find_first, find_from, idx_from,
    lemma_idx_from, starts_with_seq, starts_with_sub, substr_copy, trim_copy, trim_spec,
};

verus! {

/// How an input URL is brought to its canonical form: schemeless input that
/// clearly names the site gains a scheme; everything else is only trimmed.
pub open spec fn normalize_input_spec(s: Seq<char>) -> Seq<char> {
    let t = trim_spec(s);
    if starts_with_seq(t, "http://"@) || starts_with_seq(t, "https://"@) {
        t
    } else if starts_with_seq(t, "www."@) || starts_with_seq(t, "youtube.com/"@)
        || starts_with_seq(t, "www.youtube.com/"@) {
        "https://"@ + t
    } else {
        t
    }
}

/// Trims the input and, for recognizably schemeless site URLs, prepends the
/// https scheme.
pub fn normalize_input_url(input: &str) -> (r: String)
    ensures
        r@ == normalize_input_spec(input@),
{
    let t = trim_copy(input);
    if starts_with_sub(t.as_str(), "http://") || starts_with_sub(t.as_str(), "https://") {
        return t;
    }
    if starts_with_sub(t.as_str(), "www.") || starts_with_sub(t.as_str(), "youtube.com/")
        || starts_with_sub(t.as_str(), "www.youtube.com/") {
        let mut r = String::from_str("https://");
        r.append(t.as_str());
        return r;
    }
    t
}

/// The URL names the video site whose channels have a syndication feed.
pub open spec fn looks_like_youtube(s: Seq<char>) -> bool {
    contains_seq(s, "youtube.com/"@) || contains_seq(s, "www.youtube.com/"@)
}

pub fn looks_like_youtube_url(url: &str) -> (b: bool)
    ensures
        b == looks_like_youtube(url@),
{
    contains_sub(url, "youtube.com/") || contains_sub(url, "www.youtube.com/")
}

/// The channel identifier embedded in a `/channel/<id>` URL: the text after
/// the first such segment, cut at the next slash and then at any query.
pub open spec fn channel_id_of(s: Seq<char>) -> Option<Seq<char>> {
    match find_from(s, "/channel/"@, 0) {
        Some(i) => {
            let a = i + 9;
            let e1 = idx_from(s, '/', a, s.len() as int);
            let e2 = idx_from(s, '?', a, e1);
            Some(s.subrange(a, e2))
        },
        None => None,
    }
}

pub fn channel_id_from_channel_url(url: &str) -> (r: Option<String>)
    ensures
        match r {
            Some(id) => channel_id_of(url@) == Some(id@),
            None => channel_id_of(url@) is None,
        },
{
    proof {
        reveal_strlit("/channel/");
    }
    let n = url.unicode_len();
    match find_first(url, "/channel/") {
        Some(i) => {
            let a = i + 9;
            let mut e1: usize = a;
            while e1 < n && url.get_char(e1) != '/'
                invariant
                    n == url@.len(),
                    a <= e1 <= n,
                    forall|k: int| a <= k < e1 ==> url@[k] != '/',
                decreases n - e1,
            {
                e1 += 1;
            }
            let mut e2: usize = a;
            while e2 < e1 && url.get_char(e2) != '?'
                invariant
                    n == url@.len(),
                    e1 <= n,
                    a <= e2 <= e1,
                    forall|k: int| a <= k < e2 ==> url@[k] != '?',
                decreases e1 - e2,
            {
                e2 += 1;
            }
            proof {
                lemma_idx_from(url@, '/', a as int, n as int, e1 as int);
                lemma_idx_from(url@, '?', a as int, e1 as int, e2 as int);
            }
            Some(substr_copy(url, a, e2))
        },
        None => None,
    }
}

/// The channel identifier carried by a canonical feed URL's query string.
pub open spec fn feed_channel_id_of(s: Seq<char>) -> Option<Seq<char>> {
    match find_from(s, "channel_id="@, 0) {
        Some(i) => {
            let a = i + 11;
            Some(s.subrange(a, idx_from(s, '&', a, s.len() as int)))
        },
        None => None,
    }
}

pub fn extract_channel_id_from_feed_url(feed_url: &str) -> (r: Option<String>)
    ensures
        match r {
            Some(id) => feed_channel_id_of(feed_url@) == Some(id@),
            None => feed_channel_id_of(feed_url@) is None,
        },
{
    proof {
        reveal_strlit("channel_id=");
    }
    let n = feed_url.unicode_len();
    match find_first(feed_url, "channel_id=") {
        Some(i) => {
            let a = i + 11;
            let mut e: usize = a;
            while e < n && feed_url.get_char(e) != '&'
                invariant
                    n == feed_url@.len(),
                    a <= e <= n,
                    forall|k: int| a <= k < e ==> feed_url@[k] != '&',
                decreases n - e,
            {
                e += 1;
            }
            proof {
                lemma_idx_from(feed_url@, '&', a as int, n as int, e as int);
            }
            Some(substr_copy(feed_url, a, e))
        },
        None => None,
    }
}

/// The uploads-playlist identifier of a channel: `UC...` becomes `UU...`.
pub open spec fn uploads_playlist_of(s: Seq<char>) -> Option<Seq<char>> {
    if starts_with_seq(s, "UC"@) && s.len() > 2 {
        Some("UU"@ + s.subrange(2, s.len() as int))
    } else {
        None
    }
}

pub fn uploads_playlist_id(channel_id: &str) -> (r: Option<String>)
    ensures
        match r {
            Some(p) => uploads_playlist_of(channel_id@) == Some(p@),
            None => uploads_playlist_of(channel_id@) is None,
        },
{
    let n = channel_id.unicode_len();
    if starts_with_sub(channel_id, "UC") && n > 2 {
        let mut r = String::from_str("UU");
        let rest = substr_copy(channel_id, 2, n);
        r.append(rest.as_str());
        proof {
            reveal_strlit("UC");
        }
        Some(r)
    } else {
        proof {
            reveal_strlit("UC");
        }
        None
    }
}

/// An eight-digit-style upload date `YYYYMMDD` as a sortable timestamp; any
/// other shape passes through unchanged.
pub open spec fn upload_date_iso_spec(s: Seq<char>) -> Seq<char> {
    if s.len() == 8 {
        s.subrange(0, 4) + "-"@ + s.subrange(4, 6) + "-"@ + s.subrange(6, 8) + "T00:00:00Z"@
    } else {
        s
    }
}

pub fn upload_date_to_iso(upload_date: &str) -> (r: String)
    ensures
        r@ == upload_date_iso_spec(upload_date@),
{
    let n = upload_date.unicode_len();
    if n == 8 {
        let mut r = substr_copy(upload_date, 0, 4);
        r.append("-");
        let m = substr_copy(upload_date, 4, 6);
        r.append(m.as_str());
        r.append("-");
        let d = substr_copy(upload_date, 6, 8);
        r.append(d.as_str());
        r.append("T00:00:00Z");
        r
    } else {
        String::from_str(upload_date)
    }
}

/// The canonical syndication endpoint of a channel identifier.
pub open spec fn feed_url_for_channel_spec(id: Seq<char>) -> Seq<char> {
    "https://www.youtube.com/feeds/videos.xml?channel_id="@ + id
}

pub fn feed_url_for_channel(channel_id: &str) -> (r: String)
    ensures
        r@ == feed_url_for_channel_spec(channel_id@),
{
    let mut r = String::from_str("https://www.youtube.com/feeds/videos.xml?channel_id=");
    r.append(channel_id);
    r
}

/// What a channel-page URL maps to when only direct translation is allowed:
/// an already-canonical feed URL passes through, a `/channel/` URL maps to
/// its syndication endpoint, other feed-shaped URLs pass through, and the
/// rest are refused.
pub open spec fn channel_rss_spec(s: Seq<char>) -> Option<Seq<char>> {
    if contains_seq(s, "youtube.com/feeds/videos.xml"@) {
        Some(s)
    } else if find_from(s, "/channel/"@, 0) is Some {
        Some(feed_url_for_channel_spec(channel_id_of(s).unwrap()))
    } else if ends_with_seq(s, ".xml"@) || contains_seq(s, "/feed"@) || contains_seq(s, "rss"@) {
        Some(s)
    } else {
        None
    }
}

pub fn channel_to_rss_url(url: &str) -> (r: AppResult<String>)
    ensures
        match r {
            Ok(u) => channel_rss_spec(url@) == Some(u@),
            Err(e) => channel_rss_spec(url@) is None && e is Validation,
        },
{
    if contains_sub(url, "youtube.com/feeds/videos.xml") {
        return Ok(String::from_str(url));
    }
    if let Some(id) = channel_id_from_channel_url(url) {
        return Ok(feed_url_for_channel(id.as_str()));
    }
    if ends_with_sub(url, ".xml") || contains_sub(url, "/feed") || contains_sub(url, "rss") {
        return Ok(String::from_str(url));
    }
    Err(
        AppError::Validation(
            String::from_str("use a channel URL with a /channel/ segment or a direct feed URL"),
        ),
    )
}

/// What normalization decides for an input URL: either the canonical feed
/// URL is known locally, or a channel identifier must be resolved remotely
/// from the given page URL first.
pub enum FeedUrlResolution {
    Canonical(String),
    NeedsChannelResolution(String),
}

/// The URL is already feed-shaped and needs no resolution.
pub open spec fn feed_url_direct(u: Seq<char>) -> bool {
    ||| contains_seq(u, "youtube.com/feeds/videos.xml"@)
    ||| ends_with_seq(u, ".xml"@)
    ||| contains_seq(u, "/feed"@)
    ||| contains_seq(u, "/rss"@)
    ||| contains_seq(u, "rsshub.app"@)
}

/// Normalizes a feed URL as far as local knowledge reaches. Feed-shaped
/// URLs and `/channel/` URLs are resolved here; other site URLs need a
/// remote lookup of the channel identifier, which the caller performs
/// before finishing with `feed_url_for_channel`.
pub fn normalize_feed_url(url: &str) -> (r: FeedUrlResolution)
    ensures
        ({
            let u = normalize_input_spec(url@);
            match r {
                FeedUrlResolution::Canonical(c) => {
                    if feed_url_direct(u) {
                        c@ == u
                    } else if looks_like_youtube(u) && find_from(u, "/channel/"@, 0) is Some {
                        c@ == feed_url_for_channel_spec(channel_id_of(u).unwrap())
                    } else {
                        !looks_like_youtube(u) && c@ == u
                    }
                },
                FeedUrlResolution::NeedsChannelResolution(p) => {
                    &&& !feed_url_direct(u)
                    &&& looks_like_youtube(u)
                    &&& find_from(u, "/channel/"@, 0) is None
                    &&& p@ == u
                },
            }
        }),
{
    let u = normalize_input_url(url);
    if contains_sub(u.as_str(), "youtube.com/feeds/videos.xml") || ends_with_sub(
        u.as_str(),
        ".xml",
    ) || contains_sub(u.as_str(), "/feed") || contains_sub(u.as_str(), "/rss") || contains_sub(
        u.as_str(),
        "rsshub.app",
    ) {
        return FeedUrlResolution::Canonical(u);
    }
    if looks_like_youtube_url(u.as_str()) {
        if let Some(id) = channel_id_from_channel_url(u.as_str()) {
            return FeedUrlResolution::Canonical(feed_url_for_channel(id.as_str()));
        }
        return FeedUrlResolution::NeedsChannelResolution(u);
    }
    FeedUrlResolution::Canonical(u)
}

} // verus!
