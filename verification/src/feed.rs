//! Feed data: discovered items, their kind inference, and the conversion of
//! raw channel-listing entries into items.
use vstd::prelude::*;
use vstd::string::*;

use crate::feedurl::upload_date_iso_spec;
use crate::feedurl::upload_date_to_iso;
use crate::text::{contains_seq, contains_sub, contains_sub_lower, lower, str_eq};

verus! {

/// One discovered content entry of a subscribed source. The identity is
/// `id`, stable across re-fetches; `downloaded` is user-owned state that a
/// refresh must never reset.
pub struct RssItem {
    pub id: String,
    pub title: String,
    pub video_id: String,
    pub url: String,
    pub thumbnail: String,
    pub published_at: String,
    pub downloaded: bool,
    pub video_type: String,
}

/// The mathematical content of an `RssItem`.
#[verifier::ext_equal]
pub struct ItemView {
    pub id: Seq<char>,
    pub title: Seq<char>,
    pub video_id: Seq<char>,
    pub url: Seq<char>,
    pub thumbnail: Seq<char>,
    pub published_at: Seq<char>,
    pub downloaded: bool,
    pub video_type: Seq<char>,
}

impl View for RssItem {
    type V = ItemView;

    open spec fn view(&self) -> ItemView {
        ItemView {
            id: self.id@,
            title: self.title@,
            video_id: self.video_id@,
            url: self.url@,
            thumbnail: self.thumbnail@,
            published_at: self.published_at@,
            downloaded: self.downloaded,
            video_type: self.video_type@,
        }
    }
}

/// The views of a sequence of items.
pub open spec fn item_views(s: Seq<RssItem>) -> Seq<ItemView> {
    s.map_values(|x: RssItem| x@)
}

/// A fresh copy of an item with the same content.
pub fn copy_item(i: &RssItem) -> (r: RssItem)
    ensures
        r@ == i@,
{
    RssItem {
        id: i.id.clone(),
        title: i.title.clone(),
        video_id: i.video_id.clone(),
        url: i.url.clone(),
        thumbnail: i.thumbnail.clone(),
        published_at: i.published_at.clone(),
        downloaded: i.downloaded,
        video_type: i.video_type.clone(),
    }
}

/// A subscribed content source and what is known about it.
pub struct RssFeed {
    pub id: String,
    pub url: String,
    pub title: String,
    pub channel_name: String,
    pub thumbnail: String,
    pub auto_download: bool,
    pub keywords: Vec<String>,
    pub last_checked: String,
    pub items: Vec<RssItem>,
}

/// An item counts as short-form when its URL carries the short-form path or
/// its lowered title carries a short-form tag; otherwise it is a video.
pub open spec fn is_short_marked(title: Seq<char>, url: Seq<char>) -> bool {
    ||| contains_seq(url, "/shorts/"@)
    ||| contains_seq(lower(title), "#short"@)
    ||| contains_seq(lower(title), "#shorts"@)
}

/// The fallback kind of an item without an explicit signal.
pub fn infer_video_type(title: &str, url: &str) -> (r: String)
    ensures
        r@ == if is_short_marked(title@, url@) {
            "short"@
        } else {
            "video"@
        },
{
    if contains_sub(url, "/shorts/") || contains_sub_lower(title, "#short") || contains_sub_lower(
        title,
        "#shorts",
    ) {
        String::from_str("short")
    } else {
        String::from_str("video")
    }
}

/// One entry of a flat channel listing, with every field the upstream data
/// may omit left optional.
pub struct ListingEntry {
    pub id: Option<String>,
    pub url: Option<String>,
    pub title: Option<String>,
    pub upload_date: Option<String>,
    pub thumbnail: Option<String>,
    pub last_thumbnail_url: Option<String>,
}

/// The mathematical content of a `ListingEntry`.
#[verifier::ext_equal]
pub struct EntryView {
    pub id: Option<Seq<char>>,
    pub url: Option<Seq<char>>,
    pub title: Option<Seq<char>>,
    pub upload_date: Option<Seq<char>>,
    pub thumbnail: Option<Seq<char>>,
    pub last_thumbnail_url: Option<Seq<char>>,
}

impl View for ListingEntry {
    type V = EntryView;

    open spec fn view(&self) -> EntryView {
        EntryView {
            id: match self.id {
                Some(ref x) => Some(x@),
                None => None,
            },
            url: match self.url {
                Some(ref x) => Some(x@),
                None => None,
            },
            title: match self.title {
                Some(ref x) => Some(x@),
                None => None,
            },
            upload_date: match self.upload_date {
                Some(ref x) => Some(x@),
                None => None,
            },
            thumbnail: match self.thumbnail {
                Some(ref x) => Some(x@),
                None => None,
            },
            last_thumbnail_url: match self.last_thumbnail_url {
                Some(ref x) => Some(x@),
                None => None,
            },
        }
    }
}

/// The identity an entry provides: its id field, else its url field.
pub open spec fn entry_id_of(e: EntryView) -> Option<Seq<char>> {
    match e.id {
        Some(x) => Some(x),
        None => e.url,
    }
}

/// The thumbnail an entry provides: its own, else the last of its thumbnail
/// list, else the site's well-known thumbnail location for the identity.
pub open spec fn entry_thumb_of(e: EntryView, id: Seq<char>) -> Seq<char> {
    match e.thumbnail {
        Some(x) => x,
        None => match e.last_thumbnail_url {
            Some(y) => y,
            None => "https://i.ytimg.com/vi/"@ + id + "/mqdefault.jpg"@,
        },
    }
}

/// The title an entry provides, with the documented default.
pub open spec fn entry_title_of(e: EntryView) -> Seq<char> {
    match e.title {
        Some(x) => x,
        None => "Unknown"@,
    }
}

/// The sortable timestamp an entry provides, empty when absent.
pub open spec fn entry_published_of(e: EntryView) -> Seq<char> {
    match e.upload_date {
        Some(x) => upload_date_iso_spec(x),
        None => Seq::empty(),
    }
}

/// The item a short-form listing entry yields: identity from the entry,
/// short-form URL and kind, thumbnail and timestamp with their defaults,
/// and the downloaded flag clear.
pub open spec fn shorts_item_of(e: EntryView) -> Option<ItemView> {
    match entry_id_of(e) {
        Some(id) => Some(
            ItemView {
                id: id,
                title: entry_title_of(e),
                video_id: id,
                url: "https://www.youtube.com/shorts/"@ + id,
                thumbnail: entry_thumb_of(e, id),
                published_at: entry_published_of(e),
                downloaded: false,
                video_type: "short"@,
            },
        ),
        None => None,
    }
}

/// Builds the item of one short-form listing entry, if it has an identity.
pub fn shorts_item_from_entry(e: &ListingEntry) -> (r: Option<RssItem>)
    ensures
        match r {
            Some(it) => shorts_item_of(e@) == Some(it@),
            None => shorts_item_of(e@) is None,
        },
{
    let id: &String = match e.id {
        Some(ref x) => x,
        None => match e.url {
            Some(ref x) => x,
            None => {
                return None;
            },
        },
    };
    let title = match e.title {
        Some(ref t) => t.clone(),
        None => String::from_str("Unknown"),
    };
    let mut url = String::from_str("https://www.youtube.com/shorts/");
    url.append(id.as_str());
    let thumbnail = entry_thumbnail(e, id.as_str());
    let published_at = match e.upload_date {
        Some(ref d) => upload_date_to_iso(d.as_str()),
        None => String::new(),
    };
    Some(
        RssItem {
            id: id.clone(),
            title,
            video_id: id.clone(),
            url,
            thumbnail,
            published_at,
            downloaded: false,
            video_type: String::from_str("short"),
        },
    )
}

/// The thumbnail of a listing entry, with the documented fallbacks.
pub fn entry_thumbnail(e: &ListingEntry, video_id: &str) -> (r: String)
    ensures
        r@ == entry_thumb_of(e@, video_id@),
{
    match e.thumbnail {
        Some(ref x) => x.clone(),
        None => match e.last_thumbnail_url {
            Some(ref y) => y.clone(),
            None => {
                let mut r = String::from_str("https://i.ytimg.com/vi/");
                r.append(video_id);
                r.append("/mqdefault.jpg");
                r
            },
        },
    }
}

/// Whether some string in `ids` holds exactly the characters of `x`.
pub open spec fn id_seq_contains(ids: Seq<String>, x: Seq<char>) -> bool {
    exists|k: int| 0 <= k < ids.len() && ids[k]@ == x
}

/// Whether `id` occurs in the collected list of short-form identities.
pub fn ids_contain(ids: &Vec<String>, id: &str) -> (b: bool)
    ensures
        b == id_seq_contains(ids@, id@),
{
    let n = ids.len();
    let mut k: usize = 0;
    while k < n
        invariant
            n == ids@.len(),
            k <= n,
            forall|j: int| 0 <= j < k ==> ids@[j]@ != id@,
        decreases n - k,
    {
        if str_eq(ids[k].as_str(), id) {
            return true;
        }
        k += 1;
    }
    false
}

/// The item a long-form listing entry yields. An entry already surfaced in
/// the short-form listing, or marked short by its title or URL, keeps the
/// short kind and the short-form URL.
pub open spec fn video_item_of(e: EntryView, short_ids: Seq<String>) -> Option<ItemView> {
    match entry_id_of(e) {
        Some(id) => {
            let marked = id_seq_contains(short_ids, id) || contains_seq(
                lower(entry_title_of(e)),
                "#short"@,
            ) || contains_seq(lower(entry_title_of(e)), "#shorts"@) || (match e.url {
                Some(u) => contains_seq(u, "/shorts/"@),
                None => false,
            });
            Some(
                ItemView {
                    id: id,
                    title: entry_title_of(e),
                    video_id: id,
                    url: if marked {
                        "https://www.youtube.com/shorts/"@ + id
                    } else {
                        "https://www.youtube.com/watch?v="@ + id
                    },
                    thumbnail: entry_thumb_of(e, id),
                    published_at: entry_published_of(e),
                    downloaded: false,
                    video_type: if marked {
                        "short"@
                    } else {
                        "video"@
                    },
                },
            )
        },
        None => None,
    }
}

/// Builds the item of one long-form listing entry, if it has an identity.
pub fn video_item_from_entry(e: &ListingEntry, short_ids: &Vec<String>) -> (r: Option<RssItem>)
    ensures
        match r {
            Some(it) => video_item_of(e@, short_ids@) == Some(it@),
            None => video_item_of(e@, short_ids@) is None,
        },
{
    let id: &String = match e.id {
        Some(ref x) => x,
        None => match e.url {
            Some(ref x) => x,
            None => {
                return None;
            },
        },
    };
    let title = match e.title {
        Some(ref t) => t.clone(),
        None => String::from_str("Unknown"),
    };
    let in_shorts = ids_contain(short_ids, id.as_str());
    let title_marked = contains_sub_lower(title.as_str(), "#short") || contains_sub_lower(
        title.as_str(),
        "#shorts",
    );
    let url_marked = match e.url {
        Some(ref u) => contains_sub(u.as_str(), "/shorts/"),
        None => false,
    };
    let marked = in_shorts || title_marked || url_marked;
    let mut url = if marked {
        String::from_str("https://www.youtube.com/shorts/")
    } else {
        String::from_str("https://www.youtube.com/watch?v=")
    };
    url.append(id.as_str());
    let thumbnail = entry_thumbnail(e, id.as_str());
    let published_at = match e.upload_date {
        Some(ref d) => upload_date_to_iso(d.as_str()),
        None => String::new(),
    };
    Some(
        RssItem {
            id: id.clone(),
            title,
            video_id: id.clone(),
            url,
            thumbnail,
            published_at,
            downloaded: false,
            video_type: if marked {
                String::from_str("short")
            } else {
                String::from_str("video")
            },
        },
    )
}

/// Lexicographic comparison of character sequences from position `i` on:
/// the shorter sequence precedes its extensions, and the first differing
/// character decides.
pub open spec fn str_le_from(a: Seq<char>, b: Seq<char>, i: int) -> bool
    decreases a.len() - i,
{
    if i < 0 || i >= a.len() {
        true
    } else if i >= b.len() {
        false
    } else if a[i] != b[i] {
        a[i] < b[i]
    } else {
        str_le_from(a, b, i + 1)
    }
}

/// `a` precedes or equals `b` in lexicographic order.
pub open spec fn str_le(a: Seq<char>, b: Seq<char>) -> bool {
    str_le_from(a, b, 0)
}

pub proof fn lemma_str_le_total_from(a: Seq<char>, b: Seq<char>, i: int)
    ensures
        str_le_from(a, b, i) || str_le_from(b, a, i),
    decreases a.len() + b.len() - i,
{
    if 0 <= i && i < a.len() && i < b.len() && a[i] == b[i] {
        lemma_str_le_total_from(a, b, i + 1);
    }
}

pub proof fn lemma_str_le_trans_from(a: Seq<char>, b: Seq<char>, c: Seq<char>, i: int)
    requires
        str_le_from(a, b, i),
        str_le_from(b, c, i),
    ensures
        str_le_from(a, c, i),
    decreases a.len() - i,
{
    if 0 <= i && i < a.len() {
        if i < b.len() && i < c.len() && a[i] == b[i] && b[i] == c[i] {
            lemma_str_le_trans_from(a, b, c, i + 1);
        }
    }
}

/// Compares two strings lexicographically by character.
pub fn str_le_exec(a: &str, b: &str) -> (r: bool)
    ensures
        r == str_le(a@, b@),
{
    let n = a.unicode_len();
    let m = b.unicode_len();
    let mut i: usize = 0;
    while i < n && i < m
        invariant
            n == a@.len(),
            m == b@.len(),
            i <= n,
            i <= m,
            str_le(a@, b@) == str_le_from(a@, b@, i as int),
            str_le(b@, a@) == str_le_from(b@, a@, i as int),
        decreases n - i,
    {
        let ca = a.get_char(i);
        let cb = b.get_char(i);
        if ca != cb {
            return ca < cb;
        }
        i += 1;
    }
    i >= n
}

/// The first index at or after `i` whose item has the given identity.
pub open spec fn first_idx_with_id(s: Seq<ItemView>, id: Seq<char>, i: int) -> Option<int>
    decreases s.len() - i,
{
    if i < 0 || i >= s.len() {
        None
    } else if s[i].id == id {
        Some(i)
    } else {
        first_idx_with_id(s, id, i + 1)
    }
}

pub proof fn lemma_first_idx_with_id(s: Seq<ItemView>, id: Seq<char>, i: int, b: int)
    requires
        0 <= i <= b <= s.len(),
        forall|j: int| i <= j < b ==> s[j].id != id,
        b < s.len() ==> s[b].id == id,
    ensures
        first_idx_with_id(s, id, i) == if b < s.len() {
            Some(b)
        } else {
            None::<int>
        },
    decreases b - i,
{
    if i < b {
        lemma_first_idx_with_id(s, id, i + 1, b);
    }
}

pub proof fn lemma_first_idx_none(s: Seq<ItemView>, id: Seq<char>)
    requires
        first_idx_with_id(s, id, 0) is None,
    ensures
        forall|k: int| 0 <= k < s.len() ==> s[k].id != id,
{
    lemma_first_idx_none_from(s, id, 0);
}

proof fn lemma_first_idx_none_from(s: Seq<ItemView>, id: Seq<char>, i: int)
    requires
        0 <= i,
        first_idx_with_id(s, id, i) is None,
    ensures
        forall|k: int| i <= k < s.len() ==> s[k].id != id,
    decreases s.len() - i,
{
    if i < s.len() {
        lemma_first_idx_none_from(s, id, i + 1);
    }
}

/// The position of the first item with the given identity, if any.
pub fn find_item_idx(v: &Vec<RssItem>, id: &str) -> (r: Option<usize>)
    ensures
        match r {
            Some(i) => first_idx_with_id(item_views(v@), id@, 0) == Some(i as int) && i < v@.len()
                && item_views(v@)[i as int].id == id@,
            None => first_idx_with_id(item_views(v@), id@, 0) is None,
        },
{
    let n = v.len();
    let mut i: usize = 0;
    while i < n
        invariant
            n == v@.len(),
            i <= n,
            forall|k: int| 0 <= k < i ==> item_views(v@)[k].id != id@,
        decreases n - i,
    {
        if str_eq(v[i].id.as_str(), id) {
            proof {
                lemma_first_idx_with_id(item_views(v@), id@, 0, i as int);
            }
            return Some(i);
        }
        i += 1;
    }
    proof {
        lemma_first_idx_with_id(item_views(v@), id@, 0, n as int);
    }
    None
}

/// The merge of one primary-source item into the accumulated set: an item
/// already present keeps its identity and kind but adopts the primary
/// source's timestamp and thumbnail when those are nonempty; a new identity
/// is appended.
pub open spec fn overlay_item(base: ItemView, p: ItemView) -> ItemView {
    ItemView {
        published_at: if p.published_at.len() > 0 {
            p.published_at
        } else {
            base.published_at
        },
        thumbnail: if p.thumbnail.len() > 0 {
            p.thumbnail
        } else {
            base.thumbnail
        },
        ..base
    }
}

pub open spec fn merge_step(acc: Seq<ItemView>, p: ItemView) -> Seq<ItemView> {
    match first_idx_with_id(acc, p.id, 0) {
        Some(i) => acc.update(i, overlay_item(acc[i], p)),
        None => acc.push(p),
    }
}

/// The merge of the primary-source items `ps` over the secondary-source
/// base, applied in order.
pub open spec fn merge_views(base: Seq<ItemView>, ps: Seq<ItemView>) -> Seq<ItemView>
    decreases ps.len(),
{
    if ps.len() == 0 {
        base
    } else {
        merge_step(merge_views(base, ps.drop_last()), ps.last())
    }
}

/// Merges primary-source (syndication) items over the secondary-source
/// (listing) items: identities present in both keep the secondary source's
/// kind and identity but adopt the primary source's timestamp and thumbnail
/// when nonempty; identities only in the primary source are appended.
pub fn merge_listing_with_feed(listing: Vec<RssItem>, feed_items: &Vec<RssItem>) -> (r: Vec<
    RssItem,
>)
    ensures
        item_views(r@) == merge_views(item_views(listing@), item_views(feed_items@)),
{
    let mut out = listing;
    let ghost base = item_views(out@);
    let ghost ps = item_views(feed_items@);
    let m = feed_items.len();
    let mut j: usize = 0;
    while j < m
        invariant
            m == feed_items@.len(),
            j <= m,
            ps == item_views(feed_items@),
            item_views(out@) == merge_views(base, ps.take(j as int)),
        decreases m - j,
    {
        let p = &feed_items[j];
        proof {
            assert(ps.take(j + 1).drop_last() =~= ps.take(j as int));
            assert(ps.take(j + 1).last() == p@);
        }
        let hit = find_item_idx(&out, p.id.as_str());
        if let Some(i) = hit {
            let b = out.remove(i);
            let updated = RssItem {
                published_at: if p.published_at.as_str().is_empty() {
                    b.published_at
                } else {
                    p.published_at.clone()
                },
                thumbnail: if p.thumbnail.as_str().is_empty() {
                    b.thumbnail
                } else {
                    p.thumbnail.clone()
                },
                id: b.id,
                title: b.title,
                video_id: b.video_id,
                url: b.url,
                downloaded: b.downloaded,
                video_type: b.video_type,
            };
            out.insert(i, updated);
            proof {
                let prev = merge_views(base, ps.take(j as int));
                assert(out@ =~= out@);
                assert(item_views(out@) =~= prev.update(i as int, overlay_item(prev[i as int], p@)));
            }
        } else {
            out.push(copy_item(p));
            proof {
                assert(item_views(out@) =~= merge_views(base, ps.take(j as int)).push(p@));
            }
        }
        j += 1;
    }
    proof {
        assert(ps.take(m as int) =~= ps);
    }
    out
}

/// The deduplication of items by identity: the first occurrence wins and
/// order is kept.
pub open spec fn dedup_views(s: Seq<ItemView>) -> Seq<ItemView>
    decreases s.len(),
{
    if s.len() == 0 {
        s
    } else {
        let d = dedup_views(s.drop_last());
        if exists|j: int| 0 <= j < s.len() - 1 && s[j].id == s.last().id {
            d
        } else {
            d.push(s.last())
        }
    }
}

pub proof fn lemma_dedup_ids(s: Seq<ItemView>, x: Seq<char>)
    ensures
        (exists|k: int| 0 <= k < dedup_views(s).len() && dedup_views(s)[k].id == x) <==> (exists|
            j: int,
        | 0 <= j < s.len() && s[j].id == x),
    decreases s.len(),
{
    if s.len() > 0 {
        lemma_dedup_ids(s.drop_last(), x);
        let d0 = dedup_views(s.drop_last());
        let d = dedup_views(s);
        if exists|j: int| 0 <= j < s.len() && s[j].id == x {
            let j = choose|j: int| 0 <= j < s.len() && s[j].id == x;
            if j < s.len() - 1 {
                assert(s.drop_last()[j].id == x);
                let k = choose|k: int| 0 <= k < d0.len() && d0[k].id == x;
                assert(d[k].id == x);
            } else {
                if exists|j2: int| 0 <= j2 < s.len() - 1 && s[j2].id == s.last().id {
                    let j2 = choose|j2: int| 0 <= j2 < s.len() - 1 && s[j2].id == s.last().id;
                    assert(s.drop_last()[j2].id == x);
                    let k = choose|k: int| 0 <= k < d0.len() && d0[k].id == x;
                    assert(d[k].id == x);
                } else {
                    assert(d[d0.len() as int].id == x);
                }
            }
        }
        if exists|k: int| 0 <= k < d.len() && d[k].id == x {
            let k = choose|k: int| 0 <= k < d.len() && d[k].id == x;
            if k < d0.len() {
                assert(d0[k].id == x);
                let j = choose|j: int|
                    0 <= j < s.drop_last().len() && s.drop_last()[j].id == x;
                assert(s[j].id == x);
            } else {
                assert(d[k] == s.last());
                assert(s[s.len() - 1].id == x);
            }
        }
    }
}

/// Removes later duplicates by identity, keeping the first occurrence of
/// each identity in order.
pub fn dedup_items_by_id(items: Vec<RssItem>) -> (r: Vec<RssItem>)
    ensures
        item_views(r@) == dedup_views(item_views(items@)),
{
    let n = items.len();
    let mut out: Vec<RssItem> = Vec::new();
    let ghost s = item_views(items@);
    let mut i: usize = 0;
    while i < n
        invariant
            n == items@.len(),
            i <= n,
            s == item_views(items@),
            item_views(out@) == dedup_views(s.take(i as int)),
        decreases n - i,
    {
        let it = &items[i];
        let hit = find_item_idx(&out, it.id.as_str());
        proof {
            assert(s.take(i + 1).drop_last() =~= s.take(i as int));
            assert(s.take(i + 1).last() == it@);
            lemma_dedup_ids(s.take(i as int), it@.id);
            let snext = s.take(i + 1);
            if hit is Some {
                let k = hit.unwrap() as int;
                assert(item_views(out@)[k].id == it@.id);
                let j = choose|j: int|
                    0 <= j < s.take(i as int).len() && s.take(i as int)[j].id == it@.id;
                assert(snext[j].id == snext.last().id);
                assert(exists|j2: int|
                    0 <= j2 < snext.len() - 1 && #[trigger] snext[j2].id == snext.last().id);
                assert(item_views(out@) == dedup_views(snext));
            } else {
                lemma_first_idx_none(item_views(out@), it@.id);
                assert forall|j: int| 0 <= j < snext.len() - 1 implies #[trigger] snext[j].id
                    != snext.last().id by {
                    assert(snext[j] == s.take(i as int)[j]);
                    if s.take(i as int)[j].id == it@.id {
                        let k2 = choose|k2: int|
                            0 <= k2 < dedup_views(s.take(i as int)).len() && dedup_views(
                                s.take(i as int),
                            )[k2].id == it@.id;
                        assert(item_views(out@)[k2].id == it@.id);
                    }
                }
            }
        }
        if hit.is_none() {
            out.push(copy_item(it));
            proof {
                assert(item_views(out@) =~= dedup_views(s.take(i + 1)));
            }
        }
        i += 1;
    }
    proof {
        assert(s.take(n as int) =~= s);
    }
    out
}

/// Items in descending order of their sortable timestamp.
pub open spec fn sorted_desc(s: Seq<ItemView>) -> bool {
    forall|i: int, j: int|
        0 <= i <= j < s.len() ==> str_le(#[trigger] s[j].published_at, #[trigger] s[i].published_at)
}

pub proof fn lemma_insert_multiset<A>(s: Seq<A>, i: int, v: A)
    requires
        0 <= i <= s.len(),
    ensures
        s.insert(i, v).to_multiset() =~= s.to_multiset().insert(v),
{
    broadcast use vstd::seq_lib::group_to_multiset_ensures;

    assert(s.insert(i, v) =~= s.take(i).push(v) + s.skip(i));
    assert(s =~= s.take(i) + s.skip(i));
    vstd::seq_lib::lemma_multiset_commutative(s.take(i).push(v), s.skip(i));
    vstd::seq_lib::lemma_multiset_commutative(s.take(i), s.skip(i));
    assert(s.take(i).push(v).to_multiset() =~= s.take(i).to_multiset().insert(v));
}

/// Sorts items by their sortable timestamp, most recent first. The result
/// holds exactly the input items.
pub fn sort_items_by_published_desc(items: Vec<RssItem>) -> (r: Vec<RssItem>)
    ensures
        sorted_desc(item_views(r@)),
        item_views(r@).to_multiset() == item_views(items@).to_multiset(),
        r@.len() == items@.len(),
{
    let n = items.len();
    let ghost s = item_views(items@);
    let mut out: Vec<RssItem> = Vec::new();
    proof {
        assert(item_views(out@) =~= s.take(0));
        assert(item_views(out@).to_multiset() =~= s.take(0).to_multiset());
    }
    let mut i: usize = 0;
    while i < n
        invariant
            n == items@.len(),
            i <= n,
            s == item_views(items@),
            out@.len() == i,
            sorted_desc(item_views(out@)),
            item_views(out@).to_multiset() == s.take(i as int).to_multiset(),
        decreases n - i,
    {
        let it = copy_item(&items[i]);
        let m = out.len();
        let mut p: usize = 0;
        while p < m && str_le_exec(it.published_at.as_str(), out[p].published_at.as_str())
            invariant
                m == out@.len(),
                p <= m,
                i < items@.len(),
                it@ == items@[i as int]@,
                forall|k: int|
                    0 <= k < p ==> str_le(it@.published_at, #[trigger] item_views(
                        out@,
                    )[k].published_at),
            decreases m - p,
        {
            p += 1;
        }
        proof {
            let ov = item_views(out@);
            if p < m {
                lemma_str_le_total_from(it@.published_at, ov[p as int].published_at, 0);
                assert forall|k: int| p <= k < m implies str_le(
                    #[trigger] ov[k].published_at,
                    it@.published_at,
                ) by {
                    lemma_str_le_trans_from(
                        ov[k].published_at,
                        ov[p as int].published_at,
                        it@.published_at,
                        0,
                    );
                }
            }
        }
        let ghost before = item_views(out@);
        out.insert(p, it);
        proof {
            assert(item_views(out@) =~= before.insert(p as int, items@[i as int]@));
            lemma_insert_multiset(before, p as int, items@[i as int]@);
            assert(s.take(i + 1).drop_last() =~= s.take(i as int));
            broadcast use vstd::seq_lib::group_to_multiset_ensures;

            assert(s.take(i + 1) =~= s.take(i as int).push(s[i as int]));
            assert(sorted_desc(item_views(out@))) by {
                let nv = item_views(out@);
                assert forall|x: int, y: int| 0 <= x <= y < nv.len() implies str_le(
                    nv[y].published_at,
                    nv[x].published_at,
                ) by {
                    if x == y {
                        lemma_str_le_total_from(nv[x].published_at, nv[x].published_at, 0);
                    }
                }
            }
        }
        i += 1;
    }
    proof {
        assert(s.take(n as int) =~= s);
    }
    out
}

/// The items of a whole short-form listing: exactly one item per entry
/// that has an identity, in listing order.
pub open spec fn shorts_items_of(entries: Seq<ListingEntry>) -> Seq<ItemView>
    decreases entries.len(),
{
    if entries.len() == 0 {
        Seq::empty()
    } else {
        shorts_items_of(entries.drop_last()) + (match shorts_item_of(entries.last()@) {
            Some(it) => seq![it],
            None => Seq::empty(),
        })
    }
}

/// The items of a whole long-form listing under the given short-form
/// identities: exactly one item per entry that has an identity, in order.
pub open spec fn video_items_of(entries: Seq<ListingEntry>, short_ids: Seq<String>) -> Seq<
    ItemView,
>
    decreases entries.len(),
{
    if entries.len() == 0 {
        Seq::empty()
    } else {
        video_items_of(entries.drop_last(), short_ids) + (match video_item_of(
            entries.last()@,
            short_ids,
        ) {
            Some(it) => seq![it],
            None => Seq::empty(),
        })
    }
}

/// Builds the items of a short-form listing: one item per entry with an
/// identity, in listing order; only identity-less entries are skipped.
pub fn shorts_items_from_entries(entries: &Vec<ListingEntry>) -> (r: Vec<RssItem>)
    ensures
        item_views(r@) == shorts_items_of(entries@),
{
    let n = entries.len();
    let mut out: Vec<RssItem> = Vec::new();
    let mut i: usize = 0;
    while i < n
        invariant
            n == entries@.len(),
            i <= n,
            item_views(out@) == shorts_items_of(entries@.take(i as int)),
        decreases n - i,
    {
        proof {
            assert(entries@.take(i + 1).drop_last() =~= entries@.take(i as int));
            assert(entries@.take(i + 1).last() == entries@[i as int]);
        }
        if let Some(it) = shorts_item_from_entry(&entries[i]) {
            out.push(it);
            proof {
                assert(item_views(out@) =~= shorts_items_of(entries@.take(i + 1)));
            }
        } else {
            proof {
                assert(item_views(out@) =~= shorts_items_of(entries@.take(i + 1)));
            }
        }
        i += 1;
    }
    proof {
        assert(entries@.take(n as int) =~= entries@);
    }
    out
}

/// The identities of the given items, in order.
pub fn collect_item_ids(items: &Vec<RssItem>) -> (r: Vec<String>)
    ensures
        r@.len() == items@.len(),
        forall|k: int| 0 <= k < r@.len() ==> (#[trigger] r@[k])@ == items@[k].id@,
{
    let n = items.len();
    let mut out: Vec<String> = Vec::new();
    let mut i: usize = 0;
    while i < n
        invariant
            n == items@.len(),
            i <= n,
            out@.len() == i,
            forall|k: int| 0 <= k < i ==> (#[trigger] out@[k])@ == items@[k].id@,
        decreases n - i,
    {
        out.push(items[i].id.clone());
        i += 1;
    }
    out
}

/// Builds the items of a long-form listing: one item per entry with an
/// identity, in listing order, marking entries whose identity already
/// appeared in the short-form listing.
pub fn video_items_from_entries(entries: &Vec<ListingEntry>, short_ids: &Vec<String>) -> (r: Vec<
    RssItem,
>)
    ensures
        item_views(r@) == video_items_of(entries@, short_ids@),
{
    let n = entries.len();
    let mut out: Vec<RssItem> = Vec::new();
    let mut i: usize = 0;
    while i < n
        invariant
            n == entries@.len(),
            i <= n,
            item_views(out@) == video_items_of(entries@.take(i as int), short_ids@),
        decreases n - i,
    {
        proof {
            assert(entries@.take(i + 1).drop_last() =~= entries@.take(i as int));
            assert(entries@.take(i + 1).last() == entries@[i as int]);
        }
        if let Some(it) = video_item_from_entry(&entries[i], short_ids) {
            out.push(it);
            proof {
                assert(item_views(out@) =~= video_items_of(entries@.take(i + 1), short_ids@));
            }
        } else {
            proof {
                assert(item_views(out@) =~= video_items_of(entries@.take(i + 1), short_ids@));
            }
        }
        i += 1;
    }
    proof {
        assert(entries@.take(n as int) =~= entries@);
    }
    out
}

/// The full uploads assembly: the short-form items first, then the
/// long-form items, deduplicated by identity with the first occurrence
/// winning.
pub fn assemble_uploads_items(shorts_items: Vec<RssItem>, video_items: Vec<RssItem>) -> (r: Vec<
    RssItem,
>)
    ensures
        item_views(r@) == dedup_views(item_views(shorts_items@) + item_views(video_items@)),
{
    let mut all = shorts_items;
    let mut vids = video_items;
    let ghost sh = item_views(all@);
    let ghost vi = item_views(vids@);
    all.append(&mut vids);
    proof {
        assert(item_views(all@) =~= sh + vi);
    }
    dedup_items_by_id(all)
}

} // verus!
