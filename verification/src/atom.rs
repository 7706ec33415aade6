//! The syndication-feed parser: a simple streaming walk over the XML text
//! sufficient for an entry/title/published/link/thumbnail-shaped format.
//! Malformed input never fails the parse; unrecognized markup is skipped.
//! The walk itself is the specification: `parse_spec` states, over the
//! input characters alone, exactly which title and which items come out.
use vstd::prelude::*;
use vstd::string::*;

use crate::error::AppResult;
use crate::feed::{infer_video_type, is_short_marked, item_views, ItemView, RssItem};
use crate::text::{
    find_from, idx_from, is_ws, is_ws_char, lemma_idx_from, lemma_idx_from_bounds, matches_at,
    str_eq, substr_copy, trim_copy, trim_spec,
};

verus! {

/// Every item the parser may produce: a nonempty identity equal to its
/// video identity, a clear downloaded flag, and the kind inferred from the
/// short-form markers in its URL or title.
pub open spec fn atom_item_ok(it: ItemView) -> bool {
    &&& it.id.len() > 0
    &&& it.id == it.video_id
    &&& it.downloaded == false
    &&& it.video_type == if is_short_marked(it.title, it.url) {
        "short"@
    } else {
        "video"@
    }
}

/// The parser's running state: whether an entry is open, the feed title,
/// the open entry's fields, and the items produced so far.
#[verifier::ext_equal]
pub struct ParseState {
    pub in_entry: bool,
    pub feed_title: Seq<char>,
    pub title: Seq<char>,
    pub video_id: Seq<char>,
    pub url: Seq<char>,
    pub thumbnail: Seq<char>,
    pub published: Seq<char>,
    pub items: Seq<ItemView>,
}

/// The state before anything was read.
pub open spec fn init_state() -> ParseState {
    ParseState {
        in_entry: false,
        feed_title: Seq::empty(),
        title: Seq::empty(),
        video_id: Seq::empty(),
        url: Seq::empty(),
        thumbnail: Seq::empty(),
        published: Seq::empty(),
        items: Seq::empty(),
    }
}

/// The trimmed text between a tag's closing `>` at `gt` and the next `<`.
pub open spec fn text_after(s: Seq<char>, gt: int) -> Seq<char> {
    trim_spec(s.subrange(gt + 1, idx_from(s, '<', gt + 1, s.len() as int)))
}

/// The attribute value following `key` inside a tag's text: the characters
/// up to the closing quote, when the key occurs at all.
pub open spec fn attr_of(tag: Seq<char>, key: Seq<char>) -> Option<Seq<char>> {
    match find_from(tag, key, 0) {
        Some(i) => Some(
            tag.subrange(i + key.len(), idx_from(tag, '"', i + key.len(), tag.len() as int)),
        ),
        None => None,
    }
}

/// What closing an entry does: an open entry with a nonempty video
/// identity becomes one item — identity doubling as video identity, the
/// downloaded flag clear, the kind from the short-form markers — and the
/// entry closes either way.
pub open spec fn close_entry(st: ParseState) -> ParseState {
    if st.in_entry && st.video_id.len() > 0 {
        ParseState {
            in_entry: false,
            items: st.items.push(
                ItemView {
                    id: st.video_id,
                    title: st.title,
                    video_id: st.video_id,
                    url: st.url,
                    thumbnail: st.thumbnail,
                    published_at: st.published,
                    downloaded: false,
                    video_type: if is_short_marked(st.title, st.url) {
                        "short"@
                    } else {
                        "video"@
                    },
                },
            ),
            ..st
        }
    } else {
        ParseState { in_entry: false, ..st }
    }
}

/// What one tag does to the state. `tag` is the text between `<` and the
/// `>` at `gt`. An entry opens on `entry` and closes on `/entry`; titles,
/// published stamps and video identities capture the following text; the
/// video identity also sets the default watch URL and thumbnail; `link`
/// and `media:thumbnail` read their attribute; everything else is skipped.
pub open spec fn apply_tag(s: Seq<char>, gt: int, tag: Seq<char>, st: ParseState) -> ParseState {
    if tag.len() > 0 && tag[0] == '/' {
        if tag.subrange(1, tag.len() as int) == "entry"@ {
            close_entry(st)
        } else {
            st
        }
    } else {
        let name = tag.subrange(0, crate::atom::tag_name_end(tag, 0));
        if name == "entry"@ {
            ParseState {
                in_entry: true,
                title: Seq::empty(),
                video_id: Seq::empty(),
                url: Seq::empty(),
                thumbnail: Seq::empty(),
                published: Seq::empty(),
                ..st
            }
        } else if name == "title"@ {
            if st.in_entry {
                ParseState { title: text_after(s, gt), ..st }
            } else {
                ParseState { feed_title: text_after(s, gt), ..st }
            }
        } else if name == "published"@ {
            if st.in_entry {
                ParseState { published: text_after(s, gt), ..st }
            } else {
                st
            }
        } else if name == "yt:videoId"@ {
            if st.in_entry {
                let v = text_after(s, gt);
                ParseState {
                    video_id: v,
                    url: "https://www.youtube.com/watch?v="@ + v,
                    thumbnail: "https://i.ytimg.com/vi/"@ + v + "/mqdefault.jpg"@,
                    ..st
                }
            } else {
                st
            }
        } else if name == "link"@ {
            if st.in_entry {
                match attr_of(tag, "href=\""@) {
                    Some(h) => ParseState { url: h, ..st },
                    None => st,
                }
            } else {
                st
            }
        } else if name == "media:thumbnail"@ {
            if st.in_entry {
                match attr_of(tag, "url=\""@) {
                    Some(u) => ParseState { thumbnail: u, ..st },
                    None => st,
                }
            } else {
                st
            }
        } else {
            st
        }
    }
}

/// The whole walk from position `pos`: find the next tag, apply it, and
/// continue after it; text without a complete tag ends the walk.
pub open spec fn walk(s: Seq<char>, pos: int, st: ParseState) -> ParseState
    decreases s.len() - pos,
    via walk_decreases
{
    if pos < 0 || pos >= s.len() {
        st
    } else {
        let lt = idx_from(s, '<', pos, s.len() as int);
        if lt + 1 >= s.len() {
            st
        } else {
            let gt = idx_from(s, '>', lt + 1, s.len() as int);
            if gt >= s.len() {
                st
            } else {
                walk(s, gt + 1, apply_tag(s, gt, s.subrange(lt + 1, gt), st))
            }
        }
    }
}

#[via_fn]
proof fn walk_decreases(s: Seq<char>, pos: int, st: ParseState) {
    if 0 <= pos && pos < s.len() {
        lemma_idx_from_bounds(s, '<', pos, s.len() as int);
        let lt = idx_from(s, '<', pos, s.len() as int);
        if lt + 1 < s.len() {
            lemma_idx_from_bounds(s, '>', lt + 1, s.len() as int);
        }
    }
}

/// What parsing a whole document yields: its display title and its items.
pub open spec fn parse_spec(s: Seq<char>) -> ParseState {
    walk(s, 0, init_state())
}

/// The position of the first occurrence of `c` at or after `from`, or the
/// length of `s` when there is none.
fn find_char_from(s: &str, c: char, from: usize) -> (r: usize)
    requires
        from <= s@.len(),
    ensures
        from <= r <= s@.len(),
        r == idx_from(s@, c, from as int, s@.len() as int),
        r < s@.len() ==> s@[r as int] == c,
{
    let n = s.unicode_len();
    let mut i: usize = from;
    while i < n && s.get_char(i) != c
        invariant
            n == s@.len(),
            from <= i <= n,
            forall|k: int| from <= k < i ==> s@[k] != c,
        decreases n - i,
    {
        i += 1;
    }
    proof {
        lemma_idx_from(s@, c, from as int, n as int, i as int);
    }
    i
}

/// The attribute value following the given `key="` pattern inside a tag's
/// text, if present: the characters up to the closing quote.
fn attr_value(tag: &str, key: &str) -> (r: Option<String>)
    requires
        key@.len() > 0,
    ensures
        match r {
            Some(v) => attr_of(tag@, key@) == Some(v@),
            None => attr_of(tag@, key@) is None,
        },
{
    let klen = key.unicode_len();
    let tlen = tag.unicode_len();
    match crate::text::find_first(tag, key) {
        Some(i) => {
            proof {
                assert(matches_at(tag@, key@, i as int));
                assert(i + klen <= tlen);
            }
            let a = i + klen;
            let e = find_char_from(tag, '"', a);
            Some(substr_copy(tag, a, e))
        },
        None => None,
    }
}

/// End of a tag name: the first white space or slash, or the whole text.
pub open spec fn tag_name_end(s: Seq<char>, i: int) -> int
    decreases s.len() - i,
{
    if 0 <= i < s.len() && !is_ws(s[i]) && s[i] != '/' {
        tag_name_end(s, i + 1)
    } else {
        i
    }
}

proof fn lemma_tag_name_end(s: Seq<char>, b: int)
    requires
        0 <= b <= s.len(),
        forall|k: int| 0 <= k < b ==> !is_ws(s[k]) && s[k] != '/',
        b < s.len() ==> is_ws(s[b]) || s[b] == '/',
    ensures
        tag_name_end(s, 0) == b,
{
    lemma_tag_name_end_from(s, 0, b);
}

proof fn lemma_tag_name_end_from(s: Seq<char>, i: int, b: int)
    requires
        0 <= i <= b <= s.len(),
        forall|k: int| i <= k < b ==> !is_ws(s[k]) && s[k] != '/',
        b < s.len() ==> is_ws(s[b]) || s[b] == '/',
    ensures
        tag_name_end(s, i) == b,
    decreases b - i,
{
    if i < b {
        lemma_tag_name_end_from(s, i + 1, b);
    }
}

/// The tag name: the characters after `<` up to the first white space,
/// slash or the end of the tag text.
fn tag_name(tag: &str) -> (r: String)
    ensures
        r@ == tag@.subrange(0, tag_name_end(tag@, 0)),
{
    let n = tag.unicode_len();
    let mut e: usize = 0;
    while e < n && !is_ws_char(tag.get_char(e)) && tag.get_char(e) != '/'
        invariant
            n == tag@.len(),
            e <= n,
            forall|k: int| 0 <= k < e ==> !is_ws(tag@[k]) && tag@[k] != '/',
        decreases n - e,
    {
        e += 1;
    }
    proof {
        lemma_tag_name_end(tag@, e as int);
    }
    substr_copy(tag, 0, e)
}

/// The running state the loop's locals stand for.
pub open spec fn state_of(
    in_entry: bool,
    feed_title: Seq<char>,
    title: Seq<char>,
    video_id: Seq<char>,
    url: Seq<char>,
    thumbnail: Seq<char>,
    published: Seq<char>,
    items: Seq<ItemView>,
) -> ParseState {
    ParseState { in_entry, feed_title, title, video_id, url, thumbnail, published, items }
}

/// Parses a feed document into its display title and item list, exactly as
/// `parse_spec` states over the input characters: the walk recognizes
/// entry boundaries, entry and feed titles, published stamps, video
/// identities, link targets and thumbnail locations in document order;
/// everything else is skipped, and malformed markup ends the walk without
/// error — the parse always returns the accumulated result. Every produced
/// item is also well-formed in the sense of `atom_item_ok`.
pub fn parse_atom_feed(xml: &str) -> (r: AppResult<(String, Vec<RssItem>)>)
    ensures
        r is Ok,
        r matches Ok(t) ==> t.0@ == parse_spec(xml@).feed_title && item_views(t.1@) == parse_spec(
            xml@,
        ).items,
        r matches Ok(t) ==> forall|k: int|
            0 <= k < t.1@.len() ==> atom_item_ok(#[trigger] item_views(t.1@)[k]),
{
    let n = xml.unicode_len();
    let mut items: Vec<RssItem> = Vec::new();
    let mut feed_title = String::new();

    let mut in_entry = false;
    let mut current_title = String::new();
    let mut current_video_id = String::new();
    let mut current_url = String::new();
    let mut current_published = String::new();
    let mut current_thumbnail = String::new();

    proof {
        assert(item_views(items@) =~= Seq::<ItemView>::empty());
        assert(state_of(
            in_entry,
            feed_title@,
            current_title@,
            current_video_id@,
            current_url@,
            current_thumbnail@,
            current_published@,
            item_views(items@),
        ) =~= init_state());
    }
    let mut pos: usize = 0;
    while pos < n
        invariant
            n == xml@.len(),
            pos <= n,
            walk(
                xml@,
                pos as int,
                state_of(
                    in_entry,
                    feed_title@,
                    current_title@,
                    current_video_id@,
                    current_url@,
                    current_thumbnail@,
                    current_published@,
                    item_views(items@),
                ),
            ) == parse_spec(xml@),
            forall|k: int|
                0 <= k < items@.len() ==> atom_item_ok(#[trigger] item_views(items@)[k]),
        decreases n - pos,
    {
        let ghost st0 = state_of(
            in_entry,
            feed_title@,
            current_title@,
            current_video_id@,
            current_url@,
            current_thumbnail@,
            current_published@,
            item_views(items@),
        );
        let lt = find_char_from(xml, '<', pos);
        if lt >= n || n - lt == 1 {
            // no further complete tag: the walk ends here
            proof {
                assert(walk(xml@, pos as int, st0) == st0);
                assert(walk(xml@, n as int, st0) == st0);
            }
            pos = n;
        } else {
            let gt = find_char_from(xml, '>', lt + 1);
            if gt >= n {
                proof {
                    assert(walk(xml@, pos as int, st0) == st0);
                    assert(walk(xml@, n as int, st0) == st0);
                }
                pos = n;
            } else {
                let tag = substr_copy(xml, lt + 1, gt);
                let ts = tag.as_str();
                if ts.unicode_len() > 0 && ts.get_char(0) == '/' {
                    // closing tag: only the end of an entry matters
                    let name = substr_copy(ts, 1, ts.unicode_len());
                    if str_eq(name.as_str(), "entry") {
                        if in_entry && current_video_id.as_str().unicode_len() > 0 {
                            let video_type = infer_video_type(
                                current_title.as_str(),
                                current_url.as_str(),
                            );
                            let it = RssItem {
                                id: current_video_id.clone(),
                                title: current_title.clone(),
                                video_id: current_video_id.clone(),
                                url: current_url.clone(),
                                thumbnail: current_thumbnail.clone(),
                                published_at: current_published.clone(),
                                downloaded: false,
                                video_type,
                            };
                            proof {
                                assert(atom_item_ok(it@));
                            }
                            let ghost before = items@;
                            items.push(it);
                            proof {
                                assert(item_views(items@) =~= item_views(before).push(it@));
                                assert forall|k: int| 0 <= k < items@.len() implies atom_item_ok(
                                    #[trigger] item_views(items@)[k],
                                ) by {
                                    if k < before.len() {
                                        assert(item_views(items@)[k] == item_views(before)[k]);
                                    }
                                }
                            }
                        }
                        in_entry = false;
                    }
                } else {
                    let name = tag_name(ts);
                    let ns = name.as_str();
                    if str_eq(ns, "entry") {
                        in_entry = true;
                        current_title = String::new();
                        current_video_id = String::new();
                        current_url = String::new();
                        current_published = String::new();
                        current_thumbnail = String::new();
                    } else if str_eq(ns, "title") {
                        let te = find_char_from(xml, '<', gt + 1);
                        let text = substr_copy(xml, gt + 1, te);
                        let trimmed = trim_copy(text.as_str());
                        if in_entry {
                            current_title = trimmed;
                        } else {
                            feed_title = trimmed;
                        }
                    } else if str_eq(ns, "published") {
                        if in_entry {
                            let te = find_char_from(xml, '<', gt + 1);
                            let text = substr_copy(xml, gt + 1, te);
                            current_published = trim_copy(text.as_str());
                        }
                    } else if str_eq(ns, "yt:videoId") {
                        if in_entry {
                            let te = find_char_from(xml, '<', gt + 1);
                            let text = substr_copy(xml, gt + 1, te);
                            current_video_id = trim_copy(text.as_str());
                            let mut u = String::from_str("https://www.youtube.com/watch?v=");
                            u.append(current_video_id.as_str());
                            current_url = u;
                            let mut t = String::from_str("https://i.ytimg.com/vi/");
                            t.append(current_video_id.as_str());
                            t.append("/mqdefault.jpg");
                            current_thumbnail = t;
                        }
                    } else if str_eq(ns, "link") {
                        if in_entry {
                            proof {
                                reveal_strlit("href=\"");
                            }
                            if let Some(href) = attr_value(ts, "href=\"") {
                                current_url = href;
                            }
                        }
                    } else if str_eq(ns, "media:thumbnail") {
                        if in_entry {
                            proof {
                                reveal_strlit("url=\"");
                            }
                            if let Some(u) = attr_value(ts, "url=\"") {
                                current_thumbnail = u;
                            }
                        }
                    }
                }
                proof {
                    let st1 = state_of(
                        in_entry,
                        feed_title@,
                        current_title@,
                        current_video_id@,
                        current_url@,
                        current_thumbnail@,
                        current_published@,
                        item_views(items@),
                    );
                    assert(tag@ == xml@.subrange(lt + 1, gt as int));
                    assert(st1 =~= apply_tag(xml@, gt as int, tag@, st0));
                    assert(walk(xml@, pos as int, st0) == walk(xml@, gt + 1, st1));
                }
                pos = gt + 1;
            }
        }
    }
    proof {
        let stf = state_of(
            in_entry,
            feed_title@,
            current_title@,
            current_video_id@,
            current_url@,
            current_thumbnail@,
            current_published@,
            item_views(items@),
        );
        assert(walk(xml@, pos as int, stf) == stf);
    }
    Ok((feed_title, items))
}

} // verus!
