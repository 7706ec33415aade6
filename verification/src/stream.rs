//! Video metadata records and the stream-source selection that picks the
//! best video, audio and combined URLs out of a format list.
use vstd::prelude::*;
use vstd::string::*;

use crate::text::str_eq;

verus! {

/// One available format of a video, as the metadata fetch reports it.
/// Rates are carried in thousandths to stay exact.
pub struct VideoFormat {
    pub format_id: String,
    pub ext: String,
    pub resolution: String,
    pub width: Option<i64>,
    pub height: Option<i64>,
    pub filesize: Option<i64>,
    pub vcodec: String,
    pub acodec: String,
    pub fps_milli: Option<u64>,
    pub tbr_milli: Option<u64>,
    pub format_note: String,
}

/// A fetched video's metadata.
pub struct VideoInfo {
    pub id: String,
    pub title: String,
    pub thumbnail: String,
    pub duration_milli: u64,
    pub uploader: String,
    pub url: String,
    pub formats: Vec<VideoFormat>,
}

/// One entry of a fetched playlist.
pub struct PlaylistEntry {
    pub id: String,
    pub title: String,
    pub url: String,
    pub index: usize,
    pub thumbnail: Option<String>,
}

/// A fetched playlist's metadata.
pub struct PlaylistInfo {
    pub id: String,
    pub title: String,
    pub entries: Vec<PlaylistEntry>,
    pub entry_count: usize,
}

/// The target a playlist entry is downloaded from: its own URL, else its
/// page URL, else — for entries of the known video site — the watch URL
/// built from the identity.
pub fn playlist_entry_url(
    id: &str,
    url: &Option<String>,
    webpage_url: &Option<String>,
    ie_key: &Option<String>,
) -> (r: Option<String>)
    ensures
        match url {
            Some(u) => r matches Some(v) && v@ == u@,
            None => match webpage_url {
                Some(w) => r matches Some(v) && v@ == w@,
                None => match ie_key {
                    Some(k) => if crate::text::contains_seq(k@, "Youtube"@) {
                        r matches Some(v) && v@ == "https://www.youtube.com/watch?v="@ + id@
                    } else {
                        r is None
                    },
                    None => r is None,
                },
            },
        },
{
    match url {
        Some(u) => Some(u.clone()),
        None => match webpage_url {
            Some(w) => Some(w.clone()),
            None => match ie_key {
                Some(k) => {
                    if crate::text::contains_sub(k.as_str(), "Youtube") {
                        let mut v = String::from_str("https://www.youtube.com/watch?v=");
                        v.append(id);
                        Some(v)
                    } else {
                        None
                    }
                },
                None => None,
            },
        },
    }
}

/// One format of the raw stream listing used by the custom player.
pub struct StreamFormat {
    pub format_id: String,
    pub ext: String,
    pub vcodec: String,
    pub acodec: String,
    pub height: i64,
    pub tbr_milli: u64,
    pub fps_milli: u64,
    pub url: String,
}

/// A format that carries video and no audio, with a usable URL.
pub open spec fn video_only(f: StreamFormat) -> bool {
    f.vcodec@ != "none"@ && f.acodec@ == "none"@ && f.url@.len() > 0
}

/// A format that carries audio and no video, with a usable URL.
pub open spec fn audio_only(f: StreamFormat) -> bool {
    f.acodec@ != "none"@ && f.vcodec@ == "none"@ && f.url@.len() > 0
}

/// A format that carries both, with a positive height and a usable URL.
pub open spec fn combined(f: StreamFormat) -> bool {
    f.vcodec@ != "none"@ && f.acodec@ != "none"@ && f.height > 0 && f.url@.len() > 0
}

/// The best video-only pick after the first `i` formats: the first format
/// whose height strictly exceeds every earlier pick.
pub open spec fn best_video(s: Seq<StreamFormat>, i: int) -> (Option<int>, int)
    decreases i,
{
    if i <= 0 {
        (None, 0)
    } else {
        let p = best_video(s, i - 1);
        let f = s[i - 1];
        if video_only(f) && f.height > p.1 {
            (Some(i - 1), f.height as int)
        } else {
            p
        }
    }
}

/// The best audio-only pick after the first `i` formats, by bit rate.
pub open spec fn best_audio(s: Seq<StreamFormat>, i: int) -> (Option<int>, int)
    decreases i,
{
    if i <= 0 {
        (None, 0)
    } else {
        let p = best_audio(s, i - 1);
        let f = s[i - 1];
        if audio_only(f) && f.tbr_milli > p.1 {
            (Some(i - 1), f.tbr_milli as int)
        } else {
            p
        }
    }
}

/// The combined URL after the first `i` formats: a combined format
/// replaces the current choice when none is set yet or it reaches 720
/// lines of height.
pub open spec fn combined_pick(s: Seq<StreamFormat>, preset: Seq<char>, i: int) -> Seq<char>
    decreases i,
{
    if i <= 0 {
        preset
    } else {
        let p = combined_pick(s, preset, i - 1);
        let f = s[i - 1];
        if combined(f) && (p.len() == 0 || f.height >= 720) {
            f.url@
        } else {
            p
        }
    }
}

/// What the selection found.
pub struct StreamSelection {
    pub video_url: String,
    pub audio_url: String,
    pub combined_url: String,
}

/// Picks the stream sources: the video-only format of greatest height, the
/// audio-only format of greatest bit rate (first of each on ties, empty
/// when none exists), and a combined fallback that prefers at least 720
/// lines over the preset.
pub fn select_stream_sources(preset_combined: &str, formats: &Vec<StreamFormat>) -> (r:
    StreamSelection)
    ensures
        ({
            let s = formats@;
            let n = s.len() as int;
            &&& r.video_url@ == (match best_video(s, n).0 {
                Some(j) => s[j].url@,
                None => Seq::<char>::empty(),
            })
            &&& r.audio_url@ == (match best_audio(s, n).0 {
                Some(j) => s[j].url@,
                None => Seq::<char>::empty(),
            })
            &&& r.combined_url@ == combined_pick(s, preset_combined@, n)
        }),
{
    let n = formats.len();
    let mut video_url = String::new();
    let mut audio_url = String::new();
    let mut combined_url = String::from_str(preset_combined);
    let mut best_h: i64 = 0;
    let mut best_tbr: u64 = 0;
    let mut i: usize = 0;
    while i < n
        invariant
            n == formats@.len(),
            i <= n,
            best_h == best_video(formats@, i as int).1,
            video_url@ == (match best_video(formats@, i as int).0 {
                Some(j) => formats@[j].url@,
                None => Seq::<char>::empty(),
            }),
            best_tbr == best_audio(formats@, i as int).1,
            audio_url@ == (match best_audio(formats@, i as int).0 {
                Some(j) => formats@[j].url@,
                None => Seq::<char>::empty(),
            }),
            combined_url@ == combined_pick(formats@, preset_combined@, i as int),
        decreases n - i,
    {
        let f = &formats[i];
        let has_url = f.url.as_str().unicode_len() > 0;
        let is_v = !str_eq(f.vcodec.as_str(), "none");
        let is_a = !str_eq(f.acodec.as_str(), "none");
        if is_v && !is_a && has_url && f.height > best_h {
            best_h = f.height;
            video_url = f.url.clone();
        }
        if is_a && !is_v && has_url && f.tbr_milli > best_tbr {
            best_tbr = f.tbr_milli;
            audio_url = f.url.clone();
        }
        if is_v && is_a && f.height > 0 && has_url {
            if combined_url.as_str().unicode_len() == 0 || f.height >= 720 {
                combined_url = f.url.clone();
            }
        }
        i += 1;
    }
    StreamSelection { video_url, audio_url, combined_url }
}

/// One row of the quality list the player offers.
pub struct Quality {
    pub height: i64,
    pub url: String,
    pub format_id: String,
    pub fps_milli: u64,
    pub ext: String,
}

/// A format the quality list draws from: video-capable, with a positive
/// height and a usable URL.
pub open spec fn usable_quality(f: StreamFormat) -> bool {
    f.vcodec@ != "none"@ && f.height > 0 && f.url@.len() > 0
}

/// The quality row matches a format of the listing.
pub open spec fn quality_of_some(q: Quality, s: Seq<StreamFormat>) -> bool {
    exists|j: int|
        0 <= j < s.len() && {
            let f = #[trigger] s[j];
            &&& f.vcodec@ != "none"@
            &&& f.height > 0
            &&& f.url@.len() > 0
            &&& q.height == f.height
            &&& q.url@ == f.url@
            &&& q.format_id@ == f.format_id@
            &&& q.fps_milli == f.fps_milli
            &&& q.ext@ == f.ext@
        }
}

/// The list of offered qualities: one row per distinct positive height
/// among the video-capable formats, tallest first, and every such height
/// is offered.
pub fn build_quality_list(formats: &Vec<StreamFormat>) -> (r: Vec<Quality>)
    ensures
        forall|k: int| 0 <= k < r@.len() ==> quality_of_some(#[trigger] r@[k], formats@),
        forall|a: int, b: int|
            0 <= a < b < r@.len() ==> (#[trigger] r@[a]).height > (#[trigger] r@[b]).height,
        forall|j: int|
            0 <= j < formats@.len() && usable_quality(#[trigger] formats@[j]) ==> exists|k: int|
                0 <= k < r@.len() && (#[trigger] r@[k]).height == formats@[j].height,
{
    let n = formats.len();
    let mut out: Vec<Quality> = Vec::new();
    let mut i: usize = 0;
    while i < n
        invariant
            n == formats@.len(),
            i <= n,
            forall|k: int| 0 <= k < out@.len() ==> quality_of_some(#[trigger] out@[k], formats@),
            forall|a: int, b: int|
                0 <= a < b < out@.len() ==> (#[trigger] out@[a]).height > (
                #[trigger] out@[b]).height,
            forall|j: int|
                0 <= j < i && usable_quality(#[trigger] formats@[j]) ==> exists|k: int|
                    0 <= k < out@.len() && (#[trigger] out@[k]).height == formats@[j].height,
        decreases n - i,
    {
        let f = &formats[i];
        let usable = !str_eq(f.vcodec.as_str(), "none") && f.height > 0
            && f.url.as_str().unicode_len() > 0;
        if usable {
            // find the insertion point among strictly taller rows
            let m = out.len();
            let mut p: usize = 0;
            while p < m && out[p].height > f.height
                invariant
                    m == out@.len(),
                    p <= m,
                    i < n == formats@.len(),
                    forall|k: int| 0 <= k < p ==> (#[trigger] out@[k]).height > f.height,
                decreases m - p,
            {
                p += 1;
            }
            let seen = p < m && out[p].height == f.height;
            let ghost before_any = out@;
            let ghost pp = p as int;
            if !seen {
                let q = Quality {
                    height: f.height,
                    url: f.url.clone(),
                    format_id: f.format_id.clone(),
                    fps_milli: f.fps_milli,
                    ext: f.ext.clone(),
                };
                let ghost before = out@;
                out.insert(p, q);
                proof {
                    assert forall|k: int| 0 <= k < out@.len() implies quality_of_some(
                        #[trigger] out@[k],
                        formats@,
                    ) by {
                        if k < p {
                            assert(out@[k] == before[k]);
                            assert(quality_of_some(before[k], formats@));
                        } else if k == p {
                            assert(out@[k].height == formats@[i as int].height);
                        } else {
                            assert(out@[k] == before[k - 1]);
                            assert(quality_of_some(before[k - 1], formats@));
                        }
                    }
                    assert forall|a: int, b: int| 0 <= a < b < out@.len() implies (
                    #[trigger] out@[a]).height > (#[trigger] out@[b]).height by {
                        if b < p {
                        } else if a > p {
                        } else if b == p {
                            assert(out@[a] == before[a]);
                        } else if a == p && b > p {
                            assert(out@[b] == before[b - 1]);
                            assert(before[p as int].height <= formats@[i as int].height);
                        }
                    }
                }
            }
            proof {
                assert forall|j: int|
                    0 <= j < i + 1 && usable_quality(#[trigger] formats@[j]) implies exists|
                    k: int,
                |
                    0 <= k < out@.len() && (#[trigger] out@[k]).height == formats@[j].height by {
                    if j < i {
                        let k0 = choose|k0: int|
                            0 <= k0 < before_any.len() && (#[trigger] before_any[k0]).height
                                == formats@[j].height;
                        if out@.len() == before_any.len() {
                            assert(out@[k0].height == formats@[j].height);
                        } else {
                            if k0 < pp {
                                assert(out@[k0].height == formats@[j].height);
                            } else {
                                assert(out@[k0 + 1].height == formats@[j].height);
                            }
                        }
                    } else {
                        assert(out@[pp].height == formats@[i as int].height);
                    }
                }
            }
        }
        i += 1;
    }
    out
}

} // verus!
