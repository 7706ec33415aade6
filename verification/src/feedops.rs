//! Feed reconciliation rules that sit between fetch and store: what is
//! preserved when the network returns nothing, and the sync progress math.
use vstd::prelude::*;
use vstd::string::*;

use crate::text::{idx_from, is_ws, lemma_idx_from, starts_with_seq, starts_with_sub, substr_copy,
    trim_copy, trim_spec};

verus! {

/// What to store for the channel avatar: a blank fetch never overwrites a
/// previously stored avatar.
pub fn choose_avatar(fetched: &str, existing: &str) -> (r: String)
    ensures
        trim_spec(fetched@).len() == 0 ==> r@ == existing@,
        trim_spec(fetched@).len() > 0 ==> r@ == fetched@,
{
    let t = trim_copy(fetched);
    if t.as_str().unicode_len() == 0 {
        String::from_str(existing)
    } else {
        String::from_str(fetched)
    }
}

/// What to store for the channel display name: a blank fetched title never
/// overwrites a previously stored name.
pub fn choose_channel_name(fetched_title: &str, existing: &str) -> (r: String)
    ensures
        trim_spec(fetched_title@).len() == 0 ==> r@ == existing@,
        trim_spec(fetched_title@).len() > 0 ==> r@ == fetched_title@,
{
    let t = trim_copy(fetched_title);
    if t.as_str().unicode_len() == 0 {
        String::from_str(existing)
    } else {
        String::from_str(fetched_title)
    }
}

/// The display title a newly added feed gets: the fetched title if the
/// bounded pre-fetch produced one, else the trimmed input URL.
pub fn feed_title_fallback(fetched_title: &str, input_url: &str) -> (r: String)
    ensures
        trim_spec(fetched_title@).len() > 0 ==> r@ == fetched_title@,
        trim_spec(fetched_title@).len() == 0 ==> r@ == trim_spec(input_url@),
{
    let t = trim_copy(fetched_title);
    if t.as_str().unicode_len() > 0 {
        String::from_str(fetched_title)
    } else {
        trim_copy(input_url)
    }
}

/// The percentage a sync-progress event reports: the processed share of
/// the total, or — with nothing to process — full only when the phase has
/// completed.
pub fn feed_sync_percent(processed: u64, total: u64, phase_completed: bool) -> (r: u32)
    requires
        processed <= total,
        total < 0x1_0000_0000_0000,
    ensures
        total == 0 ==> r == if phase_completed {
            100int
        } else {
            0int
        },
        total > 0 ==> r == processed * 100 / total as int,
        r <= 100,
{
    if total == 0 {
        if phase_completed {
            100
        } else {
            0
        }
    } else {
        let v = processed * 100 / total;
        proof {
            assert(processed * 100 <= total * 100) by (nonlinear_arith)
                requires
                    processed <= total,
            ;
            assert((total * 100) as int / total as int == 100) by (nonlinear_arith)
                requires
                    total > 0,
            ;
            assert((processed * 100) as int / total as int <= (total * 100) as int
                / total as int) by (nonlinear_arith)
                requires
                    total > 0,
                    processed <= total,
            ;
        }
        v as u32
    }
}

/// The converter's version as its output reports it: the first line's
/// token after the version prefix, or the first line itself, or a fixed
/// word when there is no output at all.
pub open spec fn ffmpeg_version_of(s: Seq<char>) -> Seq<char> {
    if s.len() == 0 {
        "unknown"@
    } else {
        let line = s.subrange(0, idx_from(s, '\n', 0, s.len() as int));
        if starts_with_seq(line, "ffmpeg version "@) {
            let rest = line.subrange(15, line.len() as int);
            let e = crate::progress::word_run_end(rest, 0);
            if e > 0 {
                rest.subrange(0, e)
            } else {
                rest
            }
        } else {
            line
        }
    }
}

/// Extracts the version word from the converter's version output.
pub fn parse_ffmpeg_version_output(s: &str) -> (r: String)
    ensures
        r@ == ffmpeg_version_of(s@),
{
    let n = s.unicode_len();
    if n == 0 {
        return String::from_str("unknown");
    }
    let mut e: usize = 0;
    while e < n && s.get_char(e) != '\n'
        invariant
            n == s@.len(),
            e <= n,
            forall|k: int| 0 <= k < e ==> s@[k] != '\n',
        decreases n - e,
    {
        e += 1;
    }
    proof {
        lemma_idx_from(s@, '\n', 0, n as int, e as int);
    }
    let line = substr_copy(s, 0, e);
    let ls = line.as_str();
    if starts_with_sub(ls, "ffmpeg version ") {
        proof {
            reveal_strlit("ffmpeg version ");
        }
        let m = ls.unicode_len();
        let mut w: usize = 15;
        while w < m && !crate::text::is_ws_char(ls.get_char(w))
            invariant
                m == line@.len(),
                ls@ == line@,
                15 <= w <= m,
                forall|k: int| 15 <= k < w ==> !is_ws(line@[k]),
            decreases m - w,
        {
            w += 1;
        }
        proof {
            let rest = line@.subrange(15, line@.len() as int);
            assert forall|k: int| 0 <= k < w - 15 implies !is_ws(rest[k]) by {
                assert(rest[k] == line@[k + 15]);
            }
            if (w as int) < m {
                assert(is_ws(rest[w - 15]));
            }
            crate::progress::lemma_word_run_end(rest, 0, w - 15);
        }
        if w > 15 {
            let r = substr_copy(ls, 15, w);
            proof {
                let rest = line@.subrange(15, line@.len() as int);
                assert(r@ =~= rest.subrange(0, w - 15));
            }
            r
        } else {
            let r = substr_copy(ls, 15, m);
            proof {
                let rest = line@.subrange(15, line@.len() as int);
                assert(r@ =~= rest);
            }
            r
        }
    } else {
        proof {
            reveal_strlit("ffmpeg version ");
        }
        line
    }
}

} // verus!
