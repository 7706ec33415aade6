//! Security boundaries: source-URL validation and the denylist that strips
//! dangerous flags from caller-supplied subprocess arguments.
use vstd::prelude::*;
use vstd::string::*;

use crate::text::{
    contains_seq, contains_sub_lower, digits_val, digits_val_capped, idx_from, is_digit,
    is_digit_char, lemma_idx_from, lower, matches_at, starts_with_lower, starts_with_seq,
    trim_copy, trim_spec,
};

verus! {

/// The trimmed, ASCII-lowered URL starts with an accepted scheme.
pub open spec fn has_web_scheme(t: Seq<char>) -> bool {
    starts_with_seq(lower(t), "http://"@) || starts_with_seq(lower(t), "https://"@)
}

/// The host-and-port part of `t`: the text after the scheme, cut at the
/// first slash. Meaningful only when `has_web_scheme(t)` holds.
pub open spec fn host_port_of(t: Seq<char>) -> Seq<char> {
    let start: int = if starts_with_seq(lower(t), "http://"@) {
        7
    } else {
        8
    };
    t.subrange(start, idx_from(t, '/', start, t.len() as int))
}

/// The host names a loopback or link-local target. The patterns are
/// matched inside the host part only; the same words elsewhere in the URL
/// (a path, a query) do not block it.
pub open spec fn blocked_host(t: Seq<char>) -> bool {
    let h = host_port_of(t);
    ||| contains_seq(lower(h), "localhost"@)
    ||| contains_seq(lower(h), "127.0.0.1"@)
    ||| contains_seq(lower(h), "0.0.0.0"@)
    ||| contains_seq(lower(h), "192.168."@)
    ||| contains_seq(lower(h), "169.254."@)
    ||| contains_seq(lower(h), "::1"@)
}

/// The host part of `t`: the text after the scheme, cut at the first slash
/// and then at the first colon (stripping any port). Meaningful only when
/// `has_web_scheme(t)` holds.
pub open spec fn host_of(t: Seq<char>) -> Seq<char> {
    let start: int = if starts_with_seq(lower(t), "http://"@) {
        7
    } else {
        8
    };
    let e1 = idx_from(t, '/', start, t.len() as int);
    let e2 = idx_from(t, ':', start, e1);
    t.subrange(start, e2)
}

/// The host sits in 172.16.0.0/12: it starts with `172.` and its second
/// dotted component is a number between 16 and 31.
pub open spec fn octet_172_private(h: Seq<char>) -> bool {
    starts_with_seq(h, "172."@) && {
        let ce = idx_from(h, '.', 4, h.len() as int);
        let comp = h.subrange(4, ce);
        comp.len() > 0 && (forall|k: int| 0 <= k < comp.len() ==> is_digit(comp[k])) && 16
            <= digits_val(comp) <= 31
    }
}

/// The host sits in a blocked private range.
pub open spec fn private_host(t: Seq<char>) -> bool {
    has_web_scheme(t) && (starts_with_seq(host_of(t), "10."@) || octet_172_private(host_of(t)))
}

/// Every condition an externally supplied source URL must meet: nonempty
/// after trimming, a minimum length, an http or https scheme, and no
/// loopback, link-local or private-range host.
pub open spec fn url_accepted(url: &str) -> bool {
    let t = trim_spec(url@);
    &&& t.len() > 0
    &&& url@.len() >= 10
    &&& has_web_scheme(t)
    &&& !blocked_host(t)
    &&& !private_host(t)
}

/// Validates an externally supplied source URL, rejecting empty or short
/// input, schemes other than http/https, and loopback, link-local or
/// private-range hosts. Rejection returns a descriptive error.
pub fn validate_url(url: &str) -> (r: Result<(), String>)
    ensures
        r is Ok <==> url_accepted(url),
        r matches Err(e) ==> e@.len() > 0,
{
    let t = trim_copy(url);
    let ts = t.as_str();
    let n = ts.unicode_len();
    if n == 0 {
        proof {
            reveal_strlit("URL cannot be empty");
        }
        return Err(String::from_str("URL cannot be empty"));
    }
    if url.unicode_len() < 10 {
        proof {
            reveal_strlit("URL is too short");
        }
        return Err(String::from_str("URL is too short"));
    }
    let is_http = starts_with_lower(ts, "http://");
    let is_https = starts_with_lower(ts, "https://");
    if !is_http && !is_https {
        proof {
            reveal_strlit("URL must start with http:// or https://");
        }
        return Err(String::from_str("URL must start with http:// or https://"));
    }
    // cut the host out of the URL: after the scheme, before any '/' or ':'
    let hs: usize = if is_http {
        7
    } else {
        8
    };
    proof {
        reveal_strlit("http://");
        reveal_strlit("https://");
        assert(hs <= n);
    }
    let mut e1: usize = hs;
    while e1 < n && ts.get_char(e1) != '/'
        invariant
            n == t@.len(),
            ts@ == t@,
            hs <= e1 <= n,
            forall|k: int| hs <= k < e1 ==> t@[k] != '/',
        decreases n - e1,
    {
        e1 += 1;
    }
    let mut e2: usize = hs;
    while e2 < e1 && ts.get_char(e2) != ':'
        invariant
            n == t@.len(),
            ts@ == t@,
            e1 <= n,
            hs <= e2 <= e1,
            forall|k: int| hs <= k < e2 ==> t@[k] != ':',
        decreases e1 - e2,
    {
        e2 += 1;
    }
    proof {
        lemma_idx_from(t@, '/', hs as int, n as int, e1 as int);
        lemma_idx_from(t@, ':', hs as int, e1 as int, e2 as int);
        assert(host_port_of(t@) =~= t@.subrange(hs as int, e1 as int));
        assert(host_of(t@) =~= t@.subrange(hs as int, e2 as int));
    }
    let hp = crate::text::substr_copy(ts, hs, e1);
    proof {
        assert(lower(hp@) =~= lower(host_port_of(t@)));
    }
    if contains_sub_lower(hp.as_str(), "localhost") || contains_sub_lower(hp.as_str(), "127.0.0.1")
        || contains_sub_lower(hp.as_str(), "0.0.0.0") || contains_sub_lower(
        hp.as_str(),
        "192.168.",
    ) || contains_sub_lower(hp.as_str(), "169.254.") || contains_sub_lower(hp.as_str(), "::1") {
        proof {
            reveal_strlit("URL host is a blocked loopback, link-local or private target");
        }
        return Err(
            String::from_str("URL host is a blocked loopback, link-local or private target"),
        );
    }
    let ghost host = t@.subrange(hs as int, e2 as int);
    // 10.0.0.0/8
    if e2 - hs >= 3 && ts.get_char(hs) == '1' && ts.get_char(hs + 1) == '0' && ts.get_char(hs + 2)
        == '.' {
        proof {
            reveal_strlit("10.");
            reveal_strlit("URL contains a private IP range (10.x.x.x)");
            assert(starts_with_seq(host, "10."@));
        }
        return Err(String::from_str("URL contains a private IP range (10.x.x.x)"));
    }
    proof {
        reveal_strlit("10.");
        if starts_with_seq(host, "10."@) {
            assert("10."@.len() == 3);
            assert(matches_at(host, "10."@, 0));
            assert(host.len() >= 3);
            assert("10."@[0] == '1');
            assert(host[0int] == "10."@[0int]);
            assert(host[0 + 1int] == "10."@[1int]);
            assert(host[0 + 2int] == "10."@[2int]);
            assert(host[0] == '1' && host[1] == '0' && host[2] == '.');
        }
    }
    // 172.16.0.0/12
    if e2 - hs >= 4 && ts.get_char(hs) == '1' && ts.get_char(hs + 1) == '7' && ts.get_char(hs + 2)
        == '2' && ts.get_char(hs + 3) == '.' {
        proof {
            reveal_strlit("172.");
            assert(starts_with_seq(host, "172."@));
        }
        // second dotted component of the host
        let mut ce: usize = hs + 4;
        while ce < e2 && ts.get_char(ce) != '.'
            invariant
                n == t@.len(),
                ts@ == t@,
                hs + 4 <= ce <= e2 <= n,
                forall|k: int| hs + 4 <= k < ce ==> t@[k] != '.',
            decreases e2 - ce,
        {
            ce += 1;
        }
        proof {
            lemma_idx_from(host, '.', 4, host.len() as int, ce - hs);
            assert(host.subrange(4, ce - hs) =~= t@.subrange(hs + 4, ce as int));
        }
        let mut all_digits = ce > hs + 4;
        let mut k: usize = hs + 4;
        while k < ce
            invariant
                n == t@.len(),
                ts@ == t@,
                hs + 4 <= k <= ce <= n,
                all_digits == (ce > hs + 4 && forall|j: int| hs + 4 <= j < k ==> is_digit(t@[j])),
            decreases ce - k,
        {
            if !is_digit_char(ts.get_char(k)) {
                all_digits = false;
            }
            k += 1;
        }
        proof {
            reveal_strlit("URL contains a private IP range (172.16-31.x.x)");
        }
        if all_digits {
            let v = digits_val_capped(ts, hs + 4, ce, 1000);
            if 16 <= v && v <= 31 {
                proof {
                    assert(octet_172_private(host));
                }
                return Err(String::from_str("URL contains a private IP range (172.16-31.x.x)"));
            }
            proof {
                assert(!octet_172_private(host));
            }
        } else {
            proof {
                if ce > hs + 4 {
                    assert(!(forall|j: int| hs + 4 <= j < ce ==> is_digit(t@[j])));
                    let j = choose|j: int| hs + 4 <= j < ce && !is_digit(t@[j]);
                    assert(host.subrange(4, ce - hs)[j - hs - 4] == t@[j]);
                }
                assert(!octet_172_private(host));
            }
        }
    } else {
        proof {
            reveal_strlit("172.");
            if starts_with_seq(host, "172."@) {
                assert(matches_at(host, "172."@, 0));
                assert(host.len() >= 4);
                assert(host[0int] == "172."@[0int]);
                assert(host[0 + 1int] == "172."@[1int]);
                assert(host[0 + 2int] == "172."@[2int]);
                assert(host[0 + 3int] == "172."@[3int]);
                assert(host[0] == '1' && host[1] == '7' && host[2] == '2' && host[3] == '.');
            }
        }
    }
    Ok(())
}

/// A flag is refused when its ASCII-lowered form starts with any entry of
/// the denylist: options that run arbitrary commands, ingest batch or
/// archive files, or redirect configuration.
pub open spec fn flag_refused(f: Seq<char>) -> bool {
    ||| starts_with_seq(lower(f), "--exec"@)
    ||| starts_with_seq(lower(f), "--exec-before-download"@)
    ||| starts_with_seq(lower(f), "--batch-file"@)
    ||| starts_with_seq(lower(f), "--config-locations"@)
    ||| starts_with_seq(lower(f), "--config-location"@)
    ||| starts_with_seq(lower(f), "--output-na-placeholder"@)
    ||| starts_with_seq(lower(f), "-a"@)
    ||| starts_with_seq(lower(f), "--download-archive"@)
}

/// The subsequence of `flags` that survives the denylist, in order.
pub open spec fn surviving_flags(flags: Seq<String>) -> Seq<String>
    decreases flags.len(),
{
    if flags.len() == 0 {
        Seq::empty()
    } else if flag_refused(flags.last()@) {
        surviving_flags(flags.drop_last())
    } else {
        surviving_flags(flags.drop_last()).push(flags.last())
    }
}

pub proof fn lemma_surviving_flags_safe(flags: Seq<String>)
    ensures
        forall|k: int|
            0 <= k < surviving_flags(flags).len() ==> !flag_refused(
                #[trigger] surviving_flags(flags)[k]@,
            ),
    decreases flags.len(),
{
    if flags.len() > 0 {
        lemma_surviving_flags_safe(flags.drop_last());
        let prev = surviving_flags(flags.drop_last());
        if !flag_refused(flags.last()@) {
            assert forall|k: int|
                0 <= k < surviving_flags(flags).len() implies !flag_refused(
                surviving_flags(flags)[k]@,
            ) by {
                if k < prev.len() {
                    assert(surviving_flags(flags)[k] == prev[k]);
                } else {
                    assert(surviving_flags(flags)[k] == flags.last());
                }
            }
        }
    }
}

/// Strips denylisted options from caller-supplied subprocess flags. This is
/// a security boundary: whatever the caller passes, no surviving flag starts
/// with an exec-, batch-file- or config-redirection option.
pub fn sanitize_ytdlp_flags(flags: &Vec<String>) -> (r: Vec<String>)
    ensures
        r@ == surviving_flags(flags@),
        forall|k: int| 0 <= k < r@.len() ==> !flag_refused(#[trigger] r@[k]@),
{
    let mut r: Vec<String> = Vec::new();
    let n = flags.len();
    let mut i: usize = 0;
    while i < n
        invariant
            n == flags@.len(),
            i <= n,
            r@ == surviving_flags(flags@.take(i as int)),
        decreases n - i,
    {
        let f = &flags[i];
        let refused = starts_with_lower(f.as_str(), "--exec") || starts_with_lower(
            f.as_str(),
            "--exec-before-download",
        ) || starts_with_lower(f.as_str(), "--batch-file") || starts_with_lower(
            f.as_str(),
            "--config-locations",
        ) || starts_with_lower(f.as_str(), "--config-location") || starts_with_lower(
            f.as_str(),
            "--output-na-placeholder",
        ) || starts_with_lower(f.as_str(), "-a") || starts_with_lower(
            f.as_str(),
            "--download-archive",
        );
        proof {
            assert(flags@.take(i + 1).drop_last() =~= flags@.take(i as int));
            assert(flags@.take(i + 1).last() == flags@[i as int]);
        }
        if !refused {
            r.push(f.clone());
        }
        i += 1;
    }
    proof {
        assert(flags@.take(n as int) =~= flags@);
        lemma_surviving_flags_safe(flags@);
    }
    r
}

/// Only web URLs may be handed to the system opener.
pub fn is_web_url(url: &str) -> (b: bool)
    ensures
        b == has_web_scheme(trim_spec(url@)),
{
    let t = trim_copy(url);
    starts_with_lower(t.as_str(), "http://") || starts_with_lower(t.as_str(), "https://")
}

} // verus!
