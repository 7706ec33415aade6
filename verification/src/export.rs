//! The CSV export of the job table, with exact quoting: every field is
//! wrapped in double quotes and embedded quotes are doubled.
use vstd::prelude::*;
use vstd::string::*;

use crate::store::{DownloadRecord, JobStatus};
use crate::text::substr_copy;

verus! {

/// A field's characters with every double quote doubled.
pub open spec fn csv_escaped(s: Seq<char>) -> Seq<char>
    decreases s.len(),
{
    if s.len() == 0 {
        s
    } else {
        csv_escaped(s.drop_last()) + (if s.last() == '"' {
            seq!['"', '"']
        } else {
            seq![s.last()]
        })
    }
}

/// A field wrapped in quotes, with embedded quotes escaped.
pub open spec fn csv_quoted(s: Seq<char>) -> Seq<char> {
    seq!['"'] + csv_escaped(s) + seq!['"']
}

proof fn lemma_csv_seg(s: Seq<char>, a: int, b: int)
    requires
        0 <= a <= b <= s.len(),
        forall|k: int| a <= k < b ==> s[k] != '"',
    ensures
        csv_escaped(s.take(b)) == csv_escaped(s.take(a)) + s.subrange(a, b),
    decreases b - a,
{
    if a == b {
        assert(csv_escaped(s.take(b)) =~= csv_escaped(s.take(a)) + s.subrange(a, b));
    } else {
        lemma_csv_seg(s, a, b - 1);
        assert(s.take(b).drop_last() =~= s.take(b - 1));
        assert(s.take(b).last() == s[b - 1]);
        assert(csv_escaped(s.take(b)) =~= csv_escaped(s.take(a)) + s.subrange(a, b));
    }
}

/// Quotes one CSV field.
pub fn csv_quote(s: &str) -> (r: String)
    ensures
        r@ == csv_quoted(s@),
{
    let n = s.unicode_len();
    let mut out = String::from_str("\"");
    proof {
        reveal_strlit("\"");
        assert(s@.take(0) =~= Seq::<char>::empty());
        assert(out@ =~= seq!['"'] + csv_escaped(s@.take(0)));
    }
    let mut start: usize = 0;
    let mut i: usize = 0;
    while i < n
        invariant
            n == s@.len(),
            start <= i <= n,
            out@ == seq!['"'] + csv_escaped(s@.take(start as int)),
            forall|k: int| start <= k < i ==> s@[k] != '"',
        decreases n - i,
    {
        if s.get_char(i) == '"' {
            let seg = substr_copy(s, start, i + 1);
            out.append(seg.as_str());
            out.append("\"");
            proof {
                lemma_csv_seg(s@, start as int, i as int);
                assert(s@.take(i + 1).drop_last() =~= s@.take(i as int));
                assert(s@.take(i + 1).last() == s@[i as int]);
                reveal_strlit("\"");
                assert(out@ =~= seq!['"'] + csv_escaped(s@.take(i + 1)));
            }
            start = i + 1;
        }
        i += 1;
    }
    let seg = substr_copy(s, start, n);
    out.append(seg.as_str());
    out.append("\"");
    proof {
        lemma_csv_seg(s@, start as int, n as int);
        assert(s@.take(n as int) =~= s@);
        reveal_strlit("\"");
        assert(out@ =~= csv_quoted(s@));
    }
    out
}

/// The fixed word each status exports as.
pub open spec fn status_name(st: JobStatus) -> Seq<char> {
    match st {
        JobStatus::Pending => "pending"@,
        JobStatus::Queued => "queued"@,
        JobStatus::Downloading => "downloading"@,
        JobStatus::Paused => "paused"@,
        JobStatus::Completed => "completed"@,
        JobStatus::Cancelled => "cancelled"@,
        JobStatus::Error => "error"@,
    }
}

/// The word a status prints as.
pub fn status_str(st: JobStatus) -> (r: &'static str)
    ensures
        r@ == status_name(st),
{
    match st {
        JobStatus::Pending => "pending",
        JobStatus::Queued => "queued",
        JobStatus::Downloading => "downloading",
        JobStatus::Paused => "paused",
        JobStatus::Completed => "completed",
        JobStatus::Cancelled => "cancelled",
        JobStatus::Error => "error",
    }
}

/// One exported row: the quoted identity, title, source, status and format
/// label, comma-separated and newline-terminated.
pub open spec fn csv_row(r: DownloadRecord) -> Seq<char> {
    csv_quoted(r.id@) + ","@ + csv_quoted(r.title@) + ","@ + csv_quoted(r.url@) + ","@
        + csv_quoted(status_name(r.status)) + ","@ + csv_quoted(r.format_label@) + "\n"@
}

/// All exported rows, in table order.
pub open spec fn csv_rows(s: Seq<DownloadRecord>) -> Seq<char>
    decreases s.len(),
{
    if s.len() == 0 {
        Seq::empty()
    } else {
        csv_rows(s.drop_last()) + csv_row(s.last())
    }
}

/// The whole export: a header line and one row per job.
pub open spec fn csv_export(s: Seq<DownloadRecord>) -> Seq<char> {
    "id,title,url,status,format\n"@ + csv_rows(s)
}

/// Exports the job table as CSV with a header line, every field quoted.
pub fn export_downloads_csv(records: &Vec<DownloadRecord>) -> (r: String)
    ensures
        r@ == csv_export(records@),
{
    let mut out = String::from_str("id,title,url,status,format\n");
    let n = records.len();
    let mut i: usize = 0;
    while i < n
        invariant
            n == records@.len(),
            i <= n,
            out@ == csv_export(records@.take(i as int)),
        decreases n - i,
    {
        proof {
            assert(records@.take(i + 1).drop_last() =~= records@.take(i as int));
            assert(records@.take(i + 1).last() == records@[i as int]);
        }
        let rec = &records[i];
        let q = csv_quote(rec.id.as_str());
        out.append(q.as_str());
        out.append(",");
        let q = csv_quote(rec.title.as_str());
        out.append(q.as_str());
        out.append(",");
        let q = csv_quote(rec.url.as_str());
        out.append(q.as_str());
        out.append(",");
        let q = csv_quote(status_str(rec.status));
        out.append(q.as_str());
        out.append(",");
        let q = csv_quote(rec.format_label.as_str());
        out.append(q.as_str());
        out.append("\n");
        proof {
            assert(out@ =~= csv_export(records@.take(i + 1)));
        }
        i += 1;
    }
    proof {
        assert(records@.take(n as int) =~= records@);
    }
    out
}

} // verus!
