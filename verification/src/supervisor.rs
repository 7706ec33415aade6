//! The job supervisor: submission with duplicate-key rejection, the control
//! operations, the completion handler that reconciles a run's exit with the
//! stored job, and the batch operations.
use vstd::prelude::*;
use vstd::string::*;

use crate::error::{AppError, AppResult};
use crate::manager::{ActiveDownload, CancelToken, DownloadManager, run_idx};
use crate::runner::RunOutcome;
use crate::store::{dl_idx, Database, DownloadRecord, JobStatus};
use crate::validate::{url_accepted, validate_url};

verus! {

/// Relies on uuid::Uuid::new_v4 and its hyphenated lower-case rendering:
/// a random version-4 identifier always prints as 36 characters. Nothing
/// more is promised of a random value.
#[verifier::external_body]
fn fresh_job_id() -> (r: String)
    ensures
        r@.len() == 36,
{
    uuid::Uuid::new_v4().to_string()
}

/// A status under which an existing job blocks a new submission of the
/// same (source URL, variant) key.
pub open spec fn blocks_duplicate(st: JobStatus) -> bool {
    st == JobStatus::Completed || st == JobStatus::Downloading || st == JobStatus::Queued
}

/// An active-or-completed job with the same key already exists.
pub open spec fn duplicate_key_exists(
    s: Seq<DownloadRecord>,
    url: Seq<char>,
    fmt: Seq<char>,
) -> bool {
    exists|j: int|
        0 <= j < s.len() && (#[trigger] s[j]).url@ == url && s[j].format_id@ == fmt
            && blocks_duplicate(s[j].status)
}

/// Scans the job table for a blocking duplicate of the given key.
fn find_duplicate_key(db: &Database, url: &str, fmt: &str) -> (r: bool)
    ensures
        r == duplicate_key_exists(db.downloads@, url@, fmt@),
{
    let n = db.downloads.len();
    let mut i: usize = 0;
    while i < n
        invariant
            n == db.downloads@.len(),
            i <= n,
            forall|j: int|
                0 <= j < i ==> !((#[trigger] db.downloads@[j]).url@ == url@
                    && db.downloads@[j].format_id@ == fmt@ && blocks_duplicate(
                    db.downloads@[j].status,
                )),
        decreases n - i,
    {
        let rec = &db.downloads[i];
        let st = rec.status;
        if crate::text::str_eq(rec.url.as_str(), url) && crate::text::str_eq(
            rec.format_id.as_str(),
            fmt,
        ) && (st == JobStatus::Completed || st == JobStatus::Downloading || st
            == JobStatus::Queued) {
            return true;
        }
        i += 1;
    }
    false
}

/// Submits a new download job. The source URL is validated first; a job
/// with the same (source URL, variant) key in queued, downloading or
/// completed state is rejected before any side effect. On success a new
/// record in downloading state and a fresh run with an unsignalled token
/// exist, and the new identifier is returned at once — completion is
/// reported later through `on_run_exit`. A store failure can only mean
/// that the randomly drawn identifier collided with one already tracked;
/// success cannot be promised outright because the identifier is random.
pub fn submit_download(
    db: &mut Database,
    dm: &mut DownloadManager,
    url: &str,
    format_id: &str,
    title: &str,
    thumbnail: &str,
) -> (r: AppResult<String>)
    requires
        old(db).wf(),
        old(dm).wf(),
    ensures
        final(db).wf(),
        final(dm).wf(),
        r matches Err(e) && e is Validation <==> !url_accepted(url) || duplicate_key_exists(
            old(db).downloads@,
            url@,
            format_id@,
        ),
        r matches Err(e) ==> *final(db) == *old(db) && final(dm).active@ == old(dm).active@,
        r matches Err(e) && e is Store ==> exists|idv: Seq<char>|
            #[trigger] idv.len() == 36 && (dl_idx(old(db).downloads@, idv, 0) is Some || run_idx(
                old(dm).active@,
                idv,
                0,
            ) is Some),
        r matches Ok(id) ==> {
            &&& url_accepted(url)
            &&& !duplicate_key_exists(old(db).downloads@, url@, format_id@)
            &&& crate::store::eq_except_downloads(*old(db), *final(db))
            &&& final(db).downloads@.len() == old(db).downloads@.len() + 1
            &&& final(db).downloads@.drop_last() == old(db).downloads@
            &&& ({
                let n = final(db).downloads@.last();
                &&& n.id@ == id@
                &&& n.url@ == url@
                &&& n.title@ == title@
                &&& n.thumbnail@ == thumbnail@
                &&& n.format_id@ == format_id@
                &&& n.status == JobStatus::Downloading
            })
            &&& ({
                let run = final(dm).active@.last();
                &&& final(dm).active@.drop_last() == old(dm).active@
                &&& final(dm).active@.len() == old(dm).active@.len() + 1
                &&& run.id@ == id@
                &&& run.url@ == url@
                &&& run.status == JobStatus::Downloading
                &&& !run.cancel_token.signalled()
            })
        },
{
    if let Err(m) = validate_url(url) {
        return Err(AppError::Validation(m));
    }
    if find_duplicate_key(db, url, format_id) {
        proof {
            reveal_strlit("a job with this source and format is already tracked");
        }
        return Err(
            AppError::Validation(
                String::from_str("a job with this source and format is already tracked"),
            ),
        );
    }
    let id = fresh_job_id();
    if db.find_download(id.as_str()).is_some() || dm.find_run(id.as_str()).is_some() {
        proof {
            reveal_strlit("the fresh identifier is already in use");
        }
        return Err(AppError::Store(String::from_str("the fresh identifier is already in use")));
    }
    let ins = db.insert_download(id.as_str(), url, title, thumbnail);
    if ins.is_err() {
        proof {
            reveal_strlit("the fresh identifier is already in use");
        }
        return Err(AppError::Store(String::from_str("the fresh identifier is already in use")));
    }
    proof {
        crate::store::lemma_dl_idx(db.downloads@, id@, 0, db.downloads@.len() - 1);
    }
    let _ = db.set_download_format(id.as_str(), format_id);
    proof {
        crate::store::lemma_dl_idx(db.downloads@, id@, 0, db.downloads@.len() - 1);
    }
    let _ = db.update_download_status(id.as_str(), JobStatus::Downloading);
    let run = ActiveDownload {
        id: id.clone(),
        url: String::from_str(url),
        status: JobStatus::Downloading,
        cancel_token: CancelToken::new(),
    };
    let _ = dm.insert_run(run);
    proof {
        assert(final(db).downloads@.drop_last() =~= old(db).downloads@);
    }
    Ok(id)
}

/// Re-launches an existing job under its stored identifier: the record
/// moves to downloading and a fresh run replaces any stale one. The source
/// URL is validated again first.
pub fn start_download_existing(
    db: &mut Database,
    dm: &mut DownloadManager,
    id: &str,
    url: &str,
) -> (r: AppResult<()>)
    requires
        old(db).wf(),
        old(dm).wf(),
    ensures
        final(db).wf(),
        final(dm).wf(),
        r is Err <==> !url_accepted(url),
        r is Err ==> *final(db) == *old(db) && final(dm).active@ == old(dm).active@,
        r is Ok ==> {
            &&& crate::store::eq_except_downloads(*old(db), *final(db))
            &&& (match dl_idx(old(db).downloads@, id@, 0) {
                Some(i) => final(db).downloads@ == old(db).downloads@.update(
                    i,
                    DownloadRecord {
                        status: JobStatus::Downloading,
                        ..old(db).downloads@[i]
                    },
                ),
                None => final(db).downloads@ == old(db).downloads@,
            })
            &&& ({
                let run = final(dm).active@.last();
                &&& final(dm).active@.len() >= 1
                &&& run.id@ == id@
                &&& run.url@ == url@
                &&& run.status == JobStatus::Downloading
                &&& !run.cancel_token.signalled()
            })
        },
{
    if let Err(m) = validate_url(url) {
        return Err(AppError::Validation(m));
    }
    let _ = db.update_download_status(id, JobStatus::Downloading);
    dm.remove_run(id);
    let run = ActiveDownload {
        id: String::from_str(id),
        url: String::from_str(url),
        status: JobStatus::Downloading,
        cancel_token: CancelToken::new(),
    };
    proof {
        crate::manager::lemma_run_idx(dm.active@, run.id@, 0, dm.active@.len() as int);
    }
    let _ = dm.insert_run(run);
    Ok(())
}

/// Pauses a job: signals the run's token (the subprocess supports safe
/// interruption with resumable partial output) and persists the paused
/// status. A job without a live run is not an error; only its stored
/// status changes.
pub fn pause_download(db: &mut Database, dm: &mut DownloadManager, id: &str) -> (r: AppResult<()>)
    requires
        old(db).wf(),
        old(dm).wf(),
    ensures
        final(db).wf(),
        final(dm).wf(),
        r is Ok,
        crate::store::eq_except_downloads(*old(db), *final(db)),
        match dl_idx(old(db).downloads@, id@, 0) {
            Some(i) => final(db).downloads@ == old(db).downloads@.update(
                i,
                DownloadRecord { status: JobStatus::Paused, ..old(db).downloads@[i] },
            ),
            None => final(db).downloads@ == old(db).downloads@,
        },
        match run_idx(old(dm).active@, id@, 0) {
            Some(i) => final(dm).active@[i].cancel_token.signalled() && final(dm).active@.len()
                == old(dm).active@.len(),
            None => final(dm).active@ == old(dm).active@,
        },
{
    let _ = dm.signal_cancel(id);
    db.update_download_status(id, JobStatus::Paused)
}

/// Cancels a job: the same signal as pause, but the persisted status is the
/// terminal cancelled state, which a later failure report from the dying
/// run must not overwrite.
pub fn cancel_download(db: &mut Database, dm: &mut DownloadManager, id: &str) -> (r: AppResult<()>)
    requires
        old(db).wf(),
        old(dm).wf(),
    ensures
        final(db).wf(),
        final(dm).wf(),
        r is Ok,
        crate::store::eq_except_downloads(*old(db), *final(db)),
        match dl_idx(old(db).downloads@, id@, 0) {
            Some(i) => final(db).downloads@ == old(db).downloads@.update(
                i,
                DownloadRecord { status: JobStatus::Cancelled, ..old(db).downloads@[i] },
            ),
            None => final(db).downloads@ == old(db).downloads@,
        },
        match run_idx(old(dm).active@, id@, 0) {
            Some(i) => final(dm).active@[i].cancel_token.signalled() && final(dm).active@.len()
                == old(dm).active@.len(),
            None => final(dm).active@ == old(dm).active@,
        },
{
    let _ = dm.signal_cancel(id);
    db.update_download_status(id, JobStatus::Cancelled)
}

/// Reads the stored source and variant of a job so that its launch path
/// can be re-invoked under the same identifier; retry is the same read
/// after an error or cancel.
pub fn resume_download(db: &Database, id: &str) -> (r: AppResult<(String, String)>)
    ensures
        match r {
            Ok(t) => (match dl_idx(db.downloads@, id@, 0) {
                Some(i) => t.0@ == db.downloads@[i].url@ && t.1@ == db.downloads@[i].format_id@,
                None => false,
            }),
            Err(e) => dl_idx(db.downloads@, id@, 0) is None && e is NotFound,
        },
{
    match db.find_download(id) {
        Some(i) => Ok((db.downloads[i].url.clone(), db.downloads[i].format_id.clone())),
        None => {
            proof {
                reveal_strlit("no download with this id");
            }
            Err(AppError::NotFound(String::from_str("no download with this id")))
        },
    }
}

/// Reads the stored source and variant for a retry: resume after an error
/// or cancelled state.
pub fn retry_download(db: &Database, id: &str) -> (r: AppResult<(String, String)>)
    ensures
        match r {
            Ok(t) => (match dl_idx(db.downloads@, id@, 0) {
                Some(i) => t.0@ == db.downloads@[i].url@ && t.1@ == db.downloads@[i].format_id@,
                None => false,
            }),
            Err(e) => dl_idx(db.downloads@, id@, 0) is None && e is NotFound,
        },
{
    resume_download(db, id)
}

/// Reconciles a finished run with the stored job. The run's record leaves
/// the table before the terminal state is written, so no control operation
/// can target a dead run. A successful exit records the produced path; a
/// failure records the terminal error state — unless the user already
/// cancelled the job, whose stored status stays untouched and only the
/// error detail is recorded; a cancelled run changes no stored status at
/// all.
pub fn on_run_exit(
    db: &mut Database,
    dm: &mut DownloadManager,
    id: &str,
    outcome: &RunOutcome,
    file_size: u64,
) -> (r: AppResult<()>)
    requires
        old(db).wf(),
        old(dm).wf(),
    ensures
        final(db).wf(),
        final(dm).wf(),
        r is Ok,
        crate::store::eq_except_downloads(*old(db), *final(db)),
        forall|k: int|
            0 <= k < final(dm).active@.len() ==> (#[trigger] final(dm).active@[k]).id@ != id@,
        match dl_idx(old(db).downloads@, id@, 0) {
            Some(i) => {
                let pre = old(db).downloads@[i];
                match outcome {
                    RunOutcome::Completed { output_path } => {
                        &&& final(db).downloads@.len() == old(db).downloads@.len()
                        &&& final(db).downloads@[i].status == JobStatus::Completed
                        &&& final(db).downloads@[i].progress_permille == 1000
                        &&& final(db).downloads@[i].file_path@ == output_path@
                        &&& final(db).downloads@[i].file_size == file_size
                    },
                    RunOutcome::Cancelled => final(db).downloads@ == old(db).downloads@,
                    RunOutcome::Failed { message } => {
                        if pre.status == JobStatus::Cancelled {
                            &&& final(db).downloads@.len() == old(db).downloads@.len()
                            &&& final(db).downloads@[i].status == JobStatus::Cancelled
                            &&& final(db).downloads@[i].error@ == message@
                        } else {
                            &&& final(db).downloads@.len() == old(db).downloads@.len()
                            &&& final(db).downloads@[i].status == JobStatus::Error
                            &&& final(db).downloads@[i].error@ == message@
                        }
                    },
                }
            },
            None => final(db).downloads@ == old(db).downloads@,
        },
{
    dm.remove_run(id);
    match outcome {
        RunOutcome::Completed { output_path } => {
            db.update_download_complete(id, output_path.as_str(), file_size)
        },
        RunOutcome::Cancelled => Ok(()),
        RunOutcome::Failed { message } => {
            let user_cancelled = match db.find_download(id) {
                Some(i) => db.downloads[i].status == JobStatus::Cancelled,
                None => false,
            };
            if user_cancelled {
                db.update_download_error_detail(id, message.as_str())
            } else {
                db.update_download_error(id, message.as_str())
            }
        },
    }
}

/// A status the batch cancel applies to.
pub open spec fn cancellable(st: JobStatus) -> bool {
    st == JobStatus::Downloading || st == JobStatus::Paused || st == JobStatus::Queued
}

/// How many stored jobs the batch cancel applies to.
pub open spec fn count_cancellable(s: Seq<DownloadRecord>) -> nat
    decreases s.len(),
{
    if s.len() == 0 {
        0
    } else {
        count_cancellable(s.drop_last()) + if cancellable(s.last().status) {
            1nat
        } else {
            0nat
        }
    }
}

/// Cancels every job whose status is downloading, paused or queued:
/// signals and removes each one's run and persists the cancelled status.
/// Returns how many jobs were affected; one job's failure cannot abort the
/// batch, since each step is total.
pub fn cancel_all_downloads(db: &mut Database, dm: &mut DownloadManager) -> (r: u32)
    requires
        old(db).wf(),
        old(dm).wf(),
        old(db).downloads@.len() < 0x1_0000_0000,
    ensures
        final(db).wf(),
        final(dm).wf(),
        r == count_cancellable(old(db).downloads@),
        crate::store::eq_except_downloads(*old(db), *final(db)),
        final(db).downloads@.len() == old(db).downloads@.len(),
        forall|i: int|
            0 <= i < old(db).downloads@.len() ==> final(db).downloads@[i] == (if cancellable(
                (#[trigger] old(db).downloads@[i]).status,
            ) {
                DownloadRecord { status: JobStatus::Cancelled, ..old(db).downloads@[i] }
            } else {
                old(db).downloads@[i]
            }),
        forall|i: int, k: int|
            0 <= i < old(db).downloads@.len() && cancellable(
                (#[trigger] old(db).downloads@[i]).status,
            ) && 0 <= k < final(dm).active@.len() ==> (#[trigger] final(dm).active@[k]).id@ != old(
                db,
            ).downloads@[i].id@,
{
    let n = db.downloads.len();
    let mut count: u32 = 0;
    let mut i: usize = 0;
    while i < n
        invariant
            n == db.downloads@.len(),
            n == old(db).downloads@.len(),
            n < 0x1_0000_0000,
            i <= n,
            db.wf(),
            dm.wf(),
            crate::store::eq_except_downloads(*old(db), *db),
            count == count_cancellable(old(db).downloads@.take(i as int)),
            count <= i,
            forall|k: int|
                0 <= k < n ==> (#[trigger] db.downloads@[k]).id@ == old(db).downloads@[k].id@,
            forall|k: int|
                0 <= k < i ==> #[trigger] db.downloads@[k] == (if cancellable(
                    old(db).downloads@[k].status,
                ) {
                    DownloadRecord { status: JobStatus::Cancelled, ..old(db).downloads@[k] }
                } else {
                    old(db).downloads@[k]
                }),
            forall|k: int| i <= k < n ==> #[trigger] db.downloads@[k] == old(db).downloads@[k],
            forall|j: int, k: int|
                0 <= j < i && cancellable((#[trigger] old(db).downloads@[j]).status) && 0 <= k
                    < dm.active@.len() ==> (#[trigger] dm.active@[k]).id@ != old(
                    db,
                ).downloads@[j].id@,
        decreases n - i,
    {
        proof {
            assert(old(db).downloads@.take(i + 1).drop_last() =~= old(db).downloads@.take(i as int));
            assert(old(db).downloads@.take(i + 1).last() == old(db).downloads@[i as int]);
        }
        let st = db.downloads[i].status;
        if st == JobStatus::Downloading || st == JobStatus::Paused || st == JobStatus::Queued {
            let id = db.downloads[i].id.clone();
            let ghost dm_pre = dm.active@;
            dm.cancel(id.as_str());
            proof {
                crate::store::lemma_dl_idx(db.downloads@, id@, 0, i as int);
                assert forall|k: int| 0 <= k < i implies (#[trigger] db.downloads@[k]).id@ != id@
                    by {
                    assert(old(db).downloads@[k].id@ != old(db).downloads@[i as int].id@);
                }
                assert forall|j: int, k: int|
                    0 <= j <= i && cancellable((#[trigger] old(db).downloads@[j]).status) && 0 <= k
                        < dm.active@.len() implies (#[trigger] dm.active@[k]).id@ != old(
                    db,
                ).downloads@[j].id@ by {
                    if j == i {
                    } else {
                        match crate::manager::run_idx(dm_pre, id@, 0) {
                            Some(i0) => {
                                crate::manager::lemma_run_idx_first(dm_pre, id@, i0);
                                assert(dm.active@ == dm_pre.remove(i0));
                                if k < i0 {
                                    assert(dm.active@[k] == dm_pre[k]);
                                } else {
                                    assert(dm.active@[k] == dm_pre[k + 1]);
                                }
                            },
                            None => {
                                assert(dm.active@[k] == dm_pre[k]);
                            },
                        }
                    }
                }
            }
            let _ = db.update_download_status(id.as_str(), JobStatus::Cancelled);
            count += 1;
        }
        i += 1;
    }
    proof {
        assert(old(db).downloads@.take(n as int) =~= old(db).downloads@);
    }
    count
}

/// How many positions hold different records in the two tables.
pub open spec fn count_changed(a: Seq<DownloadRecord>, b: Seq<DownloadRecord>) -> nat
    decreases a.len(),
{
    if a.len() == 0 || b.len() == 0 {
        0
    } else {
        count_changed(a.drop_last(), b.drop_last()) + if a.last() == b.last() {
            0nat
        } else {
            1nat
        }
    }
}

/// How many stored jobs are downloading.
pub open spec fn count_downloading(s: Seq<DownloadRecord>) -> nat
    decreases s.len(),
{
    if s.len() == 0 {
        0
    } else {
        count_downloading(s.drop_last()) + if s.last().status == JobStatus::Downloading {
            1nat
        } else {
            0nat
        }
    }
}

/// Pauses every downloading job that has a downloading run: signals each
/// one's token and persists the paused status. Returns how many jobs were
/// affected.
pub fn pause_all_downloads(db: &mut Database, dm: &mut DownloadManager) -> (r: u32)
    requires
        old(db).wf(),
        old(dm).wf(),
        old(db).downloads@.len() < 0x1_0000_0000,
    ensures
        final(db).wf(),
        final(dm).wf(),
        crate::store::eq_except_downloads(*old(db), *final(db)),
        final(db).downloads@.len() == old(db).downloads@.len(),
        r == count_changed(old(db).downloads@, final(db).downloads@),
        forall|i: int|
            0 <= i < final(db).downloads@.len() ==> ((#[trigger] final(db).downloads@[i]).status
                == JobStatus::Paused || final(db).downloads@[i] == old(db).downloads@[i]),
        forall|i: int|
            0 <= i < final(db).downloads@.len() && old(db).downloads@[i].status
                != JobStatus::Downloading ==> #[trigger] final(db).downloads@[i] == old(db).downloads@[i],
        final(dm).active@.len() == old(dm).active@.len(),
        forall|k: int|
            0 <= k < old(dm).active@.len() ==> ((#[trigger] final(dm).active@[k]) == old(
                dm,
            ).active@[k] || final(dm).active@[k] == crate::manager::ActiveDownload {
                status: JobStatus::Paused,
                ..old(dm).active@[k]
            }),
        forall|k: int|
            0 <= k < old(dm).active@.len() && (#[trigger] final(dm).active@[k]) != old(
                dm,
            ).active@[k] ==> exists|j: int|
                0 <= j < old(db).downloads@.len() && (#[trigger] old(db).downloads@[j]).id@ == old(
                    dm,
                ).active@[k].id@ && old(db).downloads@[j].status == JobStatus::Downloading,
{
    let n = db.downloads.len();
    let mut count: u32 = 0;
    let mut i: usize = 0;
    while i < n
        invariant
            n == db.downloads@.len(),
            n == old(db).downloads@.len(),
            n < 0x1_0000_0000,
            i <= n,
            db.wf(),
            dm.wf(),
            crate::store::eq_except_downloads(*old(db), *db),
            count <= i,
            count == count_changed(old(db).downloads@.take(i as int), db.downloads@.take(i as int)),
            forall|k: int|
                0 <= k < n ==> (#[trigger] db.downloads@[k]).id@ == old(db).downloads@[k].id@,
            forall|k: int|
                0 <= k < i ==> ((#[trigger] db.downloads@[k]).status == JobStatus::Paused
                    || db.downloads@[k] == old(db).downloads@[k]),
            forall|k: int|
                0 <= k < i && old(db).downloads@[k].status != JobStatus::Downloading ==> (
                #[trigger] db.downloads@[k]) == old(db).downloads@[k],
            forall|k: int| i <= k < n ==> #[trigger] db.downloads@[k] == old(db).downloads@[k],
            dm.active@.len() == old(dm).active@.len(),
            forall|k: int|
                0 <= k < old(dm).active@.len() ==> ((#[trigger] dm.active@[k]) == old(
                    dm,
                ).active@[k] || dm.active@[k] == crate::manager::ActiveDownload {
                    status: JobStatus::Paused,
                    ..old(dm).active@[k]
                }),
            forall|k: int|
                0 <= k < old(dm).active@.len() && (#[trigger] dm.active@[k]) != old(
                    dm,
                ).active@[k] ==> exists|j: int|
                    0 <= j < n && (#[trigger] old(db).downloads@[j]).id@ == old(
                        dm,
                    ).active@[k].id@ && old(db).downloads@[j].status == JobStatus::Downloading,
        decreases n - i,
    {
        let ghost at_top = db.downloads@;
        let ghost dm_top = dm.active@;
        let mut touched = false;
        if db.downloads[i].status == JobStatus::Downloading {
            let id = db.downloads[i].id.clone();
            if dm.pause(id.as_str()) {
                proof {
                    crate::store::lemma_dl_idx(db.downloads@, id@, 0, i as int);
                    assert forall|k: int| 0 <= k < i implies (#[trigger] db.downloads@[k]).id@
                        != id@ by {
                        assert(old(db).downloads@[k].id@ != old(db).downloads@[i as int].id@);
                    }
                    let i0 = crate::manager::run_idx(dm_top, id@, 0).unwrap();
                    crate::manager::lemma_run_idx_first(dm_top, id@, i0);
                    assert(dm.active@ == dm_top.update(
                        i0,
                        crate::manager::ActiveDownload { status: JobStatus::Paused, ..dm_top[i0] },
                    ));
                    assert forall|k: int|
                        0 <= k < old(dm).active@.len() && (#[trigger] dm.active@[k]) != old(
                            dm,
                        ).active@[k] implies exists|j: int|
                        0 <= j < n && (#[trigger] old(db).downloads@[j]).id@ == old(
                            dm,
                        ).active@[k].id@ && old(db).downloads@[j].status == JobStatus::Downloading
                        by {
                        if k != i0 {
                            assert(dm.active@[k] == dm_top[k]);
                        } else if dm_top[i0] != old(dm).active@[i0] {
                        } else {
                            assert(old(db).downloads@[i as int].id@ == old(dm).active@[k].id@
                                && old(db).downloads@[i as int].status == JobStatus::Downloading);
                        }
                    }
                }
                let _ = db.update_download_status(id.as_str(), JobStatus::Paused);
                count += 1;
                touched = true;
            }
        }
        proof {
            assert(db.downloads@.take(i as int) =~= at_top.take(i as int));
            assert(count_changed(old(db).downloads@.take(i as int), db.downloads@.take(i as int))
                == count_changed(old(db).downloads@.take(i as int), at_top.take(i as int)));
            assert(old(db).downloads@.take(i + 1).drop_last() =~= old(db).downloads@.take(i as int));
            assert(db.downloads@.take(i + 1).drop_last() =~= db.downloads@.take(i as int));
            assert(old(db).downloads@.take(i + 1).last() == old(db).downloads@[i as int]);
            assert(db.downloads@.take(i + 1).last() == db.downloads@[i as int]);
            if touched {
                assert(db.downloads@[i as int].status == JobStatus::Paused);
                assert(db.downloads@[i as int] != old(db).downloads@[i as int]);
            } else {
                assert(db.downloads@[i as int] == old(db).downloads@[i as int]);
            }
        }
        i += 1;
    }
    proof {
        assert(old(db).downloads@.take(n as int) =~= old(db).downloads@);
        assert(db.downloads@.take(n as int) =~= db.downloads@);
    }
    count
}

/// Resumes every paused job that has a paused run: marks the run
/// downloading again and persists the downloading status. Returns how many
/// jobs were affected.
pub fn resume_all_downloads(db: &mut Database, dm: &mut DownloadManager) -> (r: u32)
    requires
        old(db).wf(),
        old(dm).wf(),
        old(db).downloads@.len() < 0x1_0000_0000,
    ensures
        final(db).wf(),
        final(dm).wf(),
        crate::store::eq_except_downloads(*old(db), *final(db)),
        final(db).downloads@.len() == old(db).downloads@.len(),
        r == count_changed(old(db).downloads@, final(db).downloads@),
        forall|i: int|
            0 <= i < final(db).downloads@.len() ==> ((#[trigger] final(db).downloads@[i]).status
                == JobStatus::Downloading || final(db).downloads@[i] == old(db).downloads@[i]),
        forall|i: int|
            0 <= i < final(db).downloads@.len() && old(db).downloads@[i].status != JobStatus::Paused
                ==> #[trigger] final(db).downloads@[i] == old(db).downloads@[i],
        final(dm).active@.len() == old(dm).active@.len(),
        forall|k: int|
            0 <= k < old(dm).active@.len() ==> ((#[trigger] final(dm).active@[k]) == old(
                dm,
            ).active@[k] || final(dm).active@[k] == crate::manager::ActiveDownload {
                status: JobStatus::Downloading,
                ..old(dm).active@[k]
            }),
        forall|k: int|
            0 <= k < old(dm).active@.len() && (#[trigger] final(dm).active@[k]) != old(
                dm,
            ).active@[k] ==> exists|j: int|
                0 <= j < old(db).downloads@.len() && (#[trigger] old(db).downloads@[j]).id@ == old(
                    dm,
                ).active@[k].id@ && old(db).downloads@[j].status == JobStatus::Paused,
{
    let n = db.downloads.len();
    let mut count: u32 = 0;
    let mut i: usize = 0;
    while i < n
        invariant
            n == db.downloads@.len(),
            n == old(db).downloads@.len(),
            n < 0x1_0000_0000,
            i <= n,
            db.wf(),
            dm.wf(),
            crate::store::eq_except_downloads(*old(db), *db),
            count <= i,
            count == count_changed(old(db).downloads@.take(i as int), db.downloads@.take(i as int)),
            forall|k: int|
                0 <= k < n ==> (#[trigger] db.downloads@[k]).id@ == old(db).downloads@[k].id@,
            forall|k: int|
                0 <= k < i ==> ((#[trigger] db.downloads@[k]).status == JobStatus::Downloading
                    || db.downloads@[k] == old(db).downloads@[k]),
            forall|k: int|
                0 <= k < i && old(db).downloads@[k].status != JobStatus::Paused ==> (
                #[trigger] db.downloads@[k]) == old(db).downloads@[k],
            forall|k: int| i <= k < n ==> #[trigger] db.downloads@[k] == old(db).downloads@[k],
            dm.active@.len() == old(dm).active@.len(),
            forall|k: int|
                0 <= k < old(dm).active@.len() ==> ((#[trigger] dm.active@[k]) == old(
                    dm,
                ).active@[k] || dm.active@[k] == crate::manager::ActiveDownload {
                    status: JobStatus::Downloading,
                    ..old(dm).active@[k]
                }),
            forall|k: int|
                0 <= k < old(dm).active@.len() && (#[trigger] dm.active@[k]) != old(
                    dm,
                ).active@[k] ==> exists|j: int|
                    0 <= j < n && (#[trigger] old(db).downloads@[j]).id@ == old(
                        dm,
                    ).active@[k].id@ && old(db).downloads@[j].status == JobStatus::Paused,
        decreases n - i,
    {
        let ghost at_top = db.downloads@;
        let ghost dm_top = dm.active@;
        let mut touched = false;
        if db.downloads[i].status == JobStatus::Paused {
            let id = db.downloads[i].id.clone();
            if dm.resume(id.as_str()) {
                proof {
                    crate::store::lemma_dl_idx(db.downloads@, id@, 0, i as int);
                    assert forall|k: int| 0 <= k < i implies (#[trigger] db.downloads@[k]).id@
                        != id@ by {
                        assert(old(db).downloads@[k].id@ != old(db).downloads@[i as int].id@);
                    }
                    let i0 = crate::manager::run_idx(dm_top, id@, 0).unwrap();
                    crate::manager::lemma_run_idx_first(dm_top, id@, i0);
                    assert(dm.active@ == dm_top.update(
                        i0,
                        crate::manager::ActiveDownload {
                            status: JobStatus::Downloading,
                            ..dm_top[i0]
                        },
                    ));
                    assert forall|k: int|
                        0 <= k < old(dm).active@.len() && (#[trigger] dm.active@[k]) != old(
                            dm,
                        ).active@[k] implies exists|j: int|
                        0 <= j < n && (#[trigger] old(db).downloads@[j]).id@ == old(
                            dm,
                        ).active@[k].id@ && old(db).downloads@[j].status == JobStatus::Paused by {
                        if k != i0 {
                            assert(dm.active@[k] == dm_top[k]);
                        } else if dm_top[i0] != old(dm).active@[i0] {
                        } else {
                            assert(old(db).downloads@[i as int].id@ == old(dm).active@[k].id@
                                && old(db).downloads@[i as int].status == JobStatus::Paused);
                        }
                    }
                }
                let _ = db.update_download_status(id.as_str(), JobStatus::Downloading);
                count += 1;
                touched = true;
            }
        }
        proof {
            assert(db.downloads@.take(i as int) =~= at_top.take(i as int));
            assert(count_changed(old(db).downloads@.take(i as int), db.downloads@.take(i as int))
                == count_changed(old(db).downloads@.take(i as int), at_top.take(i as int)));
            assert(old(db).downloads@.take(i + 1).drop_last() =~= old(db).downloads@.take(i as int));
            assert(db.downloads@.take(i + 1).drop_last() =~= db.downloads@.take(i as int));
            assert(old(db).downloads@.take(i + 1).last() == old(db).downloads@[i as int]);
            assert(db.downloads@.take(i + 1).last() == db.downloads@[i as int]);
            if touched {
                assert(db.downloads@[i as int].status == JobStatus::Downloading);
                assert(db.downloads@[i as int] != old(db).downloads@[i as int]);
            } else {
                assert(db.downloads@[i as int] == old(db).downloads@[i as int]);
            }
        }
        i += 1;
    }
    proof {
        assert(old(db).downloads@.take(n as int) =~= old(db).downloads@);
        assert(db.downloads@.take(n as int) =~= db.downloads@);
    }
    count
}

/// What deleting a job must do, in order: when file removal is requested
/// and a produced file is recorded, that path is deleted first — only once
/// the file is gone (or was already missing) may the record be removed, so
/// no record ever references a deleted file.
pub enum DeletePlan {
    RemoveFileThenRecord { path: String },
    RemoveRecordOnly,
}

/// Plans the deletion of a job. The record itself is removed by the caller
/// only after the planned file removal succeeded or found nothing.
pub fn delete_download_plan(db: &Database, id: &str, delete_file: bool) -> (r: AppResult<
    DeletePlan,
>)
    ensures
        match r {
            Ok(p) => (match dl_idx(db.downloads@, id@, 0) {
                Some(i) => (match p {
                    DeletePlan::RemoveFileThenRecord { path } => delete_file
                        && db.downloads@[i].file_path@.len() > 0 && path@
                        == db.downloads@[i].file_path@,
                    DeletePlan::RemoveRecordOnly => !delete_file || db.downloads@[
                        i
                    ].file_path@.len() == 0,
                }),
                None => false,
            }),
            Err(e) => dl_idx(db.downloads@, id@, 0) is None && e is NotFound,
        },
{
    match db.find_download(id) {
        Some(i) => {
            if delete_file && db.downloads[i].file_path.as_str().unicode_len() > 0 {
                Ok(DeletePlan::RemoveFileThenRecord { path: db.downloads[i].file_path.clone() })
            } else {
                Ok(DeletePlan::RemoveRecordOnly)
            }
        },
        None => {
            proof {
                reveal_strlit("no download with this id");
            }
            Err(AppError::NotFound(String::from_str("no download with this id")))
        },
    }
}

/// A freshly planned queued job: the given source, identity and variant,
/// queued under the playlist source tag.
pub open spec fn planned_rec_ok(
    rec: DownloadRecord,
    url: Seq<char>,
    idv: Seq<char>,
    fmt: Seq<char>,
) -> bool {
    &&& rec.url@ == url
    &&& rec.id@ == idv
    &&& rec.status == JobStatus::Queued
    &&& rec.source@ == "playlist"@
    &&& rec.format_id@ == fmt
}

/// The source URLs of the entries a playlist plan accepts, scanning the
/// first `i` entries: inside the selected range, not duplicating a job of
/// the table under the same (source URL, variant) key, and not duplicating
/// an earlier accepted entry of the same pass.
pub open spec fn planned_urls(
    db0: Seq<DownloadRecord>,
    entries: Seq<crate::stream::PlaylistEntry>,
    lo: int,
    hi: int,
    fmt: Seq<char>,
    i: int,
) -> Seq<Seq<char>>
    decreases i,
{
    if i <= 0 {
        Seq::empty()
    } else {
        let prev = planned_urls(db0, entries, lo, hi, fmt, i - 1);
        let e = entries[i - 1];
        if lo <= e.index && e.index <= hi && !duplicate_key_exists(db0, e.url@, fmt)
            && !prev.contains(e.url@) {
            prev.push(e.url@)
        } else {
            prev
        }
    }
}

/// Plans a playlist download: every entry inside the selected range whose
/// (source URL, variant) key is not already queued, downloading or
/// completed — and not taken by an earlier entry of the same pass — is
/// inserted as a queued job under a fresh identifier, in entry order, to
/// be launched one by one. The selection is decided and the fresh
/// identifiers are checked before anything is inserted, so a store
/// failure (a random-identifier collision, nothing else) leaves the table
/// untouched.
pub fn plan_playlist_downloads(
    db: &mut Database,
    entries: &Vec<crate::stream::PlaylistEntry>,
    start_index: usize,
    end_index: usize,
    format_id: &str,
) -> (r: AppResult<Vec<String>>)
    requires
        old(db).wf(),
    ensures
        final(db).wf(),
        crate::store::eq_except_downloads(*old(db), *final(db)),
        r matches Err(e) && e is Validation <==> start_index > end_index || start_index < 1,
        r is Err ==> final(db).downloads@ == old(db).downloads@,
        r matches Ok(ids) ==> ({
            let planned = planned_urls(
                old(db).downloads@,
                entries@,
                start_index as int,
                end_index as int,
                format_id@,
                entries@.len() as int,
            );
            &&& ids@.len() == planned.len()
            &&& final(db).downloads@.len() == old(db).downloads@.len() + ids@.len()
            &&& forall|k: int|
                0 <= k < old(db).downloads@.len() ==> final(db).downloads@[k] == old(db).downloads@[k]
            &&& forall|k: int|
                0 <= k < ids@.len() ==> planned_rec_ok(
                    #[trigger] final(db).downloads@[old(db).downloads@.len() + k],
                    planned[k],
                    ids@[k]@,
                    format_id@,
                )
        }),
{
    if start_index > end_index || start_index < 1 {
        proof {
            reveal_strlit("the playlist range is invalid");
        }
        return Err(AppError::Validation(String::from_str("the playlist range is invalid")));
    }
    let n = entries.len();
    let ghost base = db.downloads@;
    let ghost lo = start_index as int;
    let ghost hi = end_index as int;

    // first pass: decide which entries the plan accepts, changing nothing
    let mut sel: Vec<usize> = Vec::new();
    let mut sel_urls: Vec<String> = Vec::new();
    let mut i: usize = 0;
    while i < n
        invariant
            n == entries@.len(),
            i <= n,
            db.wf(),
            base == db.downloads@,
            base == old(db).downloads@,
            lo == start_index as int,
            hi == end_index as int,
            sel@.len() == sel_urls@.len(),
            forall|k: int| 0 <= k < sel@.len() ==> #[trigger] sel@[k] < n,
            forall|k: int|
                0 <= k < sel_urls@.len() ==> (#[trigger] sel_urls@[k])@ == planned_urls(
                    base,
                    entries@,
                    lo,
                    hi,
                    format_id@,
                    i as int,
                )[k],
            forall|k: int|
                0 <= k < sel@.len() ==> (#[trigger] entries@[sel@[k] as int]).url@
                    == sel_urls@[k]@,
            sel_urls@.map_values(|u: String| u@) == planned_urls(
                base,
                entries@,
                lo,
                hi,
                format_id@,
                i as int,
            ),
        decreases n - i,
    {
        let entry = &entries[i];
        let in_range = entry.index >= start_index && entry.index <= end_index;
        if in_range && !find_duplicate_key(db, entry.url.as_str(), format_id) {
            // the same source may not be taken twice within one pass
            let m = sel_urls.len();
            let mut taken = false;
            let mut k: usize = 0;
            while k < m
                invariant
                    m == sel_urls@.len(),
                    k <= m,
                    taken ==> exists|j: int|
                        0 <= j < m && (#[trigger] sel_urls@[j])@ == entry.url@,
                    !taken ==> forall|j: int|
                        0 <= j < k ==> (#[trigger] sel_urls@[j])@ != entry.url@,
                    entry == entries@[i as int],
                    i < n == entries@.len(),
                decreases m - k,
            {
                if crate::text::str_eq(sel_urls[k].as_str(), entry.url.as_str()) {
                    taken = true;
                }
                k += 1;
            }
            proof {
                let prev = planned_urls(base, entries@, lo, hi, format_id@, i as int);
                if taken {
                    let j = choose|j: int|
                        0 <= j < m && (#[trigger] sel_urls@[j])@ == entry.url@;
                    assert(prev[j] == entry.url@);
                    assert(prev.contains(entry.url@));
                } else {
                    assert forall|j: int| 0 <= j < prev.len() implies prev[j] != entry.url@ by {
                        assert(sel_urls@[j]@ == prev[j]);
                    }
                    assert(!prev.contains(entry.url@));
                }
            }
            if !taken {
                sel.push(i);
                sel_urls.push(entry.url.clone());
            }
        }
        proof {
            assert(sel_urls@.map_values(|u: String| u@) =~= planned_urls(
                base,
                entries@,
                lo,
                hi,
                format_id@,
                i + 1,
            ));
        }
        i += 1;
    }

    // second pass: draw fresh identifiers and refuse the plan on any
    // collision before anything is inserted
    let count = sel.len();
    let mut ids: Vec<String> = Vec::new();
    let mut k: usize = 0;
    while k < count
        invariant
            count == sel@.len(),
            k <= count,
            db.wf(),
            base == db.downloads@,
            base == old(db).downloads@,
            crate::store::eq_except_downloads(*old(db), *db),
            start_index <= end_index,
            start_index >= 1,
            ids@.len() == k,
            forall|k2: int, j: int|
                0 <= k2 < ids@.len() && 0 <= j < base.len() ==> (#[trigger] base[j]).id@ != (
                #[trigger] ids@[k2])@,
            forall|a: int, b: int|
                0 <= a < b < ids@.len() ==> (#[trigger] ids@[a])@ != (#[trigger] ids@[b])@,
        decreases count - k,
    {
        let id = fresh_job_id();
        if db.find_download(id.as_str()).is_some() {
            proof {
                reveal_strlit("a fresh identifier is already in use");
            }
            return Err(AppError::Store(String::from_str("a fresh identifier is already in use")));
        }
        let mut dup = false;
        let mut j: usize = 0;
        while j < k
            invariant
                k == ids@.len(),
                j <= k,
                !dup ==> forall|j2: int| 0 <= j2 < j ==> (#[trigger] ids@[j2])@ != id@,
            decreases k - j,
        {
            if crate::text::str_eq(ids[j].as_str(), id.as_str()) {
                dup = true;
            }
            j += 1;
        }
        if dup {
            proof {
                reveal_strlit("a fresh identifier is already in use");
            }
            return Err(AppError::Store(String::from_str("a fresh identifier is already in use")));
        }
        ids.push(id);
        k += 1;
    }

    // third pass: insert the accepted entries as queued jobs, in order
    let mut k: usize = 0;
    while k < count
        invariant
            count == sel@.len(),
            count == ids@.len(),
            count == sel_urls@.len(),
            k <= count,
            n == entries@.len(),
            db.wf(),
            crate::store::eq_except_downloads(*old(db), *db),
            base == old(db).downloads@,
            lo == start_index as int,
            hi == end_index as int,
            db.downloads@.len() == base.len() + k,
            forall|k2: int| 0 <= k2 < sel@.len() ==> #[trigger] sel@[k2] < n,
            forall|k2: int|
                0 <= k2 < sel@.len() ==> (#[trigger] entries@[sel@[k2] as int]).url@
                    == sel_urls@[k2]@,
            sel_urls@.map_values(|u: String| u@) == planned_urls(
                base,
                entries@,
                lo,
                hi,
                format_id@,
                n as int,
            ),
            forall|k2: int, j: int|
                0 <= k2 < ids@.len() && 0 <= j < base.len() ==> (#[trigger] base[j]).id@ != (
                #[trigger] ids@[k2])@,
            forall|a: int, b: int|
                0 <= a < b < ids@.len() ==> (#[trigger] ids@[a])@ != (#[trigger] ids@[b])@,
            forall|k2: int| 0 <= k2 < base.len() ==> #[trigger] db.downloads@[k2] == base[k2],
            forall|k2: int|
                0 <= k2 < k ==> planned_rec_ok(
                    #[trigger] db.downloads@[base.len() + k2],
                    sel_urls@[k2]@,
                    ids@[k2]@,
                    format_id@,
                ),
        decreases count - k,
    {
        let entry = &entries[sel[k]];
        let id = &ids[k];
        let thumb = match entry.thumbnail {
            Some(ref t) => t.clone(),
            None => String::new(),
        };
        proof {
            assert forall|j: int| 0 <= j < db.downloads@.len() implies (
            #[trigger] db.downloads@[j]).id@ != id@ by {
                if j < base.len() {
                    assert(db.downloads@[j] == base[j]);
                } else {
                    let k2 = j - base.len();
                    assert(planned_rec_ok(
                        db.downloads@[base.len() + k2],
                        sel_urls@[k2]@,
                        ids@[k2]@,
                        format_id@,
                    ));
                    assert(db.downloads@[j].id@ == ids@[k2]@);
                    assert(ids@[k2]@ != ids@[k as int]@);
                }
            }
            crate::store::lemma_dl_idx(db.downloads@, id@, 0, db.downloads@.len() as int);
        }
        let ghost s0 = db.downloads@;
        let ins = db.insert_download_with_source(
            id.as_str(),
            entry.url.as_str(),
            entry.title.as_str(),
            thumb.as_str(),
            "playlist",
        );
        proof {
            assert(ins is Ok);
            assert forall|j: int| 0 <= j < db.downloads@.len() - 1 implies (
            #[trigger] db.downloads@[j]).id@ != id@ by {
                assert(db.downloads@[j] == s0[j]);
            }
            crate::store::lemma_dl_idx(db.downloads@, id@, 0, db.downloads@.len() - 1);
        }
        let ghost s1 = db.downloads@;
        let _ = db.set_download_format(id.as_str(), format_id);
        proof {
            assert forall|j: int| 0 <= j < db.downloads@.len() - 1 implies (
            #[trigger] db.downloads@[j]).id@ != id@ by {
                assert(db.downloads@[j] == s1[j]);
            }
            crate::store::lemma_dl_idx(db.downloads@, id@, 0, db.downloads@.len() - 1);
        }
        let ghost s2 = db.downloads@;
        let _ = db.update_download_status(id.as_str(), JobStatus::Queued);
        proof {
            let last = base.len() + k as int;
            assert forall|k2: int| 0 <= k2 < base.len() implies #[trigger] db.downloads@[k2]
                == base[k2] by {
                assert(s1[k2] == s0[k2]);
                assert(s2[k2] == s1[k2]);
                assert(db.downloads@[k2] == s2[k2]);
            }
            assert(db.downloads@[last].url@ == sel_urls@[k as int]@);
            assert(db.downloads@[last].id@ == ids@[k as int]@);
            assert(db.downloads@[last].status == JobStatus::Queued);
            assert(db.downloads@[last].source@ == "playlist"@);
            assert(db.downloads@[last].format_id@ == format_id@);
            assert forall|k2: int| 0 <= k2 < k + 1 implies planned_rec_ok(
                #[trigger] db.downloads@[base.len() + k2],
                sel_urls@[k2]@,
                ids@[k2]@,
                format_id@,
            ) by {
                if k2 < k {
                    assert(s1[base.len() + k2] == s0[base.len() + k2]);
                    assert(s2[base.len() + k2] == s1[base.len() + k2]);
                    assert(db.downloads@[base.len() + k2] == s2[base.len() + k2]);
                    assert(planned_rec_ok(
                        s0[base.len() + k2],
                        sel_urls@[k2]@,
                        ids@[k2]@,
                        format_id@,
                    ));
                }
            }
        }
        k += 1;
    }
    proof {
        assert forall|k2: int| 0 <= k2 < ids@.len() implies (#[trigger] sel_urls@[k2])@
            == planned_urls(base, entries@, lo, hi, format_id@, n as int)[k2] by {
            assert(sel_urls@.map_values(|u: String| u@)[k2] == sel_urls@[k2]@);
        }
    }
    Ok(ids)
}

} // verus!
