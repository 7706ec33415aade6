//! The persistent store's record model: tables of download jobs, feeds,
//! feed items, transcripts, playlists and settings, keyed by identifier,
//! with the exact effect of every operation stated.
use vstd::prelude::*;
use vstd::string::*;

use crate::error::AppResult;
use crate::feed::{copy_item, item_views, ItemView, RssItem};
use crate::text::str_eq;

verus! {

/// The lifecycle status of a download job. A job moves strictly forward
/// except for explicit resume (paused to downloading) and retry (error or
/// cancelled to downloading via a new run).
#[derive(Clone, Copy, Debug, PartialEq, Eq, Structural)]
pub enum JobStatus {
    Pending,
    Queued,
    Downloading,
    Paused,
    Completed,
    Cancelled,
    Error,
}

/// One persisted download job.
pub struct DownloadRecord {
    pub id: String,
    pub url: String,
    pub title: String,
    pub thumbnail: String,
    pub status: JobStatus,
    pub progress_permille: u32,
    pub speed: String,
    pub eta: String,
    pub file_path: String,
    pub file_size: u64,
    pub format_id: String,
    pub format_label: String,
    pub error: String,
    pub priority: i32,
    pub source: String,
}

/// One subscribed feed.
pub struct FeedRecord {
    pub id: String,
    pub url: String,
    pub title: String,
    pub channel_name: String,
    pub thumbnail: String,
    pub auto_download: bool,
    pub keywords: String,
    pub last_checked: String,
}

/// One stored feed item, attached to its feed.
pub struct FeedItemRecord {
    pub feed_id: String,
    pub item: RssItem,
}

/// One transcription job's persisted state.
pub struct TranscriptRecord {
    pub id: String,
    pub source: String,
    pub title: String,
    pub language: String,
    pub text: String,
    pub status: JobStatus,
    pub progress_permille: u32,
    pub error: String,
}

/// One tracked playlist.
pub struct PlaylistRecord {
    pub id: String,
    pub url: String,
    pub title: String,
    pub thumbnail: String,
    pub total_videos: u32,
    pub downloaded_videos: u32,
    pub status: JobStatus,
    pub naming_template: String,
    pub auto_sync: bool,
    pub last_sync: String,
}

/// One key/value setting.
pub struct SettingRecord {
    pub key: String,
    pub value: String,
}

/// The first index whose download record carries the given identifier.
pub open spec fn dl_idx(s: Seq<DownloadRecord>, id: Seq<char>, i: int) -> Option<int>
    decreases s.len() - i,
{
    if i < 0 || i >= s.len() {
        None
    } else if s[i].id@ == id {
        Some(i)
    } else {
        dl_idx(s, id, i + 1)
    }
}

pub proof fn lemma_dl_idx(s: Seq<DownloadRecord>, id: Seq<char>, i: int, b: int)
    requires
        0 <= i <= b <= s.len(),
        forall|k: int| i <= k < b ==> s[k].id@ != id,
        b < s.len() ==> s[b].id@ == id,
    ensures
        dl_idx(s, id, i) == if b < s.len() {
            Some(b)
        } else {
            None::<int>
        },
    decreases b - i,
{
    if i < b {
        lemma_dl_idx(s, id, i + 1, b);
    }
}

/// The first index whose feed record carries the given identifier.
pub open spec fn feed_idx(s: Seq<FeedRecord>, id: Seq<char>, i: int) -> Option<int>
    decreases s.len() - i,
{
    if i < 0 || i >= s.len() {
        None
    } else if s[i].id@ == id {
        Some(i)
    } else {
        feed_idx(s, id, i + 1)
    }
}

pub proof fn lemma_feed_idx(s: Seq<FeedRecord>, id: Seq<char>, i: int, b: int)
    requires
        0 <= i <= b <= s.len(),
        forall|k: int| i <= k < b ==> s[k].id@ != id,
        b < s.len() ==> s[b].id@ == id,
    ensures
        feed_idx(s, id, i) == if b < s.len() {
            Some(b)
        } else {
            None::<int>
        },
    decreases b - i,
{
    if i < b {
        lemma_feed_idx(s, id, i + 1, b);
    }
}

/// The first index whose stored item carries the given item identifier.
pub open spec fn fi_idx(s: Seq<FeedItemRecord>, id: Seq<char>, i: int) -> Option<int>
    decreases s.len() - i,
{
    if i < 0 || i >= s.len() {
        None
    } else if s[i].item.id@ == id {
        Some(i)
    } else {
        fi_idx(s, id, i + 1)
    }
}

pub proof fn lemma_fi_idx(s: Seq<FeedItemRecord>, id: Seq<char>, i: int, b: int)
    requires
        0 <= i <= b <= s.len(),
        forall|k: int| i <= k < b ==> s[k].item.id@ != id,
        b < s.len() ==> s[b].item.id@ == id,
    ensures
        fi_idx(s, id, i) == if b < s.len() {
            Some(b)
        } else {
            None::<int>
        },
    decreases b - i,
{
    if i < b {
        lemma_fi_idx(s, id, i + 1, b);
    }
}

/// The first index whose transcript carries the given identifier.
pub open spec fn tr_idx(s: Seq<TranscriptRecord>, id: Seq<char>, i: int) -> Option<int>
    decreases s.len() - i,
{
    if i < 0 || i >= s.len() {
        None
    } else if s[i].id@ == id {
        Some(i)
    } else {
        tr_idx(s, id, i + 1)
    }
}

pub proof fn lemma_tr_idx(s: Seq<TranscriptRecord>, id: Seq<char>, i: int, b: int)
    requires
        0 <= i <= b <= s.len(),
        forall|k: int| i <= k < b ==> s[k].id@ != id,
        b < s.len() ==> s[b].id@ == id,
    ensures
        tr_idx(s, id, i) == if b < s.len() {
            Some(b)
        } else {
            None::<int>
        },
    decreases b - i,
{
    if i < b {
        lemma_tr_idx(s, id, i + 1, b);
    }
}

/// The first index whose playlist carries the given identifier.
pub open spec fn pl_idx(s: Seq<PlaylistRecord>, id: Seq<char>, i: int) -> Option<int>
    decreases s.len() - i,
{
    if i < 0 || i >= s.len() {
        None
    } else if s[i].id@ == id {
        Some(i)
    } else {
        pl_idx(s, id, i + 1)
    }
}

pub proof fn lemma_pl_idx(s: Seq<PlaylistRecord>, id: Seq<char>, i: int, b: int)
    requires
        0 <= i <= b <= s.len(),
        forall|k: int| i <= k < b ==> s[k].id@ != id,
        b < s.len() ==> s[b].id@ == id,
    ensures
        pl_idx(s, id, i) == if b < s.len() {
            Some(b)
        } else {
            None::<int>
        },
    decreases b - i,
{
    if i < b {
        lemma_pl_idx(s, id, i + 1, b);
    }
}

/// The first index whose setting carries the given key.
pub open spec fn set_idx(s: Seq<SettingRecord>, key: Seq<char>, i: int) -> Option<int>
    decreases s.len() - i,
{
    if i < 0 || i >= s.len() {
        None
    } else if s[i].key@ == key {
        Some(i)
    } else {
        set_idx(s, key, i + 1)
    }
}

pub proof fn lemma_set_idx(s: Seq<SettingRecord>, key: Seq<char>, i: int, b: int)
    requires
        0 <= i <= b <= s.len(),
        forall|k: int| i <= k < b ==> s[k].key@ != key,
        b < s.len() ==> s[b].key@ == key,
    ensures
        set_idx(s, key, i) == if b < s.len() {
            Some(b)
        } else {
            None::<int>
        },
    decreases b - i,
{
    if i < b {
        lemma_set_idx(s, key, i + 1, b);
    }
}

/// The in-memory store: every table keyed by a unique identifier.
pub struct Database {
    pub downloads: Vec<DownloadRecord>,
    pub feeds: Vec<FeedRecord>,
    pub feed_items: Vec<FeedItemRecord>,
    pub transcripts: Vec<TranscriptRecord>,
    pub playlists: Vec<PlaylistRecord>,
    pub settings: Vec<SettingRecord>,
}

impl Database {
    /// Identifiers are unique within every table, and so are feed URLs and
    /// setting keys.
    pub open spec fn wf(&self) -> bool {
        &&& forall|i: int, j: int|
            0 <= i < j < self.downloads@.len() ==> (#[trigger] self.downloads@[i]).id@ != (
            #[trigger] self.downloads@[j]).id@
        &&& forall|i: int, j: int|
            0 <= i < j < self.feeds@.len() ==> (#[trigger] self.feeds@[i]).id@ != (
            #[trigger] self.feeds@[j]).id@
        &&& forall|i: int, j: int|
            0 <= i < j < self.feed_items@.len() ==> (#[trigger] self.feed_items@[i]).item.id@ != (
            #[trigger] self.feed_items@[j]).item.id@
        &&& forall|i: int, j: int|
            0 <= i < j < self.transcripts@.len() ==> (#[trigger] self.transcripts@[i]).id@ != (
            #[trigger] self.transcripts@[j]).id@
        &&& forall|i: int, j: int|
            0 <= i < j < self.playlists@.len() ==> (#[trigger] self.playlists@[i]).id@ != (
            #[trigger] self.playlists@[j]).id@
        &&& forall|i: int, j: int|
            0 <= i < j < self.settings@.len() ==> (#[trigger] self.settings@[i]).key@ != (
            #[trigger] self.settings@[j]).key@
    }

    /// An empty store.
    pub fn new() -> (r: Database)
        ensures
            r.wf(),
            r.downloads@.len() == 0,
            r.feeds@.len() == 0,
            r.feed_items@.len() == 0,
            r.transcripts@.len() == 0,
            r.playlists@.len() == 0,
            r.settings@.len() == 0,
    {
        Database {
            downloads: Vec::new(),
            feeds: Vec::new(),
            feed_items: Vec::new(),
            transcripts: Vec::new(),
            playlists: Vec::new(),
            settings: Vec::new(),
        }
    }

    /// The position of the download record with the given identifier.
    pub fn find_download(&self, id: &str) -> (r: Option<usize>)
        ensures
            match r {
                Some(i) => dl_idx(self.downloads@, id@, 0) == Some(i as int) && i
                    < self.downloads@.len() && self.downloads@[i as int].id@ == id@,
                None => dl_idx(self.downloads@, id@, 0) is None && forall|k: int|
                    0 <= k < self.downloads@.len() ==> (#[trigger] self.downloads@[k]).id@ != id@,
            },
    {
        let n = self.downloads.len();
        let mut i: usize = 0;
        while i < n
            invariant
                n == self.downloads@.len(),
                i <= n,
                forall|k: int| 0 <= k < i ==> (#[trigger] self.downloads@[k]).id@ != id@,
            decreases n - i,
        {
            if str_eq(self.downloads[i].id.as_str(), id) {
                proof {
                    lemma_dl_idx(self.downloads@, id@, 0, i as int);
                }
                return Some(i);
            }
            i += 1;
        }
        proof {
            lemma_dl_idx(self.downloads@, id@, 0, n as int);
        }
        None
    }
}

/// Everything but the download table is the same in both stores.
pub open spec fn eq_except_downloads(a: Database, b: Database) -> bool {
    &&& a.feeds@ == b.feeds@
    &&& a.feed_items@ == b.feed_items@
    &&& a.transcripts@ == b.transcripts@
    &&& a.playlists@ == b.playlists@
    &&& a.settings@ == b.settings@
}

/// Everything but the settings table is the same in both stores.
pub open spec fn eq_except_settings(a: Database, b: Database) -> bool {
    &&& a.downloads@ == b.downloads@
    &&& a.feeds@ == b.feeds@
    &&& a.feed_items@ == b.feed_items@
    &&& a.transcripts@ == b.transcripts@
    &&& a.playlists@ == b.playlists@
}

impl Database {
    /// Inserts a new download job; a duplicate identifier is refused and
    /// leaves the store unchanged.
    pub fn insert_download_with_source(
        &mut self,
        id: &str,
        url: &str,
        title: &str,
        thumbnail: &str,
        source: &str,
    ) -> (r: AppResult<()>)
        requires
            old(self).wf(),
        ensures
            final(self).wf(),
            eq_except_downloads(*old(self), *final(self)),
            match r {
                Ok(()) => {
                    &&& dl_idx(old(self).downloads@, id@, 0) is None
                    &&& final(self).downloads@.len() == old(self).downloads@.len() + 1
                    &&& final(self).downloads@.drop_last() == old(self).downloads@
                    &&& ({
                        let n = final(self).downloads@.last();
                        &&& n.id@ == id@
                        &&& n.url@ == url@
                        &&& n.title@ == title@
                        &&& n.thumbnail@ == thumbnail@
                        &&& n.status == JobStatus::Pending
                        &&& n.progress_permille == 0
                        &&& n.priority == 0
                        &&& n.file_path@.len() == 0
                        &&& n.error@.len() == 0
                        &&& n.source@ == source@
                    })
                },
                Err(e) => {
                    &&& dl_idx(old(self).downloads@, id@, 0) is Some
                    &&& final(self).downloads@ == old(self).downloads@
                    &&& e is Store
                },
            },
    {
        if self.find_download(id).is_some() {
            return Err(
                crate::error::AppError::Store(String::from_str("a download with this id exists")),
            );
        }
        let rec = DownloadRecord {
            id: String::from_str(id),
            url: String::from_str(url),
            title: String::from_str(title),
            thumbnail: String::from_str(thumbnail),
            status: JobStatus::Pending,
            progress_permille: 0,
            speed: String::new(),
            eta: String::new(),
            file_path: String::new(),
            file_size: 0,
            format_id: String::new(),
            format_label: String::new(),
            error: String::new(),
            priority: 0,
            source: String::from_str(source),
        };
        self.downloads.push(rec);
        proof {
            assert(final(self).downloads@.drop_last() =~= old(self).downloads@);
        }
        Ok(())
    }

    /// Inserts a new download job of the ordinary, single-video kind.
    pub fn insert_download(&mut self, id: &str, url: &str, title: &str, thumbnail: &str) -> (r:
        AppResult<()>)
        requires
            old(self).wf(),
        ensures
            final(self).wf(),
            eq_except_downloads(*old(self), *final(self)),
            match r {
                Ok(()) => {
                    &&& dl_idx(old(self).downloads@, id@, 0) is None
                    &&& final(self).downloads@.len() == old(self).downloads@.len() + 1
                    &&& final(self).downloads@.drop_last() == old(self).downloads@
                    &&& ({
                        let n = final(self).downloads@.last();
                        &&& n.id@ == id@
                        &&& n.url@ == url@
                        &&& n.title@ == title@
                        &&& n.thumbnail@ == thumbnail@
                        &&& n.status == JobStatus::Pending
                        &&& n.source@ == "single"@
                    })
                },
                Err(e) => {
                    &&& dl_idx(old(self).downloads@, id@, 0) is Some
                    &&& final(self).downloads@ == old(self).downloads@
                    &&& e is Store
                },
            },
    {
        self.insert_download_with_source(id, url, title, thumbnail, "single")
    }

    /// Sets the status of the identified job; an unknown identifier changes
    /// nothing, as a store-side update of no rows would.
    pub fn update_download_status(&mut self, id: &str, status: JobStatus) -> (r: AppResult<()>)
        requires
            old(self).wf(),
        ensures
            final(self).wf(),
            r is Ok,
            eq_except_downloads(*old(self), *final(self)),
            match dl_idx(old(self).downloads@, id@, 0) {
                Some(i) => final(self).downloads@ == old(self).downloads@.update(
                    i,
                    DownloadRecord { status, ..old(self).downloads@[i] },
                ),
                None => final(self).downloads@ == old(self).downloads@,
            },
    {
        match self.find_download(id) {
            Some(i) => {
                self.downloads[i].status = status;
                proof {
                    assert(final(self).downloads@ =~= old(self).downloads@.update(
                        i as int,
                        DownloadRecord { status, ..old(self).downloads@[i as int] },
                    ));
                }
                Ok(())
            },
            None => Ok(()),
        }
    }

    /// Records a progress event: the filled part in thousandths and the
    /// display strings for rate and time remaining.
    pub fn update_download_progress(
        &mut self,
        id: &str,
        permille: u32,
        speed: &str,
        eta: &str,
    ) -> (r: AppResult<()>)
        requires
            old(self).wf(),
        ensures
            final(self).wf(),
            r is Ok,
            eq_except_downloads(*old(self), *final(self)),
            match dl_idx(old(self).downloads@, id@, 0) {
                Some(i) => {
                    &&& final(self).downloads@.len() == old(self).downloads@.len()
                    &&& ({
                        let n = final(self).downloads@[i];
                        &&& n.progress_permille == permille
                        &&& n.speed@ == speed@
                        &&& n.eta@ == eta@
                        &&& n == DownloadRecord {
                            progress_permille: permille,
                            speed: n.speed,
                            eta: n.eta,
                            ..old(self).downloads@[i]
                        }
                    })
                    &&& forall|k: int|
                        0 <= k < old(self).downloads@.len() && k != i ==> final(self).downloads@[k]
                            == old(self).downloads@[k]
                },
                None => final(self).downloads@ == old(self).downloads@,
            },
    {
        match self.find_download(id) {
            Some(i) => {
                self.downloads[i].progress_permille = permille;
                self.downloads[i].speed = String::from_str(speed);
                self.downloads[i].eta = String::from_str(eta);
                Ok(())
            },
            None => Ok(()),
        }
    }

    /// Records successful completion: terminal status, full progress, and
    /// the produced file's path and size.
    pub fn update_download_complete(&mut self, id: &str, file_path: &str, file_size: u64) -> (r:
        AppResult<()>)
        requires
            old(self).wf(),
        ensures
            final(self).wf(),
            r is Ok,
            eq_except_downloads(*old(self), *final(self)),
            match dl_idx(old(self).downloads@, id@, 0) {
                Some(i) => {
                    &&& final(self).downloads@.len() == old(self).downloads@.len()
                    &&& ({
                        let n = final(self).downloads@[i];
                        &&& n.status == JobStatus::Completed
                        &&& n.progress_permille == 1000
                        &&& n.file_path@ == file_path@
                        &&& n.file_size == file_size
                        &&& n == DownloadRecord {
                            status: JobStatus::Completed,
                            progress_permille: 1000,
                            file_path: n.file_path,
                            file_size,
                            ..old(self).downloads@[i]
                        }
                    })
                    &&& forall|k: int|
                        0 <= k < old(self).downloads@.len() && k != i ==> final(self).downloads@[k]
                            == old(self).downloads@[k]
                },
                None => final(self).downloads@ == old(self).downloads@,
            },
    {
        match self.find_download(id) {
            Some(i) => {
                self.downloads[i].status = JobStatus::Completed;
                self.downloads[i].progress_permille = 1000;
                self.downloads[i].file_path = String::from_str(file_path);
                self.downloads[i].file_size = file_size;
                Ok(())
            },
            None => Ok(()),
        }
    }

    /// Records a terminal failure with its human-readable message.
    pub fn update_download_error(&mut self, id: &str, error: &str) -> (r: AppResult<()>)
        requires
            old(self).wf(),
        ensures
            final(self).wf(),
            r is Ok,
            eq_except_downloads(*old(self), *final(self)),
            match dl_idx(old(self).downloads@, id@, 0) {
                Some(i) => {
                    &&& final(self).downloads@.len() == old(self).downloads@.len()
                    &&& ({
                        let n = final(self).downloads@[i];
                        &&& n.status == JobStatus::Error
                        &&& n.error@ == error@
                        &&& n == DownloadRecord {
                            status: JobStatus::Error,
                            error: n.error,
                            ..old(self).downloads@[i]
                        }
                    })
                    &&& forall|k: int|
                        0 <= k < old(self).downloads@.len() && k != i ==> final(self).downloads@[k]
                            == old(self).downloads@[k]
                },
                None => final(self).downloads@ == old(self).downloads@,
            },
    {
        match self.find_download(id) {
            Some(i) => {
                self.downloads[i].status = JobStatus::Error;
                self.downloads[i].error = String::from_str(error);
                Ok(())
            },
            None => Ok(()),
        }
    }

    /// Records the variant (format selection) a job was submitted with.
    pub fn set_download_format(&mut self, id: &str, format_id: &str) -> (r: AppResult<()>)
        requires
            old(self).wf(),
        ensures
            final(self).wf(),
            r is Ok,
            eq_except_downloads(*old(self), *final(self)),
            match dl_idx(old(self).downloads@, id@, 0) {
                Some(i) => {
                    &&& final(self).downloads@.len() == old(self).downloads@.len()
                    &&& final(self).downloads@[i].format_id@ == format_id@
                    &&& final(self).downloads@[i] == DownloadRecord {
                        format_id: final(self).downloads@[i].format_id,
                        ..old(self).downloads@[i]
                    }
                    &&& forall|k: int|
                        0 <= k < old(self).downloads@.len() && k != i ==> final(self).downloads@[k]
                            == old(self).downloads@[k]
                },
                None => final(self).downloads@ == old(self).downloads@,
            },
    {
        match self.find_download(id) {
            Some(i) => {
                self.downloads[i].format_id = String::from_str(format_id);
                Ok(())
            },
            None => Ok(()),
        }
    }

    /// Records only the human-readable error detail, leaving the status and
    /// everything else untouched: what a run may add after a user-initiated
    /// cancel without overwriting the terminal status.
    pub fn update_download_error_detail(&mut self, id: &str, error: &str) -> (r: AppResult<()>)
        requires
            old(self).wf(),
        ensures
            final(self).wf(),
            r is Ok,
            eq_except_downloads(*old(self), *final(self)),
            match dl_idx(old(self).downloads@, id@, 0) {
                Some(i) => {
                    &&& final(self).downloads@.len() == old(self).downloads@.len()
                    &&& final(self).downloads@[i].error@ == error@
                    &&& final(self).downloads@[i].status == old(self).downloads@[i].status
                    &&& final(self).downloads@[i] == DownloadRecord {
                        error: final(self).downloads@[i].error,
                        ..old(self).downloads@[i]
                    }
                    &&& forall|k: int|
                        0 <= k < old(self).downloads@.len() && k != i ==> final(self).downloads@[k]
                            == old(self).downloads@[k]
                },
                None => final(self).downloads@ == old(self).downloads@,
            },
    {
        match self.find_download(id) {
            Some(i) => {
                self.downloads[i].error = String::from_str(error);
                Ok(())
            },
            None => Ok(()),
        }
    }

    /// Sets the sort-key priority of the identified job.
    pub fn update_download_priority(&mut self, id: &str, priority: i32) -> (r: AppResult<()>)
        requires
            old(self).wf(),
        ensures
            final(self).wf(),
            r is Ok,
            eq_except_downloads(*old(self), *final(self)),
            match dl_idx(old(self).downloads@, id@, 0) {
                Some(i) => final(self).downloads@ == old(self).downloads@.update(
                    i,
                    DownloadRecord { priority, ..old(self).downloads@[i] },
                ),
                None => final(self).downloads@ == old(self).downloads@,
            },
    {
        match self.find_download(id) {
            Some(i) => {
                self.downloads[i].priority = priority;
                proof {
                    assert(final(self).downloads@ =~= old(self).downloads@.update(
                        i as int,
                        DownloadRecord { priority, ..old(self).downloads@[i as int] },
                    ));
                }
                Ok(())
            },
            None => Ok(()),
        }
    }

    /// The priority of the identified job, zero when unknown.
    pub fn get_download_priority(&self, id: &str) -> (r: i32)
        ensures
            r == match dl_idx(self.downloads@, id@, 0) {
                Some(i) => self.downloads@[i].priority,
                None => 0,
            },
    {
        match self.find_download(id) {
            Some(i) => self.downloads[i].priority,
            None => 0,
        }
    }

    /// Deletes the identified job; an unknown identifier changes nothing.
    pub fn delete_download(&mut self, id: &str) -> (r: AppResult<()>)
        requires
            old(self).wf(),
        ensures
            final(self).wf(),
            r is Ok,
            eq_except_downloads(*old(self), *final(self)),
            match dl_idx(old(self).downloads@, id@, 0) {
                Some(i) => final(self).downloads@ == old(self).downloads@.remove(i),
                None => final(self).downloads@ == old(self).downloads@,
            },
    {
        match self.find_download(id) {
            Some(i) => {
                self.downloads.remove(i);
                Ok(())
            },
            None => Ok(()),
        }
    }

    /// The stored value of a setting.
    pub fn get_setting(&self, key: &str) -> (r: Option<String>)
        ensures
            match r {
                Some(v) => exists|i: int|
                    0 <= i < self.settings@.len() && (#[trigger] self.settings@[i]).key@ == key@
                        && self.settings@[i].value@ == v@,
                None => forall|i: int|
                    0 <= i < self.settings@.len() ==> (#[trigger] self.settings@[i]).key@ != key@,
            },
    {
        let n = self.settings.len();
        let mut i: usize = 0;
        while i < n
            invariant
                n == self.settings@.len(),
                i <= n,
                forall|k: int| 0 <= k < i ==> (#[trigger] self.settings@[k]).key@ != key@,
            decreases n - i,
        {
            if str_eq(self.settings[i].key.as_str(), key) {
                return Some(self.settings[i].value.clone());
            }
            i += 1;
        }
        None
    }

    /// Stores a setting, replacing any previous value under the same key.
    pub fn save_setting(&mut self, key: &str, value: &str) -> (r: AppResult<()>)
        requires
            old(self).wf(),
        ensures
            final(self).wf(),
            r is Ok,
            eq_except_settings(*old(self), *final(self)),
            match set_idx(old(self).settings@, key@, 0) {
                Some(i) => {
                    &&& final(self).settings@.len() == old(self).settings@.len()
                    &&& final(self).settings@[i].key@ == key@
                    &&& final(self).settings@[i].value@ == value@
                    &&& forall|k: int|
                        0 <= k < old(self).settings@.len() && k != i ==> final(self).settings@[k]
                            == old(self).settings@[k]
                },
                None => {
                    &&& final(self).settings@.len() == old(self).settings@.len() + 1
                    &&& final(self).settings@.drop_last() == old(self).settings@
                    &&& final(self).settings@.last().key@ == key@
                    &&& final(self).settings@.last().value@ == value@
                },
            },
    {
        let n = self.settings.len();
        let mut i: usize = 0;
        while i < n
            invariant
                n == self.settings@.len(),
                i <= n,
                forall|k: int| 0 <= k < i ==> (#[trigger] self.settings@[k]).key@ != key@,
                self == old(self),
                old(self).wf(),
            decreases n - i,
        {
            if str_eq(self.settings[i].key.as_str(), key) {
                proof {
                    lemma_set_idx(self.settings@, key@, 0, i as int);
                }
                self.settings[i].value = String::from_str(value);
                proof {
                    let fs = final(self).settings@;
                    assert forall|a: int, b: int| 0 <= a < b < fs.len() implies (
                    #[trigger] fs[a]).key@ != (#[trigger] fs[b]).key@ by {
                        assert(old(self).settings@[a].key@ != old(self).settings@[b].key@);
                    }
                }
                return Ok(());
            }
            i += 1;
        }
        proof {
            lemma_set_idx(self.settings@, key@, 0, n as int);
        }
        self.settings.push(
            SettingRecord { key: String::from_str(key), value: String::from_str(value) },
        );
        proof {
            assert(final(self).settings@.drop_last() =~= old(self).settings@);
        }
        Ok(())
    }
}

/// Everything but the feed table is the same in both stores.
pub open spec fn eq_except_feeds(a: Database, b: Database) -> bool {
    &&& a.downloads@ == b.downloads@
    &&& a.feed_items@ == b.feed_items@
    &&& a.transcripts@ == b.transcripts@
    &&& a.playlists@ == b.playlists@
    &&& a.settings@ == b.settings@
}

/// Everything but the feed-item table is the same in both stores.
pub open spec fn eq_except_feed_items(a: Database, b: Database) -> bool {
    &&& a.downloads@ == b.downloads@
    &&& a.feeds@ == b.feeds@
    &&& a.transcripts@ == b.transcripts@
    &&& a.playlists@ == b.playlists@
    &&& a.settings@ == b.settings@
}

/// Everything but the transcript table is the same in both stores.
pub open spec fn eq_except_transcripts(a: Database, b: Database) -> bool {
    &&& a.downloads@ == b.downloads@
    &&& a.feeds@ == b.feeds@
    &&& a.feed_items@ == b.feed_items@
    &&& a.playlists@ == b.playlists@
    &&& a.settings@ == b.settings@
}

/// Everything but the playlist table is the same in both stores.
pub open spec fn eq_except_playlists(a: Database, b: Database) -> bool {
    &&& a.downloads@ == b.downloads@
    &&& a.feeds@ == b.feeds@
    &&& a.feed_items@ == b.feed_items@
    &&& a.transcripts@ == b.transcripts@
    &&& a.settings@ == b.settings@
}

pub proof fn lemma_fi_idx_some(s: Seq<FeedItemRecord>, id: Seq<char>, i: int, j: int)
    requires
        0 <= i,
        fi_idx(s, id, i) == Some(j),
    ensures
        i <= j < s.len(),
        s[j].item.id@ == id,
    decreases s.len() - i,
{
    if i < s.len() && s[i].item.id@ != id {
        lemma_fi_idx_some(s, id, i + 1, j);
    }
}

/// The mathematical content of a stored feed item.
#[verifier::ext_equal]
pub struct StoredItemView {
    pub feed_id: Seq<char>,
    pub item: ItemView,
}

impl View for FeedItemRecord {
    type V = StoredItemView;

    open spec fn view(&self) -> StoredItemView {
        StoredItemView { feed_id: self.feed_id@, item: self.item@ }
    }
}

/// The views of the stored feed-item table.
pub open spec fn stored_views(s: Seq<FeedItemRecord>) -> Seq<StoredItemView> {
    s.map_values(|r: FeedItemRecord| r@)
}

/// The first index whose stored view carries the given item identity.
pub open spec fn sv_idx(s: Seq<StoredItemView>, id: Seq<char>, i: int) -> Option<int>
    decreases s.len() - i,
{
    if i < 0 || i >= s.len() {
        None
    } else if s[i].item.id == id {
        Some(i)
    } else {
        sv_idx(s, id, i + 1)
    }
}

pub proof fn lemma_sv_fi_idx(s: Seq<FeedItemRecord>, id: Seq<char>, i: int)
    requires
        0 <= i,
    ensures
        sv_idx(stored_views(s), id, i) == fi_idx(s, id, i),
    decreases s.len() - i,
{
    if i < s.len() {
        lemma_sv_fi_idx(s, id, i + 1);
    }
}

/// The upsert of one fetched item into the stored table: a present identity
/// has its feed attachment and metadata overwritten while its user-owned
/// downloaded flag is preserved; an absent identity is appended as fetched.
pub open spec fn upsert_view(t: Seq<StoredItemView>, fid: Seq<char>, f: ItemView) -> Seq<
    StoredItemView,
> {
    match sv_idx(t, f.id, 0) {
        Some(i) => t.update(
            i,
            StoredItemView {
                feed_id: fid,
                item: ItemView { downloaded: t[i].item.downloaded, ..f },
            },
        ),
        None => t.push(StoredItemView { feed_id: fid, item: f }),
    }
}

/// The upserts of a whole fetched item list, applied in order.
pub open spec fn apply_views(t: Seq<StoredItemView>, fid: Seq<char>, fs: Seq<ItemView>) -> Seq<
    StoredItemView,
>
    decreases fs.len(),
{
    if fs.len() == 0 {
        t
    } else {
        upsert_view(apply_views(t, fid, fs.drop_last()), fid, fs.last())
    }
}

/// The stored items that survive the removal of one feed: every record
/// attached to another feed, in stored order.
pub open spec fn fi_filter_out(s: Seq<FeedItemRecord>, fid: Seq<char>) -> Seq<FeedItemRecord>
    decreases s.len(),
{
    if s.len() == 0 {
        s
    } else {
        let rest = fi_filter_out(s.drop_last(), fid);
        if s.last().feed_id@ == fid {
            rest
        } else {
            rest.push(s.last())
        }
    }
}

proof fn lemma_fi_filter_ids(s: Seq<FeedItemRecord>, fid: Seq<char>, x: Seq<char>)
    requires
        exists|k: int|
            0 <= k < fi_filter_out(s, fid).len() && fi_filter_out(s, fid)[k].item.id@ == x,
    ensures
        exists|j: int| 0 <= j < s.len() && s[j].item.id@ == x,
    decreases s.len(),
{
    if s.len() > 0 {
        let f = fi_filter_out(s, fid);
        let rest = fi_filter_out(s.drop_last(), fid);
        let k = choose|k: int| 0 <= k < f.len() && f[k].item.id@ == x;
        if s.last().feed_id@ == fid || k < rest.len() {
            assert(rest[k].item.id@ == x);
            lemma_fi_filter_ids(s.drop_last(), fid, x);
            let j = choose|j: int| 0 <= j < s.drop_last().len() && s.drop_last()[j].item.id@ == x;
            assert(s[j].item.id@ == x);
        } else {
            assert(s[s.len() - 1].item.id@ == x);
        }
    }
}

proof fn lemma_fi_filter_distinct(s: Seq<FeedItemRecord>, fid: Seq<char>)
    requires
        forall|i: int, j: int|
            0 <= i < j < s.len() ==> (#[trigger] s[i]).item.id@ != (#[trigger] s[j]).item.id@,
    ensures
        forall|i: int, j: int|
            0 <= i < j < fi_filter_out(s, fid).len() ==> (#[trigger] fi_filter_out(s, fid)[i]).item.id@
                != (#[trigger] fi_filter_out(s, fid)[j]).item.id@,
    decreases s.len(),
{
    if s.len() > 0 {
        lemma_fi_filter_distinct(s.drop_last(), fid);
        let f = fi_filter_out(s, fid);
        let rest = fi_filter_out(s.drop_last(), fid);
        if s.last().feed_id@ != fid {
            assert forall|i: int, j: int| 0 <= i < j < f.len() implies (#[trigger] f[i]).item.id@
                != (#[trigger] f[j]).item.id@ by {
                if j == f.len() - 1 {
                    assert(f[j] == s.last());
                    assert(f[i] == rest[i]);
                    if f[i].item.id@ == s.last().item.id@ {
                        lemma_fi_filter_ids(s.drop_last(), fid, f[i].item.id@);
                        let w = choose|w: int|
                            0 <= w < s.drop_last().len() && s.drop_last()[w].item.id@
                                == f[i].item.id@;
                        assert(s[w].item.id@ == s[s.len() - 1].item.id@);
                    }
                } else {
                    assert(f[i] == rest[i] && f[j] == rest[j]);
                }
            }
        }
    }
}

/// The stored items attached to one feed, in stored order.
pub open spec fn items_of_feed(s: Seq<FeedItemRecord>, fid: Seq<char>) -> Seq<RssItem>
    decreases s.len(),
{
    if s.len() == 0 {
        Seq::empty()
    } else {
        let rest = items_of_feed(s.drop_last(), fid);
        if s.last().feed_id@ == fid {
            rest.push(s.last().item)
        } else {
            rest
        }
    }
}

impl Database {
    /// The position of the stored feed item with the given item identifier.
    pub fn find_feed_item(&self, id: &str) -> (r: Option<usize>)
        ensures
            match r {
                Some(i) => fi_idx(self.feed_items@, id@, 0) == Some(i as int) && i
                    < self.feed_items@.len() && self.feed_items@[i as int].item.id@ == id@,
                None => fi_idx(self.feed_items@, id@, 0) is None && forall|k: int|
                    0 <= k < self.feed_items@.len() ==> (#[trigger] self.feed_items@[k]).item.id@
                        != id@,
            },
    {
        let n = self.feed_items.len();
        let mut i: usize = 0;
        while i < n
            invariant
                n == self.feed_items@.len(),
                i <= n,
                forall|k: int| 0 <= k < i ==> (#[trigger] self.feed_items@[k]).item.id@ != id@,
            decreases n - i,
        {
            if str_eq(self.feed_items[i].item.id.as_str(), id) {
                proof {
                    lemma_fi_idx(self.feed_items@, id@, 0, i as int);
                }
                return Some(i);
            }
            i += 1;
        }
        proof {
            lemma_fi_idx(self.feed_items@, id@, 0, n as int);
        }
        None
    }

    /// Upserts one fetched item under the given feed: metadata is refreshed,
    /// the downloaded flag of an already-stored item is preserved.
    pub fn upsert_feed_item(&mut self, feed_id: &String, item: &RssItem) -> (r: AppResult<()>)
        requires
            old(self).wf(),
        ensures
            final(self).wf(),
            r is Ok,
            eq_except_feed_items(*old(self), *final(self)),
            stored_views(final(self).feed_items@) == upsert_view(
                stored_views(old(self).feed_items@),
                feed_id@,
                item@,
            ),
            match fi_idx(old(self).feed_items@, item.id@, 0) {
                Some(i) => final(self).feed_items@.len() == old(self).feed_items@.len() && forall|
                    k: int,
                |
                    0 <= k < old(self).feed_items@.len() && k != i ==> final(self).feed_items@[k]
                        == old(self).feed_items@[k],
                None => final(self).feed_items@.len() == old(self).feed_items@.len() + 1 && final(self).feed_items@.drop_last() == old(self).feed_items@,
            },
    {
        proof {
            lemma_sv_fi_idx(self.feed_items@, item.id@, 0);
        }
        match self.find_feed_item(item.id.as_str()) {
            Some(i) => {
                let kept = self.feed_items[i].item.downloaded;
                let mut it = copy_item(item);
                it.downloaded = kept;
                self.feed_items[i] = FeedItemRecord { feed_id: feed_id.clone(), item: it };
                proof {
                    assert(stored_views(final(self).feed_items@) =~= upsert_view(
                        stored_views(old(self).feed_items@),
                        feed_id@,
                        item@,
                    ));
                }
                Ok(())
            },
            None => {
                self.feed_items.push(
                    FeedItemRecord { feed_id: feed_id.clone(), item: copy_item(item) },
                );
                proof {
                    assert(final(self).feed_items@.drop_last() =~= old(self).feed_items@);
                    assert(stored_views(final(self).feed_items@) =~= upsert_view(
                        stored_views(old(self).feed_items@),
                        feed_id@,
                        item@,
                    ));
                }
                Ok(())
            },
        }
    }

    /// Upserts one fetched item given as its separate fields.
    pub fn insert_feed_item(
        &mut self,
        id: &str,
        feed_id: &str,
        video_id: &str,
        title: &str,
        thumbnail: &str,
        url: &str,
        published_at: &str,
        video_type: &str,
    ) -> (r: AppResult<()>)
        requires
            old(self).wf(),
        ensures
            final(self).wf(),
            r is Ok,
            eq_except_feed_items(*old(self), *final(self)),
            match fi_idx(old(self).feed_items@, id@, 0) {
                Some(i) => {
                    &&& final(self).feed_items@.len() == old(self).feed_items@.len()
                    &&& ({
                        let n = final(self).feed_items@[i];
                        &&& n.feed_id@ == feed_id@
                        &&& n.item.id@ == id@
                        &&& n.item.video_id@ == video_id@
                        &&& n.item.title@ == title@
                        &&& n.item.thumbnail@ == thumbnail@
                        &&& n.item.url@ == url@
                        &&& n.item.published_at@ == published_at@
                        &&& n.item.video_type@ == video_type@
                        &&& n.item.downloaded == old(self).feed_items@[i].item.downloaded
                    })
                    &&& forall|k: int|
                        0 <= k < old(self).feed_items@.len() && k != i ==> final(self).feed_items@[k] == old(self).feed_items@[k]
                },
                None => {
                    &&& final(self).feed_items@.len() == old(self).feed_items@.len() + 1
                    &&& final(self).feed_items@.drop_last() == old(self).feed_items@
                    &&& ({
                        let n = final(self).feed_items@.last();
                        &&& n.feed_id@ == feed_id@
                        &&& n.item.id@ == id@
                        &&& n.item.downloaded == false
                        &&& n.item.video_id@ == video_id@
                        &&& n.item.title@ == title@
                        &&& n.item.thumbnail@ == thumbnail@
                        &&& n.item.url@ == url@
                        &&& n.item.published_at@ == published_at@
                        &&& n.item.video_type@ == video_type@
                    })
                },
            },
    {
        let fid = String::from_str(feed_id);
        let item = RssItem {
            id: String::from_str(id),
            title: String::from_str(title),
            video_id: String::from_str(video_id),
            url: String::from_str(url),
            thumbnail: String::from_str(thumbnail),
            published_at: String::from_str(published_at),
            downloaded: false,
            video_type: String::from_str(video_type),
        };
        let r = self.upsert_feed_item(&fid, &item);
        proof {
            lemma_sv_fi_idx(old(self).feed_items@, id@, 0);
            if let Some(i) = fi_idx(old(self).feed_items@, id@, 0) {
                lemma_fi_idx_some(old(self).feed_items@, id@, 0, i);
                assert(stored_views(final(self).feed_items@)[i] == final(self).feed_items@[i]@);
                assert(stored_views(old(self).feed_items@)[i] == old(self).feed_items@[i]@);
            } else {
                let m = final(self).feed_items@.len() - 1;
                assert(stored_views(final(self).feed_items@)[m] == final(self).feed_items@[m]@);
                assert(final(self).feed_items@.last()@ == StoredItemView {
                    feed_id: fid@,
                    item: item@,
                });
            }
        }
        r
    }

    /// Upserts every fetched item of one reconciliation pass, in order.
    /// No stored item's downloaded flag is reset by this.
    pub fn apply_feed_items(&mut self, feed_id: &String, items: &Vec<RssItem>) -> (r: AppResult<
        (),
    >)
        requires
            old(self).wf(),
        ensures
            final(self).wf(),
            r is Ok,
            eq_except_feed_items(*old(self), *final(self)),
            stored_views(final(self).feed_items@) == apply_views(
                stored_views(old(self).feed_items@),
                feed_id@,
                item_views(items@),
            ),
    {
        let n = items.len();
        let ghost fs = item_views(items@);
        let mut i: usize = 0;
        while i < n
            invariant
                n == items@.len(),
                i <= n,
                fs == item_views(items@),
                self.wf(),
                eq_except_feed_items(*old(self), *self),
                stored_views(self.feed_items@) == apply_views(
                    stored_views(old(self).feed_items@),
                    feed_id@,
                    fs.take(i as int),
                ),
            decreases n - i,
        {
            proof {
                assert(fs.take(i + 1).drop_last() =~= fs.take(i as int));
                assert(fs.take(i + 1).last() == items@[i as int]@);
            }
            let _ = self.upsert_feed_item(feed_id, &items[i]);
            i += 1;
        }
        proof {
            assert(fs.take(n as int) =~= fs);
        }
        Ok(())
    }

    /// Marks one stored item's user-owned downloaded flag.
    pub fn update_feed_item_downloaded(&mut self, id: &str, downloaded: bool) -> (r: AppResult<()>)
        requires
            old(self).wf(),
        ensures
            final(self).wf(),
            r is Ok,
            eq_except_feed_items(*old(self), *final(self)),
            match fi_idx(old(self).feed_items@, id@, 0) {
                Some(i) => final(self).feed_items@ == old(self).feed_items@.update(
                    i,
                    FeedItemRecord {
                        item: RssItem { downloaded, ..old(self).feed_items@[i].item },
                        ..old(self).feed_items@[i]
                    },
                ),
                None => final(self).feed_items@ == old(self).feed_items@,
            },
    {
        match self.find_feed_item(id) {
            Some(i) => {
                self.feed_items[i].item.downloaded = downloaded;
                proof {
                    assert(final(self).feed_items@ =~= old(self).feed_items@.update(
                        i as int,
                        FeedItemRecord {
                            item: RssItem { downloaded, ..old(self).feed_items@[i as int].item },
                            ..old(self).feed_items@[i as int]
                        },
                    ));
                }
                Ok(())
            },
            None => Ok(()),
        }
    }

    /// The position of the feed with the given identifier.
    pub fn find_feed(&self, id: &str) -> (r: Option<usize>)
        ensures
            match r {
                Some(i) => feed_idx(self.feeds@, id@, 0) == Some(i as int) && i < self.feeds@.len()
                    && self.feeds@[i as int].id@ == id@,
                None => feed_idx(self.feeds@, id@, 0) is None && forall|k: int|
                    0 <= k < self.feeds@.len() ==> (#[trigger] self.feeds@[k]).id@ != id@,
            },
    {
        let n = self.feeds.len();
        let mut i: usize = 0;
        while i < n
            invariant
                n == self.feeds@.len(),
                i <= n,
                forall|k: int| 0 <= k < i ==> (#[trigger] self.feeds@[k]).id@ != id@,
            decreases n - i,
        {
            if str_eq(self.feeds[i].id.as_str(), id) {
                proof {
                    lemma_feed_idx(self.feeds@, id@, 0, i as int);
                }
                return Some(i);
            }
            i += 1;
        }
        proof {
            lemma_feed_idx(self.feeds@, id@, 0, n as int);
        }
        None
    }

    /// Inserts a new feed; a duplicate identifier or source URL is refused
    /// and leaves the store unchanged.
    pub fn insert_feed(&mut self, id: &str, url: &str, title: &str, thumbnail: &str) -> (r:
        AppResult<()>)
        requires
            old(self).wf(),
        ensures
            final(self).wf(),
            eq_except_feeds(*old(self), *final(self)),
            match r {
                Ok(()) => {
                    &&& feed_idx(old(self).feeds@, id@, 0) is None
                    &&& final(self).feeds@.len() == old(self).feeds@.len() + 1
                    &&& final(self).feeds@.drop_last() == old(self).feeds@
                    &&& ({
                        let n = final(self).feeds@.last();
                        &&& n.id@ == id@
                        &&& n.url@ == url@
                        &&& n.title@ == title@
                        &&& n.channel_name@.len() == 0
                        &&& n.thumbnail@ == thumbnail@
                        &&& n.auto_download == false
                        &&& n.last_checked@.len() == 0
                    })
                },
                Err(e) => {
                    &&& final(self).feeds@ == old(self).feeds@
                    &&& e is Store
                    &&& (feed_idx(old(self).feeds@, id@, 0) is Some || exists|k: int|
                        0 <= k < old(self).feeds@.len() && (#[trigger] old(self).feeds@[k]).url@
                            == url@)
                },
            },
    {
        if self.find_feed(id).is_some() {
            return Err(crate::error::AppError::Store(String::from_str("a feed with this id exists")));
        }
        let n = self.feeds.len();
        let mut i: usize = 0;
        while i < n
            invariant
                n == self.feeds@.len(),
                i <= n,
                self == old(self),
                old(self).wf(),
                forall|k: int| 0 <= k < i ==> (#[trigger] self.feeds@[k]).url@ != url@,
            decreases n - i,
        {
            if str_eq(self.feeds[i].url.as_str(), url) {
                return Err(
                    crate::error::AppError::Store(String::from_str("a feed with this URL exists")),
                );
            }
            i += 1;
        }
        self.feeds.push(
            FeedRecord {
                id: String::from_str(id),
                url: String::from_str(url),
                title: String::from_str(title),
                channel_name: String::new(),
                thumbnail: String::from_str(thumbnail),
                auto_download: false,
                keywords: String::from_str("[]"),
                last_checked: String::new(),
            },
        );
        proof {
            assert(final(self).feeds@.drop_last() =~= old(self).feeds@);
        }
        Ok(())
    }

    /// Deletes a feed and, with it, every stored item attached to it; an
    /// unknown identifier changes nothing.
    pub fn delete_feed(&mut self, id: &str) -> (r: AppResult<()>)
        requires
            old(self).wf(),
        ensures
            final(self).wf(),
            r is Ok,
            final(self).downloads@ == old(self).downloads@,
            final(self).transcripts@ == old(self).transcripts@,
            final(self).playlists@ == old(self).playlists@,
            final(self).settings@ == old(self).settings@,
            match feed_idx(old(self).feeds@, id@, 0) {
                Some(i) => final(self).feeds@ == old(self).feeds@.remove(i),
                None => final(self).feeds@ == old(self).feeds@,
            },
            final(self).feed_items@ == fi_filter_out(old(self).feed_items@, id@),
    {
        match self.find_feed(id) {
            Some(i) => {
                self.feeds.remove(i);
            },
            None => {},
        }
        let ghost t0 = self.feed_items@;
        let ghost feeds1 = self.feeds@;
        let count: usize = self.feed_items.len();
        let mut p: usize = 0;
        let mut k: usize = 0;
        let ghost n0 = self.feed_items@.len();
        while k < self.feed_items.len()
            invariant
                self.wf(),
                old(self).wf(),
                n0 == t0.len(),
                n0 == count,
                p <= n0,
                self.feed_items@ =~= fi_filter_out(t0.take(p as int), id@) + t0.skip(p as int),
                k == fi_filter_out(t0.take(p as int), id@).len(),
                k <= p,
                self.downloads@ == old(self).downloads@,
                self.feeds@ == feeds1,
                self.transcripts@ == old(self).transcripts@,
                self.playlists@ == old(self).playlists@,
                self.settings@ == old(self).settings@,
            decreases n0 - p,
        {
            proof {
                assert(t0.take(p + 1).drop_last() =~= t0.take(p as int));
                assert(t0.take(p + 1).last() == t0[p as int]);
                assert(self.feed_items@[k as int] == t0[p as int]);
            }
            if str_eq(self.feed_items[k].feed_id.as_str(), id) {
                self.feed_items.remove(k);
                proof {
                    assert(self.feed_items@ =~= fi_filter_out(t0.take(p + 1), id@) + t0.skip(
                        p + 1,
                    ));
                }
            } else {
                k += 1;
                proof {
                    assert(self.feed_items@ =~= fi_filter_out(t0.take(p + 1), id@) + t0.skip(
                        p + 1,
                    ));
                }
            }
            proof {
                assert(p < n0);
            }
            p += 1;
        }
        proof {
            assert(t0.take(n0 as int) =~= t0);
            assert(t0.skip(n0 as int) =~= Seq::<FeedItemRecord>::empty());
            assert(self.feed_items@ =~= fi_filter_out(t0, id@));
            lemma_fi_filter_distinct(t0, id@);
        }
        Ok(())
    }

    /// Stamps the feed's last-checked time with the given timestamp.
    pub fn update_feed_last_checked(&mut self, id: &str, now: &str) -> (r: AppResult<()>)
        requires
            old(self).wf(),
        ensures
            final(self).wf(),
            r is Ok,
            eq_except_feeds(*old(self), *final(self)),
            match feed_idx(old(self).feeds@, id@, 0) {
                Some(i) => final(self).feeds@ == old(self).feeds@.update(
                    i,
                    FeedRecord { last_checked: final(self).feeds@[i].last_checked, ..old(self).feeds@[i] },
                ) && final(self).feeds@[i].last_checked@ == now@,
                None => final(self).feeds@ == old(self).feeds@,
            },
    {
        match self.find_feed(id) {
            Some(i) => {
                self.feeds[i].last_checked = String::from_str(now);
                proof {
                    assert(final(self).feeds@ =~= old(self).feeds@.update(
                        i as int,
                        FeedRecord {
                            last_checked: final(self).feeds@[i as int].last_checked,
                            ..old(self).feeds@[i as int]
                        },
                    ));
                }
                Ok(())
            },
            None => Ok(()),
        }
    }

    /// Replaces the feed's stored source URL.
    pub fn update_feed_url(&mut self, id: &str, url: &str) -> (r: AppResult<()>)
        requires
            old(self).wf(),
        ensures
            final(self).wf(),
            r is Ok,
            eq_except_feeds(*old(self), *final(self)),
            match feed_idx(old(self).feeds@, id@, 0) {
                Some(i) => final(self).feeds@ == old(self).feeds@.update(
                    i,
                    FeedRecord { url: final(self).feeds@[i].url, ..old(self).feeds@[i] },
                ) && final(self).feeds@[i].url@ == url@,
                None => final(self).feeds@ == old(self).feeds@,
            },
    {
        match self.find_feed(id) {
            Some(i) => {
                self.feeds[i].url = String::from_str(url);
                proof {
                    assert(final(self).feeds@ =~= old(self).feeds@.update(
                        i as int,
                        FeedRecord {
                            url: final(self).feeds@[i as int].url,
                            ..old(self).feeds@[i as int]
                        },
                    ));
                }
                Ok(())
            },
            None => Ok(()),
        }
    }

    /// Records the feed's display name and avatar.
    pub fn update_feed_channel_info(&mut self, id: &str, channel_name: &str, thumbnail: &str) -> (r:
        AppResult<()>)
        requires
            old(self).wf(),
        ensures
            final(self).wf(),
            r is Ok,
            eq_except_feeds(*old(self), *final(self)),
            match feed_idx(old(self).feeds@, id@, 0) {
                Some(i) => {
                    &&& final(self).feeds@.len() == old(self).feeds@.len()
                    &&& final(self).feeds@[i].channel_name@ == channel_name@
                    &&& final(self).feeds@[i].thumbnail@ == thumbnail@
                    &&& final(self).feeds@[i] == FeedRecord {
                        channel_name: final(self).feeds@[i].channel_name,
                        thumbnail: final(self).feeds@[i].thumbnail,
                        ..old(self).feeds@[i]
                    }
                    &&& forall|k: int|
                        0 <= k < old(self).feeds@.len() && k != i ==> final(self).feeds@[k] == old(self).feeds@[k]
                },
                None => final(self).feeds@ == old(self).feeds@,
            },
    {
        match self.find_feed(id) {
            Some(i) => {
                self.feeds[i].channel_name = String::from_str(channel_name);
                self.feeds[i].thumbnail = String::from_str(thumbnail);
                Ok(())
            },
            None => Ok(()),
        }
    }

    /// Records the feed's keyword filter and auto-download choice.
    pub fn update_feed_settings(&mut self, id: &str, keywords: &str, auto_download: bool) -> (r:
        AppResult<()>)
        requires
            old(self).wf(),
        ensures
            final(self).wf(),
            r is Ok,
            eq_except_feeds(*old(self), *final(self)),
            match feed_idx(old(self).feeds@, id@, 0) {
                Some(i) => {
                    &&& final(self).feeds@.len() == old(self).feeds@.len()
                    &&& final(self).feeds@[i].keywords@ == keywords@
                    &&& final(self).feeds@[i].auto_download == auto_download
                    &&& final(self).feeds@[i] == FeedRecord {
                        keywords: final(self).feeds@[i].keywords,
                        auto_download,
                        ..old(self).feeds@[i]
                    }
                    &&& forall|k: int|
                        0 <= k < old(self).feeds@.len() && k != i ==> final(self).feeds@[k] == old(self).feeds@[k]
                },
                None => final(self).feeds@ == old(self).feeds@,
            },
    {
        match self.find_feed(id) {
            Some(i) => {
                self.feeds[i].keywords = String::from_str(keywords);
                self.feeds[i].auto_download = auto_download;
                Ok(())
            },
            None => Ok(()),
        }
    }
}

/// The two records hold the same download-job content.
pub open spec fn dl_like(a: DownloadRecord, b: DownloadRecord) -> bool {
    &&& a.id@ == b.id@
    &&& a.url@ == b.url@
    &&& a.title@ == b.title@
    &&& a.thumbnail@ == b.thumbnail@
    &&& a.status == b.status
    &&& a.progress_permille == b.progress_permille
    &&& a.speed@ == b.speed@
    &&& a.eta@ == b.eta@
    &&& a.file_path@ == b.file_path@
    &&& a.file_size == b.file_size
    &&& a.format_id@ == b.format_id@
    &&& a.format_label@ == b.format_label@
    &&& a.error@ == b.error@
    &&& a.priority == b.priority
    &&& a.source@ == b.source@
}

/// The two records hold the same feed content.
pub open spec fn feed_like(a: FeedRecord, b: FeedRecord) -> bool {
    &&& a.id@ == b.id@
    &&& a.url@ == b.url@
    &&& a.title@ == b.title@
    &&& a.channel_name@ == b.channel_name@
    &&& a.thumbnail@ == b.thumbnail@
    &&& a.auto_download == b.auto_download
    &&& a.keywords@ == b.keywords@
    &&& a.last_checked@ == b.last_checked@
}

/// The two records hold the same transcript content.
pub open spec fn tr_like(a: TranscriptRecord, b: TranscriptRecord) -> bool {
    &&& a.id@ == b.id@
    &&& a.source@ == b.source@
    &&& a.title@ == b.title@
    &&& a.language@ == b.language@
    &&& a.text@ == b.text@
    &&& a.status == b.status
    &&& a.progress_permille == b.progress_permille
    &&& a.error@ == b.error@
}

/// The two records hold the same playlist content.
pub open spec fn pl_like(a: PlaylistRecord, b: PlaylistRecord) -> bool {
    &&& a.id@ == b.id@
    &&& a.url@ == b.url@
    &&& a.title@ == b.title@
    &&& a.thumbnail@ == b.thumbnail@
    &&& a.total_videos == b.total_videos
    &&& a.downloaded_videos == b.downloaded_videos
    &&& a.status == b.status
    &&& a.naming_template@ == b.naming_template@
    &&& a.auto_sync == b.auto_sync
    &&& a.last_sync@ == b.last_sync@
}

/// The record matches some record of the table in content.
pub open spec fn copy_of_some(r: DownloadRecord, s: Seq<DownloadRecord>) -> bool {
    exists|j: int| 0 <= j < s.len() && dl_like(r, s[j])
}

/// The mathematical content of a download record.
#[verifier::ext_equal]
pub struct DownloadView {
    pub id: Seq<char>,
    pub url: Seq<char>,
    pub title: Seq<char>,
    pub thumbnail: Seq<char>,
    pub status: JobStatus,
    pub progress_permille: u32,
    pub speed: Seq<char>,
    pub eta: Seq<char>,
    pub file_path: Seq<char>,
    pub file_size: u64,
    pub format_id: Seq<char>,
    pub format_label: Seq<char>,
    pub error: Seq<char>,
    pub priority: i32,
    pub source: Seq<char>,
}

impl View for DownloadRecord {
    type V = DownloadView;

    open spec fn view(&self) -> DownloadView {
        DownloadView {
            id: self.id@,
            url: self.url@,
            title: self.title@,
            thumbnail: self.thumbnail@,
            status: self.status,
            progress_permille: self.progress_permille,
            speed: self.speed@,
            eta: self.eta@,
            file_path: self.file_path@,
            file_size: self.file_size,
            format_id: self.format_id@,
            format_label: self.format_label@,
            error: self.error@,
            priority: self.priority,
            source: self.source@,
        }
    }
}

/// The views of the job table.
pub open spec fn dl_views(s: Seq<DownloadRecord>) -> Seq<DownloadView> {
    s.map_values(|r: DownloadRecord| r@)
}

/// The download table is sorted by descending priority.
pub open spec fn sorted_by_priority(s: Seq<DownloadRecord>) -> bool {
    forall|i: int, j: int|
        0 <= i <= j < s.len() ==> (#[trigger] s[i]).priority >= (#[trigger] s[j]).priority
}

impl Database {
    /// A snapshot of the job table ordered by descending priority, the only
    /// ordering the priority field exists for: a permutation of the table.
    pub fn get_downloads(&self) -> (r: Vec<DownloadRecord>)
        ensures
            r@.len() == self.downloads@.len(),
            sorted_by_priority(r@),
            dl_views(r@).to_multiset() == dl_views(self.downloads@).to_multiset(),
            forall|k: int| 0 <= k < r@.len() ==> copy_of_some(#[trigger] r@[k], self.downloads@),
    {
        let n = self.downloads.len();
        let mut out: Vec<DownloadRecord> = Vec::new();
        proof {
            assert(dl_views(out@) =~= dl_views(self.downloads@.take(0)));
            assert(dl_views(out@).to_multiset() =~= dl_views(
                self.downloads@.take(0),
            ).to_multiset());
        }
        let mut i: usize = 0;
        while i < n
            invariant
                n == self.downloads@.len(),
                i <= n,
                out@.len() == i,
                sorted_by_priority(out@),
                dl_views(out@).to_multiset() == dl_views(self.downloads@.take(i as int)).to_multiset(),
                forall|k: int|
                    0 <= k < out@.len() ==> copy_of_some(#[trigger] out@[k], self.downloads@),
            decreases n - i,
        {
            let src = &self.downloads[i];
            let rec = DownloadRecord {
                id: src.id.clone(),
                url: src.url.clone(),
                title: src.title.clone(),
                thumbnail: src.thumbnail.clone(),
                status: src.status,
                progress_permille: src.progress_permille,
                speed: src.speed.clone(),
                eta: src.eta.clone(),
                file_path: src.file_path.clone(),
                file_size: src.file_size,
                format_id: src.format_id.clone(),
                format_label: src.format_label.clone(),
                error: src.error.clone(),
                priority: src.priority,
                source: src.source.clone(),
            };
            let m = out.len();
            let mut p: usize = 0;
            while p < m && out[p].priority >= rec.priority
                invariant
                    m == out@.len(),
                    p <= m,
                    dl_like(rec, self.downloads@[i as int]),
                    i < n == self.downloads@.len(),
                    forall|k: int| 0 <= k < p ==> (#[trigger] out@[k]).priority >= rec.priority,
                decreases m - p,
            {
                p += 1;
            }
            let ghost before = out@;
            out.insert(p, rec);
            proof {
                assert(rec@ =~= self.downloads@[i as int]@);
                assert(dl_views(out@) =~= dl_views(before).insert(p as int, rec@));
                crate::feed::lemma_insert_multiset(dl_views(before), p as int, rec@);
                broadcast use vstd::seq_lib::group_to_multiset_ensures;

                assert(self.downloads@.take(i + 1).drop_last() =~= self.downloads@.take(i as int));
                assert(dl_views(self.downloads@.take(i + 1)) =~= dl_views(
                    self.downloads@.take(i as int),
                ).push(self.downloads@[i as int]@));
                assert forall|k: int| 0 <= k < out@.len() implies copy_of_some(
                    #[trigger] out@[k],
                    self.downloads@,
                ) by {
                    if k < p {
                        assert(out@[k] == before[k]);
                        assert(copy_of_some(before[k], self.downloads@));
                    } else if k == p {
                        assert(dl_like(out@[k], self.downloads@[i as int]));
                    } else {
                        assert(out@[k] == before[k - 1]);
                        assert(copy_of_some(before[k - 1], self.downloads@));
                    }
                }
                assert forall|x: int, y: int| 0 <= x <= y < out@.len() implies (
                #[trigger] out@[x]).priority >= (#[trigger] out@[y]).priority by {
                    if x == y {
                    } else if y <= p {
                    } else if x >= p {
                    }
                }
            }
            i += 1;
        }
        proof {
            assert(self.downloads@.take(n as int) =~= self.downloads@);
        }
        out
    }

    /// A snapshot of the feed table, most recently added first.
    pub fn get_feeds(&self) -> (r: Vec<FeedRecord>)
        ensures
            r@.len() == self.feeds@.len(),
            forall|k: int|
                0 <= k < r@.len() ==> feed_like(
                    #[trigger] r@[k],
                    self.feeds@[self.feeds@.len() - 1 - k],
                ),
    {
        let n = self.feeds.len();
        let mut out: Vec<FeedRecord> = Vec::new();
        let mut i: usize = 0;
        while i < n
            invariant
                n == self.feeds@.len(),
                i <= n,
                out@.len() == i,
                forall|k: int|
                    0 <= k < i ==> feed_like(#[trigger] out@[k], self.feeds@[n - 1 - k]),
            decreases n - i,
        {
            let src = &self.feeds[n - 1 - i];
            out.push(
                FeedRecord {
                    id: src.id.clone(),
                    url: src.url.clone(),
                    title: src.title.clone(),
                    channel_name: src.channel_name.clone(),
                    thumbnail: src.thumbnail.clone(),
                    auto_download: src.auto_download,
                    keywords: src.keywords.clone(),
                    last_checked: src.last_checked.clone(),
                },
            );
            i += 1;
        }
        out
    }

    /// The items attached to one feed, most recently published first.
    pub fn get_feed_items(&self, feed_id: &str) -> (r: Vec<RssItem>)
        ensures
            crate::feed::sorted_desc(item_views(r@)),
            item_views(r@).to_multiset() == item_views(
                items_of_feed(self.feed_items@, feed_id@),
            ).to_multiset(),
    {
        let n = self.feed_items.len();
        let mut picked: Vec<RssItem> = Vec::new();
        let mut i: usize = 0;
        while i < n
            invariant
                n == self.feed_items@.len(),
                i <= n,
                item_views(picked@) == item_views(
                    items_of_feed(self.feed_items@.take(i as int), feed_id@),
                ),
            decreases n - i,
        {
            proof {
                assert(self.feed_items@.take(i + 1).drop_last() =~= self.feed_items@.take(i as int));
                assert(self.feed_items@.take(i + 1).last() == self.feed_items@[i as int]);
            }
            let ghost prevp = picked@;
            let ghost prevsel = items_of_feed(self.feed_items@.take(i as int), feed_id@);
            if str_eq(self.feed_items[i].feed_id.as_str(), feed_id) {
                picked.push(copy_item(&self.feed_items[i].item));
                proof {
                    let sel = items_of_feed(self.feed_items@.take(i + 1), feed_id@);
                    assert(sel == prevsel.push(self.feed_items@[i as int].item));
                    assert(item_views(picked@) =~= item_views(prevp).push(
                        self.feed_items@[i as int].item@,
                    ));
                    assert(item_views(sel) =~= item_views(prevsel).push(
                        self.feed_items@[i as int].item@,
                    ));
                }
            } else {
                proof {
                    assert(items_of_feed(self.feed_items@.take(i + 1), feed_id@) == prevsel);
                }
            }
            i += 1;
        }
        proof {
            assert(self.feed_items@.take(n as int) =~= self.feed_items@);
        }
        crate::feed::sort_items_by_published_desc(picked)
    }

    /// A snapshot of the settings table.
    pub fn get_all_settings(&self) -> (r: Vec<SettingRecord>)
        ensures
            r@.len() == self.settings@.len(),
            forall|k: int|
                0 <= k < r@.len() ==> (#[trigger] r@[k]).key@ == self.settings@[k].key@
                    && r@[k].value@ == self.settings@[k].value@,
    {
        let n = self.settings.len();
        let mut out: Vec<SettingRecord> = Vec::new();
        let mut i: usize = 0;
        while i < n
            invariant
                n == self.settings@.len(),
                i <= n,
                out@.len() == i,
                forall|k: int|
                    0 <= k < i ==> (#[trigger] out@[k]).key@ == self.settings@[k].key@
                        && out@[k].value@ == self.settings@[k].value@,
            decreases n - i,
        {
            out.push(
                SettingRecord {
                    key: self.settings[i].key.clone(),
                    value: self.settings[i].value.clone(),
                },
            );
            i += 1;
        }
        out
    }

    /// The position of the transcript with the given identifier.
    pub fn find_transcript(&self, id: &str) -> (r: Option<usize>)
        ensures
            match r {
                Some(i) => tr_idx(self.transcripts@, id@, 0) == Some(i as int) && i
                    < self.transcripts@.len() && self.transcripts@[i as int].id@ == id@,
                None => tr_idx(self.transcripts@, id@, 0) is None && forall|k: int|
                    0 <= k < self.transcripts@.len() ==> (#[trigger] self.transcripts@[k]).id@
                        != id@,
            },
    {
        let n = self.transcripts.len();
        let mut i: usize = 0;
        while i < n
            invariant
                n == self.transcripts@.len(),
                i <= n,
                forall|k: int| 0 <= k < i ==> (#[trigger] self.transcripts@[k]).id@ != id@,
            decreases n - i,
        {
            if str_eq(self.transcripts[i].id.as_str(), id) {
                proof {
                    lemma_tr_idx(self.transcripts@, id@, 0, i as int);
                }
                return Some(i);
            }
            i += 1;
        }
        proof {
            lemma_tr_idx(self.transcripts@, id@, 0, n as int);
        }
        None
    }

    /// Inserts a new transcription job; a duplicate identifier is refused.
    pub fn insert_transcript(&mut self, id: &str, source: &str, title: &str) -> (r: AppResult<()>)
        requires
            old(self).wf(),
        ensures
            final(self).wf(),
            eq_except_transcripts(*old(self), *final(self)),
            match r {
                Ok(()) => {
                    &&& tr_idx(old(self).transcripts@, id@, 0) is None
                    &&& final(self).transcripts@.len() == old(self).transcripts@.len() + 1
                    &&& final(self).transcripts@.drop_last() == old(self).transcripts@
                    &&& ({
                        let n = final(self).transcripts@.last();
                        &&& n.id@ == id@
                        &&& n.source@ == source@
                        &&& n.title@ == title@
                        &&& n.status == JobStatus::Pending
                        &&& n.progress_permille == 0
                        &&& n.text@.len() == 0
                        &&& n.error@.len() == 0
                    })
                },
                Err(e) => {
                    &&& tr_idx(old(self).transcripts@, id@, 0) is Some
                    &&& final(self).transcripts@ == old(self).transcripts@
                    &&& e is Store
                },
            },
    {
        if self.find_transcript(id).is_some() {
            return Err(
                crate::error::AppError::Store(String::from_str("a transcript with this id exists")),
            );
        }
        self.transcripts.push(
            TranscriptRecord {
                id: String::from_str(id),
                source: String::from_str(source),
                title: String::from_str(title),
                language: String::new(),
                text: String::new(),
                status: JobStatus::Pending,
                progress_permille: 0,
                error: String::new(),
            },
        );
        proof {
            assert(final(self).transcripts@.drop_last() =~= old(self).transcripts@);
        }
        Ok(())
    }

    /// Sets a transcription job's status and progress.
    pub fn update_transcript_status(&mut self, id: &str, status: JobStatus, permille: u32) -> (r:
        AppResult<()>)
        requires
            old(self).wf(),
        ensures
            final(self).wf(),
            r is Ok,
            eq_except_transcripts(*old(self), *final(self)),
            match tr_idx(old(self).transcripts@, id@, 0) {
                Some(i) => final(self).transcripts@ == old(self).transcripts@.update(
                    i,
                    TranscriptRecord {
                        status,
                        progress_permille: permille,
                        ..old(self).transcripts@[i]
                    },
                ),
                None => final(self).transcripts@ == old(self).transcripts@,
            },
    {
        match self.find_transcript(id) {
            Some(i) => {
                self.transcripts[i].status = status;
                self.transcripts[i].progress_permille = permille;
                proof {
                    assert(final(self).transcripts@ =~= old(self).transcripts@.update(
                        i as int,
                        TranscriptRecord {
                            status,
                            progress_permille: permille,
                            ..old(self).transcripts@[i as int]
                        },
                    ));
                }
                Ok(())
            },
            None => Ok(()),
        }
    }

    /// Records a transcription job's successful completion: terminal
    /// status, full progress, and the produced text and detected language.
    pub fn update_transcript_complete(&mut self, id: &str, text: &str, language: &str) -> (r:
        AppResult<()>)
        requires
            old(self).wf(),
        ensures
            final(self).wf(),
            r is Ok,
            eq_except_transcripts(*old(self), *final(self)),
            match tr_idx(old(self).transcripts@, id@, 0) {
                Some(i) => {
                    &&& final(self).transcripts@.len() == old(self).transcripts@.len()
                    &&& final(self).transcripts@[i].status == JobStatus::Completed
                    &&& final(self).transcripts@[i].progress_permille == 1000
                    &&& final(self).transcripts@[i].text@ == text@
                    &&& final(self).transcripts@[i].language@ == language@
                    &&& final(self).transcripts@[i].id@ == old(self).transcripts@[i].id@
                    &&& forall|k: int|
                        0 <= k < old(self).transcripts@.len() && k != i ==> final(self).transcripts@[k] == old(self).transcripts@[k]
                },
                None => final(self).transcripts@ == old(self).transcripts@,
            },
    {
        match self.find_transcript(id) {
            Some(i) => {
                self.transcripts[i].status = JobStatus::Completed;
                self.transcripts[i].progress_permille = 1000;
                self.transcripts[i].text = String::from_str(text);
                self.transcripts[i].language = String::from_str(language);
                Ok(())
            },
            None => Ok(()),
        }
    }

    /// Records a transcription job's terminal failure.
    pub fn update_transcript_error(&mut self, id: &str, error: &str) -> (r: AppResult<()>)
        requires
            old(self).wf(),
        ensures
            final(self).wf(),
            r is Ok,
            eq_except_transcripts(*old(self), *final(self)),
            match tr_idx(old(self).transcripts@, id@, 0) {
                Some(i) => {
                    &&& final(self).transcripts@.len() == old(self).transcripts@.len()
                    &&& final(self).transcripts@[i].status == JobStatus::Error
                    &&& final(self).transcripts@[i].error@ == error@
                    &&& final(self).transcripts@[i].id@ == old(self).transcripts@[i].id@
                    &&& forall|k: int|
                        0 <= k < old(self).transcripts@.len() && k != i ==> final(self).transcripts@[k] == old(self).transcripts@[k]
                },
                None => final(self).transcripts@ == old(self).transcripts@,
            },
    {
        match self.find_transcript(id) {
            Some(i) => {
                self.transcripts[i].status = JobStatus::Error;
                self.transcripts[i].error = String::from_str(error);
                Ok(())
            },
            None => Ok(()),
        }
    }

    /// Deletes a transcription job; an unknown identifier changes nothing.
    pub fn delete_transcript(&mut self, id: &str) -> (r: AppResult<()>)
        requires
            old(self).wf(),
        ensures
            final(self).wf(),
            r is Ok,
            eq_except_transcripts(*old(self), *final(self)),
            match tr_idx(old(self).transcripts@, id@, 0) {
                Some(i) => final(self).transcripts@ == old(self).transcripts@.remove(i),
                None => final(self).transcripts@ == old(self).transcripts@,
            },
    {
        match self.find_transcript(id) {
            Some(i) => {
                self.transcripts.remove(i);
                Ok(())
            },
            None => Ok(()),
        }
    }

    /// A snapshot of the transcript table, most recently added first.
    pub fn get_transcripts(&self) -> (r: Vec<TranscriptRecord>)
        ensures
            r@.len() == self.transcripts@.len(),
            forall|k: int|
                0 <= k < r@.len() ==> tr_like(
                    #[trigger] r@[k],
                    self.transcripts@[self.transcripts@.len() - 1 - k],
                ),
    {
        let n = self.transcripts.len();
        let mut out: Vec<TranscriptRecord> = Vec::new();
        let mut i: usize = 0;
        while i < n
            invariant
                n == self.transcripts@.len(),
                i <= n,
                out@.len() == i,
                forall|k: int|
                    0 <= k < i ==> tr_like(#[trigger] out@[k], self.transcripts@[n - 1 - k]),
            decreases n - i,
        {
            let src = &self.transcripts[n - 1 - i];
            out.push(
                TranscriptRecord {
                    id: src.id.clone(),
                    source: src.source.clone(),
                    title: src.title.clone(),
                    language: src.language.clone(),
                    text: src.text.clone(),
                    status: src.status,
                    progress_permille: src.progress_permille,
                    error: src.error.clone(),
                },
            );
            i += 1;
        }
        out
    }

    /// The position of the playlist with the given identifier.
    pub fn find_playlist(&self, id: &str) -> (r: Option<usize>)
        ensures
            match r {
                Some(i) => pl_idx(self.playlists@, id@, 0) == Some(i as int) && i
                    < self.playlists@.len() && self.playlists@[i as int].id@ == id@,
                None => pl_idx(self.playlists@, id@, 0) is None && forall|k: int|
                    0 <= k < self.playlists@.len() ==> (#[trigger] self.playlists@[k]).id@ != id@,
            },
    {
        let n = self.playlists.len();
        let mut i: usize = 0;
        while i < n
            invariant
                n == self.playlists@.len(),
                i <= n,
                forall|k: int| 0 <= k < i ==> (#[trigger] self.playlists@[k]).id@ != id@,
            decreases n - i,
        {
            if str_eq(self.playlists[i].id.as_str(), id) {
                proof {
                    lemma_pl_idx(self.playlists@, id@, 0, i as int);
                }
                return Some(i);
            }
            i += 1;
        }
        proof {
            lemma_pl_idx(self.playlists@, id@, 0, n as int);
        }
        None
    }

    /// Inserts or replaces a tracked playlist: a present identifier has its
    /// whole row reset for a fresh download pass.
    pub fn insert_playlist(&mut self, id: &str, url: &str, title: &str, total_videos: u32) -> (r:
        AppResult<()>)
        requires
            old(self).wf(),
        ensures
            final(self).wf(),
            r is Ok,
            eq_except_playlists(*old(self), *final(self)),
            ({
                let fresh_ok = |n: PlaylistRecord|
                    {
                        &&& n.id@ == id@
                        &&& n.url@ == url@
                        &&& n.title@ == title@
                        &&& n.total_videos == total_videos
                        &&& n.downloaded_videos == 0
                        &&& n.status == JobStatus::Downloading
                    };
                match pl_idx(old(self).playlists@, id@, 0) {
                    Some(i) => final(self).playlists@.len() == old(self).playlists@.len()
                        && fresh_ok(final(self).playlists@[i]) && forall|k: int|
                        0 <= k < old(self).playlists@.len() && k != i ==> final(self).playlists@[k] == old(self).playlists@[k],
                    None => final(self).playlists@.len() == old(self).playlists@.len() + 1 && final(self).playlists@.drop_last() == old(self).playlists@ && fresh_ok(
                        final(self).playlists@.last(),
                    ),
                }
            }),
    {
        let rec = PlaylistRecord {
            id: String::from_str(id),
            url: String::from_str(url),
            title: String::from_str(title),
            thumbnail: String::new(),
            total_videos,
            downloaded_videos: 0,
            status: JobStatus::Downloading,
            naming_template: String::from_str("%(title)s.%(ext)s"),
            auto_sync: false,
            last_sync: String::new(),
        };
        match self.find_playlist(id) {
            Some(i) => {
                self.playlists[i] = rec;
                Ok(())
            },
            None => {
                self.playlists.push(rec);
                proof {
                    assert(final(self).playlists@.drop_last() =~= old(self).playlists@);
                }
                Ok(())
            },
        }
    }

    /// Records how many of a playlist's entries have been downloaded.
    pub fn update_playlist_progress(&mut self, id: &str, downloaded_videos: u32) -> (r: AppResult<
        (),
    >)
        requires
            old(self).wf(),
        ensures
            final(self).wf(),
            r is Ok,
            eq_except_playlists(*old(self), *final(self)),
            match pl_idx(old(self).playlists@, id@, 0) {
                Some(i) => final(self).playlists@ == old(self).playlists@.update(
                    i,
                    PlaylistRecord { downloaded_videos, ..old(self).playlists@[i] },
                ),
                None => final(self).playlists@ == old(self).playlists@,
            },
    {
        match self.find_playlist(id) {
            Some(i) => {
                self.playlists[i].downloaded_videos = downloaded_videos;
                proof {
                    assert(final(self).playlists@ =~= old(self).playlists@.update(
                        i as int,
                        PlaylistRecord { downloaded_videos, ..old(self).playlists@[i as int] },
                    ));
                }
                Ok(())
            },
            None => Ok(()),
        }
    }

    /// Records a playlist's naming template and auto-sync choice.
    pub fn update_playlist_settings(&mut self, id: &str, naming_template: &str, auto_sync: bool) -> (r:
        AppResult<()>)
        requires
            old(self).wf(),
        ensures
            final(self).wf(),
            r is Ok,
            eq_except_playlists(*old(self), *final(self)),
            match pl_idx(old(self).playlists@, id@, 0) {
                Some(i) => {
                    &&& final(self).playlists@.len() == old(self).playlists@.len()
                    &&& final(self).playlists@[i].naming_template@ == naming_template@
                    &&& final(self).playlists@[i].auto_sync == auto_sync
                    &&& final(self).playlists@[i].id@ == old(self).playlists@[i].id@
                    &&& forall|k: int|
                        0 <= k < old(self).playlists@.len() && k != i ==> final(self).playlists@[k] == old(self).playlists@[k]
                },
                None => final(self).playlists@ == old(self).playlists@,
            },
    {
        match self.find_playlist(id) {
            Some(i) => {
                self.playlists[i].naming_template = String::from_str(naming_template);
                self.playlists[i].auto_sync = auto_sync;
                Ok(())
            },
            None => Ok(()),
        }
    }

    /// Deletes a tracked playlist; an unknown identifier changes nothing.
    pub fn delete_playlist(&mut self, id: &str) -> (r: AppResult<()>)
        requires
            old(self).wf(),
        ensures
            final(self).wf(),
            r is Ok,
            eq_except_playlists(*old(self), *final(self)),
            match pl_idx(old(self).playlists@, id@, 0) {
                Some(i) => final(self).playlists@ == old(self).playlists@.remove(i),
                None => final(self).playlists@ == old(self).playlists@,
            },
    {
        match self.find_playlist(id) {
            Some(i) => {
                self.playlists.remove(i);
                Ok(())
            },
            None => Ok(()),
        }
    }

    /// A snapshot of the playlist table, most recently added first.
    pub fn get_playlists(&self) -> (r: Vec<PlaylistRecord>)
        ensures
            r@.len() == self.playlists@.len(),
            forall|k: int|
                0 <= k < r@.len() ==> pl_like(
                    #[trigger] r@[k],
                    self.playlists@[self.playlists@.len() - 1 - k],
                ),
    {
        let n = self.playlists.len();
        let mut out: Vec<PlaylistRecord> = Vec::new();
        let mut i: usize = 0;
        while i < n
            invariant
                n == self.playlists@.len(),
                i <= n,
                out@.len() == i,
                forall|k: int|
                    0 <= k < i ==> pl_like(#[trigger] out@[k], self.playlists@[n - 1 - k]),
            decreases n - i,
        {
            let src = &self.playlists[n - 1 - i];
            out.push(
                PlaylistRecord {
                    id: src.id.clone(),
                    url: src.url.clone(),
                    title: src.title.clone(),
                    thumbnail: src.thumbnail.clone(),
                    total_videos: src.total_videos,
                    downloaded_videos: src.downloaded_videos,
                    status: src.status,
                    naming_template: src.naming_template.clone(),
                    auto_sync: src.auto_sync,
                    last_sync: src.last_sync.clone(),
                },
            );
            i += 1;
        }
        out
    }
}

/// The last fetched occurrence of the given identity, if any.
pub open spec fn last_with_id(fs: Seq<ItemView>, x: Seq<char>) -> Option<ItemView>
    decreases fs.len(),
{
    if fs.len() == 0 {
        None
    } else if fs.last().id == x {
        Some(fs.last())
    } else {
        last_with_id(fs.drop_last(), x)
    }
}

/// Stored identities are pairwise distinct.
pub open spec fn sv_distinct(t: Seq<StoredItemView>) -> bool {
    forall|i: int, j: int| 0 <= i < j < t.len() ==> (#[trigger] t[i]).item.id != (#[trigger] t[j]).item.id
}

/// Some stored view carries the identity.
pub open spec fn sv_has_id(t: Seq<StoredItemView>, x: Seq<char>) -> bool {
    exists|k: int| 0 <= k < t.len() && (#[trigger] t[k]).item.id == x
}

proof fn lemma_sv_idx_some(t: Seq<StoredItemView>, x: Seq<char>, i: int, j: int)
    requires
        0 <= i,
        sv_idx(t, x, i) == Some(j),
    ensures
        i <= j < t.len(),
        t[j].item.id == x,
        forall|k: int| i <= k < j ==> (#[trigger] t[k]).item.id != x,
    decreases t.len() - i,
{
    if i < t.len() && t[i].item.id != x {
        lemma_sv_idx_some(t, x, i + 1, j);
    }
}

proof fn lemma_sv_idx_none(t: Seq<StoredItemView>, x: Seq<char>, i: int)
    requires
        0 <= i,
        sv_idx(t, x, i) is None,
    ensures
        forall|k: int| i <= k < t.len() ==> (#[trigger] t[k]).item.id != x,
    decreases t.len() - i,
{
    if i < t.len() {
        lemma_sv_idx_none(t, x, i + 1);
    }
}

proof fn lemma_sv_idx_at(t: Seq<StoredItemView>, x: Seq<char>, i: int, b: int)
    requires
        0 <= i <= b <= t.len(),
        forall|k: int| i <= k < b ==> (#[trigger] t[k]).item.id != x,
        b < t.len() ==> t[b].item.id == x,
    ensures
        sv_idx(t, x, i) == if b < t.len() {
            Some(b)
        } else {
            None::<int>
        },
    decreases b - i,
{
    if i < b {
        lemma_sv_idx_at(t, x, i + 1, b);
    }
}

/// One upsert keeps every stored identity and downloaded flag in place and
/// keeps identities distinct.
proof fn lemma_upsert_frame(t: Seq<StoredItemView>, fid: Seq<char>, f: ItemView)
    requires
        sv_distinct(t),
    ensures
        t.len() <= upsert_view(t, fid, f).len() <= t.len() + 1,
        forall|i: int|
            0 <= i < t.len() ==> (#[trigger] upsert_view(t, fid, f)[i]).item.id == t[i].item.id
                && upsert_view(t, fid, f)[i].item.downloaded == t[i].item.downloaded,
        sv_distinct(upsert_view(t, fid, f)),
        sv_has_id(upsert_view(t, fid, f), f.id),
{
    let r = upsert_view(t, fid, f);
    match sv_idx(t, f.id, 0) {
        Some(i) => {
            lemma_sv_idx_some(t, f.id, 0, i);
            assert(r[i].item.id == f.id);
        },
        None => {
            lemma_sv_idx_none(t, f.id, 0);
            assert(r[t.len() as int].item.id == f.id);
        },
    }
}

/// A whole reconciliation pass keeps every previously stored identity and
/// its user-owned downloaded flag in place: no refresh ever resets it.
pub proof fn lemma_apply_preserves_downloaded(
    t: Seq<StoredItemView>,
    fid: Seq<char>,
    fs: Seq<ItemView>,
)
    requires
        sv_distinct(t),
    ensures
        t.len() <= apply_views(t, fid, fs).len(),
        forall|i: int|
            0 <= i < t.len() ==> (#[trigger] apply_views(t, fid, fs)[i]).item.id == t[i].item.id
                && apply_views(t, fid, fs)[i].item.downloaded == t[i].item.downloaded,
        sv_distinct(apply_views(t, fid, fs)),
    decreases fs.len(),
{
    if fs.len() > 0 {
        lemma_apply_preserves_downloaded(t, fid, fs.drop_last());
        lemma_upsert_frame(apply_views(t, fid, fs.drop_last()), fid, fs.last());
    }
}

/// After a pass, every fetched identity is stored.
proof fn lemma_apply_has_ids(t: Seq<StoredItemView>, fid: Seq<char>, fs: Seq<ItemView>, j: int)
    requires
        sv_distinct(t),
        0 <= j < fs.len(),
    ensures
        sv_has_id(apply_views(t, fid, fs), fs[j].id),
    decreases fs.len(),
{
    let r0 = apply_views(t, fid, fs.drop_last());
    lemma_apply_preserves_downloaded(t, fid, fs.drop_last());
    if j == fs.len() - 1 {
        lemma_upsert_frame(r0, fid, fs.last());
    } else {
        lemma_apply_has_ids(t, fid, fs.drop_last(), j);
        let k = choose|k: int| 0 <= k < r0.len() && (#[trigger] r0[k]).item.id == fs[j].id;
        lemma_upsert_frame(r0, fid, fs.last());
        assert(apply_views(t, fid, fs)[k].item.id == fs[j].id);
    }
}

/// With every fetched identity already stored, a pass changes no lengths.
proof fn lemma_apply_len_stable(t: Seq<StoredItemView>, fid: Seq<char>, fs: Seq<ItemView>)
    requires
        sv_distinct(t),
        forall|j: int| 0 <= j < fs.len() ==> sv_has_id(t, (#[trigger] fs[j]).id),
    ensures
        apply_views(t, fid, fs).len() == t.len(),
    decreases fs.len(),
{
    if fs.len() > 0 {
        assert forall|j: int| 0 <= j < fs.drop_last().len() implies sv_has_id(
            t,
            (#[trigger] fs.drop_last()[j]).id,
        ) by {
            assert(fs.drop_last()[j] == fs[j]);
        }
        lemma_apply_len_stable(t, fid, fs.drop_last());
        let r0 = apply_views(t, fid, fs.drop_last());
        lemma_apply_preserves_downloaded(t, fid, fs.drop_last());
        let g = fs.last();
        assert(g == fs[fs.len() - 1]);
        assert(sv_has_id(t, g.id));
        let k = choose|k: int| 0 <= k < t.len() && (#[trigger] t[k]).item.id == g.id;
        assert(r0[k].item.id == g.id);
        if sv_idx(r0, g.id, 0) is None {
            lemma_sv_idx_none(r0, g.id, 0);
            assert(r0[k].item.id != g.id);
            assert(false);
        }
        assert(r0.len() == t.len());
        match sv_idx(r0, g.id, 0) {
            Some(i0) => {
                lemma_sv_idx_some(r0, g.id, 0, i0);
                assert(upsert_view(r0, fid, g).len() == r0.len());
            },
            None => {
                assert(false);
            },
        }
        assert(apply_views(t, fid, fs) == upsert_view(r0, fid, g));
    }
}

/// What each originally stored position holds after a pass: the metadata
/// of the last fetched occurrence of its identity (with the stored
/// downloaded flag), or the original record when the pass never saw it.
proof fn lemma_apply_characterizes(
    t: Seq<StoredItemView>,
    fid: Seq<char>,
    fs: Seq<ItemView>,
    i: int,
)
    requires
        sv_distinct(t),
        0 <= i < t.len(),
    ensures
        apply_views(t, fid, fs)[i] == (match last_with_id(fs, t[i].item.id) {
            Some(f) => StoredItemView {
                feed_id: fid,
                item: ItemView { downloaded: t[i].item.downloaded, ..f },
            },
            None => t[i],
        }),
    decreases fs.len(),
{
    if fs.len() > 0 {
        lemma_apply_characterizes(t, fid, fs.drop_last(), i);
        let r0 = apply_views(t, fid, fs.drop_last());
        lemma_apply_preserves_downloaded(t, fid, fs.drop_last());
        let g = fs.last();
        if t[i].item.id == g.id {
            assert(r0[i].item.id == g.id);
            lemma_sv_idx_at(r0, g.id, 0, i);
            assert(sv_idx(r0, g.id, 0) == Some(i));
        } else {
            match sv_idx(r0, g.id, 0) {
                Some(i0) => {
                    lemma_sv_idx_some(r0, g.id, 0, i0);
                    assert(i0 != i);
                },
                None => {},
            }
        }
    }
}

/// What every stored position holds after a pass, including appended ones:
/// when the pass fetched its identity at all, the position carries the
/// last fetched metadata under the pass's feed.
proof fn lemma_apply_absorbed(t: Seq<StoredItemView>, fid: Seq<char>, fs: Seq<ItemView>, i: int)
    requires
        sv_distinct(t),
        0 <= i < apply_views(t, fid, fs).len(),
    ensures
        (match last_with_id(fs, apply_views(t, fid, fs)[i].item.id) {
            Some(f) => apply_views(t, fid, fs)[i] == StoredItemView {
                feed_id: fid,
                item: ItemView {
                    downloaded: apply_views(t, fid, fs)[i].item.downloaded,
                    ..f
                },
            },
            None => true,
        }),
    decreases fs.len(),
{
    let r = apply_views(t, fid, fs);
    if fs.len() > 0 {
        let r0 = apply_views(t, fid, fs.drop_last());
        lemma_apply_preserves_downloaded(t, fid, fs.drop_last());
        let g = fs.last();
        if r[i].item.id == g.id {
            match sv_idx(r0, g.id, 0) {
                Some(i0) => {
                    lemma_sv_idx_some(r0, g.id, 0, i0);
                    assert(r == r0.update(
                        i0,
                        StoredItemView {
                            feed_id: fid,
                            item: ItemView { downloaded: r0[i0].item.downloaded, ..g },
                        },
                    ));
                    assert(i == i0);
                    assert(r[i] =~= StoredItemView {
                        feed_id: fid,
                        item: ItemView { downloaded: r[i].item.downloaded, ..g },
                    });
                },
                None => {
                    lemma_sv_idx_none(r0, g.id, 0);
                    assert(r == r0.push(StoredItemView { feed_id: fid, item: g }));
                    assert(i == r0.len());
                    assert(r[i] =~= StoredItemView {
                        feed_id: fid,
                        item: ItemView { downloaded: r[i].item.downloaded, ..g },
                    });
                },
            }
        } else {
            if i < r0.len() {
                match sv_idx(r0, g.id, 0) {
                    Some(i0) => {
                        lemma_sv_idx_some(r0, g.id, 0, i0);
                        if i == i0 {
                            assert(r[i].item.id == g.id);
                            assert(false);
                        }
                        assert(r[i] == r0[i]);
                    },
                    None => {
                        assert(r[i] == r0[i]);
                    },
                }
                lemma_apply_absorbed(t, fid, fs.drop_last(), i);
            } else {
                match sv_idx(r0, g.id, 0) {
                    Some(i0) => {
                        lemma_sv_idx_some(r0, g.id, 0, i0);
                        assert(i < r.len());
                        assert(false);
                    },
                    None => {
                        assert(r == r0.push(StoredItemView { feed_id: fid, item: g }));
                        assert(r[i].item.id == g.id);
                        assert(false);
                    },
                }
            }
        }
    }
}

/// Reconciliation is idempotent: applying the same fetched item list twice
/// under the same feed yields exactly the state of applying it once, and —
/// by the frame above — flips no stored downloaded flag.
pub proof fn lemma_apply_idempotent(t: Seq<StoredItemView>, fid: Seq<char>, fs: Seq<ItemView>)
    requires
        sv_distinct(t),
    ensures
        apply_views(apply_views(t, fid, fs), fid, fs) == apply_views(t, fid, fs),
{
    let r = apply_views(t, fid, fs);
    lemma_apply_preserves_downloaded(t, fid, fs);
    assert forall|j: int| 0 <= j < fs.len() implies sv_has_id(r, (#[trigger] fs[j]).id) by {
        lemma_apply_has_ids(t, fid, fs, j);
    }
    lemma_apply_len_stable(r, fid, fs);
    let rr = apply_views(r, fid, fs);
    assert forall|i: int| 0 <= i < r.len() implies rr[i] == r[i] by {
        lemma_apply_characterizes(r, fid, fs, i);
        lemma_apply_absorbed(t, fid, fs, i);
        match last_with_id(fs, r[i].item.id) {
            Some(f) => {
                assert(rr[i] == StoredItemView {
                    feed_id: fid,
                    item: ItemView { downloaded: r[i].item.downloaded, ..f },
                });
            },
            None => {},
        }
    }
    assert(rr =~= r);
}

} // verus!
