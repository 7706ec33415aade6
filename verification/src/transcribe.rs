//! Transcription decisions: provider validation, model selection, and the
//! table of live transcription jobs with their cancellation tokens.
use vstd::prelude::*;
use vstd::string::*;

use crate::error::{AppError, AppResult};
use crate::manager::CancelToken;
use crate::text::{lower, starts_with_seq, starts_with_sub, str_eq, trim_copy, trim_spec};

verus! {

/// Maps a user-facing local model choice to the model file it needs; model
/// families the local backend cannot run, and unknown identifiers, are
/// refused with a descriptive message.
pub fn map_local_model_to_filename(model_id: &str) -> (r: Result<&'static str, String>)
    ensures
        match r {
            Ok(f) => {
                ||| model_id@ == "whisper-tiny"@ && f@ == "ggml-tiny.bin"@
                ||| model_id@ == "whisper-base"@ && f@ == "ggml-base.bin"@
                ||| model_id@ == "whisper-small"@ && f@ == "ggml-small.bin"@
                ||| model_id@ == "whisper-medium"@ && f@ == "ggml-medium.bin"@
                ||| model_id@ == "whisper-large-v3"@ && f@ == "ggml-large-v3.bin"@
                ||| model_id@ == "distil-whisper-large-v3"@ && f@ == "ggml-large-v3-turbo.bin"@
            },
            Err(m) => {
                &&& m@.len() > 0
                &&& model_id@ != "whisper-tiny"@
                &&& model_id@ != "whisper-base"@
                &&& model_id@ != "whisper-small"@
                &&& model_id@ != "whisper-medium"@
                &&& model_id@ != "whisper-large-v3"@
                &&& model_id@ != "distil-whisper-large-v3"@
            },
        },
{
    proof {
        reveal_strlit("this model is not supported by the local backend");
        reveal_strlit("unknown local model id");
    }
    if str_eq(model_id, "whisper-tiny") {
        Ok("ggml-tiny.bin")
    } else if str_eq(model_id, "whisper-base") {
        Ok("ggml-base.bin")
    } else if str_eq(model_id, "whisper-small") {
        Ok("ggml-small.bin")
    } else if str_eq(model_id, "whisper-medium") {
        Ok("ggml-medium.bin")
    } else if str_eq(model_id, "whisper-large-v3") {
        Ok("ggml-large-v3.bin")
    } else if str_eq(model_id, "distil-whisper-large-v3") {
        Ok("ggml-large-v3-turbo.bin")
    } else if str_eq(model_id, "faster-whisper-large-v3") || str_eq(model_id, "vosk-small") {
        Err(String::from_str("this model is not supported by the local backend"))
    } else {
        Err(String::from_str("unknown local model id"))
    }
}

/// Whether the ASCII-lowered file extension names an audio container that
/// can be handed to the transcriber without extraction.
pub open spec fn audio_extension(e: Seq<char>) -> bool {
    ||| lower(e) == "mp3"@
    ||| lower(e) == "wav"@
    ||| lower(e) == "m4a"@
    ||| lower(e) == "flac"@
    ||| lower(e) == "ogg"@
    ||| lower(e) == "opus"@
    ||| lower(e) == "aac"@
    ||| lower(e) == "wma"@
}

fn eq_lower(s: &str, p: &str) -> (r: bool)
    ensures
        r == (lower(s@) == p@),
{
    let n = s.unicode_len();
    let m = p.unicode_len();
    if n != m {
        return false;
    }
    let r = crate::text::match_at_lower(s, p, 0);
    proof {
        if crate::text::matches_at(lower(s@), p@, 0) {
            assert(lower(s@) =~= p@);
        }
    }
    r
}

pub fn is_audio_extension(ext: &str) -> (r: bool)
    ensures
        r == audio_extension(ext@),
{
    eq_lower(ext, "mp3") || eq_lower(ext, "wav") || eq_lower(ext, "m4a") || eq_lower(ext, "flac")
        || eq_lower(ext, "ogg") || eq_lower(ext, "opus") || eq_lower(ext, "aac") || eq_lower(
        ext,
        "wma",
    )
}

/// The source is remote (fetched first) rather than a local file path.
pub fn transcription_source_is_remote(source: &str) -> (r: bool)
    ensures
        r == (starts_with_seq(source@, "http://"@) || starts_with_seq(source@, "https://"@)),
{
    starts_with_sub(source, "http://") || starts_with_sub(source, "https://")
}

/// The model a transcription run uses: a nonempty per-job override wins
/// over the configured model.
pub fn choose_transcription_model(override_model: &str, api_model: &str) -> (r: String)
    ensures
        override_model@.len() > 0 ==> r@ == override_model@,
        override_model@.len() == 0 ==> r@ == api_model@,
{
    if override_model.unicode_len() > 0 {
        String::from_str(override_model)
    } else {
        String::from_str(api_model)
    }
}

/// The model name an API check uses: blank input falls back to the
/// default recognizer.
pub fn effective_api_model(model: &str) -> (r: String)
    ensures
        trim_spec(model@).len() == 0 ==> r@ == "whisper-1"@,
        trim_spec(model@).len() > 0 ==> r@ == trim_spec(model@),
{
    let t = trim_copy(model);
    if t.as_str().unicode_len() == 0 {
        String::from_str("whisper-1")
    } else {
        t
    }
}

/// Local transcription needs both a recognizer binary and a model file
/// configured; either missing is a validation failure before any work.
pub fn validate_local_transcription(whisper_cpp: &str, whisper_model: &str) -> (r: AppResult<()>)
    ensures
        r is Ok <==> whisper_cpp@.len() > 0 && whisper_model@.len() > 0,
        r matches Err(e) ==> e is Validation,
{
    if whisper_cpp.unicode_len() == 0 || whisper_model.unicode_len() == 0 {
        proof {
            reveal_strlit("local transcription needs a recognizer binary and a model file");
        }
        Err(
            AppError::Validation(
                String::from_str(
                    "local transcription needs a recognizer binary and a model file",
                ),
            ),
        )
    } else {
        Ok(())
    }
}

/// The API key must be present before a remote transcription is attempted.
pub fn validate_api_transcription(api_key: &str) -> (r: AppResult<()>)
    ensures
        r is Ok <==> trim_spec(api_key@).len() > 0,
        r matches Err(e) ==> e is Validation,
{
    let t = trim_copy(api_key);
    if t.as_str().unicode_len() == 0 {
        proof {
            reveal_strlit("the API key is missing");
        }
        Err(AppError::Validation(String::from_str("the API key is missing")))
    } else {
        Ok(())
    }
}

/// Where a model file is fetched from.
pub fn whisper_model_url(filename: &str) -> (r: String)
    ensures
        r@ == "https://huggingface.co/ggerganov/whisper.cpp/resolve/main/"@ + filename@
            + "?download=true"@,
{
    let mut r = String::from_str("https://huggingface.co/ggerganov/whisper.cpp/resolve/main/");
    r.append(filename);
    r.append("?download=true");
    r
}

/// One live transcription job's cancellation handle.
pub struct TranscriptionJob {
    pub id: String,
    pub cancel_token: CancelToken,
}

/// The first index whose job carries the given identity.
pub open spec fn tj_idx(s: Seq<TranscriptionJob>, id: Seq<char>, i: int) -> Option<int>
    decreases s.len() - i,
{
    if i < 0 || i >= s.len() {
        None
    } else if s[i].id@ == id {
        Some(i)
    } else {
        tj_idx(s, id, i + 1)
    }
}

proof fn lemma_tj_idx(s: Seq<TranscriptionJob>, id: Seq<char>, i: int, b: int)
    requires
        0 <= i <= b <= s.len(),
        forall|k: int| i <= k < b ==> s[k].id@ != id,
        b < s.len() ==> s[b].id@ == id,
    ensures
        tj_idx(s, id, i) == if b < s.len() {
            Some(b)
        } else {
            None::<int>
        },
    decreases b - i,
{
    if i < b {
        lemma_tj_idx(s, id, i + 1, b);
    }
}

/// The table of live transcription jobs. At most one per identity.
pub struct TranscriptionJobs {
    pub jobs: Vec<TranscriptionJob>,
}

impl TranscriptionJobs {
    /// Job identities are unique.
    pub open spec fn wf(&self) -> bool {
        forall|i: int, j: int|
            0 <= i < j < self.jobs@.len() ==> (#[trigger] self.jobs@[i]).id@ != (
            #[trigger] self.jobs@[j]).id@
    }

    /// An empty table.
    pub fn new() -> (r: TranscriptionJobs)
        ensures
            r.wf(),
            r.jobs@.len() == 0,
    {
        TranscriptionJobs { jobs: Vec::new() }
    }

    /// The position of the job with the given identity.
    pub fn find_job(&self, id: &str) -> (r: Option<usize>)
        ensures
            match r {
                Some(i) => tj_idx(self.jobs@, id@, 0) == Some(i as int) && i < self.jobs@.len()
                    && self.jobs@[i as int].id@ == id@,
                None => tj_idx(self.jobs@, id@, 0) is None && forall|k: int|
                    0 <= k < self.jobs@.len() ==> (#[trigger] self.jobs@[k]).id@ != id@,
            },
    {
        let n = self.jobs.len();
        let mut i: usize = 0;
        while i < n
            invariant
                n == self.jobs@.len(),
                i <= n,
                forall|k: int| 0 <= k < i ==> (#[trigger] self.jobs@[k]).id@ != id@,
            decreases n - i,
        {
            if str_eq(self.jobs[i].id.as_str(), id) {
                proof {
                    lemma_tj_idx(self.jobs@, id@, 0, i as int);
                }
                return Some(i);
            }
            i += 1;
        }
        proof {
            lemma_tj_idx(self.jobs@, id@, 0, n as int);
        }
        None
    }

    /// Registers a freshly started job; a duplicate identity is refused.
    pub fn insert_job(&mut self, job: TranscriptionJob) -> (r: bool)
        requires
            old(self).wf(),
        ensures
            final(self).wf(),
            r == (tj_idx(old(self).jobs@, job.id@, 0) is None),
            if r {
                final(self).jobs@ == old(self).jobs@.push(job)
            } else {
                final(self).jobs@ == old(self).jobs@
            },
    {
        if self.find_job(job.id.as_str()).is_some() {
            return false;
        }
        self.jobs.push(job);
        true
    }

    /// Signals a job's token and removes its record: what deleting a
    /// transcript does to a still-running job. Reports whether a job was
    /// there.
    pub fn cancel_remove(&mut self, id: &str) -> (r: bool)
        requires
            old(self).wf(),
        ensures
            final(self).wf(),
            r == (tj_idx(old(self).jobs@, id@, 0) is Some),
            forall|k: int|
                0 <= k < final(self).jobs@.len() ==> (#[trigger] final(self).jobs@[k]).id@ != id@,
            tj_idx(old(self).jobs@, id@, 0) is None ==> final(self).jobs@ == old(self).jobs@,
    {
        match self.find_job(id) {
            Some(i) => {
                self.jobs[i].cancel_token.set();
                self.jobs.remove(i);
                proof {
                    let pre = old(self).jobs@;
                    lemma_tj_idx_first(pre, id@, i as int);
                    assert forall|k: int| 0 <= k < final(self).jobs@.len() implies (
                    #[trigger] final(self).jobs@[k]).id@ != id@ by {
                        if k >= i {
                            assert(final(self).jobs@[k] == pre[k + 1]);
                        }
                    }
                }
                true
            },
            None => false,
        }
    }
}

proof fn lemma_tj_idx_first(s: Seq<TranscriptionJob>, id: Seq<char>, i: int)
    requires
        tj_idx(s, id, 0) == Some(i),
    ensures
        0 <= i < s.len(),
        s[i].id@ == id,
        forall|k: int| 0 <= k < i ==> (#[trigger] s[k]).id@ != id,
{
    lemma_tj_idx_first_from(s, id, 0, i);
}

proof fn lemma_tj_idx_first_from(s: Seq<TranscriptionJob>, id: Seq<char>, j: int, i: int)
    requires
        0 <= j,
        tj_idx(s, id, j) == Some(i),
    ensures
        j <= i < s.len(),
        s[i].id@ == id,
        forall|k: int| j <= k < i ==> (#[trigger] s[k]).id@ != id,
    decreases s.len() - j,
{
    if j < s.len() && s[j].id@ != id {
        lemma_tj_idx_first_from(s, id, j + 1, i);
    }
}

} // verus!
