//! Process-runner decisions: the argument list one subprocess invocation is
//! built from, and the classification of how a run ended.
use vstd::prelude::*;
use vstd::string::*;

use crate::validate::{sanitize_ytdlp_flags, surviving_flags};

verus! {

/// The views of a list of argument strings.
pub open spec fn arg_views(s: Seq<String>) -> Seq<Seq<char>> {
    s.map_values(|x: String| x@)
}

/// The format-selection arguments: an explicit selector is passed through,
/// while `best` and an absent selector both mean the best available stream
/// pair.
pub open spec fn format_args_spec(format_id: Option<Seq<char>>) -> Seq<Seq<char>> {
    match format_id {
        Some(f) => if f == "best"@ {
            seq!["-f"@, "bestvideo+bestaudio/best"@]
        } else {
            seq!["-f"@, f]
        },
        None => seq!["-f"@, "bestvideo+bestaudio/best"@],
    }
}

/// The whole invocation: the fixed template (line-wise progress, converter
/// location, output template, a final print-the-path directive), the format
/// selection, the merge format, the caller flags that survive the denylist,
/// and the source URL last.
pub open spec fn download_args_spec(
    ffmpeg: Seq<char>,
    output_template: Seq<char>,
    format_id: Option<Seq<char>>,
    extra: Seq<String>,
    url: Seq<char>,
) -> Seq<Seq<char>> {
    seq![
        "--newline"@,
        "--progress"@,
        "--no-warnings"@,
        "--ffmpeg-location"@,
        ffmpeg,
        "-o"@,
        output_template,
        "--print"@,
        "after_move:filepath"@,
    ] + format_args_spec(format_id) + seq!["--merge-output-format"@, "mp4"@] + arg_views(
        surviving_flags(extra),
    ) + seq![url]
}

/// The output template under the chosen directory.
pub open spec fn output_template_spec(output_dir: Seq<char>) -> Seq<char> {
    output_dir + "/%(title)s.%(ext)s"@
}

/// Builds the subprocess argument list. The caller-supplied extra flags are
/// passed through the denylist first: whatever the caller sends, no
/// exec-family, batch-file or config-redirection flag reaches the
/// invocation.
pub fn build_download_args(
    ffmpeg: &str,
    output_dir: &str,
    format_id: &Option<String>,
    extra: &Vec<String>,
    url: &str,
) -> (r: Vec<String>)
    ensures
        arg_views(r@) == download_args_spec(
            ffmpeg@,
            output_template_spec(output_dir@),
            match format_id {
                Some(f) => Some(f@),
                None => None,
            },
            extra@,
            url@,
        ),
{
    let mut args: Vec<String> = Vec::new();
    args.push(String::from_str("--newline"));
    args.push(String::from_str("--progress"));
    args.push(String::from_str("--no-warnings"));
    args.push(String::from_str("--ffmpeg-location"));
    args.push(String::from_str(ffmpeg));
    args.push(String::from_str("-o"));
    let mut template = String::from_str(output_dir);
    template.append("/%(title)s.%(ext)s");
    args.push(template);
    args.push(String::from_str("--print"));
    args.push(String::from_str("after_move:filepath"));
    args.push(String::from_str("-f"));
    match format_id {
        Some(f) => {
            if str_eq_best(f.as_str()) {
                args.push(String::from_str("bestvideo+bestaudio/best"));
            } else {
                args.push(f.clone());
            }
        },
        None => {
            args.push(String::from_str("bestvideo+bestaudio/best"));
        },
    }
    args.push(String::from_str("--merge-output-format"));
    args.push(String::from_str("mp4"));
    let mut kept = sanitize_ytdlp_flags(extra);
    args.append(&mut kept);
    args.push(String::from_str(url));
    proof {
        assert(arg_views(args@) =~= download_args_spec(
            ffmpeg@,
            output_template_spec(output_dir@),
            match format_id {
                Some(f) => Some(f@),
                None => None,
            },
            extra@,
            url@,
        ));
    }
    args
}

/// Whether the selector is the word that asks for the best stream pair.
fn str_eq_best(s: &str) -> (r: bool)
    ensures
        r == (s@ == "best"@),
{
    crate::text::str_eq(s, "best")
}

/// How one run ended: a zero exit with the path it reported, a distinct
/// cancellation, or a failure with its human-readable message.
pub enum RunOutcome {
    Completed { output_path: String },
    Cancelled,
    Failed { message: String },
}

/// Classifies a finished run. Cancellation wins over whatever the exit
/// said; a zero exit succeeds even without a reported path, falling back to
/// the job's own identifier; a nonzero exit fails with the given detail.
pub fn classify_run_exit(
    cancelled: bool,
    exit_success: bool,
    captured_path: &str,
    exit_detail: &str,
    download_id: &str,
) -> (r: RunOutcome)
    ensures
        cancelled ==> r is Cancelled,
        !cancelled && exit_success ==> (r matches RunOutcome::Completed { output_path } && if captured_path@.len() > 0 {
            output_path@ == captured_path@
        } else {
            output_path@ == download_id@
        }),
        !cancelled && !exit_success ==> (r matches RunOutcome::Failed { message } && message@
            == "subprocess exited with an error: "@ + exit_detail@),
{
    if cancelled {
        RunOutcome::Cancelled
    } else if exit_success {
        if captured_path.unicode_len() > 0 {
            RunOutcome::Completed { output_path: String::from_str(captured_path) }
        } else {
            RunOutcome::Completed { output_path: String::from_str(download_id) }
        }
    } else {
        let mut m = String::from_str("subprocess exited with an error: ");
        m.append(exit_detail);
        RunOutcome::Failed { message: m }
    }
}

/// The views of the extra flags assembled from the stored settings: the
/// user's flags after the denylist, the embedding switches, and the
/// browser-cookie selection when one is configured.
pub open spec fn extra_flags_spec(
    user_flags: Seq<String>,
    embed_thumbnail: bool,
    embed_metadata: bool,
    browser_cookies: Seq<char>,
) -> Seq<Seq<char>> {
    arg_views(surviving_flags(user_flags)) + (if embed_thumbnail {
        seq!["--embed-thumbnail"@]
    } else {
        Seq::empty()
    }) + (if embed_metadata {
        seq!["--embed-metadata"@]
    } else {
        Seq::empty()
    }) + (if browser_cookies != "none"@ && browser_cookies.len() > 0 {
        seq!["--cookies-from-browser"@, browser_cookies]
    } else {
        Seq::empty()
    })
}

/// Assembles the caller-side extra flags of one invocation from the
/// stored settings, stripping the denylisted options first.
pub fn assemble_extra_flags(
    user_flags: &Vec<String>,
    embed_thumbnail: bool,
    embed_metadata: bool,
    browser_cookies: &str,
) -> (r: Vec<String>)
    ensures
        arg_views(r@) == extra_flags_spec(
            user_flags@,
            embed_thumbnail,
            embed_metadata,
            browser_cookies@,
        ),
{
    let mut out = sanitize_ytdlp_flags(user_flags);
    if embed_thumbnail {
        out.push(String::from_str("--embed-thumbnail"));
    }
    if embed_metadata {
        out.push(String::from_str("--embed-metadata"));
    }
    let cookies_set = !crate::text::str_eq(browser_cookies, "none")
        && browser_cookies.unicode_len() > 0;
    if cookies_set {
        out.push(String::from_str("--cookies-from-browser"));
        out.push(String::from_str(browser_cookies));
    }
    proof {
        assert(arg_views(out@) =~= extra_flags_spec(
            user_flags@,
            embed_thumbnail,
            embed_metadata,
            browser_cookies@,
        ));
    }
    out
}

} // verus!
