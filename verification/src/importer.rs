//! Folder-import bookkeeping: which files count as audio, the codec a file
//! extension names, and the summary an import run reports.

use vstd::prelude::*;
use crate::text::{lower, lower_seq, chars_of, char_lower, str_eq, string_of};
use crate::filename_parser::opt_view;

verus! {

/// Aggregate result of a folder import.
#[derive(Debug, Clone)]
pub struct ImportSummary {
    /// Files that produced a new track.
    pub added: u32,
    /// Always `0`: duplicates are not merged at import time.
    pub merged: u32,
    /// Always `0`: duplicates are not merged at import time.
    pub sibling_versions: u32,
    /// Files already known by volume and path, whose metadata was refreshed.
    pub refreshed: u32,
    /// Files skipped because reading them failed.
    pub skipped: u32,
    /// Per-file failures.
    pub errors: Vec<ImportError>,
}

/// One per-file failure of an import.
#[derive(Debug, Clone)]
pub struct ImportError {
    /// The path that failed.
    pub path: String,
    /// Short human-readable reason.
    pub reason: String,
}

impl Default for ImportSummary {
    /// An empty summary: every count zero, no errors.
    fn default() -> (s: ImportSummary)
        ensures
            s.added == 0 && s.merged == 0 && s.sibling_versions == 0 && s.refreshed == 0 && s.skipped == 0,
            s.errors@.len() == 0,
    {
        ImportSummary { added: 0, merged: 0, sibling_versions: 0, refreshed: 0, skipped: 0, errors: Vec::new() }
    }
}

/// What `Path::extension` gives for a path: the text after the last `.` of
/// its file name (`None` when the name has no such dot, or only a leading
/// one).
pub uninterp spec fn extension_of(path: Seq<char>) -> Option<Seq<char>>;

/// `Path::extension`, read as text (`None` also for a non-UTF-8 extension).
#[verifier::external_body]
fn path_extension(path: &str) -> (r: Option<String>)
    ensures
        opt_view(r) == extension_of(path@),
{
    std::path::Path::new(path).extension().and_then(|s| s.to_str()).map(|s| s.to_string())
}

/// The file extensions recognised as audio, lower-case.
pub open spec fn audio_ext(e: Seq<char>) -> bool {
    ||| e == "wav"@
    ||| e == "mp3"@
    ||| e == "flac"@
    ||| e == "aif"@
    ||| e == "aiff"@
    ||| e == "m4a"@
    ||| e == "alac"@
    ||| e == "aac"@
}

/// The codec stored for a lower-case extension.
pub open spec fn codec_of(e: Seq<char>) -> Option<Seq<char>> {
    if e == "wav"@ {
        Some("wav"@)
    } else if e == "mp3"@ {
        Some("mp3"@)
    } else if e == "flac"@ {
        Some("flac"@)
    } else if e == "aif"@ || e == "aiff"@ {
        Some("aiff"@)
    } else if e == "m4a"@ || e == "alac"@ {
        Some("alac"@)
    } else if e == "aac"@ {
        Some("aac"@)
    } else {
        None
    }
}

/// A path's extension, ASCII-lower-cased.
pub open spec fn lower_extension(path: Seq<char>) -> Option<Seq<char>> {
    match extension_of(path) {
        Some(e) => Some(lower_seq(e)),
        None => None,
    }
}

fn ascii_lowercase(s: &str) -> (r: String)
    ensures
        r@ == lower_seq(s@),
{
    let v = chars_of(s);
    let mut out: Vec<char> = Vec::new();
    let mut k: usize = 0;
    while k < v.len()
        invariant
            0 <= k <= v@.len(),
            v@ == s@,
            out@ == lower_seq(v@.subrange(0, k as int)),
        decreases v.len() - k,
    {
        out.push(char_lower(v[k]));
        k = k + 1;
        proof {
            assert(out@ =~= lower_seq(v@.subrange(0, k as int)));
        }
    }
    proof {
        assert(v@.subrange(0, v@.len() as int) =~= v@);
    }
    string_of(&out)
}

fn lower_ext(path: &str) -> (r: Option<String>)
    ensures
        opt_view(r) == lower_extension(path@),
{
    match path_extension(path) {
        Some(e) => Some(ascii_lowercase(e.as_str())),
        None => None,
    }
}

/// Whether a path names an audio file by its extension (any case).
pub fn has_audio_extension(path: &str) -> (r: bool)
    ensures
        r == (lower_extension(path@) matches Some(e) && audio_ext(e)),
{
    match lower_ext(path) {
        Some(e) => {
            let s = e.as_str();
            str_eq(s, "wav") || str_eq(s, "mp3") || str_eq(s, "flac") || str_eq(s, "aif") || str_eq(s, "aiff")
                || str_eq(s, "m4a") || str_eq(s, "alac") || str_eq(s, "aac")
        },
        None => false,
    }
}

/// The codec name stored for a file, from its extension (any case).
pub fn detect_codec_from_extension(path: &str) -> (r: Option<&'static str>)
    ensures
        r.is_some() == (lower_extension(path@) matches Some(e) && codec_of(e).is_some()),
        r matches Some(c) ==> (lower_extension(path@) matches Some(e) && c@ == codec_of(e).unwrap()),
{
    let e = match lower_ext(path) {
        Some(e) => e,
        None => return None,
    };
    let s = e.as_str();
    if str_eq(s, "wav") {
        Some("wav")
    } else if str_eq(s, "mp3") {
        Some("mp3")
    } else if str_eq(s, "flac") {
        Some("flac")
    } else if str_eq(s, "aif") || str_eq(s, "aiff") {
        Some("aiff")
    } else if str_eq(s, "m4a") || str_eq(s, "alac") {
        Some("alac")
    } else if str_eq(s, "aac") {
        Some("aac")
    } else {
        None
    }
}

/// Every extension that names a codec is an audio extension, and every
/// audio extension names a codec.
pub proof fn lemma_audio_iff_codec(e: Seq<char>)
    ensures
        audio_ext(e) <==> codec_of(e).is_some(),
{
}

/// What importing one file came to.
#[derive(Debug, Clone)]
pub enum FileOutcome {
    /// A new track was registered.
    Added,
    /// The file was known by volume and path; its metadata was refreshed.
    Refreshed,
    /// Importing it failed, for this reason.
    Failed(String),
}

/// Which entries of the folder walk are imported: regular files with an
/// audio extension.
pub fn should_import(path: &str, is_file: bool) -> (r: bool)
    ensures
        r == (is_file && (lower_extension(path@) matches Some(e) && audio_ext(e))),
{
    is_file && has_audio_extension(path)
}

/// The summary with one file's outcome counted: an added or refreshed file
/// counts as such; a failed one counts as skipped and records its reason.
pub fn record_outcome(summary: &mut ImportSummary, path: String, outcome: FileOutcome)
    requires
        outcome is Added ==> old(summary).added < u32::MAX,
        outcome is Refreshed ==> old(summary).refreshed < u32::MAX,
        outcome is Failed ==> old(summary).skipped < u32::MAX,
    ensures
        final(summary).merged == old(summary).merged,
        final(summary).sibling_versions == old(summary).sibling_versions,
        final(summary).added == old(summary).added + (if outcome is Added { 1int } else { 0int }),
        final(summary).refreshed == old(summary).refreshed + (if outcome is Refreshed { 1int } else { 0int }),
        final(summary).skipped == old(summary).skipped + (if outcome is Failed { 1int } else { 0int }),
        outcome matches FileOutcome::Failed(reason) ==> final(summary).errors@ == old(summary).errors@.push(
            ImportError { path, reason },
        ),
        !(outcome is Failed) ==> final(summary).errors@ == old(summary).errors@,
{
    match outcome {
        FileOutcome::Added => {
            summary.added = summary.added + 1;
        },
        FileOutcome::Refreshed => {
            summary.refreshed = summary.refreshed + 1;
        },
        FileOutcome::Failed(reason) => {
            summary.errors.push(ImportError { path, reason });
            summary.skipped = summary.skipped + 1;
        },
    }
}

/// The reason recorded for an entry the walk could not read.
pub open spec fn walk_error_reason(message: Seq<char>) -> Seq<char> {
    "walk error: "@ + message
}

/// The summary with an unreadable walk entry counted: it counts as skipped
/// and records `walk error: <message>`.
pub fn record_walk_error(summary: &mut ImportSummary, path: String, message: &str)
    requires
        old(summary).skipped < u32::MAX,
    ensures
        final(summary).added == old(summary).added,
        final(summary).merged == old(summary).merged,
        final(summary).sibling_versions == old(summary).sibling_versions,
        final(summary).refreshed == old(summary).refreshed,
        final(summary).skipped == old(summary).skipped + 1,
        final(summary).errors@.len() == old(summary).errors@.len() + 1,
        final(summary).errors@.drop_last() == old(summary).errors@,
        final(summary).errors@.last().path == path,
        final(summary).errors@.last().reason@ == walk_error_reason(message@),
{
    let mut text = chars_of("walk error: ");
    let tail = chars_of(message);
    let mut k: usize = 0;
    let ghost head = text@;
    while k < tail.len()
        invariant
            0 <= k <= tail@.len(),
            head == "walk error: "@,
            tail@ == message@,
            text@ == head + tail@.subrange(0, k as int),
        decreases tail.len() - k,
    {
        text.push(tail[k]);
        k = k + 1;
        proof {
            assert(text@ =~= head + tail@.subrange(0, k as int));
        }
    }
    proof {
        assert(tail@.subrange(0, tail@.len() as int) =~= tail@);
    }
    summary.errors.push(ImportError { path, reason: string_of(&text) });
    summary.skipped = summary.skipped + 1;
    proof {
        assert(summary.errors@.drop_last() =~= old(summary).errors@);
    }
}

/// The track a file is imported under: the track already registered for
/// its volume and path, if any (a re-import refreshes it and adds nothing),
/// otherwise a new track under `fresh_id`. The flag says whether a track was
/// added.
pub fn track_for_file(registered_owner: Option<String>, fresh_id: String) -> (r: (String, bool))
    ensures
        registered_owner matches Some(o) ==> r.0 == o && !r.1,
        registered_owner is None ==> r.0 == fresh_id && r.1,
{
    match registered_owner {
        Some(owner) => (owner, false),
        None => (fresh_id, true),
    }
}

} // verus!
