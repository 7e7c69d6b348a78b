//! Extended M3U8 playlist text.
//!
//! The universal, deliberately lossy format: a playlist is file paths in
//! order and a display label per entry, nothing else. UTF-8 throughout (the
//! `8`), absolute paths (a library spans volumes).

use vstd::prelude::*;
use crate::num::{int_display, i64_text};
use crate::filename_parser::opt_view;

verus! {

/// What `Path::file_stem` gives for a path: its last component without the
/// final extension (`None` when the path has no file name).
pub uninterp spec fn file_stem_of(path: Seq<char>) -> Option<Seq<char>>;

/// `Path::file_stem`, read as text.
#[verifier::external_body]
fn file_stem(path: &str) -> (r: Option<String>)
    ensures
        opt_view(r) == file_stem_of(path@),
{
    std::path::Path::new(path).file_stem().map(|s| s.to_string_lossy().into_owned())
}

/// One playlist entry. The length is whole seconds, `-1` when unknown.
#[derive(Debug, Clone)]
pub struct M3uEntry {
    /// Absolute path to the audio file.
    pub path: String,
    /// Display artist, if known.
    pub artist: Option<String>,
    /// Display title, if known.
    pub title: Option<String>,
    /// Length in whole seconds; `-1` for unknown.
    pub length_secs: i64,
}

/// `Artist - Title`, degrading to whichever half exists, and finally to the
/// file name without its extension (`Unknown` when there is none).
pub open spec fn display_name_spec(e: M3uEntry) -> Seq<char> {
    match (opt_view(e.artist), opt_view(e.title)) {
        (Some(a), Some(t)) => a + " - "@ + t,
        (None, Some(t)) => t,
        (Some(a), None) => a,
        (None, None) => match file_stem_of(e.path@) {
            Some(s) => s,
            None => "Unknown"@,
        },
    }
}

/// The two lines of one entry: `#EXTINF:<secs>,<label>` and the path.
pub open spec fn entry_text(e: M3uEntry) -> Seq<char> {
    "#EXTINF:"@ + int_display(e.length_secs as int) + ","@ + display_name_spec(e) + "\n"@ + e.path@ + "\n"@
}

/// The entries' lines, in order.
pub open spec fn entries_text(es: Seq<M3uEntry>) -> Seq<char>
    decreases es.len(),
{
    if es.len() == 0 {
        Seq::empty()
    } else {
        entries_text(es.drop_last()) + entry_text(es.last())
    }
}

/// The whole playlist: the `#EXTM3U` header, then each entry.
pub open spec fn playlist_text(es: Seq<M3uEntry>) -> Seq<char> {
    "#EXTM3U\n"@ + entries_text(es)
}

/// The entries of two lists, rendered one list after the other, are the
/// rendering of the joined list.
pub proof fn lemma_entries_text_concat(a: Seq<M3uEntry>, b: Seq<M3uEntry>)
    ensures
        entries_text(a + b) == entries_text(a) + entries_text(b),
    decreases b.len(),
{
    if b.len() == 0 {
        assert(a + b =~= a);
        assert(entries_text(a) + entries_text(b) =~= entries_text(a));
    } else {
        lemma_entries_text_concat(a, b.drop_last());
        assert((a + b).drop_last() =~= a + b.drop_last());
        assert((a + b).last() == b.last());
        assert(entries_text(a) + entries_text(b) =~= entries_text(a) + entries_text(b.drop_last())
            + entry_text(b.last()));
    }
}

/// The playlist is the header followed by the entries' lines in input
/// order: an empty list is the header alone, appending an entry appends
/// its lines, and entry `i`'s lines stand after those of every earlier
/// entry and before those of every later one.
pub proof fn lemma_playlist_in_order(es: Seq<M3uEntry>, e: M3uEntry, i: int)
    ensures
        playlist_text(Seq::empty()) == "#EXTM3U\n"@,
        playlist_text(es.push(e)) == playlist_text(es) + entry_text(e),
        0 <= i < es.len() ==> playlist_text(es) == "#EXTM3U\n"@ + entries_text(es.take(i))
            + entry_text(es[i]) + entries_text(es.skip(i + 1)),
{
    assert(es.push(e).drop_last() =~= es);
    assert(playlist_text(Seq::empty()) =~= "#EXTM3U\n"@);
    assert(playlist_text(es.push(e)) =~= playlist_text(es) + entry_text(e));
    if 0 <= i < es.len() {
        let one = seq![es[i]];
        assert(one.drop_last() =~= Seq::<M3uEntry>::empty());
        assert(entries_text(one) =~= entry_text(es[i]));
        lemma_entries_text_concat(es.take(i), one);
        lemma_entries_text_concat(es.take(i) + one, es.skip(i + 1));
        assert(es.take(i) + one + es.skip(i + 1) =~= es);
        assert(playlist_text(es) =~= "#EXTM3U\n"@ + entries_text(es.take(i)) + entry_text(es[i])
            + entries_text(es.skip(i + 1)));
    }
}

/// The display label of an entry.
pub fn display_name(e: &M3uEntry) -> (s: String)
    ensures
        s@ == display_name_spec(*e),
{
    match (&e.artist, &e.title) {
        (Some(a), Some(t)) => {
            let mut s = a.clone();
            s.append(" - ");
            s.append(t.as_str());
            s
        },
        (None, Some(t)) => t.clone(),
        (Some(a), None) => a.clone(),
        (None, None) => match file_stem(e.path.as_str()) {
            Some(s) => s,
            None => String::from_str("Unknown"),
        },
    }
}

/// The text of an extended M3U8 playlist.
pub fn render_m3u8(entries: &[M3uEntry]) -> (text: String)
    ensures
        text@ == playlist_text(entries@),
{
    let mut out = String::from_str("#EXTM3U\n");
    let mut k: usize = 0;
    proof {
        assert(entries@.subrange(0, 0) =~= Seq::<M3uEntry>::empty());
        assert(out@ =~= "#EXTM3U\n"@ + entries_text(entries@.subrange(0, 0)));
    }
    while k < entries.len()
        invariant
            0 <= k <= entries@.len(),
            out@ == "#EXTM3U\n"@ + entries_text(entries@.subrange(0, k as int)),
        decreases entries.len() - k,
    {
        let e = &entries[k];
        let ghost before = out@;
        out.append("#EXTINF:");
        out.append(i64_text(e.length_secs).as_str());
        out.append(",");
        out.append(display_name(e).as_str());
        out.append("\n");
        out.append(e.path.as_str());
        out.append("\n");
        proof {
            let next = entries@.subrange(0, k + 1);
            assert(next.drop_last() =~= entries@.subrange(0, k as int));
            assert(next.last() == entries@[k as int]);
            assert(out@ =~= before + entry_text(entries@[k as int]));
        }
        k = k + 1;
    }
    proof {
        assert(entries@.subrange(0, entries@.len() as int) =~= entries@);
    }
    out
}

} // verus!
