//! Selection of Serato's `GEOB` frames.
//!
//! Serato stores its per-track data as ID3v2 `GEOB` frames keyed by a
//! description string (`Serato BeatGrid`, `Serato Markers2`, `Serato
//! Autotags`, ...). Reading the tag off the file is the caller's I/O; this
//! module decides which containers carry an ID3 tag and which frames are
//! Serato's, and picks a frame by description.

use vstd::prelude::*;
use crate::text::{chars_of, str_eq};
use crate::serato::database::copy_bytes;

verus! {

/// GEOB description for the beat grid.
pub const BEATGRID: &'static str = "Serato BeatGrid";

/// GEOB description for the cues / loops (modern format).
pub const MARKERS2: &'static str = "Serato Markers2";

/// GEOB description for the BPM / gain auto-tags.
pub const AUTOTAGS: &'static str = "Serato Autotags";

/// Extensions (lower-cased) whose container holds an ID3 tag: MP3, AIFF and
/// WAV. MP4 and FLAC keep Serato data in other containers.
pub open spec fn id3_ext(ext: Seq<char>) -> bool {
    ext == "mp3"@ || ext == "aif"@ || ext == "aiff"@ || ext == "wav"@
}

/// Whether a file with this lower-cased extension carries its Serato data
/// in an ID3 tag.
pub fn has_id3_container(ext: &str) -> (b: bool)
    ensures
        b == id3_ext(ext@),
{
    str_eq(ext, "mp3") || str_eq(ext, "aif") || str_eq(ext, "aiff") || str_eq(ext, "wav")
}

/// The description names a Serato frame (starts with `Serato`).
pub open spec fn is_serato_description(d: Seq<char>) -> bool {
    d.len() >= 6 && d.take(6) == "Serato"@
}

pub open spec fn geobs_view(v: Seq<(String, Vec<u8>)>) -> Seq<(Seq<char>, Seq<u8>)> {
    v.map_values(|g: (String, Vec<u8>)| (g.0@, g.1@))
}

/// The Serato frames of a tag's `(description, bytes)` objects, in order.
pub fn serato_geobs(objects: &[(String, Vec<u8>)]) -> (r: Vec<(String, Vec<u8>)>)
    ensures
        geobs_view(r@) == geobs_view(objects@).filter(
            |g: (Seq<char>, Seq<u8>)| is_serato_description(g.0),
        ),
{
    let prefix = chars_of("Serato");
    proof {
        reveal_strlit("Serato");
    }
    let ghost all = geobs_view(objects@);
    let mut out: Vec<(String, Vec<u8>)> = Vec::new();
    let mut i: usize = 0;
    while i < objects.len()
        invariant
            prefix@ == "Serato"@,
            prefix@.len() == 6,
            0 <= i <= objects@.len(),
            all == geobs_view(objects@),
            geobs_view(out@) == all.take(i as int).filter(
                |g: (Seq<char>, Seq<u8>)| is_serato_description(g.0),
            ),
        decreases objects.len() - i,
    {
        let d = chars_of(objects[i].0.as_str());
        let mut is_serato = d.len() >= 6;
        let mut k: usize = 0;
        while is_serato && k < 6
            invariant
                prefix@ == "Serato"@,
                prefix@.len() == 6,
                is_serato ==> d@.len() >= 6 && k <= 6 && forall|m: int| 0 <= m < k ==> d@[m] == prefix@[m],
                !is_serato ==> !(d@.len() >= 6 && d@.take(6) == "Serato"@),
            decreases 6 - k,
        {
            if d[k] != prefix[k] {
                proof {
                    assert(d@.take(6)[k as int] == d@[k as int]);
                }
                is_serato = false;
            }
            k = k + 1;
        }
        proof {
            if is_serato {
                assert(d@.take(6) =~= "Serato"@);
            }
            reveal_with_fuel(Seq::filter, 1);
            assert(all.take(i + 1).drop_last() =~= all.take(i as int));
            assert(all[i as int] == (objects@[i as int].0@, objects@[i as int].1@));
        }
        let ghost pv = geobs_view(out@);
        if is_serato {
            let name = objects[i].0.clone();
            let bytes = copy_bytes(objects[i].1.as_slice(), 0, objects[i].1.len());
            proof {
                assert(objects@[i as int].1@.subrange(0, objects@[i as int].1@.len() as int) =~= objects@[i as int].1@);
            }
            out.push((name, bytes));
            proof {
                assert(geobs_view(out@) =~= pv.push((objects@[i as int].0@, objects@[i as int].1@)));
            }
        }
        i = i + 1;
    }
    proof {
        assert(all.take(objects@.len() as int) =~= all);
    }
    out
}

/// The first frame whose description is `description`.
pub open spec fn find_spec(geobs: Seq<(Seq<char>, Seq<u8>)>, description: Seq<char>) -> Option<Seq<u8>>
    decreases geobs.len(),
{
    if geobs.len() == 0 {
        None
    } else if geobs[0].0 == description {
        Some(geobs[0].1)
    } else {
        find_spec(geobs.drop_first(), description)
    }
}

/// Pick one GEOB blob by description from an already-read list.
pub fn find<'a>(geobs: &'a [(String, Vec<u8>)], description: &str) -> (r: Option<&'a [u8]>)
    ensures
        r.is_some() == find_spec(geobs_view(geobs@), description@).is_some(),
        r matches Some(b) ==> b@ == find_spec(geobs_view(geobs@), description@).unwrap(),
{
    let mut i: usize = 0;
    proof {
        assert(geobs_view(geobs@).skip(0) =~= geobs_view(geobs@));
    }
    while i < geobs.len()
        invariant
            0 <= i <= geobs@.len(),
            find_spec(geobs_view(geobs@), description@) == find_spec(
                geobs_view(geobs@).skip(i as int),
                description@,
            ),
        decreases geobs.len() - i,
    {
        let ghost rest = geobs_view(geobs@).skip(i as int);
        proof {
            assert(rest[0] == (geobs@[i as int].0@, geobs@[i as int].1@));
            assert(rest.drop_first() =~= geobs_view(geobs@).skip(i + 1));
        }
        if str_eq(geobs[i].0.as_str(), description) {
            return Some(geobs[i].1.as_slice());
        }
        i = i + 1;
    }
    None
}

} // verus!
