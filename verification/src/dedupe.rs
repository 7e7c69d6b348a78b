//! Version-aware dedupe decision.
//!
//! When an imported file's fingerprint is close to an existing track's, the
//! decision is whether the file is the same recording (merge it into the
//! existing track), a sibling version of it (a separate track linked to the
//! existing one), or a different recording.
//!
//! Merging needs all three: fingerprint similarity at or above the
//! threshold (measured by the caller), a duration delta under 200 ms, and
//! equal version-token sets (two empty sets are equal: a parser that sees no
//! token on either side is no disqualifier). Silently collapsing "Clean" and
//! "Dirty" into one row is the cost this refuses to pay.

use vstd::prelude::*;
use crate::text::str_eq;

verus! {

/// Maximum duration delta for a merge, in milliseconds.
pub const DURATION_DELTA_MS: u32 = 200;

/// Why a near-identical pair was not merged.
#[derive(Debug, Clone)]
pub enum SiblingReason {
    /// The durations differ by 200 ms or more.
    DurationDelta {
        /// Absolute duration delta in milliseconds.
        delta_ms: u32,
    },
    /// The version tokens of the two sides differ.
    VersionTokenMismatch {
        /// Tokens of the candidate side.
        candidate_tokens: Vec<String>,
        /// Tokens of the existing-track side.
        existing_tokens: Vec<String>,
    },
}

/// Outcome of the dedupe decision for one candidate against one existing
/// track.
#[derive(Debug, Clone)]
pub enum DedupeDecision {
    /// The same recording: register the file against the existing track.
    Merge,
    /// A distinct sibling version: a new track linked to the existing one.
    SiblingVersion {
        /// Why the merge was refused.
        reason: SiblingReason,
    },
    /// A different recording.
    Distinct,
}

/// One side of the comparison: its duration and its version tokens (a set:
/// their order and repeats do not matter to the decision).
#[derive(Debug, Clone)]
pub struct DedupeSide {
    /// Duration in milliseconds.
    pub duration_ms: u32,
    /// Version tokens parsed from the title or file name.
    pub version_tokens: Vec<String>,
}

/// The texts of a token list.
pub open spec fn tokens_view(v: Seq<String>) -> Seq<Seq<char>> {
    v.map_values(|s: String| s@)
}

/// The absolute difference of two durations.
pub open spec fn delta(a: u32, b: u32) -> int {
    if a >= b { a - b } else { b - a }
}

/// The decision's kind: merge, sibling by duration, sibling by tokens, or
/// distinct.
pub open spec fn decision_matches(
    d: DedupeDecision,
    similar: bool,
    candidate: DedupeSide,
    existing: DedupeSide,
) -> bool {
    if !similar {
        d is Distinct
    } else if delta(candidate.duration_ms, existing.duration_ms) >= DURATION_DELTA_MS {
        d matches DedupeDecision::SiblingVersion { reason: SiblingReason::DurationDelta { delta_ms } }
            && delta_ms == delta(candidate.duration_ms, existing.duration_ms)
    } else if !same_tokens(tokens_view(candidate.version_tokens@), tokens_view(existing.version_tokens@)) {
        d matches DedupeDecision::SiblingVersion {
            reason: SiblingReason::VersionTokenMismatch { candidate_tokens, existing_tokens },
        } && tokens_view(candidate_tokens@) == tokens_view(candidate.version_tokens@) && tokens_view(
            existing_tokens@,
        ) == tokens_view(existing.version_tokens@)
    } else {
        d is Merge
    }
}

/// The two token lists hold the same tokens, whatever their order and
/// repeats: they are equal as sets.
pub open spec fn same_tokens(a: Seq<Seq<char>>, b: Seq<Seq<char>>) -> bool {
    &&& forall|i: int| 0 <= i < a.len() ==> b.contains(#[trigger] a[i])
    &&& forall|j: int| 0 <= j < b.len() ==> a.contains(#[trigger] b[j])
}

fn contains_token(v: &Vec<String>, t: &str) -> (r: bool)
    ensures
        r == tokens_view(v@).contains(t@),
{
    let mut k: usize = 0;
    while k < v.len()
        invariant
            0 <= k <= v@.len(),
            forall|j: int| 0 <= j < k ==> v@[j]@ != t@,
        decreases v.len() - k,
    {
        if str_eq(v[k].as_str(), t) {
            proof {
                assert(tokens_view(v@)[k as int] == t@);
            }
            return true;
        }
        k = k + 1;
    }
    proof {
        if tokens_view(v@).contains(t@) {
            let j = choose|j: int| 0 <= j < tokens_view(v@).len() && tokens_view(v@)[j] == t@;
            assert(v@[j]@ == t@);
        }
    }
    false
}

fn all_contained(a: &Vec<String>, b: &Vec<String>) -> (r: bool)
    ensures
        r == (forall|i: int| 0 <= i < tokens_view(a@).len() ==> tokens_view(b@).contains(#[trigger] tokens_view(a@)[i])),
{
    let mut k: usize = 0;
    while k < a.len()
        invariant
            0 <= k <= a@.len(),
            forall|i: int| 0 <= i < k ==> tokens_view(b@).contains(#[trigger] tokens_view(a@)[i]),
        decreases a.len() - k,
    {
        if !contains_token(b, a[k].as_str()) {
            proof {
                assert(!tokens_view(b@).contains(tokens_view(a@)[k as int]));
            }
            return false;
        }
        k = k + 1;
    }
    true
}

fn tokens_equal(a: &Vec<String>, b: &Vec<String>) -> (r: bool)
    ensures
        r == same_tokens(tokens_view(a@), tokens_view(b@)),
{
    all_contained(a, b) && all_contained(b, a)
}

fn copy_tokens(v: &Vec<String>) -> (r: Vec<String>)
    ensures
        tokens_view(r@) == tokens_view(v@),
{
    let mut r: Vec<String> = Vec::new();
    let mut k: usize = 0;
    while k < v.len()
        invariant
            0 <= k <= v@.len(),
            r@.len() == k,
            forall|j: int| 0 <= j < k ==> r@[j]@ == v@[j]@,
        decreases v.len() - k,
    {
        r.push(v[k].clone());
        k = k + 1;
    }
    proof {
        assert(tokens_view(r@) =~= tokens_view(v@));
    }
    r
}

/// The dedupe decision, given whether the two fingerprints are similar
/// enough (at or above the similarity threshold).
pub fn decide(fingerprints_similar: bool, candidate: &DedupeSide, existing: &DedupeSide) -> (d: DedupeDecision)
    ensures
        decision_matches(d, fingerprints_similar, *candidate, *existing),
{
    if !fingerprints_similar {
        return DedupeDecision::Distinct;
    }
    let delta_ms: u32 = if candidate.duration_ms >= existing.duration_ms {
        candidate.duration_ms - existing.duration_ms
    } else {
        existing.duration_ms - candidate.duration_ms
    };
    if delta_ms >= DURATION_DELTA_MS {
        return DedupeDecision::SiblingVersion { reason: SiblingReason::DurationDelta { delta_ms } };
    }
    if !tokens_equal(&candidate.version_tokens, &existing.version_tokens) {
        return DedupeDecision::SiblingVersion {
            reason: SiblingReason::VersionTokenMismatch {
                candidate_tokens: copy_tokens(&candidate.version_tokens),
                existing_tokens: copy_tokens(&existing.version_tokens),
            },
        };
    }
    DedupeDecision::Merge
}

/// A merge happens only when the fingerprints are similar, the durations are
/// within the threshold and the token sets agree; and it always happens
/// then.
pub proof fn lemma_merge_iff(d: DedupeDecision, similar: bool, candidate: DedupeSide, existing: DedupeSide)
    requires
        decision_matches(d, similar, candidate, existing),
    ensures
        (d is Merge) <==> (similar && delta(candidate.duration_ms, existing.duration_ms) < 200
            && same_tokens(tokens_view(candidate.version_tokens@), tokens_view(existing.version_tokens@))),
{
}

} // verus!
