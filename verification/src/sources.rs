//! Default locations of the external DJ libraries the library imports.
//!
//! Each DJ application writes its library to a well-known place under the
//! user's home folder. This module owns those path conventions and the
//! choice among candidates (the newest versioned Traktor folder, the first
//! rekordbox / iTunes export that is present). What is on disk is looked up
//! by the caller and handed in as plain flags; the choice is made here.

use vstd::prelude::*;
use crate::text::chars_of;

verus! {

/// An external library source that can be imported.
#[derive(Debug, Clone, Copy, PartialEq, Eq, Structural)]
pub enum SourceKind {
    /// Serato (`~/Music/_Serato_`).
    Serato,
    /// Traktor (`~/Documents/Native Instruments/Traktor */collection.nml`).
    Traktor,
    /// rekordbox XML export (`~/Documents/rekordbox/rekordbox.xml`).
    Rekordbox,
    /// iTunes / Apple Music (`~/Music/iTunes/iTunes Library.xml`).
    Itunes,
}

impl SourceKind {
    /// The schema tag of each source.
    pub open spec fn tag(self) -> Seq<char> {
        match self {
            SourceKind::Serato => "serato"@,
            SourceKind::Traktor => "traktor"@,
            SourceKind::Rekordbox => "rekordbox"@,
            SourceKind::Itunes => "itunes"@,
        }
    }

    /// The schema / FFI `source` tag.
    pub fn as_str(self) -> (r: &'static str)
        ensures
            r@ == self.tag(),
    {
        match self {
            SourceKind::Serato => "serato",
            SourceKind::Traktor => "traktor",
            SourceKind::Rekordbox => "rekordbox",
            SourceKind::Itunes => "itunes",
        }
    }
}

/// A discovered (or expected) default location for one source.
#[derive(Debug, Clone)]
pub struct DiscoveredSource {
    /// Which application this is.
    pub kind: SourceKind,
    /// The path the importer should be pointed at: the `_Serato_` folder,
    /// the `collection.nml`, or the XML export. When `exists` is false this
    /// is the expected default location.
    pub path: String,
    /// `true` when the path is present on disk.
    pub exists: bool,
}

/// Appending one relative component to a path (`Path::join`): a separator
/// goes between them unless the base is empty or already ends in `/`.
pub open spec fn join_spec(base: Seq<char>, comp: Seq<char>) -> Seq<char> {
    if base.len() == 0 || base.last() == '/' {
        base + comp
    } else {
        base + seq!['/'] + comp
    }
}

/// `Path::join` of a relative component onto a base path.
pub fn join_path(base: &str, comp: &str) -> (r: String)
    ensures
        r@ == join_spec(base@, comp@),
{
    let v = chars_of(base);
    let mut out = String::from_str(base);
    if v.len() > 0 && v[v.len() - 1] != '/' {
        out.append("/");
        proof {
            reveal_strlit("/");
        }
    }
    out.append(comp);
    out
}

/// `base/a/b`.
pub open spec fn join2(base: Seq<char>, a: Seq<char>, b: Seq<char>) -> Seq<char> {
    join_spec(join_spec(base, a), b)
}

/// `base/a/b/c`.
pub open spec fn join3(base: Seq<char>, a: Seq<char>, b: Seq<char>, c: Seq<char>) -> Seq<char> {
    join_spec(join2(base, a, b), c)
}

/// `base/a/b/c/d`.
pub open spec fn join4(base: Seq<char>, a: Seq<char>, b: Seq<char>, c: Seq<char>, d: Seq<char>) -> Seq<char> {
    join_spec(join3(base, a, b, c), d)
}

fn join2_exec(base: &str, a: &str, b: &str) -> (r: String)
    ensures
        r@ == join2(base@, a@, b@),
{
    let x = join_path(base, a);
    join_path(x.as_str(), b)
}

fn join3_exec(base: &str, a: &str, b: &str, c: &str) -> (r: String)
    ensures
        r@ == join3(base@, a@, b@, c@),
{
    let x = join2_exec(base, a, b);
    join_path(x.as_str(), c)
}

fn join4_exec(base: &str, a: &str, b: &str, c: &str, d: &str) -> (r: String)
    ensures
        r@ == join4(base@, a@, b@, c@, d@),
{
    let x = join3_exec(base, a, b, c);
    join_path(x.as_str(), d)
}

/// The Serato library folder, `~/Music/_Serato_`.
pub open spec fn serato_dir_spec(home: Seq<char>) -> Seq<char> {
    join2(home, "Music"@, "_Serato_"@)
}

/// `~/Music/_Serato_`.
pub fn serato_dir(home: &str) -> (r: String)
    ensures
        r@ == serato_dir_spec(home@),
{
    join2_exec(home, "Music", "_Serato_")
}

/// The file whose presence marks a Serato library: `_Serato_/database V2`.
pub fn serato_database_path(home: &str) -> (r: String)
    ensures
        r@ == join_spec(serato_dir_spec(home@), "database V2"@),
{
    let d = serato_dir(home);
    join_path(d.as_str(), "database V2")
}

/// The Serato entry: the `_Serato_` folder, present when its `database V2`
/// file is.
pub fn discover_serato(home: &str, database_present: bool) -> (r: DiscoveredSource)
    ensures
        r.kind == SourceKind::Serato,
        r.path@ == serato_dir_spec(home@),
        r.exists == database_present,
{
    DiscoveredSource { kind: SourceKind::Serato, path: serato_dir(home), exists: database_present }
}

/// Lexicographic order of character sequences, the order of path names.
pub open spec fn lex_lt(a: Seq<char>, b: Seq<char>) -> bool
    decreases a.len(),
{
    if a.len() == 0 {
        b.len() > 0
    } else if b.len() == 0 {
        false
    } else if a[0] != b[0] {
        a[0] < b[0]
    } else {
        lex_lt(a.drop_first(), b.drop_first())
    }
}

/// `lex_lt` is a strict order: irreflexive and transitive.
pub proof fn lemma_lex_lt_strict(a: Seq<char>, b: Seq<char>, c: Seq<char>)
    ensures
        !lex_lt(a, a),
        lex_lt(a, b) && lex_lt(b, c) ==> lex_lt(a, c),
    decreases a.len(),
{
    if a.len() > 0 {
        lemma_lex_lt_strict(a.drop_first(), a.drop_first(), a.drop_first());
        if b.len() > 0 && c.len() > 0 {
            lemma_lex_lt_strict(a.drop_first(), b.drop_first(), c.drop_first());
        }
    }
}

/// Exact lexicographic comparison of two character vectors.
pub fn lex_less(a: &[char], b: &[char]) -> (r: bool)
    ensures
        r == lex_lt(a@, b@),
{
    let mut i: usize = 0;
    proof {
        assert(a@.subrange(0, a@.len() as int) =~= a@);
        assert(b@.subrange(0, b@.len() as int) =~= b@);
    }
    while i < a.len() && i < b.len() && a[i] == b[i]
        invariant
            0 <= i <= a@.len(),
            i <= b@.len(),
            a@.subrange(0, i as int) =~= b@.subrange(0, i as int),
            lex_lt(a@, b@) == lex_lt(a@.subrange(i as int, a@.len() as int), b@.subrange(i as int, b@.len() as int)),
        decreases a.len() - i,
    {
        proof {
            let sa = a@.subrange(i as int, a@.len() as int);
            let sb = b@.subrange(i as int, b@.len() as int);
            assert(sa.drop_first() =~= a@.subrange(i + 1, a@.len() as int));
            assert(sb.drop_first() =~= b@.subrange(i + 1, b@.len() as int));
        }
        i = i + 1;
    }
    if i == a.len() {
        i < b.len()
    } else if i == b.len() {
        false
    } else {
        a[i] < b[i]
    }
}

/// Whether a name starts with `Traktor`, as Traktor's versioned folders do.
pub open spec fn is_traktor_name(name: Seq<char>) -> bool {
    name.len() >= 7 && name.subrange(0, 7) == "Traktor"@
}

fn traktor_name(name: &[char]) -> (r: bool)
    ensures
        r == is_traktor_name(name@),
{
    proof {
        reveal_strlit("Traktor");
    }
    if name.len() < 7 {
        return false;
    }
    let r = name[0] == 'T' && name[1] == 'r' && name[2] == 'a' && name[3] == 'k' && name[4] == 't'
        && name[5] == 'o' && name[6] == 'r';
    proof {
        if r {
            assert(name@.subrange(0, 7) =~= "Traktor"@);
        } else {
            assert(name@.subrange(0, 7) != "Traktor"@ || !r);
            if name@.subrange(0, 7) == "Traktor"@ {
                assert(name@.subrange(0, 7)[0] == 'T');
                assert(name@.subrange(0, 7)[1] == 'r');
                assert(name@.subrange(0, 7)[2] == 'a');
                assert(name@.subrange(0, 7)[3] == 'k');
                assert(name@.subrange(0, 7)[4] == 't');
                assert(name@.subrange(0, 7)[5] == 'o');
                assert(name@.subrange(0, 7)[6] == 'r');
            }
        }
    }
    r
}

/// One entry of the `Native Instruments` folder: its name, and whether it is
/// a folder holding a `collection.nml`.
#[derive(Debug, Clone)]
pub struct FolderEntry {
    /// The entry's file name.
    pub name: String,
    /// `true` when the entry is a folder with a `collection.nml` inside.
    pub has_collection: bool,
}

/// An entry that is a Traktor collection folder.
pub open spec fn is_traktor_candidate(e: FolderEntry) -> bool {
    e.has_collection && is_traktor_name(e.name@)
}

/// The `Native Instruments` folder, `~/Documents/Native Instruments`.
pub open spec fn native_instruments_spec(home: Seq<char>) -> Seq<char> {
    join2(home, "Documents"@, "Native Instruments"@)
}

/// `~/Documents/Native Instruments`, whose entries the caller lists.
pub fn native_instruments_dir(home: &str) -> (r: String)
    ensures
        r@ == native_instruments_spec(home@),
{
    join2_exec(home, "Documents", "Native Instruments")
}

/// The Traktor entry: the `collection.nml` of the newest `Traktor*` folder
/// (highest name in lexicographic order) that holds one, or the expected
/// `Traktor/collection.nml` when none does.
pub fn discover_traktor(home: &str, entries: &[FolderEntry]) -> (r: DiscoveredSource)
    ensures
        r.kind == SourceKind::Traktor,
        r.exists == exists|i: int| 0 <= i < entries@.len() && is_traktor_candidate(entries@[i]),
        r.exists ==> exists|i: int|
            0 <= i < entries@.len() && is_traktor_candidate(entries@[i])
                && r.path@ == join2(native_instruments_spec(home@), entries@[i].name@, "collection.nml"@)
                && forall|j: int|
                    0 <= j < entries@.len() && is_traktor_candidate(entries@[j])
                        ==> !lex_lt(entries@[i].name@, entries@[j].name@),
        !r.exists ==> r.path@ == join2(native_instruments_spec(home@), "Traktor"@, "collection.nml"@),
{
    let ni = native_instruments_dir(home);
    let mut best: Option<usize> = None;
    let mut best_chars: Vec<char> = Vec::new();
    let mut k: usize = 0;
    while k < entries.len()
        invariant
            0 <= k <= entries@.len(),
            best is None <==> (forall|i: int| 0 <= i < k ==> !is_traktor_candidate(entries@[i])),
            best matches Some(b) ==> {
                &&& b < k
                &&& is_traktor_candidate(entries@[b as int])
                &&& best_chars@ == entries@[b as int].name@
                &&& forall|j: int|
                    0 <= j < k && is_traktor_candidate(entries@[j]) ==> !lex_lt(
                        entries@[b as int].name@,
                        entries@[j].name@,
                    )
            },
        decreases entries.len() - k,
    {
        let name = chars_of(entries[k].name.as_str());
        if entries[k].has_collection && traktor_name(&name) {
            let better = match best {
                None => true,
                Some(_) => lex_less(&best_chars, &name),
            };
            if better {
                proof {
                    if let Some(b) = best {
                        assert forall|j: int|
                            0 <= j < k + 1 && is_traktor_candidate(entries@[j]) implies !lex_lt(
                            entries@[k as int].name@,
                            entries@[j].name@,
                        ) by {
                            lemma_lex_lt_strict(entries@[b as int].name@, entries@[k as int].name@, entries@[j].name@);
                            lemma_lex_lt_strict(entries@[k as int].name@, entries@[k as int].name@, entries@[k as int].name@);
                        }
                    } else {
                        lemma_lex_lt_strict(entries@[k as int].name@, entries@[k as int].name@, entries@[k as int].name@);
                    }
                }
                best = Some(k);
                best_chars = name;
            }
        }
        k = k + 1;
    }
    match best {
        Some(b) => {
            let dir = join_path(ni.as_str(), entries[b].name.as_str());
            DiscoveredSource {
                kind: SourceKind::Traktor,
                path: join_path(dir.as_str(), "collection.nml"),
                exists: true,
            }
        },
        None => DiscoveredSource {
            kind: SourceKind::Traktor,
            path: join2_exec(ni.as_str(), "Traktor", "collection.nml"),
            exists: false,
        },
    }
}

/// The places a rekordbox XML export is looked for, in order.
pub open spec fn rekordbox_candidates_spec(home: Seq<char>) -> Seq<Seq<char>> {
    seq![
        join3(home, "Documents"@, "rekordbox"@, "rekordbox.xml"@),
        join4(home, "Library"@, "Pioneer"@, "rekordbox"@, "rekordbox.xml"@),
        join3(home, "Music"@, "rekordbox"@, "rekordbox.xml"@),
    ]
}

/// The places an iTunes / Apple Music XML library is looked for, in order.
pub open spec fn itunes_candidates_spec(home: Seq<char>) -> Seq<Seq<char>> {
    seq![
        join3(home, "Music"@, "iTunes"@, "iTunes Library.xml"@),
        join3(home, "Music"@, "iTunes"@, "iTunes Music Library.xml"@),
        join3(home, "Music"@, "Music"@, "Library.xml"@),
    ]
}

/// The candidate locations of the rekordbox export.
pub fn rekordbox_candidates(home: &str) -> (r: Vec<String>)
    ensures
        r@.len() == 3,
        forall|i: int| 0 <= i < 3 ==> r@[i]@ == rekordbox_candidates_spec(home@)[i],
{
    let mut v: Vec<String> = Vec::new();
    v.push(join3_exec(home, "Documents", "rekordbox", "rekordbox.xml"));
    v.push(join4_exec(home, "Library", "Pioneer", "rekordbox", "rekordbox.xml"));
    v.push(join3_exec(home, "Music", "rekordbox", "rekordbox.xml"));
    v
}

/// The candidate locations of the iTunes library XML.
pub fn itunes_candidates(home: &str) -> (r: Vec<String>)
    ensures
        r@.len() == 3,
        forall|i: int| 0 <= i < 3 ==> r@[i]@ == itunes_candidates_spec(home@)[i],
{
    let mut v: Vec<String> = Vec::new();
    v.push(join3_exec(home, "Music", "iTunes", "iTunes Library.xml"));
    v.push(join3_exec(home, "Music", "iTunes", "iTunes Music Library.xml"));
    v.push(join3_exec(home, "Music", "Music", "Library.xml"));
    v
}

/// The first candidate that is present, or the first candidate marked
/// absent when none is.
fn first_present(kind: SourceKind, candidates: Vec<String>, present: &[bool]) -> (r: DiscoveredSource)
    requires
        candidates@.len() == present@.len(),
        candidates@.len() > 0,
    ensures
        r.kind == kind,
        r.exists == exists|i: int| 0 <= i < present@.len() && present@[i],
        r.exists ==> exists|i: int|
            0 <= i < present@.len() && present@[i] && r.path@ == candidates@[i]@
                && forall|j: int| 0 <= j < i ==> !present@[j],
        !r.exists ==> r.path@ == candidates@[0]@,
{
    let mut k: usize = 0;
    while k < present.len()
        invariant
            0 <= k <= present@.len(),
            candidates@.len() == present@.len(),
            forall|j: int| 0 <= j < k ==> !present@[j],
        decreases present.len() - k,
    {
        if present[k] {
            return DiscoveredSource { kind, path: candidates[k].clone(), exists: true };
        }
        k = k + 1;
    }
    DiscoveredSource { kind, path: candidates[0].clone(), exists: false }
}

/// The rekordbox entry: the first candidate export that is present
/// (`present[i]` tells whether `rekordbox_candidates(home)[i]` is a file),
/// or the first candidate marked absent.
pub fn discover_rekordbox(home: &str, present: &[bool]) -> (r: DiscoveredSource)
    requires
        present@.len() == 3,
    ensures
        r.kind == SourceKind::Rekordbox,
        r.exists == exists|i: int| 0 <= i < 3 && present@[i],
        r.exists ==> exists|i: int|
            0 <= i < 3 && present@[i] && r.path@ == rekordbox_candidates_spec(home@)[i]
                && forall|j: int| 0 <= j < i ==> !present@[j],
        !r.exists ==> r.path@ == rekordbox_candidates_spec(home@)[0],
{
    first_present(SourceKind::Rekordbox, rekordbox_candidates(home), present)
}

/// The iTunes entry: the first candidate library XML that is present
/// (`present[i]` tells whether `itunes_candidates(home)[i]` is a file), or
/// the first candidate marked absent.
pub fn discover_itunes(home: &str, present: &[bool]) -> (r: DiscoveredSource)
    requires
        present@.len() == 3,
    ensures
        r.kind == SourceKind::Itunes,
        r.exists == exists|i: int| 0 <= i < 3 && present@[i],
        r.exists ==> exists|i: int|
            0 <= i < 3 && present@[i] && r.path@ == itunes_candidates_spec(home@)[i]
                && forall|j: int| 0 <= j < i ==> !present@[j],
        !r.exists ==> r.path@ == itunes_candidates_spec(home@)[0],
{
    first_present(SourceKind::Itunes, itunes_candidates(home), present)
}

} // verus!
