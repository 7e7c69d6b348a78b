//! Configurable browser columns: per-source metadata verbatim, the
//! analyser's own outputs, audio-file facts and aggregated mix history.
//!
//! Ids are stable strings (the shell persists them), a disabled column costs
//! nothing (the SELECT and its joins are generated from the active
//! [`ColumnSet`]), and user input never reaches SQL (callers hand over parsed
//! [`LibraryColumnId`] values; the SQL text for each lives here).

use vstd::prelude::*;
use crate::text::string_of;

verus! {

/// A metadata origin that can be shown verbatim in its own columns.
#[derive(Debug, Clone, Copy, PartialEq, Eq, Hash, Structural)]
pub enum MetadataSource {
    /// Parsed from the filename.
    Filename,
    /// ID3 / Vorbis tags read off the file itself.
    Id3,
    /// Serato (database V2 + GEOB frames).
    Serato,
    /// Traktor `collection.nml`.
    Traktor,
    /// rekordbox XML export.
    Rekordbox,
    /// iTunes / Apple Music `Library.xml`.
    ITunes,
}

/// A field of a per-source metadata row.
#[derive(Debug, Clone, Copy, PartialEq, Eq, Hash, Structural)]
pub enum MetadataField {
    /// `title`.
    Title,
    /// `artist`.
    Artist,
    /// `album`.
    Album,
    /// `comment`.
    Comment,
    /// `bpm`: the source's own tempo claim.
    Bpm,
    /// `key` in the source's own notation.
    Key,
    /// `year`.
    Year,
    /// `version_token`: the canonical remix / edit tokens.
    Version,
}

/// Picker grouping.
#[derive(Debug, Clone, Copy, PartialEq, Eq, Hash, Structural)]
pub enum ColumnGroup {
    /// Identity / library facts about the row itself.
    Library,
    /// The analyser's own outputs.
    Analysis,
    /// One source's metadata, verbatim.
    PerSource(MetadataSource),
    /// Facts about the audio file on disk.
    AudioFile,
    /// Aggregates over the play history.
    MixHistory,
}

/// How a cell's value is read back and rendered.
#[derive(Debug, Clone, Copy, PartialEq, Eq, Hash, Structural)]
pub enum ColumnKind {
    /// Free text.
    Text,
    /// Whole number.
    Integer,
    /// Decimal, rendered to one place.
    Real,
    /// Tempo, rendered to two places.
    Bpm,
    /// Unix seconds.
    Timestamp,
    /// Byte count.
    Bytes,
    /// Yes / no.
    Flag,
}

/// One configurable column, addressed by a stable id.
#[derive(Debug, Clone, Copy, PartialEq, Eq, Hash, Structural)]
pub enum LibraryColumnId {
    /// `tracks.created_at`.
    DateAdded,
    /// Comma-joined names of the crates holding this track.
    InCrates,
    /// Whether dedupe linked a sibling version.
    Duplicate,
    /// Whether the primary file is flagged missing.
    Missing,
    /// One field of one source's metadata row, verbatim.
    PerSource(MetadataSource, MetadataField),
    /// The analyser's own BPM, next to the active grid's.
    BpmAuto,
    /// The analyser's own key, next to the active one.
    KeyAuto,
    /// Integrated loudness (LUFS-I).
    LufsI,
    /// True peak (dBTP).
    TruePeak,
    /// Grid + loudness + waveform all cached.
    Prepared,
    /// Container / codec of the primary file.
    Codec,
    /// Sample rate in Hz.
    SampleRate,
    /// Bit depth.
    BitDepth,
    /// Channel count.
    ChannelCount,
    /// File size in bytes.
    FileSize,
    /// Absolute path when the volume is mounted, else the relative one.
    FilePath,
    /// File mtime.
    FileModified,
    /// Lifetime `play_start` count.
    PlayCount,
    /// Most recent `play_start`.
    LastPlayed,
    /// Most recent `load`.
    LastLoaded,
    /// `play_start` count in the last seven days.
    PlayedLast7d,
}

/// An extra join a column needs, in the order the joins are emitted.
#[derive(Debug, Clone, Copy, PartialEq, Eq, Structural)]
pub enum ColumnJoin {
    /// The analyser's own beat grid.
    AutoGrid,
    /// The analyser's own key.
    AutoKey,
    /// Crate-name aggregate.
    Crates,
    /// Play-history aggregate.
    History,
}

// ---------------------------------------------------------------- specs --

pub open spec fn source_str(s: MetadataSource) -> Seq<char> {
    match s {
        MetadataSource::Filename => "filename"@,
        MetadataSource::Id3 => "id3"@,
        MetadataSource::Serato => "serato"@,
        MetadataSource::Traktor => "traktor"@,
        MetadataSource::Rekordbox => "rekordbox"@,
        MetadataSource::ITunes => "itunes"@,
    }
}

pub open spec fn source_label(s: MetadataSource) -> Seq<char> {
    match s {
        MetadataSource::Filename => "Filename"@,
        MetadataSource::Id3 => "ID3"@,
        MetadataSource::Serato => "Serato"@,
        MetadataSource::Traktor => "Traktor"@,
        MetadataSource::Rekordbox => "rekordbox"@,
        MetadataSource::ITunes => "iTunes"@,
    }
}

/// SQL alias each source is already joined under in the fixed track SELECT.
pub open spec fn source_alias(s: MetadataSource) -> Seq<char> {
    match s {
        MetadataSource::Filename => "fn"@,
        MetadataSource::Id3 => "i3"@,
        MetadataSource::Serato => "sr"@,
        MetadataSource::Traktor => "tr"@,
        MetadataSource::Rekordbox => "rb"@,
        MetadataSource::ITunes => "it"@,
    }
}

/// Fields each source can carry: a filename only title, artist, year and
/// version; ID3 everything; the other sources everything but version.
pub open spec fn source_fields(s: MetadataSource) -> Seq<MetadataField> {
    match s {
        MetadataSource::Filename => seq![
            MetadataField::Title,
            MetadataField::Artist,
            MetadataField::Year,
            MetadataField::Version,
        ],
        MetadataSource::Id3 => seq![
            MetadataField::Title,
            MetadataField::Artist,
            MetadataField::Album,
            MetadataField::Comment,
            MetadataField::Bpm,
            MetadataField::Key,
            MetadataField::Year,
            MetadataField::Version,
        ],
        _ => seq![
            MetadataField::Title,
            MetadataField::Artist,
            MetadataField::Album,
            MetadataField::Comment,
            MetadataField::Bpm,
            MetadataField::Key,
            MetadataField::Year,
        ],
    }
}

pub open spec fn field_str(f: MetadataField) -> Seq<char> {
    match f {
        MetadataField::Title => "title"@,
        MetadataField::Artist => "artist"@,
        MetadataField::Album => "album"@,
        MetadataField::Comment => "comment"@,
        MetadataField::Bpm => "bpm"@,
        MetadataField::Key => "key"@,
        MetadataField::Year => "year"@,
        MetadataField::Version => "version"@,
    }
}

pub open spec fn field_label(f: MetadataField) -> Seq<char> {
    match f {
        MetadataField::Title => "Title"@,
        MetadataField::Artist => "Artist"@,
        MetadataField::Album => "Album"@,
        MetadataField::Comment => "Comment"@,
        MetadataField::Bpm => "BPM"@,
        MetadataField::Key => "Key"@,
        MetadataField::Year => "Year"@,
        MetadataField::Version => "Version"@,
    }
}

/// Column name on `track_metadata_source`.
pub open spec fn field_sql_column(f: MetadataField) -> Seq<char> {
    match f {
        MetadataField::Version => "version_token"@,
        _ => field_str(f),
    }
}

pub open spec fn field_kind(f: MetadataField) -> ColumnKind {
    match f {
        MetadataField::Bpm => ColumnKind::Bpm,
        MetadataField::Year => ColumnKind::Integer,
        _ => ColumnKind::Text,
    }
}

pub open spec fn group_label(g: ColumnGroup) -> Seq<char> {
    match g {
        ColumnGroup::Library => "Library"@,
        ColumnGroup::Analysis => "Analysis"@,
        ColumnGroup::PerSource(s) => source_label(s),
        ColumnGroup::AudioFile => "Audio file"@,
        ColumnGroup::MixHistory => "Mix history"@,
    }
}

/// The stable string id of a column.
pub open spec fn id_of(c: LibraryColumnId) -> Seq<char> {
    match c {
        LibraryColumnId::DateAdded => "date_added"@,
        LibraryColumnId::InCrates => "in_crates"@,
        LibraryColumnId::Duplicate => "duplicates"@,
        LibraryColumnId::Missing => "missing"@,
        LibraryColumnId::PerSource(s, f) => source_str(s) + "_"@ + field_str(f),
        LibraryColumnId::BpmAuto => "bpm_auto"@,
        LibraryColumnId::KeyAuto => "key_auto"@,
        LibraryColumnId::LufsI => "lufs_i"@,
        LibraryColumnId::TruePeak => "true_peak"@,
        LibraryColumnId::Prepared => "prepared"@,
        LibraryColumnId::Codec => "codec"@,
        LibraryColumnId::SampleRate => "sample_rate"@,
        LibraryColumnId::BitDepth => "bit_depth"@,
        LibraryColumnId::ChannelCount => "channel_count"@,
        LibraryColumnId::FileSize => "file_size"@,
        LibraryColumnId::FilePath => "file_path"@,
        LibraryColumnId::FileModified => "file_modified"@,
        LibraryColumnId::PlayCount => "play_count"@,
        LibraryColumnId::LastPlayed => "last_played"@,
        LibraryColumnId::LastLoaded => "last_loaded"@,
        LibraryColumnId::PlayedLast7d => "played_last_7d"@,
    }
}

/// Column header text.
pub open spec fn label_of(c: LibraryColumnId) -> Seq<char> {
    match c {
        LibraryColumnId::DateAdded => "Added"@,
        LibraryColumnId::InCrates => "Crates"@,
        LibraryColumnId::Duplicate => "Dupe"@,
        LibraryColumnId::Missing => "Missing"@,
        LibraryColumnId::PerSource(s, f) => source_label(s) + " "@ + field_label(f),
        LibraryColumnId::BpmAuto => "BPM (auto)"@,
        LibraryColumnId::KeyAuto => "Key (auto)"@,
        LibraryColumnId::LufsI => "LUFS-I"@,
        LibraryColumnId::TruePeak => "True peak"@,
        LibraryColumnId::Prepared => "Prepared"@,
        LibraryColumnId::Codec => "Codec"@,
        LibraryColumnId::SampleRate => "Rate"@,
        LibraryColumnId::BitDepth => "Depth"@,
        LibraryColumnId::ChannelCount => "Channels"@,
        LibraryColumnId::FileSize => "Size"@,
        LibraryColumnId::FilePath => "Path"@,
        LibraryColumnId::FileModified => "Modified"@,
        LibraryColumnId::PlayCount => "Plays"@,
        LibraryColumnId::LastPlayed => "Last played"@,
        LibraryColumnId::LastLoaded => "Last loaded"@,
        LibraryColumnId::PlayedLast7d => "Plays (7d)"@,
    }
}

pub open spec fn group_of(c: LibraryColumnId) -> ColumnGroup {
    match c {
        LibraryColumnId::DateAdded
        | LibraryColumnId::InCrates
        | LibraryColumnId::Duplicate
        | LibraryColumnId::Missing => ColumnGroup::Library,
        LibraryColumnId::PerSource(s, _) => ColumnGroup::PerSource(s),
        LibraryColumnId::BpmAuto
        | LibraryColumnId::KeyAuto
        | LibraryColumnId::LufsI
        | LibraryColumnId::TruePeak
        | LibraryColumnId::Prepared => ColumnGroup::Analysis,
        LibraryColumnId::Codec
        | LibraryColumnId::SampleRate
        | LibraryColumnId::BitDepth
        | LibraryColumnId::ChannelCount
        | LibraryColumnId::FileSize
        | LibraryColumnId::FilePath
        | LibraryColumnId::FileModified => ColumnGroup::AudioFile,
        LibraryColumnId::PlayCount
        | LibraryColumnId::LastPlayed
        | LibraryColumnId::LastLoaded
        | LibraryColumnId::PlayedLast7d => ColumnGroup::MixHistory,
    }
}

pub open spec fn kind_of(c: LibraryColumnId) -> ColumnKind {
    match c {
        LibraryColumnId::DateAdded
        | LibraryColumnId::FileModified
        | LibraryColumnId::LastPlayed
        | LibraryColumnId::LastLoaded => ColumnKind::Timestamp,
        LibraryColumnId::InCrates
        | LibraryColumnId::KeyAuto
        | LibraryColumnId::Codec
        | LibraryColumnId::FilePath => ColumnKind::Text,
        LibraryColumnId::Duplicate | LibraryColumnId::Missing | LibraryColumnId::Prepared => {
            ColumnKind::Flag
        },
        LibraryColumnId::PerSource(_, f) => field_kind(f),
        LibraryColumnId::BpmAuto => ColumnKind::Bpm,
        LibraryColumnId::LufsI | LibraryColumnId::TruePeak => ColumnKind::Real,
        LibraryColumnId::SampleRate
        | LibraryColumnId::BitDepth
        | LibraryColumnId::ChannelCount
        | LibraryColumnId::PlayCount
        | LibraryColumnId::PlayedLast7d => ColumnKind::Integer,
        LibraryColumnId::FileSize => ColumnKind::Bytes,
    }
}

pub const SQL_DUPLICATE: &'static str = "CASE WHEN t.duplicate_link_track_id IS NOT NULL THEN 1 ELSE 0 END";

pub const SQL_PREPARED: &'static str = "CASE WHEN ac.has_active_grid = 1 AND ac.has_lufs = 1 AND ac.has_waveform = 1 THEN 1 ELSE 0 END";

pub const SQL_FILE_PATH: &'static str = "COALESCE(( SELECT v.last_known_mount_point || '/' || pf.relative_path FROM volumes v WHERE v.volume_uuid = pf.volume_uuid ), pf.relative_path)";

/// SQL expression producing a column's value.
pub open spec fn sql_of(c: LibraryColumnId) -> Seq<char> {
    match c {
        LibraryColumnId::DateAdded => "t.created_at"@,
        LibraryColumnId::InCrates => "xc.names"@,
        LibraryColumnId::Duplicate => SQL_DUPLICATE@,
        LibraryColumnId::Missing => "COALESCE(pf.is_missing, 0)"@,
        LibraryColumnId::PerSource(s, f) => source_alias(s) + "."@ + field_sql_column(f),
        LibraryColumnId::BpmAuto => "xg.bpm"@,
        LibraryColumnId::KeyAuto => "xk.key_notation"@,
        LibraryColumnId::LufsI => "ac.lufs_i"@,
        LibraryColumnId::TruePeak => "ac.true_peak_dbtp"@,
        LibraryColumnId::Prepared => SQL_PREPARED@,
        LibraryColumnId::Codec => "pf.codec"@,
        LibraryColumnId::SampleRate => "pf.sample_rate"@,
        LibraryColumnId::BitDepth => "pf.bit_depth"@,
        LibraryColumnId::ChannelCount => "pf.channel_count"@,
        LibraryColumnId::FileSize => "pf.file_size"@,
        LibraryColumnId::FilePath => SQL_FILE_PATH@,
        LibraryColumnId::FileModified => "pf.mtime"@,
        LibraryColumnId::PlayCount => "COALESCE(xh.play_count, 0)"@,
        LibraryColumnId::LastPlayed => "xh.last_played / 1000"@,
        LibraryColumnId::LastLoaded => "xh.last_loaded / 1000"@,
        LibraryColumnId::PlayedLast7d => "COALESCE(xh.played_7d, 0)"@,
    }
}

pub open spec fn join_of(c: LibraryColumnId) -> Option<ColumnJoin> {
    match c {
        LibraryColumnId::InCrates => Some(ColumnJoin::Crates),
        LibraryColumnId::BpmAuto => Some(ColumnJoin::AutoGrid),
        LibraryColumnId::KeyAuto => Some(ColumnJoin::AutoKey),
        LibraryColumnId::PlayCount
        | LibraryColumnId::LastPlayed
        | LibraryColumnId::LastLoaded
        | LibraryColumnId::PlayedLast7d => Some(ColumnJoin::History),
        _ => None,
    }
}

/// Extra `track_files` column a column needs inside the primary-file
/// subquery.
pub open spec fn primary_file_column_of(c: LibraryColumnId) -> Option<Seq<char>> {
    match c {
        LibraryColumnId::Missing => Some("is_missing"@),
        LibraryColumnId::Codec => Some("codec"@),
        LibraryColumnId::SampleRate => Some("sample_rate"@),
        LibraryColumnId::BitDepth => Some("bit_depth"@),
        LibraryColumnId::ChannelCount => Some("channel_count"@),
        LibraryColumnId::FileSize => Some("file_size"@),
        LibraryColumnId::FileModified => Some("mtime"@),
        _ => None,
    }
}

pub const SQL_JOIN_AUTO_GRID: &'static str = " LEFT JOIN track_beatgrids xg ON xg.track_id = t.id AND xg.source = 'auto'";

pub const SQL_JOIN_AUTO_KEY: &'static str = " LEFT JOIN track_keys xk ON xk.track_id = t.id AND xk.source = 'auto'";

pub const SQL_JOIN_CRATES: &'static str = " LEFT JOIN ( SELECT ct.track_id AS track_id, GROUP_CONCAT(c.name, ', ') AS names FROM crate_tracks ct JOIN crates c ON c.id = ct.crate_id GROUP BY ct.track_id ) xc ON xc.track_id = t.id";

pub const SQL_JOIN_HISTORY: &'static str = " LEFT JOIN ( SELECT track_id AS track_id, SUM(event_type = 'play_start') AS play_count, MAX(CASE WHEN event_type = 'play_start' THEN timestamp_ms END) AS last_played, MAX(CASE WHEN event_type = 'load' THEN timestamp_ms END) AS last_loaded, SUM(event_type = 'play_start' AND timestamp_ms >= (strftime('%s', 'now') - 604800) * 1000) AS played_7d FROM play_history GROUP BY track_id ) xh ON xh.track_id = t.id";

pub open spec fn join_sql(j: ColumnJoin) -> Seq<char> {
    match j {
        ColumnJoin::AutoGrid => SQL_JOIN_AUTO_GRID@,
        ColumnJoin::AutoKey => SQL_JOIN_AUTO_KEY@,
        ColumnJoin::Crates => SQL_JOIN_CRATES@,
        ColumnJoin::History => SQL_JOIN_HISTORY@,
    }
}

/// Every column the picker offers, in picker order.
pub open spec fn spec_all() -> Seq<LibraryColumnId> {
    seq![
        LibraryColumnId::DateAdded,
        LibraryColumnId::InCrates,
        LibraryColumnId::Duplicate,
        LibraryColumnId::Missing,
        LibraryColumnId::BpmAuto,
        LibraryColumnId::KeyAuto,
        LibraryColumnId::LufsI,
        LibraryColumnId::TruePeak,
        LibraryColumnId::Prepared,
        LibraryColumnId::PerSource(MetadataSource::Filename, MetadataField::Title),
        LibraryColumnId::PerSource(MetadataSource::Filename, MetadataField::Artist),
        LibraryColumnId::PerSource(MetadataSource::Filename, MetadataField::Year),
        LibraryColumnId::PerSource(MetadataSource::Filename, MetadataField::Version),
        LibraryColumnId::PerSource(MetadataSource::Id3, MetadataField::Title),
        LibraryColumnId::PerSource(MetadataSource::Id3, MetadataField::Artist),
        LibraryColumnId::PerSource(MetadataSource::Id3, MetadataField::Album),
        LibraryColumnId::PerSource(MetadataSource::Id3, MetadataField::Comment),
        LibraryColumnId::PerSource(MetadataSource::Id3, MetadataField::Bpm),
        LibraryColumnId::PerSource(MetadataSource::Id3, MetadataField::Key),
        LibraryColumnId::PerSource(MetadataSource::Id3, MetadataField::Year),
        LibraryColumnId::PerSource(MetadataSource::Id3, MetadataField::Version),
        LibraryColumnId::PerSource(MetadataSource::Serato, MetadataField::Title),
        LibraryColumnId::PerSource(MetadataSource::Serato, MetadataField::Artist),
        LibraryColumnId::PerSource(MetadataSource::Serato, MetadataField::Album),
        LibraryColumnId::PerSource(MetadataSource::Serato, MetadataField::Comment),
        LibraryColumnId::PerSource(MetadataSource::Serato, MetadataField::Bpm),
        LibraryColumnId::PerSource(MetadataSource::Serato, MetadataField::Key),
        LibraryColumnId::PerSource(MetadataSource::Serato, MetadataField::Year),
        LibraryColumnId::PerSource(MetadataSource::Traktor, MetadataField::Title),
        LibraryColumnId::PerSource(MetadataSource::Traktor, MetadataField::Artist),
        LibraryColumnId::PerSource(MetadataSource::Traktor, MetadataField::Album),
        LibraryColumnId::PerSource(MetadataSource::Traktor, MetadataField::Comment),
        LibraryColumnId::PerSource(MetadataSource::Traktor, MetadataField::Bpm),
        LibraryColumnId::PerSource(MetadataSource::Traktor, MetadataField::Key),
        LibraryColumnId::PerSource(MetadataSource::Traktor, MetadataField::Year),
        LibraryColumnId::PerSource(MetadataSource::Rekordbox, MetadataField::Title),
        LibraryColumnId::PerSource(MetadataSource::Rekordbox, MetadataField::Artist),
        LibraryColumnId::PerSource(MetadataSource::Rekordbox, MetadataField::Album),
        LibraryColumnId::PerSource(MetadataSource::Rekordbox, MetadataField::Comment),
        LibraryColumnId::PerSource(MetadataSource::Rekordbox, MetadataField::Bpm),
        LibraryColumnId::PerSource(MetadataSource::Rekordbox, MetadataField::Key),
        LibraryColumnId::PerSource(MetadataSource::Rekordbox, MetadataField::Year),
        LibraryColumnId::PerSource(MetadataSource::ITunes, MetadataField::Title),
        LibraryColumnId::PerSource(MetadataSource::ITunes, MetadataField::Artist),
        LibraryColumnId::PerSource(MetadataSource::ITunes, MetadataField::Album),
        LibraryColumnId::PerSource(MetadataSource::ITunes, MetadataField::Comment),
        LibraryColumnId::PerSource(MetadataSource::ITunes, MetadataField::Bpm),
        LibraryColumnId::PerSource(MetadataSource::ITunes, MetadataField::Key),
        LibraryColumnId::PerSource(MetadataSource::ITunes, MetadataField::Year),
        LibraryColumnId::Codec,
        LibraryColumnId::SampleRate,
        LibraryColumnId::BitDepth,
        LibraryColumnId::ChannelCount,
        LibraryColumnId::FileSize,
        LibraryColumnId::FilePath,
        LibraryColumnId::FileModified,
        LibraryColumnId::PlayCount,
        LibraryColumnId::LastPlayed,
        LibraryColumnId::LastLoaded,
        LibraryColumnId::PlayedLast7d
    ]
}

/// Decimal digits of a number, most significant first.
pub open spec fn decimal(n: nat) -> Seq<char>
    decreases n,
{
    if n < 10 {
        seq![(n + 48) as char]
    } else {
        decimal(n / 10).push(((n % 10) + 48) as char)
    }
}

/// `n` in decimal (`usize::to_string`).
pub fn usize_decimal(n: usize) -> (s: String)
    ensures
        s@ == decimal(n as nat),
{
    let mut digits: Vec<char> = Vec::new();
    let mut m: usize = n;
    // digits holds, least significant first, the digits already removed.
    while m >= 10
        invariant
            decimal(n as nat) == decimal(m as nat) + digits@.reverse(),
        decreases m,
    {
        let d: usize = m % 10;
        let c = digit_char(d);
        proof {
            assert(decimal(m as nat) == decimal((m / 10) as nat).push(c));
            assert(decimal((m / 10) as nat).push(c) + digits@.reverse() =~= decimal(
                (m / 10) as nat,
            ) + digits@.push(c).reverse());
        }
        digits.push(c);
        m = m / 10;
    }
    let c = digit_char(m);
    digits.push(c);
    let mut out: Vec<char> = Vec::new();
    let mut k: usize = digits.len();
    while k > 0
        invariant
            k <= digits@.len(),
            out@ == digits@.subrange(k as int, digits@.len() as int).reverse(),
        decreases k,
    {
        k = k - 1;
        out.push(digits[k]);
        proof {
            assert(digits@.subrange(k as int, digits@.len() as int).reverse() =~= digits@.subrange(
                k + 1,
                digits@.len() as int,
            ).reverse().push(digits@[k as int]));
        }
    }
    proof {
        assert(digits@.subrange(0, digits@.len() as int) =~= digits@);
        assert(decimal(m as nat) =~= seq![c]);
        assert(digits@ =~= digits@.drop_last().push(c));
        assert(digits@.reverse() =~= seq![c] + digits@.drop_last().reverse());
    }
    string_of(&out)
}

fn digit_char(d: usize) -> (c: char)
    requires
        d < 10,
    ensures
        c == ((d as nat) + 48) as char,
{
    if d == 0 { '0' } else if d == 1 { '1' } else if d == 2 { '2' } else if d == 3 { '3' }
    else if d == 4 { '4' } else if d == 5 { '5' } else if d == 6 { '6' } else if d == 7 { '7' }
    else if d == 8 { '8' } else { '9' }
}

impl MetadataSource {
    /// The `track_metadata_source.source` string, and the id prefix.
    pub fn as_str(self) -> (s: &'static str)
        ensures
            s@ == source_str(self),
    {
        match self {
            MetadataSource::Filename => "filename",
            MetadataSource::Id3 => "id3",
            MetadataSource::Serato => "serato",
            MetadataSource::Traktor => "traktor",
            MetadataSource::Rekordbox => "rekordbox",
            MetadataSource::ITunes => "itunes",
        }
    }

    /// Display name for the picker group and column headers.
    pub fn label(self) -> (s: &'static str)
        ensures
            s@ == source_label(self),
    {
        match self {
            MetadataSource::Filename => "Filename",
            MetadataSource::Id3 => "ID3",
            MetadataSource::Serato => "Serato",
            MetadataSource::Traktor => "Traktor",
            MetadataSource::Rekordbox => "rekordbox",
            MetadataSource::ITunes => "iTunes",
        }
    }

    /// SQL alias this source is joined under in the fixed track SELECT.
    pub fn alias(self) -> (s: &'static str)
        ensures
            s@ == source_alias(self),
    {
        match self {
            MetadataSource::Filename => "fn",
            MetadataSource::Id3 => "i3",
            MetadataSource::Serato => "sr",
            MetadataSource::Traktor => "tr",
            MetadataSource::Rekordbox => "rb",
            MetadataSource::ITunes => "it",
        }
    }

    /// Fields this source can actually carry.
    pub fn fields(self) -> (v: Vec<MetadataField>)
        ensures
            v@ == source_fields(self),
    {
        match self {
            MetadataSource::Filename => vec![
                MetadataField::Title,
                MetadataField::Artist,
                MetadataField::Year,
                MetadataField::Version,
            ],
            MetadataSource::Id3 => vec![
                MetadataField::Title,
                MetadataField::Artist,
                MetadataField::Album,
                MetadataField::Comment,
                MetadataField::Bpm,
                MetadataField::Key,
                MetadataField::Year,
                MetadataField::Version,
            ],
            _ => vec![
                MetadataField::Title,
                MetadataField::Artist,
                MetadataField::Album,
                MetadataField::Comment,
                MetadataField::Bpm,
                MetadataField::Key,
                MetadataField::Year,
            ],
        }
    }
}

impl MetadataField {
    /// Id suffix, e.g. the `bpm` of `serato_bpm`.
    pub fn as_str(self) -> (s: &'static str)
        ensures
            s@ == field_str(self),
    {
        match self {
            MetadataField::Title => "title",
            MetadataField::Artist => "artist",
            MetadataField::Album => "album",
            MetadataField::Comment => "comment",
            MetadataField::Bpm => "bpm",
            MetadataField::Key => "key",
            MetadataField::Year => "year",
            MetadataField::Version => "version",
        }
    }

    /// Header label suffix, e.g. the `BPM` of `Serato BPM`.
    pub fn label(self) -> (s: &'static str)
        ensures
            s@ == field_label(self),
    {
        match self {
            MetadataField::Title => "Title",
            MetadataField::Artist => "Artist",
            MetadataField::Album => "Album",
            MetadataField::Comment => "Comment",
            MetadataField::Bpm => "BPM",
            MetadataField::Key => "Key",
            MetadataField::Year => "Year",
            MetadataField::Version => "Version",
        }
    }

    /// Column name on `track_metadata_source`.
    pub fn sql_column(self) -> (s: &'static str)
        ensures
            s@ == field_sql_column(self),
    {
        match self {
            MetadataField::Version => "version_token",
            other => other.as_str(),
        }
    }

    /// Value kind of the field.
    pub fn kind(self) -> (k: ColumnKind)
        ensures
            k == field_kind(self),
    {
        match self {
            MetadataField::Bpm => ColumnKind::Bpm,
            MetadataField::Year => ColumnKind::Integer,
            _ => ColumnKind::Text,
        }
    }
}

impl ColumnGroup {
    /// Display name for the picker's section header.
    pub fn label(self) -> (s: String)
        ensures
            s@ == group_label(self),
    {
        match self {
            ColumnGroup::Library => String::from_str("Library"),
            ColumnGroup::Analysis => String::from_str("Analysis"),
            ColumnGroup::PerSource(source) => String::from_str(source.label()),
            ColumnGroup::AudioFile => String::from_str("Audio file"),
            ColumnGroup::MixHistory => String::from_str("Mix history"),
        }
    }
}

impl ColumnJoin {
    /// The join clause.
    pub fn sql(self) -> (s: &'static str)
        ensures
            s@ == join_sql(self),
    {
        match self {
            ColumnJoin::AutoGrid => SQL_JOIN_AUTO_GRID,
            ColumnJoin::AutoKey => SQL_JOIN_AUTO_KEY,
            ColumnJoin::Crates => SQL_JOIN_CRATES,
            ColumnJoin::History => SQL_JOIN_HISTORY,
        }
    }
}

fn concat3(a: &str, b: &str, c: &str) -> (s: String)
    ensures
        s@ == a@ + b@ + c@,
{
    let mut s = String::from_str(a);
    s.append(b);
    s.append(c);
    s
}

impl LibraryColumnId {
    /// Every column the picker can offer, in picker order.
    pub fn all() -> (v: Vec<LibraryColumnId>)
        ensures
            v@ == spec_all(),
    {
        vec![
            LibraryColumnId::DateAdded,
            LibraryColumnId::InCrates,
            LibraryColumnId::Duplicate,
            LibraryColumnId::Missing,
            LibraryColumnId::BpmAuto,
            LibraryColumnId::KeyAuto,
            LibraryColumnId::LufsI,
            LibraryColumnId::TruePeak,
            LibraryColumnId::Prepared,
            LibraryColumnId::PerSource(MetadataSource::Filename, MetadataField::Title),
            LibraryColumnId::PerSource(MetadataSource::Filename, MetadataField::Artist),
            LibraryColumnId::PerSource(MetadataSource::Filename, MetadataField::Year),
            LibraryColumnId::PerSource(MetadataSource::Filename, MetadataField::Version),
            LibraryColumnId::PerSource(MetadataSource::Id3, MetadataField::Title),
            LibraryColumnId::PerSource(MetadataSource::Id3, MetadataField::Artist),
            LibraryColumnId::PerSource(MetadataSource::Id3, MetadataField::Album),
            LibraryColumnId::PerSource(MetadataSource::Id3, MetadataField::Comment),
            LibraryColumnId::PerSource(MetadataSource::Id3, MetadataField::Bpm),
            LibraryColumnId::PerSource(MetadataSource::Id3, MetadataField::Key),
            LibraryColumnId::PerSource(MetadataSource::Id3, MetadataField::Year),
            LibraryColumnId::PerSource(MetadataSource::Id3, MetadataField::Version),
            LibraryColumnId::PerSource(MetadataSource::Serato, MetadataField::Title),
            LibraryColumnId::PerSource(MetadataSource::Serato, MetadataField::Artist),
            LibraryColumnId::PerSource(MetadataSource::Serato, MetadataField::Album),
            LibraryColumnId::PerSource(MetadataSource::Serato, MetadataField::Comment),
            LibraryColumnId::PerSource(MetadataSource::Serato, MetadataField::Bpm),
            LibraryColumnId::PerSource(MetadataSource::Serato, MetadataField::Key),
            LibraryColumnId::PerSource(MetadataSource::Serato, MetadataField::Year),
            LibraryColumnId::PerSource(MetadataSource::Traktor, MetadataField::Title),
            LibraryColumnId::PerSource(MetadataSource::Traktor, MetadataField::Artist),
            LibraryColumnId::PerSource(MetadataSource::Traktor, MetadataField::Album),
            LibraryColumnId::PerSource(MetadataSource::Traktor, MetadataField::Comment),
            LibraryColumnId::PerSource(MetadataSource::Traktor, MetadataField::Bpm),
            LibraryColumnId::PerSource(MetadataSource::Traktor, MetadataField::Key),
            LibraryColumnId::PerSource(MetadataSource::Traktor, MetadataField::Year),
            LibraryColumnId::PerSource(MetadataSource::Rekordbox, MetadataField::Title),
            LibraryColumnId::PerSource(MetadataSource::Rekordbox, MetadataField::Artist),
            LibraryColumnId::PerSource(MetadataSource::Rekordbox, MetadataField::Album),
            LibraryColumnId::PerSource(MetadataSource::Rekordbox, MetadataField::Comment),
            LibraryColumnId::PerSource(MetadataSource::Rekordbox, MetadataField::Bpm),
            LibraryColumnId::PerSource(MetadataSource::Rekordbox, MetadataField::Key),
            LibraryColumnId::PerSource(MetadataSource::Rekordbox, MetadataField::Year),
            LibraryColumnId::PerSource(MetadataSource::ITunes, MetadataField::Title),
            LibraryColumnId::PerSource(MetadataSource::ITunes, MetadataField::Artist),
            LibraryColumnId::PerSource(MetadataSource::ITunes, MetadataField::Album),
            LibraryColumnId::PerSource(MetadataSource::ITunes, MetadataField::Comment),
            LibraryColumnId::PerSource(MetadataSource::ITunes, MetadataField::Bpm),
            LibraryColumnId::PerSource(MetadataSource::ITunes, MetadataField::Key),
            LibraryColumnId::PerSource(MetadataSource::ITunes, MetadataField::Year),
            LibraryColumnId::Codec,
            LibraryColumnId::SampleRate,
            LibraryColumnId::BitDepth,
            LibraryColumnId::ChannelCount,
            LibraryColumnId::FileSize,
            LibraryColumnId::FilePath,
            LibraryColumnId::FileModified,
            LibraryColumnId::PlayCount,
            LibraryColumnId::LastPlayed,
            LibraryColumnId::LastLoaded,
            LibraryColumnId::PlayedLast7d
        ]
    }

    /// The stable string id, persisted in the shell's preferences.
    pub fn as_str(self) -> (s: String)
        ensures
            s@ == id_of(self),
    {
        match self {
            LibraryColumnId::DateAdded => String::from_str("date_added"),
            LibraryColumnId::InCrates => String::from_str("in_crates"),
            LibraryColumnId::Duplicate => String::from_str("duplicates"),
            LibraryColumnId::Missing => String::from_str("missing"),
            LibraryColumnId::PerSource(source, field) => concat3(
                source.as_str(),
                "_",
                field.as_str(),
            ),
            LibraryColumnId::BpmAuto => String::from_str("bpm_auto"),
            LibraryColumnId::KeyAuto => String::from_str("key_auto"),
            LibraryColumnId::LufsI => String::from_str("lufs_i"),
            LibraryColumnId::TruePeak => String::from_str("true_peak"),
            LibraryColumnId::Prepared => String::from_str("prepared"),
            LibraryColumnId::Codec => String::from_str("codec"),
            LibraryColumnId::SampleRate => String::from_str("sample_rate"),
            LibraryColumnId::BitDepth => String::from_str("bit_depth"),
            LibraryColumnId::ChannelCount => String::from_str("channel_count"),
            LibraryColumnId::FileSize => String::from_str("file_size"),
            LibraryColumnId::FilePath => String::from_str("file_path"),
            LibraryColumnId::FileModified => String::from_str("file_modified"),
            LibraryColumnId::PlayCount => String::from_str("play_count"),
            LibraryColumnId::LastPlayed => String::from_str("last_played"),
            LibraryColumnId::LastLoaded => String::from_str("last_loaded"),
            LibraryColumnId::PlayedLast7d => String::from_str("played_last_7d"),
        }
    }

    /// Parse a persisted id back: the first registered column whose id is
    /// `id`. Unknown ids give `None` rather than an error, so preferences
    /// written by a newer build degrade to "that column is gone".
    pub fn from_id(id: &str) -> (r: Option<LibraryColumnId>)
        ensures
            r == first_with_id(spec_all(), id@),
    {
        let all = LibraryColumnId::all();
        let target = String::from_str(id);
        let mut i: usize = 0;
        proof {
            assert(spec_all().subrange(0, spec_all().len() as int) =~= spec_all());
        }
        while i < all.len()
            invariant
                all@ == spec_all(),
                target@ == id@,
                0 <= i <= all@.len(),
                first_with_id(spec_all(), id@) == first_with_id(
                    spec_all().subrange(i as int, spec_all().len() as int),
                    id@,
                ),
            decreases all.len() - i,
        {
            let c = all[i];
            let s = c.as_str();
            proof {
                let rest = spec_all().subrange(i as int, spec_all().len() as int);
                assert(rest.drop_first() =~= spec_all().subrange(i + 1, spec_all().len() as int));
                assert(rest[0] == c);
            }
            if s == target {
                return Some(c);
            }
            i = i + 1;
        }
        proof {
            assert(spec_all().subrange(i as int, spec_all().len() as int) =~= Seq::<
                LibraryColumnId,
            >::empty());
        }
        None
    }

    /// Picker group.
    pub fn group(self) -> (g: ColumnGroup)
        ensures
            g == group_of(self),
    {
        match self {
            LibraryColumnId::DateAdded
            | LibraryColumnId::InCrates
            | LibraryColumnId::Duplicate
            | LibraryColumnId::Missing => ColumnGroup::Library,
            LibraryColumnId::PerSource(source, _) => ColumnGroup::PerSource(source),
            LibraryColumnId::BpmAuto
            | LibraryColumnId::KeyAuto
            | LibraryColumnId::LufsI
            | LibraryColumnId::TruePeak
            | LibraryColumnId::Prepared => ColumnGroup::Analysis,
            LibraryColumnId::Codec
            | LibraryColumnId::SampleRate
            | LibraryColumnId::BitDepth
            | LibraryColumnId::ChannelCount
            | LibraryColumnId::FileSize
            | LibraryColumnId::FilePath
            | LibraryColumnId::FileModified => ColumnGroup::AudioFile,
            LibraryColumnId::PlayCount
            | LibraryColumnId::LastPlayed
            | LibraryColumnId::LastLoaded
            | LibraryColumnId::PlayedLast7d => ColumnGroup::MixHistory,
        }
    }

    /// Column header text.
    pub fn label(self) -> (s: String)
        ensures
            s@ == label_of(self),
    {
        match self {
            LibraryColumnId::DateAdded => String::from_str("Added"),
            LibraryColumnId::InCrates => String::from_str("Crates"),
            LibraryColumnId::Duplicate => String::from_str("Dupe"),
            LibraryColumnId::Missing => String::from_str("Missing"),
            LibraryColumnId::PerSource(source, field) => concat3(
                source.label(),
                " ",
                field.label(),
            ),
            LibraryColumnId::BpmAuto => String::from_str("BPM (auto)"),
            LibraryColumnId::KeyAuto => String::from_str("Key (auto)"),
            LibraryColumnId::LufsI => String::from_str("LUFS-I"),
            LibraryColumnId::TruePeak => String::from_str("True peak"),
            LibraryColumnId::Prepared => String::from_str("Prepared"),
            LibraryColumnId::Codec => String::from_str("Codec"),
            LibraryColumnId::SampleRate => String::from_str("Rate"),
            LibraryColumnId::BitDepth => String::from_str("Depth"),
            LibraryColumnId::ChannelCount => String::from_str("Channels"),
            LibraryColumnId::FileSize => String::from_str("Size"),
            LibraryColumnId::FilePath => String::from_str("Path"),
            LibraryColumnId::FileModified => String::from_str("Modified"),
            LibraryColumnId::PlayCount => String::from_str("Plays"),
            LibraryColumnId::LastPlayed => String::from_str("Last played"),
            LibraryColumnId::LastLoaded => String::from_str("Last loaded"),
            LibraryColumnId::PlayedLast7d => String::from_str("Plays (7d)"),
        }
    }

    /// Value kind, for reading the cell back and rendering it.
    pub fn kind(self) -> (k: ColumnKind)
        ensures
            k == kind_of(self),
    {
        match self {
            LibraryColumnId::DateAdded
            | LibraryColumnId::FileModified
            | LibraryColumnId::LastPlayed
            | LibraryColumnId::LastLoaded => ColumnKind::Timestamp,
            LibraryColumnId::InCrates
            | LibraryColumnId::KeyAuto
            | LibraryColumnId::Codec
            | LibraryColumnId::FilePath => ColumnKind::Text,
            LibraryColumnId::Duplicate | LibraryColumnId::Missing | LibraryColumnId::Prepared => {
                ColumnKind::Flag
            },
            LibraryColumnId::PerSource(_, field) => field.kind(),
            LibraryColumnId::BpmAuto => ColumnKind::Bpm,
            LibraryColumnId::LufsI | LibraryColumnId::TruePeak => ColumnKind::Real,
            LibraryColumnId::SampleRate
            | LibraryColumnId::BitDepth
            | LibraryColumnId::ChannelCount
            | LibraryColumnId::PlayCount
            | LibraryColumnId::PlayedLast7d => ColumnKind::Integer,
            LibraryColumnId::FileSize => ColumnKind::Bytes,
        }
    }

    /// SQL expression producing this column's value.
    pub fn sql(self) -> (s: String)
        ensures
            s@ == sql_of(self),
    {
        match self {
            LibraryColumnId::DateAdded => String::from_str("t.created_at"),
            LibraryColumnId::InCrates => String::from_str("xc.names"),
            LibraryColumnId::Duplicate => String::from_str(SQL_DUPLICATE),
            LibraryColumnId::Missing => String::from_str("COALESCE(pf.is_missing, 0)"),
            LibraryColumnId::PerSource(source, field) => concat3(
                source.alias(),
                ".",
                field.sql_column(),
            ),
            LibraryColumnId::BpmAuto => String::from_str("xg.bpm"),
            LibraryColumnId::KeyAuto => String::from_str("xk.key_notation"),
            LibraryColumnId::LufsI => String::from_str("ac.lufs_i"),
            LibraryColumnId::TruePeak => String::from_str("ac.true_peak_dbtp"),
            LibraryColumnId::Prepared => String::from_str(SQL_PREPARED),
            LibraryColumnId::Codec => String::from_str("pf.codec"),
            LibraryColumnId::SampleRate => String::from_str("pf.sample_rate"),
            LibraryColumnId::BitDepth => String::from_str("pf.bit_depth"),
            LibraryColumnId::ChannelCount => String::from_str("pf.channel_count"),
            LibraryColumnId::FileSize => String::from_str("pf.file_size"),
            LibraryColumnId::FilePath => String::from_str(SQL_FILE_PATH),
            LibraryColumnId::FileModified => String::from_str("pf.mtime"),
            LibraryColumnId::PlayCount => String::from_str("COALESCE(xh.play_count, 0)"),
            LibraryColumnId::LastPlayed => String::from_str("xh.last_played / 1000"),
            LibraryColumnId::LastLoaded => String::from_str("xh.last_loaded / 1000"),
            LibraryColumnId::PlayedLast7d => String::from_str("COALESCE(xh.played_7d, 0)"),
        }
    }

    /// The extra join this column needs, if any.
    pub fn join(self) -> (j: Option<ColumnJoin>)
        ensures
            j == join_of(self),
    {
        match self {
            LibraryColumnId::InCrates => Some(ColumnJoin::Crates),
            LibraryColumnId::BpmAuto => Some(ColumnJoin::AutoGrid),
            LibraryColumnId::KeyAuto => Some(ColumnJoin::AutoKey),
            LibraryColumnId::PlayCount
            | LibraryColumnId::LastPlayed
            | LibraryColumnId::LastLoaded
            | LibraryColumnId::PlayedLast7d => Some(ColumnJoin::History),
            _ => None,
        }
    }

    /// Extra `track_files` column this one needs inside the primary-file
    /// subquery.
    pub fn primary_file_column(self) -> (p: Option<&'static str>)
        ensures
            p.is_some() == primary_file_column_of(self).is_some(),
            p matches Some(s) ==> s@ == primary_file_column_of(self).unwrap(),
    {
        match self {
            LibraryColumnId::Missing => Some("is_missing"),
            LibraryColumnId::Codec => Some("codec"),
            LibraryColumnId::SampleRate => Some("sample_rate"),
            LibraryColumnId::BitDepth => Some("bit_depth"),
            LibraryColumnId::ChannelCount => Some("channel_count"),
            LibraryColumnId::FileSize => Some("file_size"),
            LibraryColumnId::FileModified => Some("mtime"),
            _ => None,
        }
    }
}

/// The first column of `cols` whose id is `id`.
pub open spec fn first_with_id(cols: Seq<LibraryColumnId>, id: Seq<char>) -> Option<
    LibraryColumnId,
>
    decreases cols.len(),
{
    if cols.len() == 0 {
        None
    } else if id_of(cols[0]) == id {
        Some(cols[0])
    } else {
        first_with_id(cols.drop_first(), id)
    }
}


/// `cols` with later duplicates removed, keeping first occurrences in order.
pub open spec fn dedup_first(cols: Seq<LibraryColumnId>) -> Seq<LibraryColumnId>
    decreases cols.len(),
{
    if cols.len() == 0 {
        cols
    } else {
        let d = dedup_first(cols.drop_last());
        if d.contains(cols.last()) {
            d
        } else {
            d.push(cols.last())
        }
    }
}

/// `, <expr> AS x0, <expr> AS x1 ...` for the first `n` columns.
pub open spec fn select_sql(cols: Seq<LibraryColumnId>, n: nat) -> Seq<char>
    decreases n,
{
    if n == 0 {
        Seq::empty()
    } else {
        select_sql(cols, (n - 1) as nat) + ", "@ + sql_of(cols[n - 1]) + " AS x"@ + decimal(
            (n - 1) as nat,
        )
    }
}

/// Some column of `cols` needs join `j`.
pub open spec fn needs_join(cols: Seq<LibraryColumnId>, j: ColumnJoin) -> bool {
    exists|i: int| 0 <= i < cols.len() && join_of(#[trigger] cols[i]) == Some(j)
}

pub open spec fn join_part(cols: Seq<LibraryColumnId>, j: ColumnJoin) -> Seq<char> {
    if needs_join(cols, j) {
        join_sql(j)
    } else {
        Seq::empty()
    }
}

/// The joins the columns need, each once, in the fixed order auto grid,
/// auto key, crates, history.
pub open spec fn joins_sql(cols: Seq<LibraryColumnId>) -> Seq<char> {
    join_part(cols, ColumnJoin::AutoGrid) + join_part(cols, ColumnJoin::AutoKey) + join_part(
        cols,
        ColumnJoin::Crates,
    ) + join_part(cols, ColumnJoin::History)
}

/// The `track_files` columns in the order they are projected (ascending).
pub open spec fn file_column_order() -> Seq<LibraryColumnId> {
    seq![
        LibraryColumnId::BitDepth,
        LibraryColumnId::ChannelCount,
        LibraryColumnId::Codec,
        LibraryColumnId::FileSize,
        LibraryColumnId::Missing,
        LibraryColumnId::FileModified,
        LibraryColumnId::SampleRate,
    ]
}

/// The primary-file columns `cols` needs, each once, in ascending order.
pub open spec fn file_columns(cols: Seq<LibraryColumnId>) -> Seq<Seq<char>> {
    file_column_order().filter(|c: LibraryColumnId| cols.contains(c)).map_values(
        |c: LibraryColumnId| primary_file_column_of(c).unwrap(),
    )
}

/// The user's active set of configurable columns, in display order, with
/// duplicates collapsed so the SELECT cannot grow quadratically.
#[derive(Debug, Clone, PartialEq)]
pub struct ColumnSet {
    columns: Vec<LibraryColumnId>,
}

impl View for ColumnSet {
    type V = Seq<LibraryColumnId>;

    closed spec fn view(&self) -> Seq<LibraryColumnId> {
        self.columns@
    }
}

impl Default for ColumnSet {
    fn default() -> (s: Self)
        ensures
            s@ == Seq::<LibraryColumnId>::empty(),
    {
        ColumnSet { columns: Vec::new() }
    }
}

fn vec_contains(v: &Vec<LibraryColumnId>, c: LibraryColumnId) -> (r: bool)
    ensures
        r == v@.contains(c),
{
    let mut i: usize = 0;
    while i < v.len()
        invariant
            0 <= i <= v@.len(),
            forall|k: int| 0 <= k < i ==> v@[k] != c,
        decreases v.len() - i,
    {
        if v[i] == c {
            assert(v@[i as int] == c);
            return true;
        }
        i = i + 1;
    }
    false
}

impl ColumnSet {
    /// Build from an ordered list, keeping first occurrences.
    pub fn new(columns: Vec<LibraryColumnId>) -> (s: Self)
        ensures
            s@ == dedup_first(columns@),
    {
        let mut out: Vec<LibraryColumnId> = Vec::new();
        let mut i: usize = 0;
        while i < columns.len()
            invariant
                0 <= i <= columns@.len(),
                out@ == dedup_first(columns@.take(i as int)),
            decreases columns.len() - i,
        {
            let column = columns[i];
            proof {
                assert(columns@.take(i + 1).drop_last() =~= columns@.take(i as int));
            }
            if !vec_contains(&out, column) {
                out.push(column);
            }
            i = i + 1;
        }
        proof {
            assert(columns@.take(columns@.len() as int) =~= columns@);
        }
        ColumnSet { columns: out }
    }

    /// The columns, in the order their cells are returned.
    pub fn columns(&self) -> (c: &[LibraryColumnId])
        ensures
            c@ == self@,
    {
        self.columns.as_slice()
    }

    /// `true` when no configurable column is switched on.
    pub fn is_empty(&self) -> (b: bool)
        ensures
            b == (self@.len() == 0),
    {
        self.columns.len() == 0
    }

    /// `, <expr> AS x0, <expr> AS x1 ...` appended to the fixed SELECT list;
    /// empty when no column is active.
    pub fn select_fragment(&self) -> (s: String)
        ensures
            s@ == select_sql(self@, self@.len()),
    {
        let mut out = String::new();
        let mut index: usize = 0;
        while index < self.columns.len()
            invariant
                0 <= index <= self@.len(),
                out@ == select_sql(self@, index as nat),
            decreases self.columns.len() - index,
        {
            let column = self.columns[index];
            out.append(", ");
            out.append(column.sql().as_str());
            out.append(" AS x");
            out.append(usize_decimal(index).as_str());
            index = index + 1;
        }
        out
    }

    fn needs(&self, j: ColumnJoin) -> (b: bool)
        ensures
            b == needs_join(self@, j),
    {
        let mut i: usize = 0;
        while i < self.columns.len()
            invariant
                0 <= i <= self@.len(),
                forall|k: int| 0 <= k < i ==> join_of(#[trigger] self@[k]) != Some(j),
            decreases self.columns.len() - i,
        {
            if self.columns[i].join() == Some(j) {
                assert(join_of(self@[i as int]) == Some(j));
                return true;
            }
            i = i + 1;
        }
        false
    }

    /// The joins the active columns need, deduplicated and in a stable order
    /// so two sets with the same members prepare the same SQL.
    pub fn join_fragment(&self) -> (s: String)
        ensures
            s@ == joins_sql(self@),
    {
        let mut out = String::new();
        if self.needs(ColumnJoin::AutoGrid) {
            out.append(ColumnJoin::AutoGrid.sql());
        }
        if self.needs(ColumnJoin::AutoKey) {
            out.append(ColumnJoin::AutoKey.sql());
        }
        if self.needs(ColumnJoin::Crates) {
            out.append(ColumnJoin::Crates.sql());
        }
        if self.needs(ColumnJoin::History) {
            out.append(ColumnJoin::History.sql());
        }
        out
    }

    /// Extra `track_files` columns the primary-file subquery must project,
    /// deduplicated and in ascending order.
    pub fn primary_file_columns(&self) -> (v: Vec<&'static str>)
        ensures
            v@.map_values(|s: &'static str| s@) == file_columns(self@),
    {
        let order = vec![
            LibraryColumnId::BitDepth,
            LibraryColumnId::ChannelCount,
            LibraryColumnId::Codec,
            LibraryColumnId::FileSize,
            LibraryColumnId::Missing,
            LibraryColumnId::FileModified,
            LibraryColumnId::SampleRate,
        ];
        let mut out: Vec<&'static str> = Vec::new();
        let mut i: usize = 0;
        while i < order.len()
            invariant
                order@ == file_column_order(),
                0 <= i <= order@.len(),
                out@.map_values(|s: &'static str| s@) == file_column_order().take(i as int).filter(
                    |c: LibraryColumnId| self@.contains(c),
                ).map_values(|c: LibraryColumnId| primary_file_column_of(c).unwrap()),
            decreases order.len() - i,
        {
            let c = order[i];
            proof {
                let t = file_column_order().take(i + 1);
                assert(t.drop_last() =~= file_column_order().take(i as int));
                reveal_with_fuel(Seq::filter, 1);
            }
            if vec_contains(&self.columns, c) {
                match c.primary_file_column() {
                    Some(name) => {
                        out.push(name);
                        proof {
                            let f = file_column_order().take(i as int).filter(
                                |c: LibraryColumnId| self@.contains(c),
                            );
                            assert(f.push(c).map_values(
                                |c: LibraryColumnId| primary_file_column_of(c).unwrap(),
                            ) =~= f.map_values(
                                |c: LibraryColumnId| primary_file_column_of(c).unwrap(),
                            ).push(name@));
                            assert(out@.map_values(|s: &'static str| s@) =~= out@.drop_last().map_values(|s: &'static str| s@).push(name@));
                        }
                    },
                    None => {},
                }
            }
            i = i + 1;
        }
        proof {
            assert(file_column_order().take(7) =~= file_column_order());
        }
        out
    }
}

pub open spec fn decode_id_key(k: (int, int, int, int, int)) -> Option<LibraryColumnId> {
    if k == (10int, 100int, 97int, 100int, 101int) {
        Some(LibraryColumnId::DateAdded)
    } else if k == (9int, 105int, 97int, 115int, 101int) {
        Some(LibraryColumnId::InCrates)
    } else if k == (10int, 100int, 99int, 115int, 101int) {
        Some(LibraryColumnId::Duplicate)
    } else if k == (7int, 109int, 110int, 103int, 110int) {
        Some(LibraryColumnId::Missing)
    } else if k == (8int, 98int, 117int, 111int, 116int) {
        Some(LibraryColumnId::BpmAuto)
    } else if k == (8int, 107int, 117int, 111int, 116int) {
        Some(LibraryColumnId::KeyAuto)
    } else if k == (6int, 108int, 105int, 105int, 95int) {
        Some(LibraryColumnId::LufsI)
    } else if k == (9int, 116int, 112int, 107int, 97int) {
        Some(LibraryColumnId::TruePeak)
    } else if k == (8int, 112int, 114int, 100int, 101int) {
        Some(LibraryColumnId::Prepared)
    } else if k == (14int, 102int, 97int, 101int, 108int) {
        Some(LibraryColumnId::PerSource(MetadataSource::Filename, MetadataField::Title))
    } else if k == (15int, 102int, 97int, 116int, 115int) {
        Some(LibraryColumnId::PerSource(MetadataSource::Filename, MetadataField::Artist))
    } else if k == (13int, 102int, 97int, 114int, 97int) {
        Some(LibraryColumnId::PerSource(MetadataSource::Filename, MetadataField::Year))
    } else if k == (16int, 102int, 97int, 110int, 111int) {
        Some(LibraryColumnId::PerSource(MetadataSource::Filename, MetadataField::Version))
    } else if k == (9int, 105int, 105int, 101int, 108int) {
        Some(LibraryColumnId::PerSource(MetadataSource::Id3, MetadataField::Title))
    } else if k == (10int, 105int, 114int, 116int, 115int) {
        Some(LibraryColumnId::PerSource(MetadataSource::Id3, MetadataField::Artist))
    } else if k == (9int, 105int, 108int, 109int, 117int) {
        Some(LibraryColumnId::PerSource(MetadataSource::Id3, MetadataField::Album))
    } else if k == (11int, 105int, 111int, 116int, 110int) {
        Some(LibraryColumnId::PerSource(MetadataSource::Id3, MetadataField::Comment))
    } else if k == (7int, 105int, 112int, 109int, 112int) {
        Some(LibraryColumnId::PerSource(MetadataSource::Id3, MetadataField::Bpm))
    } else if k == (7int, 105int, 101int, 121int, 101int) {
        Some(LibraryColumnId::PerSource(MetadataSource::Id3, MetadataField::Key))
    } else if k == (8int, 105int, 101int, 114int, 97int) {
        Some(LibraryColumnId::PerSource(MetadataSource::Id3, MetadataField::Year))
    } else if k == (11int, 105int, 101int, 110int, 111int) {
        Some(LibraryColumnId::PerSource(MetadataSource::Id3, MetadataField::Version))
    } else if k == (12int, 115int, 111int, 101int, 108int) {
        Some(LibraryColumnId::PerSource(MetadataSource::Serato, MetadataField::Title))
    } else if k == (13int, 115int, 111int, 116int, 115int) {
        Some(LibraryColumnId::PerSource(MetadataSource::Serato, MetadataField::Artist))
    } else if k == (12int, 115int, 111int, 109int, 117int) {
        Some(LibraryColumnId::PerSource(MetadataSource::Serato, MetadataField::Album))
    } else if k == (14int, 115int, 111int, 116int, 110int) {
        Some(LibraryColumnId::PerSource(MetadataSource::Serato, MetadataField::Comment))
    } else if k == (10int, 115int, 111int, 109int, 112int) {
        Some(LibraryColumnId::PerSource(MetadataSource::Serato, MetadataField::Bpm))
    } else if k == (10int, 115int, 111int, 121int, 101int) {
        Some(LibraryColumnId::PerSource(MetadataSource::Serato, MetadataField::Key))
    } else if k == (11int, 115int, 111int, 114int, 97int) {
        Some(LibraryColumnId::PerSource(MetadataSource::Serato, MetadataField::Year))
    } else if k == (13int, 116int, 111int, 101int, 108int) {
        Some(LibraryColumnId::PerSource(MetadataSource::Traktor, MetadataField::Title))
    } else if k == (14int, 116int, 111int, 116int, 115int) {
        Some(LibraryColumnId::PerSource(MetadataSource::Traktor, MetadataField::Artist))
    } else if k == (13int, 116int, 111int, 109int, 117int) {
        Some(LibraryColumnId::PerSource(MetadataSource::Traktor, MetadataField::Album))
    } else if k == (15int, 116int, 111int, 116int, 110int) {
        Some(LibraryColumnId::PerSource(MetadataSource::Traktor, MetadataField::Comment))
    } else if k == (11int, 116int, 111int, 109int, 112int) {
        Some(LibraryColumnId::PerSource(MetadataSource::Traktor, MetadataField::Bpm))
    } else if k == (11int, 116int, 111int, 121int, 101int) {
        Some(LibraryColumnId::PerSource(MetadataSource::Traktor, MetadataField::Key))
    } else if k == (12int, 116int, 111int, 114int, 97int) {
        Some(LibraryColumnId::PerSource(MetadataSource::Traktor, MetadataField::Year))
    } else if k == (15int, 114int, 100int, 101int, 108int) {
        Some(LibraryColumnId::PerSource(MetadataSource::Rekordbox, MetadataField::Title))
    } else if k == (16int, 114int, 100int, 116int, 115int) {
        Some(LibraryColumnId::PerSource(MetadataSource::Rekordbox, MetadataField::Artist))
    } else if k == (15int, 114int, 100int, 109int, 117int) {
        Some(LibraryColumnId::PerSource(MetadataSource::Rekordbox, MetadataField::Album))
    } else if k == (17int, 114int, 100int, 116int, 110int) {
        Some(LibraryColumnId::PerSource(MetadataSource::Rekordbox, MetadataField::Comment))
    } else if k == (13int, 114int, 100int, 109int, 112int) {
        Some(LibraryColumnId::PerSource(MetadataSource::Rekordbox, MetadataField::Bpm))
    } else if k == (13int, 114int, 100int, 121int, 101int) {
        Some(LibraryColumnId::PerSource(MetadataSource::Rekordbox, MetadataField::Key))
    } else if k == (14int, 114int, 100int, 114int, 97int) {
        Some(LibraryColumnId::PerSource(MetadataSource::Rekordbox, MetadataField::Year))
    } else if k == (12int, 105int, 115int, 101int, 108int) {
        Some(LibraryColumnId::PerSource(MetadataSource::ITunes, MetadataField::Title))
    } else if k == (13int, 105int, 115int, 116int, 115int) {
        Some(LibraryColumnId::PerSource(MetadataSource::ITunes, MetadataField::Artist))
    } else if k == (12int, 105int, 115int, 109int, 117int) {
        Some(LibraryColumnId::PerSource(MetadataSource::ITunes, MetadataField::Album))
    } else if k == (14int, 105int, 115int, 116int, 110int) {
        Some(LibraryColumnId::PerSource(MetadataSource::ITunes, MetadataField::Comment))
    } else if k == (10int, 105int, 115int, 109int, 112int) {
        Some(LibraryColumnId::PerSource(MetadataSource::ITunes, MetadataField::Bpm))
    } else if k == (10int, 105int, 115int, 121int, 101int) {
        Some(LibraryColumnId::PerSource(MetadataSource::ITunes, MetadataField::Key))
    } else if k == (11int, 105int, 115int, 114int, 97int) {
        Some(LibraryColumnId::PerSource(MetadataSource::ITunes, MetadataField::Year))
    } else if k == (5int, 99int, -1int, 99int, 101int) {
        Some(LibraryColumnId::Codec)
    } else if k == (11int, 115int, 101int, 101int, 116int) {
        Some(LibraryColumnId::SampleRate)
    } else if k == (9int, 98int, 101int, 104int, 116int) {
        Some(LibraryColumnId::BitDepth)
    } else if k == (13int, 99int, 101int, 116int, 110int) {
        Some(LibraryColumnId::ChannelCount)
    } else if k == (9int, 102int, 115int, 101int, 122int) {
        Some(LibraryColumnId::FileSize)
    } else if k == (9int, 102int, 112int, 104int, 116int) {
        Some(LibraryColumnId::FilePath)
    } else if k == (13int, 102int, 109int, 100int, 101int) {
        Some(LibraryColumnId::FileModified)
    } else if k == (10int, 112int, 99int, 116int, 110int) {
        Some(LibraryColumnId::PlayCount)
    } else if k == (11int, 108int, 112int, 100int, 101int) {
        Some(LibraryColumnId::LastPlayed)
    } else if k == (11int, 108int, 108int, 100int, 101int) {
        Some(LibraryColumnId::LastLoaded)
    } else if k == (14int, 112int, 100int, 100int, 55int) {
        Some(LibraryColumnId::PlayedLast7d)
    } else {
        None
    }
}

pub open spec fn ordinal(c: LibraryColumnId) -> int {
    match c {
        LibraryColumnId::DateAdded => 0,
        LibraryColumnId::InCrates => 1,
        LibraryColumnId::Duplicate => 2,
        LibraryColumnId::Missing => 3,
        LibraryColumnId::BpmAuto => 4,
        LibraryColumnId::KeyAuto => 5,
        LibraryColumnId::LufsI => 6,
        LibraryColumnId::TruePeak => 7,
        LibraryColumnId::Prepared => 8,
        LibraryColumnId::Codec => 49,
        LibraryColumnId::SampleRate => 50,
        LibraryColumnId::BitDepth => 51,
        LibraryColumnId::ChannelCount => 52,
        LibraryColumnId::FileSize => 53,
        LibraryColumnId::FilePath => 54,
        LibraryColumnId::FileModified => 55,
        LibraryColumnId::PlayCount => 56,
        LibraryColumnId::LastPlayed => 57,
        LibraryColumnId::LastLoaded => 58,
        LibraryColumnId::PlayedLast7d => 59,
        LibraryColumnId::PerSource(s, f) => match s {
            MetadataSource::Filename => match f {
                MetadataField::Title => 9,
                MetadataField::Artist => 10,
                MetadataField::Year => 11,
                MetadataField::Version => 12,
                _ => -1,
            },
            MetadataSource::Id3 => match f {
                MetadataField::Title => 13,
                MetadataField::Artist => 14,
                MetadataField::Album => 15,
                MetadataField::Comment => 16,
                MetadataField::Bpm => 17,
                MetadataField::Key => 18,
                MetadataField::Year => 19,
                MetadataField::Version => 20,
            },
            MetadataSource::Serato => match f {
                MetadataField::Title => 21,
                MetadataField::Artist => 22,
                MetadataField::Album => 23,
                MetadataField::Comment => 24,
                MetadataField::Bpm => 25,
                MetadataField::Key => 26,
                MetadataField::Year => 27,
                _ => -1,
            },
            MetadataSource::Traktor => match f {
                MetadataField::Title => 28,
                MetadataField::Artist => 29,
                MetadataField::Album => 30,
                MetadataField::Comment => 31,
                MetadataField::Bpm => 32,
                MetadataField::Key => 33,
                MetadataField::Year => 34,
                _ => -1,
            },
            MetadataSource::Rekordbox => match f {
                MetadataField::Title => 35,
                MetadataField::Artist => 36,
                MetadataField::Album => 37,
                MetadataField::Comment => 38,
                MetadataField::Bpm => 39,
                MetadataField::Key => 40,
                MetadataField::Year => 41,
                _ => -1,
            },
            MetadataSource::ITunes => match f {
                MetadataField::Title => 42,
                MetadataField::Artist => 43,
                MetadataField::Album => 44,
                MetadataField::Comment => 45,
                MetadataField::Bpm => 46,
                MetadataField::Key => 47,
                MetadataField::Year => 48,
                _ => -1,
            },
        },
    }
}

/// A fingerprint of an id: its length, first, sixth, last and second-to-last
/// characters. It already tells every registered id apart.
pub open spec fn id_key(s: Seq<char>) -> (int, int, int, int, int) {
    (
        s.len() as int,
        s[0] as int,
        if s.len() > 5 {
            s[5] as int
        } else {
            -1
        },
        s[s.len() - 1] as int,
        s[s.len() - 2] as int,
    )
}


pub proof fn lemma_registry_entry(i: int)
    requires
        0 <= i < 60,
    ensures
        decode_id_key(id_key(id_of(spec_all()[i]))) == Some(spec_all()[i]),
        ordinal(spec_all()[i]) == i,
{
    reveal_strlit("_");
    reveal_strlit("album");
    reveal_strlit("artist");
    reveal_strlit("bit_depth");
    reveal_strlit("bpm");
    reveal_strlit("bpm_auto");
    reveal_strlit("channel_count");
    reveal_strlit("codec");
    reveal_strlit("comment");
    reveal_strlit("date_added");
    reveal_strlit("duplicates");
    reveal_strlit("file_modified");
    reveal_strlit("file_path");
    reveal_strlit("file_size");
    reveal_strlit("filename");
    reveal_strlit("fn");
    reveal_strlit("i3");
    reveal_strlit("id3");
    reveal_strlit("in_crates");
    reveal_strlit("is_missing");
    reveal_strlit("it");
    reveal_strlit("itunes");
    reveal_strlit("key");
    reveal_strlit("key_auto");
    reveal_strlit("last_loaded");
    reveal_strlit("last_played");
    reveal_strlit("lufs_i");
    reveal_strlit("missing");
    reveal_strlit("mtime");
    reveal_strlit("play_count");
    reveal_strlit("played_last_7d");
    reveal_strlit("prepared");
    reveal_strlit("rb");
    reveal_strlit("rekordbox");
    reveal_strlit("sample_rate");
    reveal_strlit("serato");
    reveal_strlit("sr");
    reveal_strlit("title");
    reveal_strlit("tr");
    reveal_strlit("traktor");
    reveal_strlit("true_peak");
    reveal_strlit("version");
    reveal_strlit("version_token");
    reveal_strlit("year");
    if i == 0 {
        assert(spec_all()[0] == LibraryColumnId::DateAdded);
    } else if i == 1 {
        assert(spec_all()[1] == LibraryColumnId::InCrates);
    } else if i == 2 {
        assert(spec_all()[2] == LibraryColumnId::Duplicate);
    } else if i == 3 {
        assert(spec_all()[3] == LibraryColumnId::Missing);
    } else if i == 4 {
        assert(spec_all()[4] == LibraryColumnId::BpmAuto);
    } else if i == 5 {
        assert(spec_all()[5] == LibraryColumnId::KeyAuto);
    } else if i == 6 {
        assert(spec_all()[6] == LibraryColumnId::LufsI);
    } else if i == 7 {
        assert(spec_all()[7] == LibraryColumnId::TruePeak);
    } else if i == 8 {
        assert(spec_all()[8] == LibraryColumnId::Prepared);
    } else if i == 9 {
        assert(spec_all()[9] == LibraryColumnId::PerSource(MetadataSource::Filename, MetadataField::Title));
    } else if i == 10 {
        assert(spec_all()[10] == LibraryColumnId::PerSource(MetadataSource::Filename, MetadataField::Artist));
    } else if i == 11 {
        assert(spec_all()[11] == LibraryColumnId::PerSource(MetadataSource::Filename, MetadataField::Year));
    } else if i == 12 {
        assert(spec_all()[12] == LibraryColumnId::PerSource(MetadataSource::Filename, MetadataField::Version));
    } else if i == 13 {
        assert(spec_all()[13] == LibraryColumnId::PerSource(MetadataSource::Id3, MetadataField::Title));
    } else if i == 14 {
        assert(spec_all()[14] == LibraryColumnId::PerSource(MetadataSource::Id3, MetadataField::Artist));
    } else if i == 15 {
        assert(spec_all()[15] == LibraryColumnId::PerSource(MetadataSource::Id3, MetadataField::Album));
    } else if i == 16 {
        assert(spec_all()[16] == LibraryColumnId::PerSource(MetadataSource::Id3, MetadataField::Comment));
    } else if i == 17 {
        assert(spec_all()[17] == LibraryColumnId::PerSource(MetadataSource::Id3, MetadataField::Bpm));
    } else if i == 18 {
        assert(spec_all()[18] == LibraryColumnId::PerSource(MetadataSource::Id3, MetadataField::Key));
    } else if i == 19 {
        assert(spec_all()[19] == LibraryColumnId::PerSource(MetadataSource::Id3, MetadataField::Year));
    } else if i == 20 {
        assert(spec_all()[20] == LibraryColumnId::PerSource(MetadataSource::Id3, MetadataField::Version));
    } else if i == 21 {
        assert(spec_all()[21] == LibraryColumnId::PerSource(MetadataSource::Serato, MetadataField::Title));
    } else if i == 22 {
        assert(spec_all()[22] == LibraryColumnId::PerSource(MetadataSource::Serato, MetadataField::Artist));
    } else if i == 23 {
        assert(spec_all()[23] == LibraryColumnId::PerSource(MetadataSource::Serato, MetadataField::Album));
    } else if i == 24 {
        assert(spec_all()[24] == LibraryColumnId::PerSource(MetadataSource::Serato, MetadataField::Comment));
    } else if i == 25 {
        assert(spec_all()[25] == LibraryColumnId::PerSource(MetadataSource::Serato, MetadataField::Bpm));
    } else if i == 26 {
        assert(spec_all()[26] == LibraryColumnId::PerSource(MetadataSource::Serato, MetadataField::Key));
    } else if i == 27 {
        assert(spec_all()[27] == LibraryColumnId::PerSource(MetadataSource::Serato, MetadataField::Year));
    } else if i == 28 {
        assert(spec_all()[28] == LibraryColumnId::PerSource(MetadataSource::Traktor, MetadataField::Title));
    } else if i == 29 {
        assert(spec_all()[29] == LibraryColumnId::PerSource(MetadataSource::Traktor, MetadataField::Artist));
    } else if i == 30 {
        assert(spec_all()[30] == LibraryColumnId::PerSource(MetadataSource::Traktor, MetadataField::Album));
    } else if i == 31 {
        assert(spec_all()[31] == LibraryColumnId::PerSource(MetadataSource::Traktor, MetadataField::Comment));
    } else if i == 32 {
        assert(spec_all()[32] == LibraryColumnId::PerSource(MetadataSource::Traktor, MetadataField::Bpm));
    } else if i == 33 {
        assert(spec_all()[33] == LibraryColumnId::PerSource(MetadataSource::Traktor, MetadataField::Key));
    } else if i == 34 {
        assert(spec_all()[34] == LibraryColumnId::PerSource(MetadataSource::Traktor, MetadataField::Year));
    } else if i == 35 {
        assert(spec_all()[35] == LibraryColumnId::PerSource(MetadataSource::Rekordbox, MetadataField::Title));
    } else if i == 36 {
        assert(spec_all()[36] == LibraryColumnId::PerSource(MetadataSource::Rekordbox, MetadataField::Artist));
    } else if i == 37 {
        assert(spec_all()[37] == LibraryColumnId::PerSource(MetadataSource::Rekordbox, MetadataField::Album));
    } else if i == 38 {
        assert(spec_all()[38] == LibraryColumnId::PerSource(MetadataSource::Rekordbox, MetadataField::Comment));
    } else if i == 39 {
        assert(spec_all()[39] == LibraryColumnId::PerSource(MetadataSource::Rekordbox, MetadataField::Bpm));
    } else if i == 40 {
        assert(spec_all()[40] == LibraryColumnId::PerSource(MetadataSource::Rekordbox, MetadataField::Key));
    } else if i == 41 {
        assert(spec_all()[41] == LibraryColumnId::PerSource(MetadataSource::Rekordbox, MetadataField::Year));
    } else if i == 42 {
        assert(spec_all()[42] == LibraryColumnId::PerSource(MetadataSource::ITunes, MetadataField::Title));
    } else if i == 43 {
        assert(spec_all()[43] == LibraryColumnId::PerSource(MetadataSource::ITunes, MetadataField::Artist));
    } else if i == 44 {
        assert(spec_all()[44] == LibraryColumnId::PerSource(MetadataSource::ITunes, MetadataField::Album));
    } else if i == 45 {
        assert(spec_all()[45] == LibraryColumnId::PerSource(MetadataSource::ITunes, MetadataField::Comment));
    } else if i == 46 {
        assert(spec_all()[46] == LibraryColumnId::PerSource(MetadataSource::ITunes, MetadataField::Bpm));
    } else if i == 47 {
        assert(spec_all()[47] == LibraryColumnId::PerSource(MetadataSource::ITunes, MetadataField::Key));
    } else if i == 48 {
        assert(spec_all()[48] == LibraryColumnId::PerSource(MetadataSource::ITunes, MetadataField::Year));
    } else if i == 49 {
        assert(spec_all()[49] == LibraryColumnId::Codec);
    } else if i == 50 {
        assert(spec_all()[50] == LibraryColumnId::SampleRate);
    } else if i == 51 {
        assert(spec_all()[51] == LibraryColumnId::BitDepth);
    } else if i == 52 {
        assert(spec_all()[52] == LibraryColumnId::ChannelCount);
    } else if i == 53 {
        assert(spec_all()[53] == LibraryColumnId::FileSize);
    } else if i == 54 {
        assert(spec_all()[54] == LibraryColumnId::FilePath);
    } else if i == 55 {
        assert(spec_all()[55] == LibraryColumnId::FileModified);
    } else if i == 56 {
        assert(spec_all()[56] == LibraryColumnId::PlayCount);
    } else if i == 57 {
        assert(spec_all()[57] == LibraryColumnId::LastPlayed);
    } else if i == 58 {
        assert(spec_all()[58] == LibraryColumnId::LastLoaded);
    } else if i == 59 {
        assert(spec_all()[59] == LibraryColumnId::PlayedLast7d);
    }
}

/// Every registered column has a distinct id.
pub proof fn lemma_ids_unique(i: int, j: int)
    requires
        0 <= i < spec_all().len(),
        0 <= j < spec_all().len(),
        i != j,
    ensures
        id_of(spec_all()[i]) != id_of(spec_all()[j]),
{
    lemma_registry_entry(i);
    lemma_registry_entry(j);
}

proof fn lemma_first_from(k: int, i: int)
    requires
        0 <= k <= i < spec_all().len(),
    ensures
        first_with_id(spec_all().subrange(k, spec_all().len() as int), id_of(spec_all()[i]))
            == Some(spec_all()[i]),
    decreases i - k,
{
    let all = spec_all();
    let rest = all.subrange(k, all.len() as int);
    assert(rest[0] == all[k]);
    if k < i {
        lemma_ids_unique(k, i);
        assert(rest.drop_first() =~= all.subrange(k + 1, all.len() as int));
        lemma_first_from(k + 1, i);
    }
}

proof fn lemma_first_none(cols: Seq<LibraryColumnId>, id: Seq<char>)
    requires
        forall|i: int| 0 <= i < cols.len() ==> id_of(#[trigger] cols[i]) != id,
    ensures
        first_with_id(cols, id) is None,
    decreases cols.len(),
{
    if cols.len() > 0 {
        assert(id_of(cols[0]) != id);
        assert forall|i: int| 0 <= i < cols.drop_first().len() implies id_of(#[trigger] cols.drop_first()[i]) != id by {
            assert(cols.drop_first()[i] == cols[i + 1]);
        }
        lemma_first_none(cols.drop_first(), id);
    }
}

/// An id that no registered column carries reads as no column (never an
/// error).
pub proof fn lemma_unknown_id_is_none(id: Seq<char>)
    requires
        forall|i: int| 0 <= i < spec_all().len() ==> id_of(#[trigger] spec_all()[i]) != id,
    ensures
        first_with_id(spec_all(), id) is None,
{
    lemma_first_none(spec_all(), id);
}

/// The persisted id of a registered column parses back to that column.
pub proof fn lemma_from_id_round_trip(i: int)
    requires
        0 <= i < spec_all().len(),
    ensures
        first_with_id(spec_all(), id_of(spec_all()[i])) == Some(spec_all()[i]),
{
    lemma_first_from(0, i);
    assert(spec_all().subrange(0, spec_all().len() as int) =~= spec_all());
}

/// A column set holds each column at most once, and exactly the columns it
/// was built from.
pub proof fn lemma_dedup_first(cols: Seq<LibraryColumnId>)
    ensures
        dedup_first(cols).no_duplicates(),
        forall|c: LibraryColumnId| dedup_first(cols).contains(c) <==> cols.contains(c),
    decreases cols.len(),
{
    if cols.len() > 0 {
        lemma_dedup_first(cols.drop_last());
        let d = dedup_first(cols.drop_last());
        assert forall|c: LibraryColumnId| dedup_first(cols).contains(c) <==> cols.contains(c) by {
            if cols.contains(c) {
                let k = choose|k: int| 0 <= k < cols.len() && cols[k] == c;
                if k < cols.len() - 1 {
                    assert(cols.drop_last()[k] == c);
                }
            }
            if cols.drop_last().contains(c) {
                let k = choose|k: int| 0 <= k < cols.drop_last().len() && cols.drop_last()[k] == c;
                assert(cols[k] == c);
            }
            if !d.contains(cols.last()) {
                if d.push(cols.last()).contains(c) && c != cols.last() {
                    let k = choose|k: int| 0 <= k < d.push(cols.last()).len() && d.push(cols.last())[k] == c;
                    assert(d[k] == c);
                }
                assert(d.push(cols.last())[d.len() as int] == cols.last());
                if d.contains(c) {
                    let k = choose|k: int| 0 <= k < d.len() && d[k] == c;
                    assert(d.push(cols.last())[k] == c);
                }
            }
        }
    }
}

/// The joins depend only on which columns are active, never on their order
/// or repetition, so equal memberships prepare identical SQL.
pub proof fn lemma_joins_depend_on_membership(a: Seq<LibraryColumnId>, b: Seq<LibraryColumnId>)
    requires
        forall|c: LibraryColumnId| a.contains(c) <==> b.contains(c),
    ensures
        joins_sql(a) == joins_sql(b),
{
    assert forall|j: ColumnJoin| needs_join(a, j) == needs_join(b, j) by {
        if needs_join(a, j) {
            let i = choose|i: int| 0 <= i < a.len() && join_of(#[trigger] a[i]) == Some(j);
            assert(a.contains(a[i]));
            let k = choose|k: int| 0 <= k < b.len() && b[k] == a[i];
            assert(join_of(b[k]) == Some(j));
        }
        if needs_join(b, j) {
            let i = choose|i: int| 0 <= i < b.len() && join_of(#[trigger] b[i]) == Some(j);
            assert(b.contains(b[i]));
            let k = choose|k: int| 0 <= k < a.len() && a[k] == b[i];
            assert(join_of(a[k]) == Some(j));
        }
    }
}

/// An empty set generates no SQL at all.
pub proof fn lemma_empty_set_adds_no_sql()
    ensures
        select_sql(Seq::empty(), 0) == Seq::<char>::empty(),
        joins_sql(Seq::empty()) == Seq::<char>::empty(),
        file_columns(Seq::empty()) == Seq::<Seq<char>>::empty(),
{
    let e = Seq::<LibraryColumnId>::empty();
    assert(joins_sql(e) =~= Seq::<char>::empty());
    assert(file_column_order().filter(|c: LibraryColumnId| e.contains(c)) =~= Seq::<LibraryColumnId>::empty()) by {
        reveal_with_fuel(Seq::filter, 8);
        assert(file_column_order().drop_last().drop_last().drop_last().drop_last().drop_last().drop_last().drop_last() =~= Seq::<LibraryColumnId>::empty());
    }
}

} // verus!
