# dub_library

The format and rule layer of Dub, a DJ application: the formats it reads and
writes (rekordbox XML, the iTunes library plist, Serato's `database V2`,
crate files and GEOB tags, M3U8 playlists, `file://` URLs), the rules it
applies to what it imports (key notations to Camelot, colour tokens,
filename parsing, junk titles, duplicate decisions, source discovery, the
slots of imported cues, the tally of a folder import, the grid and key
priority of an analysis pass), the browser's column registry and query
building, and the mix-history tracker.

## What this crate does not hold

Dub keeps its library in an SQLite database behind a `Library` handle:
track, file and volume rows, per-source metadata, beat grids, keys, cues and
loops, crates, play history, the analysis cache, and the importers that
fill them (folder scan, Serato, rekordbox, iTunes) and the audio analysis
pass. None of that is here:

- it is reads and writes against a database file, through SQLite and SQL
  text, with the priority rules of the browser written as SQL;
- the analysis pass decodes audio and runs the project's own beat, key,
  loudness, waveform and fingerprint analysers, which are separate crates of
  the project and not part of this one;
- its helpers for volume discovery, default paths and version-token parsing
  live in modules of the project that this crate does not have.

What those layers decide without touching the database stands here as
verified functions: the import filter, the reuse of a known file's track
and the tally (`importer`), the grid-lock refusal and the priority of
imported grids and keys (`analysis`), the memory-cue numbering (`rows`), the
cues and loops a Serato import stores (`serato::markers2`), the metadata source order (`rows`,
`columns`), the dedupe decision (`dedupe`), and the Camelot conversion of
imported keys (`key_notation`).

## Layout

- `src/` is the library, written in Verus. Every function there carries a
  contract, and the properties that span functions are proved as proof
  functions, among them:
  - `round_trip::lemma_export_round_trip`: reading a written rekordbox
    document's events gives back its tracks and its playlist tree;
  - `round_trip::lemma_track_fields_round_trip`, `lemma_tempo_round_trip`,
    `lemma_cue_round_trip`, `lemma_loop_round_trip`: a written track's
    fields (rating and colour included), grid, cues and loops read back;
  - `rekordbox::lemma_read_parents_precede`: every playlist the reader
    produces comes after its parent;
  - `file_url::lemma_file_url_round_trip`: decoding an encoded absolute path
    gives the path;
  - `history::lemma_rows_sane_over_sequences`: the tracker's rows are sane
    over any sequence of events;
  - `key_notation::lemma_camelot_idempotent`, `color_label::lemma_palette_round_trip`,
    `columns::lemma_from_id_round_trip`, `filename_parser::lemma_junk_ignores_case_and_trim`,
    `rows::lemma_memory_markers_apart`, `analysis::lemma_imports_keep_priority`.
- `tests/` exercises the library on concrete inputs.
- `app/` holds what stays outside the verified library: reading files and
  directories, ID3 tag access, the floating-point parts of the formats, and
  the XML writer.
- Bytes come in through `rekordbox::parse_bytes` and `itunes::parse_bytes`.
  They read the bytes with quick-xml behind three trusted readers in `xml`,
  whose results are named (`xml_shapes`, `xml_tags`, `xml_texts`). The
  verified `tokenize` merges those into one event stream, and each parser's
  contract speaks of `xml_tokens` of the input bytes. The writer turns events
  into bytes in `app/`: quick-xml's indenting writer carries state from
  event to event, and no trusted item small enough to stay a plain
  conversion can hold that loop. So the write-then-read laws above stop at
  the event stream on the writing side.

## Checking

`verus` verifies `src/lib.rs`; the tests run with `cargo test`.
