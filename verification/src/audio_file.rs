//! The reconciliation engine and the rename planner.  Importing flattens
//! the album domain model positionally onto a file list, composing one
//! normalized tag record per track; exporting builds the model back from
//! the records read out of the files, with the first file authoritative
//! for the album-level fields.  The rename planner derives a file's new
//! name from its own record.

use vstd::prelude::*;

use crate::model::{AlbumInfo, AlbumView, DiscInfo, TrackView};
use crate::tags::{tag_format_spec, Tags, TagsView};
use crate::text;

verus! {

/// The error raised when the manifest's track count and the number of
/// audio files disagree.
#[derive(Clone, Copy, Debug, PartialEq, Eq, Structural)]
pub enum TitlesMismatchFilesError {
    INSTANCE,
}

impl TitlesMismatchFilesError {
    /// The human-readable cause this error carries.
    pub fn message(&self) -> (r: &'static str)
        ensures
            r@ == "対象ファイル数とtagsのタイトル数が一致しません"@,
    {
        "対象ファイル数とtagsのタイトル数が一致しません"
    }
}

/// The error raised when a folder's files cannot be listed.
#[derive(Clone, Copy, Debug, PartialEq, Eq, Structural)]
pub enum FileAccessError {
    INSTANCE,
}

impl FileAccessError {
    /// The human-readable cause this error carries.
    pub fn message(&self) -> (r: &'static str)
        ensures
            r@ == "ファイル一覧が取得できませんでした"@,
    {
        "ファイル一覧が取得できませんでした"
    }
}

/// The error raised when there is no audio file to work on.
#[derive(Clone, Copy, Debug, PartialEq, Eq, Structural)]
pub enum NoAudioFileError {
    INSTANCE,
}

impl NoAudioFileError {
    /// The human-readable cause this error carries.
    pub fn message(&self) -> (r: &'static str)
        ensures
            r@ == "対象ファイルがありません"@,
    {
        "対象ファイルがありません"
    }
}

/// The views of a list of tag records.
pub open spec fn tags_views(v: Seq<Tags>) -> Seq<TagsView> {
    v.map_values(|t: Tags| t@)
}

/// The record the import writes into the file matched with track `j` of
/// disc `i` (both 0-based): the album-level fields, the 1-based disc and
/// track positions with their totals, and the track's title and artists.
pub open spec fn tags_for(a: AlbumView, i: int, j: int) -> TagsView {
    TagsView {
        album: a.album,
        album_artist: a.album_artist,
        release_date: a.release_date,
        art_work: a.art_work,
        number_of_discs: Some(a.discs.len() as usize),
        disc_number: Some((i + 1) as usize),
        number_of_tracks: Some(a.discs[i].tracks.len() as usize),
        track_number: Some((j + 1) as usize),
        title: a.discs[i].tracks[j].title,
        artists: a.discs[i].tracks[j].artists,
    }
}

/// The records of one disc, in track order.
pub open spec fn flatten_disc(a: AlbumView, i: int) -> Seq<TagsView> {
    Seq::new(a.discs[i].tracks.len(), |j: int| tags_for(a, i, j))
}

/// The records of the discs from `i` on, disc by disc.
pub open spec fn flatten_from(a: AlbumView, i: int) -> Seq<TagsView>
    decreases a.discs.len() - i,
{
    if i < 0 || i >= a.discs.len() {
        Seq::empty()
    } else {
        flatten_disc(a, i) + flatten_from(a, i + 1)
    }
}

/// Every record the import writes, walking discs and tracks in order.
pub open spec fn flatten(a: AlbumView) -> Seq<TagsView> {
    flatten_from(a, 0)
}

/// Plans the import of the album onto `file_count` files: one record per
/// track, in disc and track order, each matched positionally with the
/// next file.  When the track count and the file count disagree, the
/// whole operation fails with the count-mismatch error and no record is
/// handed out.
pub fn plan_import(album: &AlbumInfo, file_count: usize) -> (r: Result<
    Vec<Tags>,
    TitlesMismatchFilesError,
>)
    ensures
        r is Ok <==> flatten(album@).len() == file_count,
        match r {
            Ok(ts) => tags_views(ts@) == flatten(album@) && ts@.len() == file_count,
            Err(e) => e == TitlesMismatchFilesError::INSTANCE,
        },
{
    let ghost av = album@;
    let mut out: Vec<Tags> = Vec::new();
    let discs = album.discs();
    let ndiscs = discs.len();
    let mut i: usize = 0;
    proof {
        assert(tags_views(out@) =~= Seq::<TagsView>::empty());
        assert(flatten(av) =~= tags_views(out@) + flatten_from(av, 0));
    }
    while i < ndiscs
        invariant
            0 <= i <= ndiscs,
            av == album@,
            ndiscs == av.discs.len(),
            discs@.map_values(|d: DiscInfo| d@) == av.discs,
            flatten(av) == tags_views(out@) + flatten_from(av, i as int),
        decreases ndiscs - i,
    {
        let ghost base = tags_views(out@);
        let disc = &discs[i];
        let tracks = disc.tracks();
        let ntracks = tracks.len();
        let mut j: usize = 0;
        while j < ntracks
            invariant
                0 <= j <= ntracks,
                0 <= i < ndiscs,
                av == album@,
                ndiscs == av.discs.len(),
                ntracks == av.discs[i as int].tracks.len(),
                discs@.map_values(|d: DiscInfo| d@) == av.discs,
                disc@ == av.discs[i as int],
                tracks@.map_values(|t: crate::model::TrackInfo| t@) == av.discs[i as int].tracks,
                tags_views(out@) == base + flatten_disc(av, i as int).subrange(0, j as int),
            decreases ntracks - j,
        {
            let track = &tracks[j];
            let mut tags = Tags::new();
            tags.update_album_info(album);
            tags.update_disc_info(i + 1, disc);
            tags.update_track_info(j + 1, track);
            proof {
                assert(tracks@[j as int]@ == av.discs[i as int].tracks[j as int]);
                assert(Seq::<Seq<char>>::empty() + track@.artists =~= track@.artists);
                assert(tags@ =~= tags_for(av, i as int, j as int));
            }
            let ghost before = out@;
            out.push(tags);
            j = j + 1;
            proof {
                assert(tags_views(out@) =~= tags_views(before).push(tags_for(
                    av,
                    i as int,
                    j - 1,
                )));
                assert(flatten_disc(av, i as int).subrange(0, j as int) =~= flatten_disc(
                    av,
                    i as int,
                ).subrange(0, j - 1).push(tags_for(av, i as int, j - 1)));
                assert(tags_views(out@) =~= base + flatten_disc(av, i as int).subrange(
                    0,
                    j as int,
                ));
            }
        }
        i = i + 1;
        proof {
            assert(flatten_disc(av, i - 1).subrange(0, ntracks as int) =~= flatten_disc(
                av,
                i - 1,
            ));
            assert(flatten_from(av, i - 1) == flatten_disc(av, i - 1) + flatten_from(av, i as int));
            assert(tags_views(out@) + flatten_from(av, i as int) =~= (base + flatten_disc(
                av,
                i - 1,
            )) + flatten_from(av, i as int));
            assert((base + flatten_disc(av, i - 1)) + flatten_from(av, i as int) =~= base + (
            flatten_disc(av, i - 1) + flatten_from(av, i as int)));
            assert(flatten(av) =~= tags_views(out@) + flatten_from(av, i as int));
        }
    }
    proof {
        assert(flatten_from(av, ndiscs as int) =~= Seq::<TagsView>::empty());
        assert(flatten(av) =~= tags_views(out@));
    }
    if out.len() == file_count {
        Ok(out)
    } else {
        Err(TitlesMismatchFilesError::INSTANCE)
    }
}

/// The track a file exports to: the record's title, or the file's name
/// stem when the record has none, with the artists taken verbatim.
pub open spec fn export_track(t: TagsView, stem: Seq<char>) -> TrackView {
    TrackView {
        title: Some(
            match t.title {
                Some(x) => x,
                None => stem,
            },
        ),
        artists: t.artists,
    }
}

fn clone_strings(v: &Vec<String>) -> (r: Vec<String>)
    ensures
        crate::model::strs_view(r@) == crate::model::strs_view(v@),
{
    let mut r: Vec<String> = Vec::new();
    let mut i: usize = 0;
    proof {
        assert(crate::model::strs_view(r@) =~= crate::model::strs_view(v@).subrange(0, 0));
    }
    while i < v.len()
        invariant
            0 <= i <= v@.len(),
            crate::model::strs_view(r@) == crate::model::strs_view(v@).subrange(0, i as int),
        decreases v@.len() - i,
    {
        let ghost before = r@;
        r.push(v[i].clone());
        i = i + 1;
        proof {
            assert(crate::model::strs_view(r@) =~= crate::model::strs_view(before).push(
                v@[i - 1]@,
            ));
            assert(crate::model::strs_view(v@).subrange(0, i as int) =~= crate::model::strs_view(
                v@,
            ).subrange(0, i - 1).push(v@[i - 1]@));
        }
    }
    proof {
        assert(crate::model::strs_view(v@).subrange(0, v@.len() as int) =~= crate::model::strs_view(
            v@,
        ));
    }
    r
}

/// Builds the album domain model from the records read out of the files,
/// with `stems[k]` the name stem of the file `records[k]` came from.  The
/// first file seeds the album-level fields; any disc numbering in the
/// records is deliberately discarded and every track lands on one
/// synthetic disc.  With no file at all, the export fails.
pub fn to_album_info(records: &Vec<Tags>, stems: &Vec<String>) -> (r: Result<
    AlbumInfo,
    NoAudioFileError,
>)
    requires
        records@.len() == stems@.len(),
    ensures
        r is Err <==> records@.len() == 0,
        match r {
            Ok(a) => {
                &&& a@.album == records@[0]@.album
                &&& a@.album_artist == records@[0]@.album_artist
                &&& a@.release_date == records@[0]@.release_date
                &&& a@.art_work == records@[0]@.art_work
                &&& a@.discs.len() == 1
                &&& a@.discs[0].tracks.len() == records@.len()
                &&& forall|k: int|
                    0 <= k < records@.len() ==> a@.discs[0].tracks[k] == export_track(
                        records@[k]@,
                        stems@[k]@,
                    )
            },
            Err(e) => e == NoAudioFileError::INSTANCE,
        },
{
    if records.len() == 0 {
        return Err(NoAudioFileError::INSTANCE);
    }
    let first = &records[0];
    let album = match first.album() {
        Some(s) => Some(String::from_str(s)),
        None => None,
    };
    let album_artist = match first.album_artist() {
        Some(s) => Some(String::from_str(s)),
        None => None,
    };
    let release_date = match first.release_date() {
        Some(s) => Some(String::from_str(s)),
        None => None,
    };
    let mut album_info = AlbumInfo::new(album, album_artist, release_date);
    match first.art_work() {
        Some(image) => album_info.set_art_work(Some(image.clone())),
        None => album_info.set_art_work(None),
    }
    let mut disc = DiscInfo::new();
    let n = records.len();
    let mut i: usize = 0;
    while i < n
        invariant
            0 <= i <= n,
            n == records@.len(),
            n == stems@.len(),
            disc@.tracks.len() == i,
            forall|k: int|
                0 <= k < i ==> disc@.tracks[k] == export_track(records@[k]@, stems@[k]@),
        decreases n - i,
    {
        let record = &records[i];
        let title = match record.title() {
            Some(t) => String::from_str(t),
            None => stems[i].clone(),
        };
        let artists = clone_strings(record.artists());
        disc.new_track(Some(title), artists);
        i = i + 1;
        proof {
            assert(disc@.tracks[i - 1] =~= export_track(records@[i - 1]@, stems@[i - 1]@));
        }
    }
    let ghost before_discs = album_info@.discs;
    album_info.push_disc(disc);
    proof {
        assert(album_info@.discs.len() == 1);
        assert(album_info@.discs[0] == album_info@.discs.last());
    }
    Ok(album_info)
}


/// The decimal rendering of `n` zero-padded to the width of the decimal
/// rendering of `max`: the rule that makes track `3` of `12` render as
/// `03`.
pub open spec fn padded(n: nat, max: nat) -> Seq<char> {
    text::pad_to_spec(n, text::dec_spec(max).len() as int)
}

/// Renders `n` in decimal, zero-padded to the width `max` renders with.
pub fn add_zero_paddings(n: usize, max: usize) -> (r: String)
    ensures
        r@ == padded(n as nat, max as nat),
{
    let ms = text::dec_string(max);
    text::pad_number(n, ms.as_str().unicode_len())
}

/// Whether `c` is stripped from a composed file name: one of
/// `* \ | : " < > / ?`, the characters unsafe in a file name.
pub open spec fn is_unsafe_char(c: char) -> bool {
    c == '*' || c == '\\' || c == '|' || c == ':' || c == '"' || c == '<' || c == '>' || c == '/'
        || c == '?'
}

/// `s` with every filesystem-unsafe character stripped.
pub open spec fn strip_unsafe(s: Seq<char>) -> Seq<char> {
    s.filter(|c: char| !is_unsafe_char(c))
}

fn is_unsafe_char_exec(c: char) -> (r: bool)
    ensures
        r == is_unsafe_char(c),
{
    c == '*' || c == '\\' || c == '|' || c == ':' || c == '"' || c == '<' || c == '>' || c == '/'
        || c == '?'
}

fn strip_unsafe_chars(s: &str) -> (r: String)
    ensures
        r@ == strip_unsafe(s@),
{
    let len = s.unicode_len();
    let mut r = String::new();
    let mut i: usize = 0;
    proof {
        reveal(Seq::filter);
        assert(s@.subrange(0, 0) =~= Seq::<char>::empty());
        assert(r@ =~= strip_unsafe(s@.subrange(0, 0)));
    }
    while i < len
        invariant
            0 <= i <= len,
            len == s@.len(),
            r@ == strip_unsafe(s@.subrange(0, i as int)),
        decreases len - i,
    {
        let c = s.get_char(i);
        if !is_unsafe_char_exec(c) {
            text::push_char(&mut r, c);
        }
        i = i + 1;
        proof {
            reveal(Seq::filter);
            let prev = s@.subrange(0, i - 1);
            assert(s@.subrange(0, i as int).drop_last() =~= prev);
            assert(s@.subrange(0, i as int).last() == c);
        }
    }
    proof {
        assert(s@.subrange(0, len as int) =~= s@);
    }
    r
}

/// The view of an optional borrowed string.
pub open spec fn opt_str_view(o: Option<&str>) -> Option<Seq<char>> {
    match o {
        Some(s) => Some(s@),
        None => None,
    }
}

/// The file name composed from a record before unsafe characters are
/// stripped: a zero-padded disc number (only when the record counts more
/// than one disc), the zero-padded track number, the title and the
/// original extension, separated by dots.
pub open spec fn raw_name_spec(t: TagsView, ext: Option<Seq<char>>) -> Seq<char> {
    let discs = match t.number_of_discs {
        Some(n) => n,
        None => 1usize,
    };
    (if discs > 1 {
        padded(t.disc_number.unwrap() as nat, discs as nat) + seq!['.']
    } else {
        Seq::empty()
    }) + padded(t.track_number.unwrap() as nat, t.number_of_tracks.unwrap() as nat) + seq!['.']
        + t.title.unwrap() + (match ext {
        Some(e) => seq!['.'] + e,
        None => Seq::empty(),
    })
}

/// The new file name the rename planner derives from a file's own record
/// and the file's current extension.  The record must already carry the
/// track numbering and the title; the disc number as well when it counts
/// more than one disc.
pub fn new_filename(tags: &Tags, extension: Option<&str>) -> (r: String)
    requires
        tags@.title is Some,
        tags@.track_number is Some,
        tags@.number_of_tracks is Some,
        (match tags@.number_of_discs {
            Some(n) => n,
            None => 1usize,
        }) > 1 ==> tags@.disc_number is Some,
    ensures
        r@ == strip_unsafe(raw_name_spec(tags@, opt_str_view(extension))),
{
    let mut filename = String::new();
    let number_of_discs = match tags.number_of_discs() {
        Some(n) => n,
        None => 1,
    };
    if number_of_discs > 1 {
        let disc_number = match tags.disc_number() {
            Some(n) => n,
            None => 0,  // unreachable: the precondition has it present
        };
        let d = add_zero_paddings(disc_number, number_of_discs);
        filename.append(d.as_str());
        text::push_char(&mut filename, '.');
    }
    let track_number = match tags.track_number() {
        Some(n) => n,
        None => 0,  // unreachable: the precondition has it present
    };
    let number_of_tracks = match tags.number_of_tracks() {
        Some(n) => n,
        None => 0,  // unreachable: the precondition has it present
    };
    let t = add_zero_paddings(track_number, number_of_tracks);
    filename.append(t.as_str());
    text::push_char(&mut filename, '.');
    match tags.title() {
        Some(title) => filename.append(title),
        None => (),  // unreachable: the precondition has it present
    }
    match extension {
        Some(e) => {
            text::push_char(&mut filename, '.');
            filename.append(e);
        },
        None => (),
    }
    proof {
        assert(filename@ =~= raw_name_spec(tags@, opt_str_view(extension)));
    }
    strip_unsafe_chars(filename.as_str())
}

/// The file names with a supported audio extension, in their given
/// order: the working set of the flows.  A file with an unrecognized or
/// missing extension is left out, which is not an error.
pub fn select_audio_files(filenames: &Vec<String>) -> (r: Vec<String>)
    ensures
        crate::model::strs_view(r@) == crate::model::strs_view(filenames@).filter(
            |n: Seq<char>| tag_format_spec(n) is Some,
        ),
{
    let mut r: Vec<String> = Vec::new();
    let n = filenames.len();
    let mut i: usize = 0;
    proof {
        reveal(Seq::filter);
        assert(crate::model::strs_view(filenames@).subrange(0, 0) =~= Seq::<Seq<char>>::empty());
        assert(crate::model::strs_view(r@) =~= crate::model::strs_view(filenames@).subrange(
            0,
            0,
        ).filter(|n: Seq<char>| tag_format_spec(n) is Some));
    }
    while i < n
        invariant
            0 <= i <= n,
            n == filenames@.len(),
            crate::model::strs_view(r@) == crate::model::strs_view(filenames@).subrange(
                0,
                i as int,
            ).filter(|n: Seq<char>| tag_format_spec(n) is Some),
        decreases n - i,
    {
        let ghost before = r@;
        let name = &filenames[i];
        if crate::tags::tag_io_for(name.as_str()).is_some() {
            r.push(name.clone());
        }
        i = i + 1;
        proof {
            reveal(Seq::filter);
            let all = crate::model::strs_view(filenames@);
            assert(all.subrange(0, i as int).drop_last() =~= all.subrange(0, i - 1));
            assert(all.subrange(0, i as int).last() == name@);
            if tag_format_spec(name@) is Some {
                assert(crate::model::strs_view(r@) =~= crate::model::strs_view(before).push(
                    name@,
                ));
            }
        }
    }
    proof {
        assert(crate::model::strs_view(filenames@).subrange(
            0,
            crate::model::strs_view(filenames@).len() as int,
        ) =~= crate::model::strs_view(filenames@));
    }
    r
}


/// With at most one disc counted (or none recorded), the planned file
/// name carries no disc-number prefix, whatever disc number the record
/// holds.
pub proof fn lemma_single_disc_no_prefix(t: TagsView, ext: Option<Seq<char>>)
    requires
        (match t.number_of_discs {
            Some(n) => n,
            None => 1usize,
        }) <= 1,
    ensures
        raw_name_spec(t, ext) == padded(
            t.track_number.unwrap() as nat,
            t.number_of_tracks.unwrap() as nat,
        ) + seq!['.'] + t.title.unwrap() + (match ext {
            Some(e) => seq!['.'] + e,
            None => Seq::<char>::empty(),
        }),
{
    let tail = padded(t.track_number.unwrap() as nat, t.number_of_tracks.unwrap() as nat) + seq![
        '.',
    ] + t.title.unwrap() + (match ext {
        Some(e) => seq!['.'] + e,
        None => Seq::<char>::empty(),
    });
    assert(raw_name_spec(t, ext) =~= Seq::<char>::empty() + tail);
    assert(Seq::<char>::empty() + tail =~= tail);
}

/// Whether the records read out of a folder are exactly what an import
/// of their own export would write back: every file agrees with the
/// first on the album-level fields, the numbering reads one disc with
/// the tracks in file order, and every title is present.
pub open spec fn canonical_records(rs: Seq<TagsView>) -> bool {
    &&& rs.len() > 0
    &&& forall|k: int|
        0 <= k < rs.len() ==> {
            &&& (#[trigger] rs[k]).album == rs[0].album
            &&& rs[k].album_artist == rs[0].album_artist
            &&& rs[k].release_date == rs[0].release_date
            &&& rs[k].art_work == rs[0].art_work
            &&& rs[k].number_of_discs == Some(1usize)
            &&& rs[k].disc_number == Some(1usize)
            &&& rs[k].number_of_tracks == Some(rs.len() as usize)
            &&& rs[k].track_number == Some((k + 1) as usize)
            &&& rs[k].title is Some
        }
}

/// Export-then-import idempotence: the album a folder of canonical
/// records exports to plans an import that writes those same records
/// back, field for field.  Together with the contracts of
/// [`to_album_info`] and [`plan_import`], re-importing an untouched
/// export changes nothing.
pub proof fn lemma_export_import_round_trip(rs: Seq<TagsView>, a: AlbumView)
    requires
        canonical_records(rs),
        a.album == rs[0].album,
        a.album_artist == rs[0].album_artist,
        a.release_date == rs[0].release_date,
        a.art_work == rs[0].art_work,
        a.discs.len() == 1,
        a.discs[0].tracks.len() == rs.len(),
        forall|k: int|
            0 <= k < rs.len() ==> (#[trigger] a.discs[0].tracks[k]) == (TrackView {
                title: rs[k].title,
                artists: rs[k].artists,
            }),
    ensures
        flatten(a) == rs,
{
    assert(flatten_from(a, 1) =~= Seq::<TagsView>::empty());
    assert(flatten(a) =~= flatten_disc(a, 0) + flatten_from(a, 1));
    assert forall|k: int| 0 <= k < rs.len() implies flatten_disc(a, 0)[k] == rs[k] by {
        assert(a.discs[0].tracks[k] == (TrackView { title: rs[k].title, artists: rs[k].artists }));
        assert(flatten_disc(a, 0)[k] =~= rs[k]);
    }
    assert(flatten(a) =~= rs);
}

/// Every file name in the working set carries a supported extension: an
/// unsupported file, whatever its name, never appears in it.
pub proof fn lemma_working_set_supported(names: Seq<Seq<char>>, k: int)
    requires
        0 <= k < names.filter(|n: Seq<char>| tag_format_spec(n) is Some).len(),
    ensures
        tag_format_spec(names.filter(|n: Seq<char>| tag_format_spec(n) is Some)[k]) is Some,
{
    names.lemma_filter_pred(|n: Seq<char>| tag_format_spec(n) is Some, k);
}



} // verus!
