//! The manifest codec: the line-oriented grammar of the textual manifest,
//! its parser into the album domain model, the serializer back to text,
//! and the proof that the two are inverse to one another.
//!
//! The grammar: album title, album artist and release date on the first
//! three lines, a blank separator line, then one or more disc blocks.  A
//! disc block is one or more non-empty track lines; a single blank line
//! begins the next block, and two adjacent blank lines are an error.  A
//! track line reads `title ("//" artist)*`.

use vstd::prelude::*;

use unicode_normalization::UnicodeNormalization;

use crate::model::{AlbumInfo, AlbumView, DiscInfo, DiscView, TrackView};
use crate::text;

verus! {

/// The error a manifest that cannot be read or parsed raises, with one
/// variant per cause.
#[derive(Clone, Copy, Debug, PartialEq, Eq, Structural)]
pub enum LoadTagsError {
    /// The manifest file itself could not be read.
    Unreadable,
    /// The manifest bytes are not valid UTF-8.
    NotUtf8,
    /// The album-name line is missing.
    MissingAlbum,
    /// The album-artist line is missing.
    MissingAlbumArtist,
    /// The release-date line is missing.
    MissingReleaseDate,
    /// The release date does not read `YYYY-MM-DD`.
    MalformedReleaseDate,
    /// The blank line after the release date is missing.
    MissingSeparator,
    /// The line after the release date is not blank.
    NonBlankSeparator,
    /// Two adjacent blank lines inside the track listing.
    ConsecutiveBlankLines,
}

impl LoadTagsError {
    /// The human-readable cause this error carries.
    pub fn message(&self) -> (r: &'static str)
        ensures
            r@ == match self {
                LoadTagsError::Unreadable => "tagsファイルが読み込めません"@,
                LoadTagsError::NotUtf8 => "tagsファイルの内容がUTF-8でエンコードされていません"@,
                LoadTagsError::MissingAlbum => "アルバム名がありません。"@,
                LoadTagsError::MissingAlbumArtist => "アルバムアーティスト名がありません。"@,
                LoadTagsError::MissingReleaseDate => "発売日がありません。"@,
                LoadTagsError::MalformedReleaseDate => "発売日の形式が不正です。"@,
                LoadTagsError::MissingSeparator => "発売日の次の空白行がありませんでした。"@,
                LoadTagsError::NonBlankSeparator => "発売日の次の行が空白行ではありません。"@,
                LoadTagsError::ConsecutiveBlankLines => "空白行が連続しています。"@,
            },
    {
        match self {
            LoadTagsError::Unreadable => "tagsファイルが読み込めません",
            LoadTagsError::NotUtf8 => "tagsファイルの内容がUTF-8でエンコードされていません",
            LoadTagsError::MissingAlbum => "アルバム名がありません。",
            LoadTagsError::MissingAlbumArtist => "アルバムアーティスト名がありません。",
            LoadTagsError::MissingReleaseDate => "発売日がありません。",
            LoadTagsError::MalformedReleaseDate => "発売日の形式が不正です。",
            LoadTagsError::MissingSeparator => "発売日の次の空白行がありませんでした。",
            LoadTagsError::NonBlankSeparator => "発売日の次の行が空白行ではありません。",
            LoadTagsError::ConsecutiveBlankLines => "空白行が連続しています。",
        }
    }
}

/// The error raised when the manifest cannot be written out.
#[derive(Clone, Copy, Debug, PartialEq, Eq, Structural)]
pub enum WriteTagsError {
    WriteFailed,
}

impl WriteTagsError {
    /// The human-readable cause this error carries.
    pub fn message(&self) -> (r: &'static str)
        ensures
            r@ == "tagsファイルが書き込めませんでした。"@,
    {
        "tagsファイルが書き込めませんでした。"
    }
}

/// Whether `c` is a decimal digit.
pub open spec fn is_digit(c: char) -> bool {
    48 <= c as u32 <= 57
}

/// Whether `s` reads `YYYY-MM-DD`: four digits, a dash, two digits, a
/// dash, two digits, and nothing more.
pub open spec fn date_valid(s: Seq<char>) -> bool {
    s.len() == 10 && is_digit(s[0]) && is_digit(s[1]) && is_digit(s[2]) && is_digit(s[3])
        && s[4] == '-' && is_digit(s[5]) && is_digit(s[6]) && s[7] == '-' && is_digit(s[8])
        && is_digit(s[9])
}

fn is_digit_char(c: char) -> (r: bool)
    ensures
        r == is_digit(c),
{
    let u = c as u32;
    48 <= u && u <= 57
}

/// Whether the text is a well-formed `YYYY-MM-DD` release date.
pub fn check_date(s: &str) -> (r: bool)
    ensures
        r == date_valid(s@),
{
    if s.unicode_len() != 10 {
        return false;
    }
    is_digit_char(s.get_char(0)) && is_digit_char(s.get_char(1)) && is_digit_char(s.get_char(2))
        && is_digit_char(s.get_char(3)) && s.get_char(4) == '-' && is_digit_char(s.get_char(5))
        && is_digit_char(s.get_char(6)) && s.get_char(7) == '-' && is_digit_char(s.get_char(8))
        && is_digit_char(s.get_char(9))
}

/// The track a non-empty line denotes: the part before the first `//` is
/// the title, each later `//`-delimited segment one artist, in order.
pub open spec fn track_view_of(line: Seq<char>) -> TrackView {
    let segs = text::split_pair_spec(line, '/');
    TrackView { title: Some(segs[0]), artists: segs.drop_first() }
}

/// Parses one track line into its title and its artist names.
pub fn parse_track(line: &str) -> (r: (String, Vec<String>))
    ensures
        Some(r.0@) == track_view_of(line@).title,
        crate::model::strs_view(r.1@) == track_view_of(line@).artists,
{
    let parts = text::split_pair(line, '/');
    let title = parts[0].clone();
    let mut artists: Vec<String> = Vec::new();
    let n = parts.len();
    let mut i: usize = 1;
    proof {
        assert(crate::model::strs_view(artists@) =~= crate::model::strs_view(parts@).drop_first().subrange(0, 0));
    }
    while i < n
        invariant
            1 <= i <= n,
            n == parts@.len(),
            crate::model::strs_view(artists@) == crate::model::strs_view(parts@).drop_first().subrange(
                0,
                i - 1,
            ),
        decreases n - i,
    {
        let ghost before = artists@;
        artists.push(parts[i].clone());
        i = i + 1;
        proof {
            assert(crate::model::strs_view(artists@) =~= crate::model::strs_view(before).push(
                parts@[i - 1]@,
            ));
            assert(crate::model::strs_view(parts@).drop_first().subrange(0, i - 1)
                =~= crate::model::strs_view(parts@).drop_first().subrange(0, i - 2).push(
                parts@[i - 1]@,
            ));
        }
    }
    proof {
        assert(crate::model::strs_view(parts@).drop_first().subrange(
            0,
            crate::model::strs_view(parts@).drop_first().len() as int,
        ) =~= crate::model::strs_view(parts@).drop_first());
        assert(crate::model::strs_view(parts@).drop_first() =~= text::split_pair_spec(
            line@,
            '/',
        ).drop_first());
    }
    (title, artists)
}

/// The disc blocks the track region parses to: `rest` are the remaining
/// lines, `discs` the finished discs, `cur` the tracks of the disc being
/// filled.  A blank line with an empty current disc is the
/// consecutive-blank-lines error; the final current disc is kept even
/// when it is still empty.
pub open spec fn parse_blocks(
    rest: Seq<Seq<char>>,
    discs: Seq<DiscView>,
    cur: Seq<TrackView>,
) -> Result<Seq<DiscView>, LoadTagsError>
    decreases rest.len(),
{
    if rest.len() == 0 {
        Ok(discs.push(DiscView { tracks: cur }))
    } else {
        let line = text::trim_end_spec(rest[0]);
        if line.len() == 0 {
            if cur.len() == 0 {
                Err(LoadTagsError::ConsecutiveBlankLines)
            } else {
                parse_blocks(rest.drop_first(), discs.push(DiscView { tracks: cur }), Seq::empty())
            }
        } else {
            parse_blocks(rest.drop_first(), discs, cur.push(track_view_of(line)))
        }
    }
}

/// The album a sequence of manifest lines parses to, or the first error:
/// the three header lines (each trimmed), the blank separator, then the
/// disc blocks.  The artwork is not part of the text; it parses to none.
pub open spec fn spec_parse(lines: Seq<Seq<char>>) -> Result<AlbumView, LoadTagsError> {
    if lines.len() < 1 {
        Err(LoadTagsError::MissingAlbum)
    } else if lines.len() < 2 {
        Err(LoadTagsError::MissingAlbumArtist)
    } else if lines.len() < 3 {
        Err(LoadTagsError::MissingReleaseDate)
    } else if !date_valid(text::trim_spec(lines[2])) {
        Err(LoadTagsError::MalformedReleaseDate)
    } else if lines.len() < 4 {
        Err(LoadTagsError::MissingSeparator)
    } else if text::trim_spec(lines[3]).len() > 0 {
        Err(LoadTagsError::NonBlankSeparator)
    } else {
        match parse_blocks(lines.subrange(4, lines.len() as int), Seq::empty(), Seq::empty()) {
            Ok(discs) => Ok(
                AlbumView {
                    album: Some(text::trim_spec(lines[0])),
                    album_artist: Some(text::trim_spec(lines[1])),
                    release_date: Some(text::trim_spec(lines[2])),
                    discs,
                    art_work: None,
                },
            ),
            Err(e) => Err(e),
        }
    }
}

/// Parses manifest lines into the album domain model, aborting at the
/// first malformed or missing line.
pub fn parse_manifest_lines(lines: &Vec<String>) -> (r: Result<AlbumInfo, LoadTagsError>)
    ensures
        match (r, spec_parse(crate::model::strs_view(lines@))) {
            (Ok(a), Ok(v)) => a@ == v,
            (Err(e), Err(k)) => e == k,
            _ => false,
        },
{
    let ghost lv = crate::model::strs_view(lines@);
    let n = lines.len();
    if n < 1 {
        return Err(LoadTagsError::MissingAlbum);
    }
    if n < 2 {
        return Err(LoadTagsError::MissingAlbumArtist);
    }
    if n < 3 {
        return Err(LoadTagsError::MissingReleaseDate);
    }
    let album = String::from_str(text::trim(lines[0].as_str()));
    let album_artist = String::from_str(text::trim(lines[1].as_str()));
    let release_date = String::from_str(text::trim(lines[2].as_str()));
    if !check_date(release_date.as_str()) {
        return Err(LoadTagsError::MalformedReleaseDate);
    }
    if n < 4 {
        return Err(LoadTagsError::MissingSeparator);
    }
    if text::trim(lines[3].as_str()).unicode_len() > 0 {
        return Err(LoadTagsError::NonBlankSeparator);
    }
    let mut album_info = AlbumInfo::new(Some(album), Some(album_artist), Some(release_date));
    let mut cur = DiscInfo::new();
    let mut i: usize = 4;
    proof {
        assert(lv.subrange(4, lv.len() as int) =~= lv.subrange(i as int, lv.len() as int));
    }
    while i < n
        invariant
            4 <= i <= n,
            n == lv.len(),
            lv == crate::model::strs_view(lines@),
            parse_blocks(lv.subrange(4, lv.len() as int), Seq::empty(), Seq::empty())
                == parse_blocks(
                lv.subrange(i as int, lv.len() as int),
                album_info@.discs,
                cur@.tracks,
            ),
            album_info@.album == Some(text::trim_spec(lv[0])),
            album_info@.album_artist == Some(text::trim_spec(lv[1])),
            album_info@.release_date == Some(text::trim_spec(lv[2])),
            album_info@.art_work is None,
            n >= 4,
            date_valid(text::trim_spec(lv[2])),
            text::trim_spec(lv[3]).len() == 0,
        decreases n - i,
    {
        let ghost rest = lv.subrange(i as int, lv.len() as int);
        proof {
            assert(rest[0] == lv[i as int]);
            assert(rest.drop_first() =~= lv.subrange(i + 1, lv.len() as int));
        }
        let line = text::trim_end(lines[i].as_str());
        if line.unicode_len() == 0 {
            if cur.tracks().len() == 0 {
                return Err(LoadTagsError::ConsecutiveBlankLines);
            }
            let full = cur;
            cur = DiscInfo::new();
            album_info.push_disc(full);
        } else {
            let (title, artists) = parse_track(line);
            cur.new_track(Some(title), artists);
            proof {
                assert(cur@.tracks.last() =~= track_view_of(text::trim_end_spec(lv[i as int])));
                assert(cur@.tracks =~= cur@.tracks.drop_last().push(
                    track_view_of(text::trim_end_spec(lv[i as int])),
                ));
            }
        }
        i = i + 1;
    }
    proof {
        assert(lv.subrange(i as int, lv.len() as int) =~= Seq::<Seq<char>>::empty());
    }
    album_info.push_disc(cur);
    proof {
        assert(album_info@ =~= (AlbumView {
            album: Some(text::trim_spec(lv[0])),
            album_artist: Some(text::trim_spec(lv[1])),
            release_date: Some(text::trim_spec(lv[2])),
            discs: album_info@.discs,
            art_work: None,
        }));
    }
    Ok(album_info)
}

/// An optional text field as the manifest writes it: absent is empty.
pub open spec fn opt_text(o: Option<Seq<char>>) -> Seq<char> {
    match o {
        Some(s) => s,
        None => Seq::empty(),
    }
}

/// The `//`-prefixed artist segments a track line carries after its
/// title.
pub open spec fn artists_suffix(ar: Seq<Seq<char>>) -> Seq<char>
    decreases ar.len(),
{
    if ar.len() == 0 {
        Seq::empty()
    } else {
        seq!['/', '/'] + ar[0] + artists_suffix(ar.drop_first())
    }
}

/// The one manifest line a track serializes to.
pub open spec fn track_line_spec(t: TrackView) -> Seq<char> {
    opt_text(t.title) + artists_suffix(t.artists)
}

/// The manifest lines of a run of tracks, one line each.
pub open spec fn tracks_lines(ts: Seq<TrackView>) -> Seq<Seq<char>>
    decreases ts.len(),
{
    if ts.len() == 0 {
        Seq::empty()
    } else {
        seq![track_line_spec(ts[0])] + tracks_lines(ts.drop_first())
    }
}

/// The manifest lines of the discs: each disc opens with one blank line,
/// then its track lines.
pub open spec fn discs_lines(ds: Seq<DiscView>) -> Seq<Seq<char>>
    decreases ds.len(),
{
    if ds.len() == 0 {
        Seq::empty()
    } else {
        seq![Seq::<char>::empty()] + tracks_lines(ds[0].tracks) + discs_lines(ds.drop_first())
    }
}

/// Every line of the manifest a model serializes to: the three header
/// lines, then the disc blocks.  The blank line each disc opens with is
/// the separator after the release date for the first disc, and the
/// block separator for every later one.
pub open spec fn manifest_lines(a: AlbumView) -> Seq<Seq<char>> {
    seq![opt_text(a.album), opt_text(a.album_artist), opt_text(a.release_date)] + discs_lines(
        a.discs,
    )
}

/// The manifest text of a sequence of lines: each line followed by one
/// `'\n'`.
pub open spec fn join_lines(ls: Seq<Seq<char>>) -> Seq<char>
    decreases ls.len(),
{
    if ls.len() == 0 {
        Seq::empty()
    } else {
        ls[0] + seq!['\n'] + join_lines(ls.drop_first())
    }
}

pub proof fn lemma_join_append(a: Seq<Seq<char>>, b: Seq<Seq<char>>)
    ensures
        join_lines(a + b) == join_lines(a) + join_lines(b),
    decreases a.len(),
{
    if a.len() == 0 {
        assert(a + b =~= b);
        assert(join_lines(a) + join_lines(b) =~= join_lines(b));
    } else {
        assert((a + b).drop_first() =~= a.drop_first() + b);
        lemma_join_append(a.drop_first(), b);
        assert((a + b)[0] == a[0]);
        assert(a[0] + seq!['\n'] + (join_lines(a.drop_first()) + join_lines(b)) =~= (a[0]
            + seq!['\n'] + join_lines(a.drop_first())) + join_lines(b));
    }
}

proof fn lemma_tracks_lines_push(ts: Seq<TrackView>, t: TrackView)
    ensures
        tracks_lines(ts.push(t)) == tracks_lines(ts) + seq![track_line_spec(t)],
    decreases ts.len(),
{
    if ts.len() == 0 {
        reveal_with_fuel(tracks_lines, 2);
        assert(ts.push(t).drop_first() =~= Seq::<TrackView>::empty());
        assert(tracks_lines(ts.push(t)) =~= tracks_lines(ts) + seq![track_line_spec(t)]);
    } else {
        assert(ts.push(t).drop_first() =~= ts.drop_first().push(t));
        lemma_tracks_lines_push(ts.drop_first(), t);
        assert(ts.push(t)[0] == ts[0]);
        assert(seq![track_line_spec(ts[0])] + (tracks_lines(ts.drop_first()) + seq![
            track_line_spec(t),
        ]) =~= tracks_lines(ts) + seq![track_line_spec(t)]);
    }
}

proof fn lemma_discs_lines_push(ds: Seq<DiscView>, d: DiscView)
    ensures
        discs_lines(ds.push(d)) == discs_lines(ds) + (seq![Seq::<char>::empty()] + tracks_lines(
            d.tracks,
        )),
    decreases ds.len(),
{
    if ds.len() == 0 {
        reveal_with_fuel(discs_lines, 2);
        assert(ds.push(d).drop_first() =~= Seq::<DiscView>::empty());
        assert(discs_lines(ds.push(d)) =~= discs_lines(ds) + (seq![Seq::<char>::empty()]
            + tracks_lines(d.tracks)));
    } else {
        assert(ds.push(d).drop_first() =~= ds.drop_first().push(d));
        lemma_discs_lines_push(ds.drop_first(), d);
        assert(ds.push(d)[0] == ds[0]);
        assert(seq![Seq::<char>::empty()] + tracks_lines(ds[0].tracks) + (discs_lines(
            ds.drop_first(),
        ) + (seq![Seq::<char>::empty()] + tracks_lines(d.tracks))) =~= discs_lines(ds) + (seq![
            Seq::<char>::empty(),
        ] + tracks_lines(d.tracks)));
    }
}

proof fn lemma_artists_suffix_push(ar: Seq<Seq<char>>, a: Seq<char>)
    ensures
        artists_suffix(ar.push(a)) == artists_suffix(ar) + seq!['/', '/'] + a,
    decreases ar.len(),
{
    if ar.len() == 0 {
        reveal_with_fuel(artists_suffix, 2);
        assert(ar.push(a).drop_first() =~= Seq::<Seq<char>>::empty());
        assert(artists_suffix(ar.push(a)) =~= artists_suffix(ar) + seq!['/', '/'] + a);
    } else {
        assert(ar.push(a).drop_first() =~= ar.drop_first().push(a));
        lemma_artists_suffix_push(ar.drop_first(), a);
        assert(ar.push(a)[0] == ar[0]);
        assert(seq!['/', '/'] + ar[0] + (artists_suffix(ar.drop_first()) + seq!['/', '/'] + a)
            =~= artists_suffix(ar) + seq!['/', '/'] + a);
    }
}

/// Serializes the album domain model to manifest text: the exact inverse
/// of parsing.  Album name, album artist and release date each on their
/// own line, then for every disc one blank line followed by its track
/// lines.
pub fn serialize_manifest_text(album_info: &AlbumInfo) -> (r: String)
    ensures
        r@ == join_lines(manifest_lines(album_info@)),
{
    let ghost av = album_info@;
    let ghost hdr = seq![
        opt_text(av.album),
        opt_text(av.album_artist),
        opt_text(av.release_date),
    ];
    let mut s = String::new();
    match album_info.album() {
        Some(a) => s.append(a),
        None => (),
    }
    text::push_char(&mut s, '\n');
    match album_info.album_artist() {
        Some(a) => s.append(a),
        None => (),
    }
    text::push_char(&mut s, '\n');
    match album_info.release_date() {
        Some(a) => s.append(a),
        None => (),
    }
    text::push_char(&mut s, '\n');
    proof {
        reveal_with_fuel(join_lines, 5);
        assert(hdr.drop_first() =~= seq![opt_text(av.album_artist), opt_text(av.release_date)]);
        assert(hdr.drop_first().drop_first() =~= seq![opt_text(av.release_date)]);
        assert(hdr.drop_first().drop_first().drop_first() =~= Seq::<Seq<char>>::empty());
        assert(s@ =~= join_lines(hdr));
        assert(av.discs.subrange(0, 0) =~= Seq::<DiscView>::empty());
        assert(hdr + discs_lines(av.discs.subrange(0, 0)) =~= hdr);
    }
    let discs = album_info.discs();
    let ndiscs = discs.len();
    let mut i: usize = 0;
    while i < ndiscs
        invariant
            0 <= i <= ndiscs,
            ndiscs == av.discs.len(),
            discs@.map_values(|d: DiscInfo| d@) == av.discs,
            s@ == join_lines(hdr + discs_lines(av.discs.subrange(0, i as int))),
        decreases ndiscs - i,
    {
        let ghost done = av.discs.subrange(0, i as int);
        let ghost dv = av.discs[i as int];
        text::push_char(&mut s, '\n');
        proof {
            reveal_with_fuel(join_lines, 3);
            lemma_join_append(hdr + discs_lines(done), seq![Seq::<char>::empty()]);
            assert(join_lines(seq![Seq::<char>::empty()]) =~= seq!['\n']);
            assert(seq![Seq::<char>::empty()].drop_first() =~= Seq::<Seq<char>>::empty());
            assert(s@ =~= join_lines((hdr + discs_lines(done)) + seq![Seq::<char>::empty()]));
            assert(dv.tracks.subrange(0, 0) =~= Seq::<TrackView>::empty());
            assert((hdr + discs_lines(done)) + seq![Seq::<char>::empty()] + tracks_lines(
                dv.tracks.subrange(0, 0),
            ) =~= (hdr + discs_lines(done)) + seq![Seq::<char>::empty()]);
        }
        let disc = &discs[i];
        let tracks = disc.tracks();
        let ntracks = tracks.len();
        let mut j: usize = 0;
        while j < ntracks
            invariant
                0 <= j <= ntracks,
                ntracks == dv.tracks.len(),
                tracks@.map_values(|t: crate::model::TrackInfo| t@) == dv.tracks,
                s@ == join_lines(
                    (hdr + discs_lines(done)) + seq![Seq::<char>::empty()] + tracks_lines(
                        dv.tracks.subrange(0, j as int),
                    ),
                ),
            decreases ntracks - j,
        {
            let ghost tl_done = tracks_lines(dv.tracks.subrange(0, j as int));
            let ghost tv = dv.tracks[j as int];
            let ghost line_base = s@;
            let track = &tracks[j];
            match track.title() {
                Some(t) => s.append(t),
                None => (),
            }
            proof {
                assert(tv.artists.subrange(0, 0) =~= Seq::<Seq<char>>::empty());
                assert(s@ =~= line_base + opt_text(tv.title) + artists_suffix(
                    tv.artists.subrange(0, 0),
                ));
            }
            let artists = track.artists();
            let nartists = artists.len();
            let mut k: usize = 0;
            while k < nartists
                invariant
                    0 <= k <= nartists,
                    nartists == tv.artists.len(),
                    crate::model::strs_view(artists@) == tv.artists,
                    artists@.len() == nartists,
                    s@ == line_base + opt_text(tv.title) + artists_suffix(
                        tv.artists.subrange(0, k as int),
                    ),
                decreases nartists - k,
            {
                text::push_char(&mut s, '/');
                text::push_char(&mut s, '/');
                s.append(artists[k].as_str());
                k = k + 1;
                proof {
                    lemma_artists_suffix_push(
                        tv.artists.subrange(0, k - 1),
                        tv.artists[k - 1],
                    );
                    assert(tv.artists.subrange(0, k - 1).push(tv.artists[k - 1])
                        =~= tv.artists.subrange(0, k as int));
                    assert(artists@[k - 1]@ == tv.artists[k - 1]);
                    assert(s@ =~= line_base + opt_text(tv.title) + artists_suffix(
                        tv.artists.subrange(0, k as int),
                    ));
                }
            }
            text::push_char(&mut s, '\n');
            j = j + 1;
            proof {
                reveal_with_fuel(join_lines, 3);
                assert(tv.artists.subrange(0, nartists as int) =~= tv.artists);
                let line = track_line_spec(tv);
                lemma_tracks_lines_push(dv.tracks.subrange(0, j - 1), tv);
                assert(dv.tracks.subrange(0, j - 1).push(tv) =~= dv.tracks.subrange(0, j as int));
                lemma_join_append(
                    (hdr + discs_lines(done)) + seq![Seq::<char>::empty()] + tl_done,
                    seq![line],
                );
                assert(join_lines(seq![line]) =~= line + seq!['\n']);
                assert(seq![line].drop_first() =~= Seq::<Seq<char>>::empty());
                assert(s@ =~= line_base + line + seq!['\n']);
                assert(((hdr + discs_lines(done)) + seq![Seq::<char>::empty()] + tl_done) + seq![
                    line,
                ] =~= (hdr + discs_lines(done)) + seq![Seq::<char>::empty()] + tracks_lines(
                    dv.tracks.subrange(0, j as int),
                ));
                assert(s@ =~= join_lines(
                    (hdr + discs_lines(done)) + seq![Seq::<char>::empty()] + tracks_lines(
                        dv.tracks.subrange(0, j as int),
                    ),
                ));
            }
        }
        i = i + 1;
        proof {
            assert(dv.tracks.subrange(0, ntracks as int) =~= dv.tracks);
            lemma_discs_lines_push(done, dv);
            assert(done.push(dv) =~= av.discs.subrange(0, i as int));
            assert((hdr + discs_lines(done)) + seq![Seq::<char>::empty()] + tracks_lines(dv.tracks)
                =~= hdr + discs_lines(av.discs.subrange(0, i as int)));
        }
    }
    proof {
        assert(av.discs.subrange(0, ndiscs as int) =~= av.discs);
    }
    s
}


/// Canonical composed Unicode form (NFC) of a character sequence.
pub uninterp spec fn nfc_of(s: Seq<char>) -> Seq<char>;

/// Relies on unicode_normalization's `nfc` character iterator: recoding
/// to canonical composed form, a function of the characters alone.
#[verifier::external_body]
fn to_nfc(s: &str) -> (r: String)
    ensures
        r@ == nfc_of(s@),
{
    s.nfc().collect::<String>()
}

/// Parses manifest text that is already in canonical composed form,
/// aborting at the first malformed or missing line.
pub fn parse_manifest_text(text: &str) -> (r: Result<AlbumInfo, LoadTagsError>)
    ensures
        match (r, spec_parse(text::lines_spec(text@))) {
            (Ok(a), Ok(v)) => a@ == v,
            (Err(e), Err(k)) => e == k,
            _ => false,
        },
{
    let lines = text::split_lines(text);
    parse_manifest_lines(&lines)
}

/// Recodes the manifest text to canonical composed Unicode form, then
/// parses it into the album domain model.
pub fn parse_manifest(text: &str) -> (r: Result<AlbumInfo, LoadTagsError>)
    ensures
        match (r, spec_parse(text::lines_spec(nfc_of(text@)))) {
            (Ok(a), Ok(v)) => a@ == v,
            (Err(e), Err(k)) => e == k,
            _ => false,
        },
{
    let n = to_nfc(text);
    parse_manifest_text(n.as_str())
}

/// Serializes the album domain model to manifest text and recodes it to
/// canonical composed Unicode form, the form the manifest is written in.
pub fn serialize_manifest(album_info: &AlbumInfo) -> (r: String)
    ensures
        r@ == nfc_of(join_lines(manifest_lines(album_info@))),
{
    let s = serialize_manifest_text(album_info);
    to_nfc(s.as_str())
}


/// Whether `s` is free of line breaks.
pub open spec fn flat(s: Seq<char>) -> bool {
    forall|k: int| 0 <= k < s.len() ==> (#[trigger] s[k]) != '\n'
}

/// A track line with no `//` separator is all title: parsing it yields
/// an empty artist list.
pub proof fn lemma_track_line_no_separator(line: Seq<char>)
    requires
        text::no_pair(line, '/'),
    ensures
        track_view_of(line) == (TrackView { title: Some(line), artists: Seq::empty() }),
{
    text::lemma_split_pair_whole(line, '/');
    assert(seq![line].drop_first() =~= Seq::<Seq<char>>::empty());
    assert(track_view_of(line) =~= (TrackView { title: Some(line), artists: Seq::empty() }));
}

/// Splitting a title followed by `//`-prefixed artist segments gives the
/// title and the artists back, as long as no segment smuggles in a
/// separator and no segment but the last ends in a lone slash.
proof fn lemma_split_suffix(first: Seq<char>, ar: Seq<Seq<char>>)
    requires
        text::no_pair(first, '/'),
        ar.len() > 0 ==> first.len() == 0 || first.last() != '/',
        forall|k: int|
            0 <= k < ar.len() - 1 ==> text::no_pair(#[trigger] ar[k], '/') && (ar[k].len() == 0
                || ar[k].last() != '/'),
        ar.len() > 0 ==> text::no_pair(ar.last(), '/'),
    ensures
        text::split_pair_spec(first + artists_suffix(ar), '/') == seq![first] + ar,
    decreases ar.len(),
{
    if ar.len() == 0 {
        assert(first + artists_suffix(ar) =~= first);
        text::lemma_split_pair_whole(first, '/');
        assert(seq![first] + ar =~= seq![first]);
    } else {
        let rest = ar[0] + artists_suffix(ar.drop_first());
        assert(first + artists_suffix(ar) =~= first + seq!['/', '/'] + rest);
        text::lemma_split_pair_step(first, '/', rest);
        if ar.len() > 1 {
            assert(ar.drop_first().last() == ar.last());
            assert forall|k: int| 0 <= k < ar.drop_first().len() - 1 implies text::no_pair(
                #[trigger] ar.drop_first()[k],
                '/',
            ) && (ar.drop_first()[k].len() == 0 || ar.drop_first()[k].last() != '/') by {
                assert(ar.drop_first()[k] == ar[k + 1]);
            }
            assert(ar[0].len() == 0 || ar[0].last() != '/');
        }
        assert(text::no_pair(ar[0], '/'));
        lemma_split_suffix(ar[0], ar.drop_first());
        assert(seq![first] + (seq![ar[0]] + ar.drop_first()) =~= seq![first] + ar);
    }
}

/// Parsing the line `T//A1//A2` yields title `T` and artists `A1`, `A2`,
/// for any title and artists free of the separator, the first two not
/// ending in a lone slash.
pub proof fn lemma_track_line_two_artists(t: Seq<char>, a1: Seq<char>, a2: Seq<char>)
    requires
        text::no_pair(t, '/'),
        t.len() == 0 || t.last() != '/',
        text::no_pair(a1, '/'),
        a1.len() == 0 || a1.last() != '/',
        text::no_pair(a2, '/'),
    ensures
        track_view_of(t + seq!['/', '/'] + a1 + seq!['/', '/'] + a2) == (TrackView {
            title: Some(t),
            artists: seq![a1, a2],
        }),
{
    let ar = seq![a1, a2];
    assert(ar.drop_first() =~= seq![a2]);
    assert(seq![a2].drop_first() =~= Seq::<Seq<char>>::empty());
    reveal_with_fuel(artists_suffix, 3);
    assert(artists_suffix(ar) =~= seq!['/', '/'] + a1 + seq!['/', '/'] + a2);
    assert(t + artists_suffix(ar) =~= t + seq!['/', '/'] + a1 + seq!['/', '/'] + a2);
    assert forall|k: int|
        0 <= k < ar.len() - 1 implies text::no_pair(#[trigger] ar[k], '/') && (ar[k].len() == 0
        || ar[k].last() != '/') by {
        assert(ar[k] == a1);
    }
    lemma_split_suffix(t, ar);
    assert((seq![t] + ar).drop_first() =~= ar);
    assert(track_view_of(t + seq!['/', '/'] + a1 + seq!['/', '/'] + a2) =~= (TrackView {
        title: Some(t),
        artists: ar,
    }));
}

/// Whether a track serializes to a line that parses back to itself: a
/// present title, no segment with a `//` inside, no segment but the last
/// ending in a lone slash, a line that is not blank, carries no line
/// break, and does not end in whitespace.
pub open spec fn track_ok(t: TrackView) -> bool {
    let line = track_line_spec(t);
    &&& t.title is Some
    &&& text::no_pair(t.title.unwrap(), '/')
    &&& (t.artists.len() > 0 ==> t.title.unwrap().len() == 0 || t.title.unwrap().last() != '/')
    &&& (forall|k: int|
        0 <= k < t.artists.len() - 1 ==> text::no_pair(#[trigger] t.artists[k], '/') && (
        t.artists[k].len() == 0 || t.artists[k].last() != '/'))
    &&& (t.artists.len() > 0 ==> text::no_pair(t.artists.last(), '/'))
    &&& line.len() > 0
    &&& text::trim_end_spec(line) == line
    &&& flat(line)
}

/// A track within `track_ok` parses back from its own line.
pub proof fn lemma_track_round_trip(t: TrackView)
    requires
        track_ok(t),
    ensures
        track_view_of(track_line_spec(t)) == t,
{
    lemma_split_suffix(t.title.unwrap(), t.artists);
    assert((seq![t.title.unwrap()] + t.artists).drop_first() =~= t.artists);
    assert(track_view_of(track_line_spec(t)) =~= t);
}


/// Whether a line survives the joining and re-splitting of the manifest
/// text: it carries no line break and does not end in a carriage return.
pub open spec fn line_ok(l: Seq<char>) -> bool {
    flat(l) && (l.len() == 0 || l.last() != '\r')
}

proof fn lemma_trim_start_len(s: Seq<char>)
    ensures
        text::trim_start_spec(s).len() <= s.len(),
        s.len() > 0 && text::is_ws(s[0]) ==> text::trim_start_spec(s).len() < s.len(),
    decreases s.len(),
{
    if s.len() > 0 && text::is_ws(s[0]) {
        lemma_trim_start_len(s.drop_first());
    }
}

proof fn lemma_trim_end_len(s: Seq<char>)
    ensures
        text::trim_end_spec(s).len() <= s.len(),
        s.len() > 0 && text::is_ws(s.last()) ==> text::trim_end_spec(s).len() < s.len(),
    decreases s.len(),
{
    if s.len() > 0 && text::is_ws(s.last()) {
        lemma_trim_end_len(s.drop_last());
    }
}

/// A line equal to its own trim neither starts nor ends in whitespace.
proof fn lemma_trim_fixed(s: Seq<char>)
    requires
        text::trim_spec(s) == s,
        s.len() > 0,
    ensures
        !text::is_ws(s[0]),
        !text::is_ws(s.last()),
        text::trim_end_spec(s) == s,
{
    lemma_trim_start_len(s);
    lemma_trim_end_len(text::trim_start_spec(s));
    assert(!text::is_ws(s[0]));
    assert(text::trim_start_spec(s) == s);
    lemma_trim_end_len(s);
}

/// A well-formed date line is its own trim and survives re-splitting.
proof fn lemma_date_props(s: Seq<char>)
    requires
        date_valid(s),
    ensures
        text::trim_spec(s) == s,
        line_ok(s),
{
    assert(!text::is_ws(s[0]));
    assert(text::trim_start_spec(s) == s);
    assert(!text::is_ws(s.last()));
    assert(text::trim_end_spec(s) == s);
    assert forall|k: int| 0 <= k < s.len() implies (#[trigger] s[k]) != '\n' by {
        assert(s.len() == 10);
        if k == 4 || k == 7 {
            assert(s[k] == '-');
        } else {
            assert(is_digit(s[k]));
        }
    }
    assert(s.last() != '\r');
}

/// Re-splitting the joined text recovers exactly the lines, when every
/// line is free of line breaks and none ends in a carriage return.
pub proof fn lemma_lines_of_join(ls: Seq<Seq<char>>)
    requires
        forall|k: int| 0 <= k < ls.len() ==> line_ok(#[trigger] ls[k]),
    ensures
        text::lines_spec(join_lines(ls)) == ls,
    decreases ls.len(),
{
    if ls.len() == 0 {
        assert(join_lines(ls) =~= Seq::<char>::empty());
        assert(text::lines_spec(join_lines(ls)) =~= ls);
    } else {
        let s = join_lines(ls);
        let l0 = ls[0];
        let n0 = l0.len() as int;
        assert(line_ok(l0));
        assert(s == l0 + seq!['\n'] + join_lines(ls.drop_first()));
        assert forall|k: int| 0 <= k < n0 implies s[k] != '\n' by {
            assert(s[k] == l0[k]);
        }
        assert(s[n0] == '\n');
        text::lemma_lines_step(s, n0);
        assert(s.subrange(0, n0) =~= l0);
        assert(text::strip_cr(l0) == l0);
        assert(s.subrange(n0 + 1, s.len() as int) =~= join_lines(ls.drop_first()));
        assert forall|k: int| 0 <= k < ls.drop_first().len() implies line_ok(
            #[trigger] ls.drop_first()[k],
        ) by {
            assert(ls.drop_first()[k] == ls[k + 1]);
        }
        lemma_lines_of_join(ls.drop_first());
        assert(seq![l0] + ls.drop_first() =~= ls);
    }
}


/// Whether a disc round-trips: at least one track, each within
/// [`track_ok`].
pub open spec fn disc_ok(d: DiscView) -> bool {
    d.tracks.len() > 0 && forall|j: int| 0 <= j < d.tracks.len() ==> track_ok(#[trigger] d.tracks[j])
}

/// Whether a header field round-trips: it is its own trim and carries no
/// line break.
pub open spec fn header_ok(s: Seq<char>) -> bool {
    text::trim_spec(s) == s && flat(s)
}

/// Whether a model round-trips through the manifest text: the three
/// header fields present and well formed, the date in `YYYY-MM-DD`, and
/// every disc non-empty with round-tripping tracks.
pub open spec fn round_trippable(a: AlbumView) -> bool {
    &&& a.album is Some && header_ok(a.album.unwrap())
    &&& a.album_artist is Some && header_ok(a.album_artist.unwrap())
    &&& a.release_date is Some && date_valid(a.release_date.unwrap())
    &&& a.discs.len() > 0
    &&& forall|i: int| 0 <= i < a.discs.len() ==> disc_ok(#[trigger] a.discs[i])
}

proof fn lemma_track_line_ok(t: TrackView)
    requires
        track_ok(t),
    ensures
        line_ok(track_line_spec(t)),
{
    let line = track_line_spec(t);
    lemma_trim_fixed_end(line);
}

proof fn lemma_trim_fixed_end(s: Seq<char>)
    requires
        text::trim_end_spec(s) == s,
        s.len() > 0,
    ensures
        !text::is_ws(s.last()),
        s.last() != '\r',
{
    lemma_trim_end_len(s);
}

proof fn lemma_tracks_lines_ok(ts: Seq<TrackView>)
    requires
        forall|j: int| 0 <= j < ts.len() ==> track_ok(#[trigger] ts[j]),
    ensures
        forall|k: int|
            0 <= k < tracks_lines(ts).len() ==> line_ok(#[trigger] tracks_lines(ts)[k]),
        tracks_lines(ts).len() == ts.len(),
    decreases ts.len(),
{
    if ts.len() > 0 {
        assert forall|j: int| 0 <= j < ts.drop_first().len() implies track_ok(
            #[trigger] ts.drop_first()[j],
        ) by {
            assert(ts.drop_first()[j] == ts[j + 1]);
        }
        lemma_tracks_lines_ok(ts.drop_first());
        lemma_track_line_ok(ts[0]);
        assert forall|k: int| 0 <= k < tracks_lines(ts).len() implies line_ok(
            #[trigger] tracks_lines(ts)[k],
        ) by {
            if k == 0 {
                assert(tracks_lines(ts)[0] == track_line_spec(ts[0]));
            } else {
                assert(tracks_lines(ts)[k] == tracks_lines(ts.drop_first())[k - 1]);
            }
        }
    }
}

proof fn lemma_discs_lines_ok(ds: Seq<DiscView>)
    requires
        forall|i: int| 0 <= i < ds.len() ==> disc_ok(#[trigger] ds[i]),
    ensures
        forall|k: int| 0 <= k < discs_lines(ds).len() ==> line_ok(#[trigger] discs_lines(ds)[k]),
    decreases ds.len(),
{
    if ds.len() > 0 {
        assert forall|i: int| 0 <= i < ds.drop_first().len() implies disc_ok(
            #[trigger] ds.drop_first()[i],
        ) by {
            assert(ds.drop_first()[i] == ds[i + 1]);
        }
        lemma_discs_lines_ok(ds.drop_first());
        lemma_tracks_lines_ok(ds[0].tracks);
        let tl = tracks_lines(ds[0].tracks);
        assert forall|k: int| 0 <= k < discs_lines(ds).len() implies line_ok(
            #[trigger] discs_lines(ds)[k],
        ) by {
            if k == 0 {
                assert(discs_lines(ds)[0] =~= Seq::<char>::empty());
            } else if k <= tl.len() {
                assert(discs_lines(ds)[k] == tl[k - 1]);
            } else {
                assert(discs_lines(ds)[k] == discs_lines(ds.drop_first())[k - 1 - tl.len()]);
            }
        }
    }
}

/// Walking the serialized track region recovers the discs: the tracks of
/// `ts` fill the current disc, then each disc of `rest` follows after
/// its blank line.
proof fn lemma_parse_blocks_runs(
    ts: Seq<TrackView>,
    rest: Seq<DiscView>,
    acc: Seq<DiscView>,
    cur: Seq<TrackView>,
)
    requires
        forall|j: int| 0 <= j < ts.len() ==> track_ok(#[trigger] ts[j]),
        forall|i: int| 0 <= i < rest.len() ==> disc_ok(#[trigger] rest[i]),
        cur.len() + ts.len() > 0,
    ensures
        parse_blocks(tracks_lines(ts) + discs_lines(rest), acc, cur) == Ok::<
            Seq<DiscView>,
            LoadTagsError,
        >(acc.push(DiscView { tracks: cur + ts }) + rest),
    decreases rest.len(), ts.len(),
{
    let lines = tracks_lines(ts) + discs_lines(rest);
    if ts.len() > 0 {
        let line = track_line_spec(ts[0]);
        assert(lines[0] == line);
        assert(track_ok(ts[0]));
        assert(text::trim_end_spec(line) == line);
        assert(line.len() > 0);
        lemma_track_round_trip(ts[0]);
        assert forall|j: int| 0 <= j < ts.drop_first().len() implies track_ok(
            #[trigger] ts.drop_first()[j],
        ) by {
            assert(ts.drop_first()[j] == ts[j + 1]);
        }
        lemma_parse_blocks_runs(ts.drop_first(), rest, acc, cur.push(ts[0]));
        assert(lines.drop_first() =~= tracks_lines(ts.drop_first()) + discs_lines(rest));
        assert(cur.push(ts[0]) + ts.drop_first() =~= cur + ts);
        assert(acc.push(DiscView { tracks: cur.push(ts[0]) + ts.drop_first() }) + rest
            =~= acc.push(DiscView { tracks: cur + ts }) + rest);
    } else if rest.len() > 0 {
        assert(lines =~= discs_lines(rest));
        assert(lines[0] =~= Seq::<char>::empty());
        assert(text::trim_end_spec(lines[0]).len() == 0);
        assert(cur.len() > 0);
        assert(disc_ok(rest[0]));
        assert forall|i: int| 0 <= i < rest.drop_first().len() implies disc_ok(
            #[trigger] rest.drop_first()[i],
        ) by {
            assert(rest.drop_first()[i] == rest[i + 1]);
        }
        lemma_parse_blocks_runs(
            rest[0].tracks,
            rest.drop_first(),
            acc.push(DiscView { tracks: cur }),
            Seq::empty(),
        );
        assert(lines.drop_first() =~= tracks_lines(rest[0].tracks) + discs_lines(
            rest.drop_first(),
        ));
        assert(Seq::<TrackView>::empty() + rest[0].tracks =~= rest[0].tracks);
        assert(DiscView { tracks: Seq::<TrackView>::empty() + rest[0].tracks } =~= rest[0]);
        assert(acc.push(DiscView { tracks: cur }).push(rest[0]) + rest.drop_first() =~= acc.push(
            DiscView { tracks: cur },
        ) + rest);
        assert(cur + ts =~= cur);
        assert(DiscView { tracks: cur + ts } =~= (DiscView { tracks: cur }));
    } else {
        assert(lines =~= Seq::<Seq<char>>::empty());
        assert(cur + ts =~= cur);
        assert(acc.push(DiscView { tracks: cur + ts }) + rest =~= acc.push(
            DiscView { tracks: cur },
        ));
    }
}

/// The round-trip law of the manifest codec: serializing a model within
/// [`round_trippable`] and parsing the text back yields an equal model,
/// field for field and in the same disc and track order.  The artwork is
/// no part of the text: it parses to none.
pub proof fn lemma_manifest_round_trip(a: AlbumView)
    requires
        round_trippable(a),
    ensures
        ({
            let r = spec_parse(text::lines_spec(join_lines(manifest_lines(a))));
            &&& r is Ok
            &&& r.unwrap().album == a.album
            &&& r.unwrap().album_artist == a.album_artist
            &&& r.unwrap().release_date == a.release_date
            &&& r.unwrap().discs == a.discs
            &&& r.unwrap().art_work is None
        }),
{
    let lines = manifest_lines(a);
    let album = a.album.unwrap();
    let artist = a.album_artist.unwrap();
    let date = a.release_date.unwrap();
    let hdr = seq![album, artist, date];
    assert(lines =~= hdr + discs_lines(a.discs));

    // every line survives joining and re-splitting
    lemma_date_props(date);
    lemma_discs_lines_ok(a.discs);
    assert forall|k: int| 0 <= k < lines.len() implies line_ok(#[trigger] lines[k]) by {
        if k == 0 {
            assert(lines[0] == album);
            if album.len() > 0 {
                lemma_trim_fixed(album);
            }
        } else if k == 1 {
            assert(lines[1] == artist);
            if artist.len() > 0 {
                lemma_trim_fixed(artist);
            }
        } else if k == 2 {
            assert(lines[2] == date);
        } else {
            assert(lines[k] == discs_lines(a.discs)[k - 3]);
        }
    }
    lemma_lines_of_join(lines);

    // the headers parse to themselves
    assert(lines[0] == album && lines[1] == artist && lines[2] == date);
    assert(text::trim_spec(album) == album);
    assert(text::trim_spec(artist) == artist);
    assert(text::trim_spec(date) == date);
    assert(date_valid(text::trim_spec(lines[2])));

    // the first disc's blank line is the separator after the date
    assert(lines.len() >= 4);
    assert(lines[3] == discs_lines(a.discs)[0]);
    assert(lines[3] =~= Seq::<char>::empty());
    assert(text::trim_spec(lines[3]).len() == 0);

    // the track region parses back to the discs
    assert(a.discs.len() > 0);
    assert(disc_ok(a.discs[0]));
    assert forall|i: int| 0 <= i < a.discs.drop_first().len() implies disc_ok(
        #[trigger] a.discs.drop_first()[i],
    ) by {
        assert(a.discs.drop_first()[i] == a.discs[i + 1]);
    }
    assert(lines.subrange(4, lines.len() as int) =~= tracks_lines(a.discs[0].tracks)
        + discs_lines(a.discs.drop_first()));
    lemma_parse_blocks_runs(
        a.discs[0].tracks,
        a.discs.drop_first(),
        Seq::empty(),
        Seq::empty(),
    );
    assert(Seq::<TrackView>::empty() + a.discs[0].tracks =~= a.discs[0].tracks);
    assert(DiscView { tracks: Seq::<TrackView>::empty() + a.discs[0].tracks } =~= a.discs[0]);
    assert(Seq::<DiscView>::empty().push(a.discs[0]) + a.discs.drop_first() =~= a.discs);
}


/// Whether a line counts as blank in the track region: empty once its
/// trailing whitespace is gone.
pub open spec fn blank_line(l: Seq<char>) -> bool {
    text::trim_end_spec(l).len() == 0
}

/// The disc-block walk rejects any run of lines holding two adjacent
/// blank lines: whatever came before them, it ends in the
/// consecutive-blank-lines error.
pub proof fn lemma_blocks_reject_adjacent_blanks(
    rest: Seq<Seq<char>>,
    acc: Seq<DiscView>,
    cur: Seq<TrackView>,
    idx: int,
)
    requires
        0 <= idx,
        idx + 1 < rest.len(),
        blank_line(rest[idx]),
        blank_line(rest[idx + 1]),
    ensures
        parse_blocks(rest, acc, cur) == Err::<Seq<DiscView>, LoadTagsError>(
            LoadTagsError::ConsecutiveBlankLines,
        ),
    decreases rest.len(),
{
    let line = text::trim_end_spec(rest[0]);
    if idx == 0 {
        assert(line.len() == 0);
        if cur.len() > 0 {
            assert(rest.drop_first()[0] == rest[1]);
            assert(blank_line(rest.drop_first()[0]));
            assert(parse_blocks(rest, acc, cur) == parse_blocks(
                rest.drop_first(),
                acc.push(DiscView { tracks: cur }),
                Seq::empty(),
            ));
        }
    } else {
        assert(rest.drop_first()[idx - 1] == rest[idx]);
        assert(rest.drop_first()[idx] == rest[idx + 1]);
        if line.len() == 0 {
            if cur.len() > 0 {
                lemma_blocks_reject_adjacent_blanks(
                    rest.drop_first(),
                    acc.push(DiscView { tracks: cur }),
                    Seq::empty(),
                    idx - 1,
                );
            }
        } else {
            lemma_blocks_reject_adjacent_blanks(
                rest.drop_first(),
                acc,
                cur.push(track_view_of(line)),
                idx - 1,
            );
        }
    }
}

/// The manifest parser never accepts two adjacent blank lines in the
/// track region: a manifest whose headers are in order but whose track
/// region holds them fails with the consecutive-blank-lines error.
pub proof fn lemma_parse_rejects_adjacent_blanks(lines: Seq<Seq<char>>, idx: int)
    requires
        lines.len() >= 4,
        date_valid(text::trim_spec(lines[2])),
        text::trim_spec(lines[3]).len() == 0,
        4 <= idx,
        idx + 1 < lines.len(),
        blank_line(lines[idx]),
        blank_line(lines[idx + 1]),
    ensures
        spec_parse(lines) == Err::<AlbumView, LoadTagsError>(LoadTagsError::ConsecutiveBlankLines),
{
    let rest = lines.subrange(4, lines.len() as int);
    assert(rest[idx - 4] == lines[idx]);
    assert(rest[idx - 3] == lines[idx + 1]);
    lemma_blocks_reject_adjacent_blanks(rest, Seq::empty(), Seq::empty(), idx - 4);
}

} // verus!
