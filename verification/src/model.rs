//! The album domain model: a three-level ordered hierarchy of album, discs
//! and tracks, the in-memory form of the manifest.  Discs and tracks keep
//! their insertion order; positions are implicitly 1-indexed.

use vstd::prelude::*;

use crate::tags::{image_opt_view, Image, ImageView};

verus! {

/// The mathematical value of a [`TrackInfo`].
#[verifier::ext_equal]
pub struct TrackView {
    pub title: Option<Seq<char>>,
    pub artists: Seq<Seq<char>>,
}

/// The mathematical value of a [`DiscInfo`].
#[verifier::ext_equal]
pub struct DiscView {
    pub tracks: Seq<TrackView>,
}

/// The mathematical value of an [`AlbumInfo`].
#[verifier::ext_equal]
pub struct AlbumView {
    pub album: Option<Seq<char>>,
    pub album_artist: Option<Seq<char>>,
    pub release_date: Option<Seq<char>>,
    pub discs: Seq<DiscView>,
    pub art_work: Option<ImageView>,
}

/// The view of an optional owned string.
pub open spec fn str_opt_view(s: Option<String>) -> Option<Seq<char>> {
    match s {
        Some(v) => Some(v@),
        None => None,
    }
}

/// The views of a list of owned strings.
pub open spec fn strs_view(v: Seq<String>) -> Seq<Seq<char>> {
    v.map_values(|s: String| s@)
}

/// A track: an optional title and the ordered artist names.
#[derive(Debug)]
pub struct TrackInfo {
    title: Option<String>,
    artists: Vec<String>,
}

impl View for TrackInfo {
    type V = TrackView;

    closed spec fn view(&self) -> TrackView {
        TrackView { title: str_opt_view(self.title), artists: strs_view(self.artists@) }
    }
}

impl TrackInfo {
    pub fn title(&self) -> (r: Option<&str>)
        ensures
            match (r, self@.title) {
                (Some(s), Some(v)) => s@ == v,
                (None, None) => true,
                _ => false,
            },
    {
        match &self.title {
            Some(title) => Some(title.as_str()),
            None => None,
        }
    }

    pub fn artists(&self) -> (r: &Vec<String>)
        ensures
            strs_view(r@) == self@.artists,
    {
        &self.artists
    }
}

/// A disc: its ordered tracks.
#[derive(Debug)]
pub struct DiscInfo {
    tracks: Vec<TrackInfo>,
}

impl View for DiscInfo {
    type V = DiscView;

    closed spec fn view(&self) -> DiscView {
        DiscView { tracks: self.tracks@.map_values(|t: TrackInfo| t@) }
    }
}

impl DiscInfo {
    /// Makes a disc with no tracks yet.
    pub fn new() -> (r: DiscInfo)
        ensures
            r@.tracks == Seq::<TrackView>::empty(),
    {
        let r = DiscInfo { tracks: Vec::new() };
        proof {
            assert(r@.tracks =~= Seq::<TrackView>::empty());
        }
        r
    }

    pub fn tracks(&self) -> (r: &Vec<TrackInfo>)
        ensures
            r@.map_values(|t: TrackInfo| t@) == self@.tracks,
    {
        &self.tracks
    }

    /// Appends a fresh track with the given title and artists.
    pub fn new_track(&mut self, title: Option<String>, artists: Vec<String>)
        ensures
            final(self)@.tracks == old(self)@.tracks.push(
                TrackView { title: str_opt_view(title), artists: strs_view(artists@) },
            ),
    {
        let track_info = TrackInfo { title, artists };
        let ghost tv = track_info@;
        self.tracks.push(track_info);
        proof {
            assert(self@.tracks =~= old(self)@.tracks.push(tv));
        }
    }
}

/// The album: optional album-level fields and the ordered discs.
#[derive(Debug)]
pub struct AlbumInfo {
    album: Option<String>,
    album_artist: Option<String>,
    release_date: Option<String>,
    discs: Vec<DiscInfo>,
    art_work: Option<Image>,
}

impl View for AlbumInfo {
    type V = AlbumView;

    closed spec fn view(&self) -> AlbumView {
        AlbumView {
            album: str_opt_view(self.album),
            album_artist: str_opt_view(self.album_artist),
            release_date: str_opt_view(self.release_date),
            discs: self.discs@.map_values(|d: DiscInfo| d@),
            art_work: image_opt_view(self.art_work),
        }
    }
}

impl AlbumInfo {
    /// Makes an album with the given album-level fields, no discs and no
    /// artwork.
    pub fn new(album: Option<String>, album_artist: Option<String>, release_date: Option<String>) -> (r:
        AlbumInfo)
        ensures
            r@.album == str_opt_view(album),
            r@.album_artist == str_opt_view(album_artist),
            r@.release_date == str_opt_view(release_date),
            r@.discs == Seq::<DiscView>::empty(),
            r@.art_work is None,
    {
        let r = AlbumInfo {
            album,
            album_artist,
            release_date,
            discs: Vec::new(),
            art_work: None,
        };
        proof {
            assert(r@.discs =~= Seq::<DiscView>::empty());
        }
        r
    }

    pub fn album(&self) -> (r: Option<&str>)
        ensures
            match (r, self@.album) {
                (Some(s), Some(v)) => s@ == v,
                (None, None) => true,
                _ => false,
            },
    {
        match &self.album {
            Some(album) => Some(album.as_str()),
            None => None,
        }
    }

    pub fn album_artist(&self) -> (r: Option<&str>)
        ensures
            match (r, self@.album_artist) {
                (Some(s), Some(v)) => s@ == v,
                (None, None) => true,
                _ => false,
            },
    {
        match &self.album_artist {
            Some(album_artist) => Some(album_artist.as_str()),
            None => None,
        }
    }

    pub fn release_date(&self) -> (r: Option<&str>)
        ensures
            match (r, self@.release_date) {
                (Some(s), Some(v)) => s@ == v,
                (None, None) => true,
                _ => false,
            },
    {
        match &self.release_date {
            Some(release_date) => Some(release_date.as_str()),
            None => None,
        }
    }

    pub fn discs(&self) -> (r: &Vec<DiscInfo>)
        ensures
            r@.map_values(|d: DiscInfo| d@) == self@.discs,
    {
        &self.discs
    }

    /// Appends a fresh disc with no tracks.
    pub fn new_disc(&mut self)
        ensures
            final(self)@ == (AlbumView {
                discs: old(self)@.discs.push(DiscView { tracks: Seq::empty() }),
                ..old(self)@
            }),
    {
        let disc = DiscInfo { tracks: Vec::new() };
        proof {
            assert(disc@ =~= (DiscView { tracks: Seq::empty() }));
        }
        self.push_disc(disc);
    }

    /// Appends an already filled disc.
    pub fn push_disc(&mut self, disc: DiscInfo)
        ensures
            final(self)@ == (AlbumView { discs: old(self)@.discs.push(disc@), ..old(self)@ }),
    {
        let ghost dv = disc@;
        self.discs.push(disc);
        proof {
            assert(final(self)@ =~= (AlbumView {
                discs: old(self)@.discs.push(dv),
                ..old(self)@
            }));
        }
    }

    pub fn art_work(&self) -> (r: Option<&Image>)
        ensures
            match (r, self@.art_work) {
                (Some(i), Some(v)) => i@ == v,
                (None, None) => true,
                _ => false,
            },
    {
        match &self.art_work {
            Some(art_work) => Some(art_work),
            None => None,
        }
    }

    pub fn set_art_work(&mut self, art_work: Option<Image>)
        ensures
            final(self)@ == (AlbumView { art_work: image_opt_view(art_work), ..old(self)@ }),
    {
        self.art_work = art_work;
        proof {
            assert(final(self)@ =~= (AlbumView {
                art_work: self@.art_work,
                ..old(self)@
            }));
        }
    }
}

} // verus!
