//! The normalized tag record and its companions: the format-independent
//! field set exchanged between the per-format codecs and the album domain
//! model, the image payload with its format sniffing, and the
//! dispatch-by-extension policy that picks a codec for a file.

use vstd::prelude::*;

use crate::model::{AlbumInfo, DiscInfo, TrackInfo};
use crate::text;

verus! {

/// An image format the album artwork may have.
#[derive(Clone, Copy, Debug, PartialEq, Eq, Structural)]
pub enum ImageFormat {
    JPEG,
    PNG,
}

impl ImageFormat {
    /// The MIME type of this image format.
    pub fn mime(&self) -> (r: &'static str)
        ensures
            r@ == match self {
                ImageFormat::JPEG => "image/jpeg"@,
                ImageFormat::PNG => "image/png"@,
            },
    {
        match self {
            ImageFormat::JPEG => "image/jpeg",
            ImageFormat::PNG => "image/png",
        }
    }

    /// The file extension this image format is written with.
    pub fn extension(&self) -> (r: &'static str)
        ensures
            r@ == match self {
                ImageFormat::JPEG => "jpg"@,
                ImageFormat::PNG => "png"@,
            },
    {
        match self {
            ImageFormat::JPEG => "jpg",
            ImageFormat::PNG => "png",
        }
    }
}

/// The mathematical value of an [`Image`]: its format and its bytes.
#[verifier::ext_equal]
pub struct ImageView {
    pub format: ImageFormat,
    pub data: Seq<u8>,
}

/// An image: a recognized format plus the raw byte payload.
#[derive(Debug)]
pub struct Image {
    format: ImageFormat,
    data: Vec<u8>,
}

impl View for Image {
    type V = ImageView;

    closed spec fn view(&self) -> ImageView {
        ImageView { format: self.format, data: self.data@ }
    }
}

/// The view of an optional image.
pub open spec fn image_opt_view(a: Option<Image>) -> Option<ImageView> {
    match a {
        Some(i) => Some(i@),
        None => None,
    }
}

fn clone_bytes(v: &Vec<u8>) -> (r: Vec<u8>)
    ensures
        r@ == v@,
{
    let mut r: Vec<u8> = Vec::new();
    let mut i: usize = 0;
    while i < v.len()
        invariant
            0 <= i <= v@.len(),
            r@ == v@.subrange(0, i as int),
        decreases v@.len() - i,
    {
        r.push(v[i]);
        i = i + 1;
        proof {
            assert(r@ =~= v@.subrange(0, i as int));
        }
    }
    proof {
        assert(v@.subrange(0, v@.len() as int) =~= v@);
    }
    r
}

impl Clone for Image {
    fn clone(&self) -> (r: Image)
        ensures
            r@ == self@,
    {
        Image { format: self.format, data: clone_bytes(&self.data) }
    }
}

impl Image {
    /// Makes an image from a format and a byte payload.
    pub fn new(format: ImageFormat, data: Vec<u8>) -> (r: Image)
        ensures
            r@ == (ImageView { format, data: data@ }),
    {
        Image { format, data }
    }

    pub fn format(&self) -> (r: ImageFormat)
        ensures
            r == self@.format,
    {
        self.format
    }

    pub fn data(&self) -> (r: &Vec<u8>)
        ensures
            r@ == self@.data,
    {
        &self.data
    }
}

/// The error for data or a file that is not a recognized image: neither
/// JPEG nor PNG.
#[derive(Debug, Clone, Copy)]
pub struct ImageFormatError;

impl ImageFormatError {
    /// The human-readable cause this error carries.
    pub fn message(&self) -> (r: &'static str)
        ensures
            r@ == "画像のMIMEタイプが不正です"@,
    {
        "画像のMIMEタイプが不正です"
    }
}


/// The mathematical value of a [`Tags`] record.
#[verifier::ext_equal]
pub struct TagsView {
    pub album: Option<Seq<char>>,
    pub album_artist: Option<Seq<char>>,
    pub release_date: Option<Seq<char>>,
    pub art_work: Option<ImageView>,
    pub number_of_discs: Option<usize>,
    pub disc_number: Option<usize>,
    pub number_of_tracks: Option<usize>,
    pub track_number: Option<usize>,
    pub title: Option<Seq<char>>,
    pub artists: Seq<Seq<char>>,
}

/// The normalized tag record: the superset of fields the system cares
/// about, independent of any one audio container format.
#[derive(Debug)]
pub struct Tags {
    album: Option<String>,
    album_artist: Option<String>,
    release_date: Option<String>,
    art_work: Option<Image>,
    number_of_discs: Option<usize>,
    disc_number: Option<usize>,
    number_of_tracks: Option<usize>,
    track_number: Option<usize>,
    title: Option<String>,
    artists: Vec<String>,
}

impl View for Tags {
    type V = TagsView;

    closed spec fn view(&self) -> TagsView {
        TagsView {
            album: crate::model::str_opt_view(self.album),
            album_artist: crate::model::str_opt_view(self.album_artist),
            release_date: crate::model::str_opt_view(self.release_date),
            art_work: image_opt_view(self.art_work),
            number_of_discs: self.number_of_discs,
            disc_number: self.disc_number,
            number_of_tracks: self.number_of_tracks,
            track_number: self.track_number,
            title: crate::model::str_opt_view(self.title),
            artists: crate::model::strs_view(self.artists@),
        }
    }
}

/// The record with every field empty.
pub open spec fn empty_tags_view() -> TagsView {
    TagsView {
        album: None,
        album_artist: None,
        release_date: None,
        art_work: None,
        number_of_discs: None,
        disc_number: None,
        number_of_tracks: None,
        track_number: None,
        title: None,
        artists: Seq::empty(),
    }
}

impl Tags {
    /// Makes a record with every field empty.
    pub fn new() -> (r: Tags)
        ensures
            r@ == empty_tags_view(),
    {
        let r = Tags {
            album: None,
            album_artist: None,
            release_date: None,
            art_work: None,
            number_of_discs: None,
            disc_number: None,
            number_of_tracks: None,
            track_number: None,
            title: None,
            artists: vec![],
        };
        proof {
            assert(r@ =~= empty_tags_view());
        }
        r
    }

    pub fn album(&self) -> (r: Option<&str>)
        ensures
            match (r, self@.album) {
                (Some(s), Some(v)) => s@ == v,
                (None, None) => true,
                _ => false,
            },
    {
        match &self.album {
            Some(s) => Some(s.as_str()),
            None => None,
        }
    }

    pub fn set_album(&mut self, album: Option<String>)
        ensures
            final(self)@ == (TagsView { album: crate::model::str_opt_view(album), ..old(self)@ }),
    {
        self.album = album;
        proof {
            assert(final(self)@ =~= (TagsView { album: self@.album, ..old(self)@ }));
        }
    }

    pub fn album_artist(&self) -> (r: Option<&str>)
        ensures
            match (r, self@.album_artist) {
                (Some(s), Some(v)) => s@ == v,
                (None, None) => true,
                _ => false,
            },
    {
        match &self.album_artist {
            Some(s) => Some(s.as_str()),
            None => None,
        }
    }

    pub fn set_album_artist(&mut self, album_artist: Option<String>)
        ensures
            final(self)@ == (TagsView {
                album_artist: crate::model::str_opt_view(album_artist),
                ..old(self)@
            }),
    {
        self.album_artist = album_artist;
        proof {
            assert(final(self)@ =~= (TagsView { album_artist: self@.album_artist, ..old(self)@ }));
        }
    }

    pub fn release_date(&self) -> (r: Option<&str>)
        ensures
            match (r, self@.release_date) {
                (Some(s), Some(v)) => s@ == v,
                (None, None) => true,
                _ => false,
            },
    {
        match &self.release_date {
            Some(s) => Some(s.as_str()),
            None => None,
        }
    }

    pub fn set_release_date(&mut self, release_date: Option<String>)
        ensures
            final(self)@ == (TagsView {
                release_date: crate::model::str_opt_view(release_date),
                ..old(self)@
            }),
    {
        self.release_date = release_date;
        proof {
            assert(final(self)@ =~= (TagsView { release_date: self@.release_date, ..old(self)@ }));
        }
    }

    pub fn art_work(&self) -> (r: Option<&Image>)
        ensures
            match (r, self@.art_work) {
                (Some(i), Some(v)) => i@ == v,
                (None, None) => true,
                _ => false,
            },
    {
        match &self.art_work {
            Some(i) => Some(i),
            None => None,
        }
    }

    pub fn set_art_work(&mut self, art_work: Option<Image>)
        ensures
            final(self)@ == (TagsView { art_work: image_opt_view(art_work), ..old(self)@ }),
    {
        self.art_work = art_work;
        proof {
            assert(final(self)@ =~= (TagsView { art_work: self@.art_work, ..old(self)@ }));
        }
    }

    pub fn number_of_discs(&self) -> (r: Option<usize>)
        ensures
            r == self@.number_of_discs,
    {
        self.number_of_discs
    }

    pub fn set_number_of_discs(&mut self, number_of_discs: Option<usize>)
        ensures
            final(self)@ == (TagsView { number_of_discs, ..old(self)@ }),
    {
        self.number_of_discs = number_of_discs;
        proof {
            assert(final(self)@ =~= (TagsView {
                number_of_discs: self@.number_of_discs,
                ..old(self)@
            }));
        }
    }

    pub fn disc_number(&self) -> (r: Option<usize>)
        ensures
            r == self@.disc_number,
    {
        self.disc_number
    }

    pub fn set_disc_number(&mut self, disc_number: Option<usize>)
        ensures
            final(self)@ == (TagsView { disc_number, ..old(self)@ }),
    {
        self.disc_number = disc_number;
        proof {
            assert(final(self)@ =~= (TagsView { disc_number: self@.disc_number, ..old(self)@ }));
        }
    }

    pub fn number_of_tracks(&self) -> (r: Option<usize>)
        ensures
            r == self@.number_of_tracks,
    {
        self.number_of_tracks
    }

    pub fn set_number_of_tracks(&mut self, number_of_tracks: Option<usize>)
        ensures
            final(self)@ == (TagsView { number_of_tracks, ..old(self)@ }),
    {
        self.number_of_tracks = number_of_tracks;
        proof {
            assert(final(self)@ =~= (TagsView {
                number_of_tracks: self@.number_of_tracks,
                ..old(self)@
            }));
        }
    }

    pub fn track_number(&self) -> (r: Option<usize>)
        ensures
            r == self@.track_number,
    {
        self.track_number
    }

    pub fn set_track_number(&mut self, track_number: Option<usize>)
        ensures
            final(self)@ == (TagsView { track_number, ..old(self)@ }),
    {
        self.track_number = track_number;
        proof {
            assert(final(self)@ =~= (TagsView { track_number: self@.track_number, ..old(self)@ }));
        }
    }

    pub fn title(&self) -> (r: Option<&str>)
        ensures
            match (r, self@.title) {
                (Some(s), Some(v)) => s@ == v,
                (None, None) => true,
                _ => false,
            },
    {
        match &self.title {
            Some(s) => Some(s.as_str()),
            None => None,
        }
    }

    pub fn set_title(&mut self, title: Option<String>)
        ensures
            final(self)@ == (TagsView { title: crate::model::str_opt_view(title), ..old(self)@ }),
    {
        self.title = title;
        proof {
            assert(final(self)@ =~= (TagsView { title: self@.title, ..old(self)@ }));
        }
    }

    pub fn artists(&self) -> (r: &Vec<String>)
        ensures
            crate::model::strs_view(r@) == self@.artists,
    {
        &self.artists
    }

    /// Appends one artist name.
    pub fn add_artist(&mut self, artist: String)
        ensures
            final(self)@ == (TagsView {
                artists: old(self)@.artists.push(artist@),
                ..old(self)@
            }),
    {
        let ghost av = artist@;
        self.artists.push(artist);
        proof {
            assert(crate::model::strs_view(self.artists@) =~= old(self)@.artists.push(av));
            assert(final(self)@ =~= (TagsView { artists: old(self)@.artists.push(av), ..old(self)@ }));
        }
    }

    /// Copies the album-level fields out of the album: album name, album
    /// artist, release date and artwork, plus the disc count.
    pub fn update_album_info(&mut self, album_info: &AlbumInfo)
        ensures
            final(self)@ == (TagsView {
                album: album_info@.album,
                album_artist: album_info@.album_artist,
                release_date: album_info@.release_date,
                art_work: album_info@.art_work,
                number_of_discs: Some(album_info@.discs.len() as usize),
                ..old(self)@
            }),
    {
        self.set_album(
            match album_info.album() {
                Some(s) => Some(String::from_str(s)),
                None => None,
            },
        );
        self.set_album_artist(
            match album_info.album_artist() {
                Some(s) => Some(String::from_str(s)),
                None => None,
            },
        );
        self.set_release_date(
            match album_info.release_date() {
                Some(s) => Some(String::from_str(s)),
                None => None,
            },
        );
        match album_info.art_work() {
            Some(image) => self.set_art_work(Some(image.clone())),
            None => self.set_art_work(None),
        }
        self.set_number_of_discs(Some(album_info.discs().len()));
        proof {
            assert(final(self)@ =~= (TagsView {
                album: album_info@.album,
                album_artist: album_info@.album_artist,
                release_date: album_info@.release_date,
                art_work: album_info@.art_work,
                number_of_discs: Some(album_info@.discs.len() as usize),
                ..old(self)@
            }));
        }
    }

    /// Copies a disc's position and its track count.
    pub fn update_disc_info(&mut self, disc_number: usize, disc_info: &DiscInfo)
        ensures
            final(self)@ == (TagsView {
                disc_number: Some(disc_number),
                number_of_tracks: Some(disc_info@.tracks.len() as usize),
                ..old(self)@
            }),
    {
        self.set_disc_number(Some(disc_number));
        self.set_number_of_tracks(Some(disc_info.tracks().len()));
        proof {
            assert(final(self)@ =~= (TagsView {
                disc_number: Some(disc_number),
                number_of_tracks: Some(disc_info@.tracks.len() as usize),
                ..old(self)@
            }));
        }
    }

    /// Copies a track's position, its title and its artists; the artists
    /// are appended to the ones already present.
    pub fn update_track_info(&mut self, track_number: usize, track_info: &TrackInfo)
        ensures
            final(self)@ == (TagsView {
                track_number: Some(track_number),
                title: track_info@.title,
                artists: old(self)@.artists + track_info@.artists,
                ..old(self)@
            }),
    {
        self.set_track_number(Some(track_number));
        self.set_title(
            match track_info.title() {
                Some(s) => Some(String::from_str(s)),
                None => None,
            },
        );
        let artists = track_info.artists();
        let n = artists.len();
        let mut i: usize = 0;
        proof {
            assert(self@.artists =~= old(self)@.artists + track_info@.artists.subrange(0, 0));
        }
        while i < n
            invariant
                0 <= i <= n,
                n == track_info@.artists.len(),
                crate::model::strs_view(artists@) == track_info@.artists,
                artists@.len() == n,
                self@ == (TagsView {
                    track_number: Some(track_number),
                    title: track_info@.title,
                    artists: old(self)@.artists + track_info@.artists.subrange(0, i as int),
                    ..old(self)@
                }),
            decreases n - i,
        {
            self.add_artist(artists[i].clone());
            i = i + 1;
            proof {
                assert(old(self)@.artists + track_info@.artists.subrange(0, i - 1).push(
                    track_info@.artists[i - 1],
                ) =~= old(self)@.artists + track_info@.artists.subrange(0, i as int));
                assert(self@ =~= (TagsView {
                    track_number: Some(track_number),
                    title: track_info@.title,
                    artists: old(self)@.artists + track_info@.artists.subrange(0, i as int),
                    ..old(self)@
                }));
            }
        }
        proof {
            assert(track_info@.artists.subrange(0, n as int) =~= track_info@.artists);
        }
    }
}


/// An audio container format with a tag codec: matched case-sensitively
/// against a file's extension.
#[derive(Clone, Copy, Debug, PartialEq, Eq, Structural)]
pub enum AudioFormat {
    Flac,
    Mp3,
    Dsf,
    M4a,
}

impl AudioFormat {
    /// Whether this format's codec can write tags back.  The DSF codec can
    /// only read; asking it to save is a fatal condition for a caller.
    pub fn can_save(&self) -> (r: bool)
        ensures
            r == !(self is Dsf),
    {
        match self {
            AudioFormat::Dsf => false,
            _ => true,
        }
    }
}

/// The codec format a file name selects: its extension matched exactly
/// against the fixed table of supported containers.
pub open spec fn tag_format_spec(name: Seq<char>) -> Option<AudioFormat> {
    match text::extension_spec(name) {
        None => None,
        Some(e) => if e == "flac"@ {
            Some(AudioFormat::Flac)
        } else if e == "mp3"@ {
            Some(AudioFormat::Mp3)
        } else if e == "dsf"@ {
            Some(AudioFormat::Dsf)
        } else if e == "m4a"@ {
            Some(AudioFormat::M4a)
        } else {
            None
        },
    }
}

/// The tag codec format for the file name, or nothing when the extension
/// is missing or not supported; such files are left out of the working
/// set, which is not an error.
pub fn tag_io_for(filename: &str) -> (r: Option<AudioFormat>)
    ensures
        r == tag_format_spec(filename@),
{
    let ext = match text::extension_of(filename) {
        Some(ext) => ext,
        None => {
            return None;
        },
    };
    if text::str_eq(ext, "flac") {
        Some(AudioFormat::Flac)
    } else if text::str_eq(ext, "mp3") {
        Some(AudioFormat::Mp3)
    } else if text::str_eq(ext, "dsf") {
        Some(AudioFormat::Dsf)
    } else if text::str_eq(ext, "m4a") {
        Some(AudioFormat::M4a)
    } else {
        None
    }
}

/// Whether the first characters of `d` are the PNG signature, the first
/// pattern `imghdr` probes.
pub open spec fn is_png_bytes(d: Seq<u8>) -> bool {
    d.len() >= 8 && d[0] == 0x89u8 && d[1] == 0x50u8 && d[2] == 0x4eu8 && d[3] == 0x47u8
        && d[4] == 0x0du8 && d[5] == 0x0au8 && d[6] == 0x1au8 && d[7] == 0x0au8
}

/// Whether bytes 6 to 9 of `d` read `JFIF` or `Exif`, the JPEG pattern
/// `imghdr` probes.
pub open spec fn is_jpeg_bytes(d: Seq<u8>) -> bool {
    d.len() >= 10 && ((d[6] == 0x4au8 && d[7] == 0x46u8 && d[8] == 0x49u8 && d[9] == 0x46u8) || (
    d[6] == 0x45u8 && d[7] == 0x78u8 && d[8] == 0x69u8 && d[9] == 0x66u8))
}

enum Sniffed {
    Jpeg,
    Png,
    Other,
}

/// Relies on `imghdr::from_bytes`: its first two probes return `Png` for a
/// buffer opening with the eight PNG signature bytes and `Jpeg` for one
/// with `JFIF` or `Exif` at bytes 6 to 9; every other recognized or
/// unrecognized buffer maps to some other answer.  It indexes the first
/// twelve bytes unchecked, so shorter buffers stay out.
#[verifier::external_body]
fn sniff_bytes(data: &Vec<u8>) -> (r: Sniffed)
    requires
        data@.len() >= 12,
    ensures
        (r is Png) == is_png_bytes(data@),
        (r is Jpeg) == (is_jpeg_bytes(data@) && !is_png_bytes(data@)),
{
    match imghdr::from_bytes(data) {
        Some(imghdr::Type::Jpeg) => Sniffed::Jpeg,
        Some(imghdr::Type::Png) => Sniffed::Png,
        _ => Sniffed::Other,
    }
}

impl ImageFormat {
    /// The image format read off the content of `image_data` by its magic
    /// bytes; data that is neither PNG nor JPEG, including data too short
    /// to probe, is an error.
    pub fn from_data(image_data: &Vec<u8>) -> (r: Result<ImageFormat, ImageFormatError>)
        ensures
            (r == Ok::<ImageFormat, ImageFormatError>(ImageFormat::PNG)) == is_png_bytes(
                image_data@,
            ),
            (r == Ok::<ImageFormat, ImageFormatError>(ImageFormat::JPEG)) == (is_jpeg_bytes(
                image_data@,
            ) && !is_png_bytes(image_data@)),
            r is Err <==> !is_png_bytes(image_data@) && !is_jpeg_bytes(image_data@),
    {
        if image_data.len() >= 12 {
            match sniff_bytes(image_data) {
                Sniffed::Png => Ok(ImageFormat::PNG),
                Sniffed::Jpeg => Ok(ImageFormat::JPEG),
                Sniffed::Other => Err(ImageFormatError),
            }
        } else if image_data.len() >= 8 && image_data[0] == 0x89 && image_data[1] == 0x50
            && image_data[2] == 0x4e && image_data[3] == 0x47 && image_data[4] == 0x0d
            && image_data[5] == 0x0a && image_data[6] == 0x1a && image_data[7] == 0x0a {
            Ok(ImageFormat::PNG)
        } else if image_data.len() >= 10 && ((image_data[6] == 0x4a && image_data[7] == 0x46
            && image_data[8] == 0x49 && image_data[9] == 0x46) || (image_data[6] == 0x45
            && image_data[7] == 0x78 && image_data[8] == 0x69 && image_data[9] == 0x66)) {
            Ok(ImageFormat::JPEG)
        } else {
            Err(ImageFormatError)
        }
    }

    /// Whether `a` and `b` are the same letters up to ASCII case, with `b`
    /// already lowercase.
    pub open spec fn ascii_ci_eq(a: Seq<char>, b: Seq<char>) -> bool {
        a.len() == b.len() && forall|i: int|
            0 <= i < a.len() ==> ((#[trigger] a[i]) == b[i] || (65 <= a[i] as u32 <= 90 && a[i]
                as u32 + 32 == b[i] as u32))
    }

    /// The image format an extension selects, ignoring ASCII case.
    pub open spec fn from_name_spec(name: Seq<char>) -> Option<ImageFormat> {
        match text::extension_spec(name) {
            None => None,
            Some(e) => if Self::ascii_ci_eq(e, "jpg"@) || Self::ascii_ci_eq(e, "jpeg"@) {
                Some(ImageFormat::JPEG)
            } else if Self::ascii_ci_eq(e, "png"@) {
                Some(ImageFormat::PNG)
            } else {
                None
            },
        }
    }

    /// The image format read off the file name's extension, upper or lower
    /// case; a missing or unrecognized extension is an error.
    pub fn from_filepath(filename: &str) -> (r: Result<ImageFormat, ImageFormatError>)
        ensures
            match (r, Self::from_name_spec(filename@)) {
                (Ok(f), Some(v)) => f == v,
                (Err(_), None) => true,
                _ => false,
            },
    {
        let ext = match text::extension_of(filename) {
            Some(ext) => ext,
            None => {
                return Err(ImageFormatError);
            },
        };
        if ascii_ci_match(ext, "jpg") || ascii_ci_match(ext, "jpeg") {
            Ok(ImageFormat::JPEG)
        } else if ascii_ci_match(ext, "png") {
            Ok(ImageFormat::PNG)
        } else {
            Err(ImageFormatError)
        }
    }

    /// Whether the file name carries one of the recognized image
    /// extensions, written exactly `jpg` or `png`.
    pub fn is_image_file(filename: &str) -> (r: bool)
        ensures
            r == (text::extension_spec(filename@) == Some("jpg"@) || text::extension_spec(
                filename@,
            ) == Some("png"@)),
    {
        match text::extension_of(filename) {
            Some(ext) => text::str_eq(ext, "jpg") || text::str_eq(ext, "png"),
            None => false,
        }
    }
}

fn ascii_ci_match(a: &str, b: &str) -> (r: bool)
    ensures
        r == ImageFormat::ascii_ci_eq(a@, b@),
{
    let alen = a.unicode_len();
    let blen = b.unicode_len();
    if alen != blen {
        return false;
    }
    let mut i: usize = 0;
    while i < alen
        invariant
            0 <= i <= alen,
            alen == a@.len(),
            alen == b@.len(),
            forall|k: int|
                0 <= k < i ==> ((#[trigger] a@[k]) == b@[k] || (65 <= a@[k] as u32 <= 90 && a@[k]
                    as u32 + 32 == b@[k] as u32)),
        decreases alen - i,
    {
        let ca = a.get_char(i) as u32;
        let cb = b.get_char(i) as u32;
        if !(ca == cb || (65 <= ca && ca <= 90 && ca + 32 == cb)) {
            return false;
        }
        i = i + 1;
    }
    true
}


/// Whether `c` is one of the characters a multi-artist field is first
/// split on: the null character or a semicolon.
pub open spec fn is_artist_delim(c: char) -> bool {
    c == '\0' || c == ';'
}

/// The index of the first artist delimiter in `s`, or `s.len()` when
/// there is none.
pub open spec fn find_delim(s: Seq<char>) -> int
    decreases s.len(),
{
    if s.len() == 0 {
        0
    } else if is_artist_delim(s[0]) {
        0
    } else {
        1 + find_delim(s.drop_first())
    }
}

proof fn lemma_find_delim_at(s: Seq<char>, i: int)
    requires
        0 <= i <= s.len(),
        i < s.len() ==> is_artist_delim(s[i]),
        forall|k: int| 0 <= k < i ==> !is_artist_delim(s[k]),
    ensures
        find_delim(s) == i,
    decreases i,
{
    if i > 0 {
        lemma_find_delim_at(s.drop_first(), i - 1);
    }
}

/// The artist names packed into one delimited field: the field is split
/// on each null character or semicolon, and every piece again on each
/// literal double backslash, in that nesting order.  Empty pieces are
/// kept, as `str::split` keeps them.
pub open spec fn split_artists_spec(s: Seq<char>) -> Seq<Seq<char>>
    decreases s.len(),
{
    let i = find_delim(s);
    if i < 0 || i >= s.len() {
        text::split_pair_spec(s, '\\')
    } else {
        text::split_pair_spec(s.subrange(0, i), '\\') + split_artists_spec(
            s.subrange(i + 1, s.len() as int),
        )
    }
}

fn is_artist_delim_char(c: char) -> (r: bool)
    ensures
        r == is_artist_delim(c),
{
    c == '\0' || c == ';'
}

/// Splits a delimited multi-artist field into the single artist names.
pub fn split_artists(s: &str) -> (r: Vec<String>)
    ensures
        crate::model::strs_view(r@) == split_artists_spec(s@),
{
    let len = s.unicode_len();
    let mut out: Vec<String> = Vec::new();
    let mut pos: usize = 0;
    proof {
        assert(s@.subrange(0, len as int) =~= s@);
        assert(crate::model::strs_view(out@) =~= Seq::<Seq<char>>::empty());
    }
    loop
        invariant_except_break
            0 <= pos <= len,
            len == s@.len(),
            split_artists_spec(s@) == crate::model::strs_view(out@) + split_artists_spec(
                s@.subrange(pos as int, len as int),
            ),
        ensures
            crate::model::strs_view(out@) == split_artists_spec(s@),
        decreases len - pos + 1,
    {
        let ghost old_out = out@;
        let ghost rest = s@.subrange(pos as int, len as int);
        let mut j: usize = pos;
        while j < len && !is_artist_delim_char(s.get_char(j))
            invariant
                pos <= j <= len,
                len == s@.len(),
                forall|k: int| pos <= k < j ==> !is_artist_delim(s@[k]),
            decreases len - j,
        {
            j = j + 1;
        }
        let matched = j < len;
        let seg = s.substring_char(pos, j);
        proof {
            assert(seg@ =~= rest.subrange(0, j - pos));
            assert forall|k: int| 0 <= k < j - pos implies !is_artist_delim(rest[k]) by {
                assert(rest[k] == s@[pos + k]);
            }
            if matched {
                assert(rest[j - pos] == s@[j as int]);
                lemma_find_delim_at(rest, j - pos);
            } else {
                assert(seg@ =~= rest);
                lemma_find_delim_at(rest, rest.len() as int);
            }
        }
        let part = text::split_pair(seg, '\\');
        let n = part.len();
        let mut t: usize = 0;
        while t < n
            invariant
                0 <= t <= n,
                n == part@.len(),
                crate::model::strs_view(out@) == crate::model::strs_view(old_out)
                    + crate::model::strs_view(part@.subrange(0, t as int)),
            decreases n - t,
        {
            let ghost before = out@;
            out.push(part[t].clone());
            t = t + 1;
            proof {
                assert(crate::model::strs_view(out@) =~= crate::model::strs_view(before).push(
                    part@[t - 1]@,
                ));
                assert(crate::model::strs_view(part@.subrange(0, t as int))
                    =~= crate::model::strs_view(part@.subrange(0, t - 1)).push(part@[t - 1]@));
                assert(crate::model::strs_view(old_out) + crate::model::strs_view(part@.subrange(
                    0,
                    t as int,
                )) =~= (crate::model::strs_view(old_out) + crate::model::strs_view(part@.subrange(
                    0,
                    t - 1,
                ))).push(part@[t - 1]@));
            }
        }
        proof {
            assert(part@.subrange(0, n as int) =~= part@);
            assert(crate::model::strs_view(part@) == text::split_pair_spec(seg@, '\\'));
        }
        if matched {
            proof {
                assert(rest.subrange(j - pos + 1, rest.len() as int)
                    =~= s@.subrange(j + 1, len as int));
                assert(split_artists_spec(rest) == text::split_pair_spec(seg@, '\\')
                    + split_artists_spec(s@.subrange(j + 1, len as int)));
                assert(crate::model::strs_view(old_out) + split_artists_spec(rest)
                    =~= crate::model::strs_view(out@) + split_artists_spec(
                    s@.subrange(j + 1, len as int),
                ));
            }
            pos = j + 1;
        } else {
            proof {
                assert(split_artists_spec(rest) == text::split_pair_spec(rest, '\\'));
                assert(crate::model::strs_view(old_out) + split_artists_spec(rest)
                    =~= crate::model::strs_view(out@));
            }
            break;
        }
    }
    out
}


/// A structured release date rendered as zero-padded `YYYY-MM-DD`; the
/// rule every codec reading year, month and day fields must replicate.
pub open spec fn release_date_text(year: nat, month: nat, day: nat) -> Seq<char> {
    text::pad_to_spec(year, 4) + seq!['-'] + text::pad_to_spec(month, 2) + seq!['-']
        + text::pad_to_spec(day, 2)
}

/// Renders a structured year, month and day as zero-padded `YYYY-MM-DD`.
pub fn format_release_date(year: u32, month: u32, day: u32) -> (r: String)
    ensures
        r@ == release_date_text(year as nat, month as nat, day as nat),
{
    let mut r = text::pad_number_u32(year, 4);
    text::push_char(&mut r, '-');
    let m = text::pad_number_u32(month, 2);
    r.append(m.as_str());
    text::push_char(&mut r, '-');
    let d = text::pad_number_u32(day, 2);
    r.append(d.as_str());
    proof {
        assert(r@ =~= release_date_text(year as nat, month as nat, day as nat));
    }
    r
}

} // verus!
