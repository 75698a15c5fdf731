use album_tags::audio_file::select_audio_files;
use album_tags::model::{AlbumInfo, DiscInfo};
use album_tags::tags::{
    format_release_date, split_artists, tag_io_for, AudioFormat, Image, ImageFormat, Tags,
};

#[test]
fn new_tags_are_empty() {
    let tags = Tags::new();
    assert_eq!(tags.album(), None);
    assert_eq!(tags.album_artist(), None);
    assert_eq!(tags.release_date(), None);
    assert!(tags.art_work().is_none());
    assert_eq!(tags.number_of_discs(), None);
    assert_eq!(tags.disc_number(), None);
    assert_eq!(tags.number_of_tracks(), None);
    assert_eq!(tags.track_number(), None);
    assert_eq!(tags.title(), None);
    assert!(tags.artists().is_empty());
}

#[test]
fn setters_round_trip() {
    let mut tags = Tags::new();
    tags.set_album(Some("A".to_string()));
    tags.set_album_artist(Some("B".to_string()));
    tags.set_release_date(Some("2020-01-02".to_string()));
    tags.set_number_of_discs(Some(2));
    tags.set_disc_number(Some(1));
    tags.set_number_of_tracks(Some(9));
    tags.set_track_number(Some(3));
    tags.set_title(Some("T".to_string()));
    tags.add_artist("X".to_string());
    tags.add_artist("Y".to_string());
    assert_eq!(tags.album(), Some("A"));
    assert_eq!(tags.album_artist(), Some("B"));
    assert_eq!(tags.release_date(), Some("2020-01-02"));
    assert_eq!(tags.number_of_discs(), Some(2));
    assert_eq!(tags.disc_number(), Some(1));
    assert_eq!(tags.number_of_tracks(), Some(9));
    assert_eq!(tags.track_number(), Some(3));
    assert_eq!(tags.title(), Some("T"));
    assert_eq!(tags.artists(), &vec!["X".to_string(), "Y".to_string()]);
}

#[test]
fn update_methods_compose_a_record() {
    let mut album = AlbumInfo::new(
        Some("Album".to_string()),
        Some("Artist".to_string()),
        Some("2020-01-02".to_string()),
    );
    let mut disc = DiscInfo::new();
    disc.new_track(Some("One".to_string()), vec!["A".to_string()]);
    disc.new_track(Some("Two".to_string()), vec![]);
    album.push_disc(disc);

    let mut tags = Tags::new();
    tags.update_album_info(&album);
    tags.update_disc_info(1, &album.discs()[0]);
    tags.update_track_info(2, &album.discs()[0].tracks()[1]);
    assert_eq!(tags.album(), Some("Album"));
    assert_eq!(tags.album_artist(), Some("Artist"));
    assert_eq!(tags.release_date(), Some("2020-01-02"));
    assert_eq!(tags.number_of_discs(), Some(1));
    assert_eq!(tags.disc_number(), Some(1));
    assert_eq!(tags.number_of_tracks(), Some(2));
    assert_eq!(tags.track_number(), Some(2));
    assert_eq!(tags.title(), Some("Two"));
    assert!(tags.artists().is_empty());
}

#[test]
fn dispatches_by_exact_extension() {
    assert_eq!(tag_io_for("01 song.flac"), Some(AudioFormat::Flac));
    assert_eq!(tag_io_for("x.mp3"), Some(AudioFormat::Mp3));
    assert_eq!(tag_io_for("x.dsf"), Some(AudioFormat::Dsf));
    assert_eq!(tag_io_for("x.m4a"), Some(AudioFormat::M4a));
    assert_eq!(tag_io_for("track.txt"), None);
    assert_eq!(tag_io_for("noextension"), None);
    assert_eq!(tag_io_for("X.FLAC"), None);
    assert_eq!(tag_io_for(".flac"), None);
}

#[test]
fn dsf_codec_cannot_save() {
    assert!(AudioFormat::Flac.can_save());
    assert!(AudioFormat::Mp3.can_save());
    assert!(AudioFormat::M4a.can_save());
    assert!(!AudioFormat::Dsf.can_save());
}

#[test]
fn unsupported_extension_excluded_from_working_set() {
    let names = vec![
        "01 one.flac".to_string(),
        "track.txt".to_string(),
        "02 two.mp3".to_string(),
        "Folder.jpg".to_string(),
    ];
    let selected = select_audio_files(&names);
    assert_eq!(
        selected,
        vec!["01 one.flac".to_string(), "02 two.mp3".to_string()]
    );
}

#[test]
fn sniffs_png_from_bytes() {
    let mut data = vec![0x89, b'P', b'N', b'G', 0x0d, 0x0a, 0x1a, 0x0a];
    data.extend_from_slice(&[0, 0, 0, 13]);
    assert!(matches!(ImageFormat::from_data(&data), Ok(ImageFormat::PNG)));
}

#[test]
fn sniffs_jpeg_from_bytes() {
    let jfif = vec![
        0xff, 0xd8, 0xff, 0xe0, 0x00, 0x10, b'J', b'F', b'I', b'F', 0x00, 0x01,
    ];
    assert!(matches!(ImageFormat::from_data(&jfif), Ok(ImageFormat::JPEG)));
    let exif = vec![
        0xff, 0xd8, 0xff, 0xe1, 0x00, 0x10, b'E', b'x', b'i', b'f', 0x00, 0x00,
    ];
    assert!(matches!(ImageFormat::from_data(&exif), Ok(ImageFormat::JPEG)));
}

#[test]
fn rejects_unrecognized_image_bytes() {
    assert!(ImageFormat::from_data(&vec![0u8; 32]).is_err());
    assert!(ImageFormat::from_data(&vec![]).is_err());
    assert!(ImageFormat::from_data(&vec![0x89, b'P']).is_err());
    // a GIF header is a recognized image, but not one the album art accepts
    let gif = b"GIF89a______".to_vec();
    assert!(ImageFormat::from_data(&gif).is_err());
}

#[test]
fn reads_image_format_from_file_name() {
    assert!(matches!(
        ImageFormat::from_filepath("Folder.jpg"),
        Ok(ImageFormat::JPEG)
    ));
    assert!(matches!(
        ImageFormat::from_filepath("Folder.JPeG"),
        Ok(ImageFormat::JPEG)
    ));
    assert!(matches!(
        ImageFormat::from_filepath("art.PNG"),
        Ok(ImageFormat::PNG)
    ));
    assert!(ImageFormat::from_filepath("art.gif").is_err());
    assert!(ImageFormat::from_filepath("no_extension").is_err());
}

#[test]
fn image_file_names_match_exactly() {
    assert!(ImageFormat::is_image_file("a.jpg"));
    assert!(ImageFormat::is_image_file("a.png"));
    assert!(!ImageFormat::is_image_file("a.JPG"));
    assert!(!ImageFormat::is_image_file("a.jpeg"));
    assert!(!ImageFormat::is_image_file("a.txt"));
    assert!(!ImageFormat::is_image_file("jpg"));
}

#[test]
fn image_format_names() {
    assert_eq!(ImageFormat::JPEG.mime(), "image/jpeg");
    assert_eq!(ImageFormat::PNG.mime(), "image/png");
    assert_eq!(ImageFormat::JPEG.extension(), "jpg");
    assert_eq!(ImageFormat::PNG.extension(), "png");
}

#[test]
fn image_carries_format_and_data() {
    let image = Image::new(ImageFormat::PNG, vec![1, 2, 3]);
    assert!(matches!(image.format(), ImageFormat::PNG));
    assert_eq!(image.data(), &vec![1, 2, 3]);
    let copy = image.clone();
    assert_eq!(copy.data(), &vec![1, 2, 3]);
}

#[test]
fn splits_artists_on_every_delimiter() {
    assert_eq!(
        split_artists("A;B\u{0}C"),
        vec!["A".to_string(), "B".to_string(), "C".to_string()]
    );
    assert_eq!(
        split_artists("X\\\\Y"),
        vec!["X".to_string(), "Y".to_string()]
    );
    assert_eq!(
        split_artists("A;X\\\\Y"),
        vec!["A".to_string(), "X".to_string(), "Y".to_string()]
    );
    assert_eq!(split_artists("Solo"), vec!["Solo".to_string()]);
    assert_eq!(split_artists("A;;B"), vec![
        "A".to_string(),
        "".to_string(),
        "B".to_string()
    ]);
}

#[test]
fn formats_release_dates_zero_padded() {
    assert_eq!(format_release_date(2020, 1, 2), "2020-01-02");
    assert_eq!(format_release_date(800, 11, 30), "0800-11-30");
    assert_eq!(format_release_date(12345, 6, 7), "12345-06-07");
}
