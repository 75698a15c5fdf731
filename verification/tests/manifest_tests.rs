use album_tags::model::{AlbumInfo, DiscInfo};
use album_tags::tags_file::{
    check_date, parse_manifest, parse_manifest_text, parse_track, serialize_manifest,
    serialize_manifest_text, LoadTagsError,
};

fn track_titles(album: &AlbumInfo, disc: usize) -> Vec<Option<String>> {
    album.discs()[disc]
        .tracks()
        .iter()
        .map(|t| t.title().map(|s| s.to_string()))
        .collect()
}

#[test]
fn parses_a_full_manifest() {
    let text = "Album Name\nSome Artist\n2021-03-05\n\nFirst Track//A1//A2\nSecond Track\n\nThird Track//B1\n";
    let album = parse_manifest_text(text).unwrap();
    assert_eq!(album.album(), Some("Album Name"));
    assert_eq!(album.album_artist(), Some("Some Artist"));
    assert_eq!(album.release_date(), Some("2021-03-05"));
    assert!(album.art_work().is_none());
    assert_eq!(album.discs().len(), 2);
    assert_eq!(
        track_titles(&album, 0),
        vec![
            Some("First Track".to_string()),
            Some("Second Track".to_string())
        ]
    );
    assert_eq!(track_titles(&album, 1), vec![Some("Third Track".to_string())]);
    let first = &album.discs()[0].tracks()[0];
    assert_eq!(first.artists(), &vec!["A1".to_string(), "A2".to_string()]);
    let second = &album.discs()[0].tracks()[1];
    assert!(second.artists().is_empty());
}

#[test]
fn parses_track_line_with_artists() {
    let (title, artists) = parse_track("T//A1//A2");
    assert_eq!(title, "T");
    assert_eq!(artists, vec!["A1".to_string(), "A2".to_string()]);
}

#[test]
fn parses_track_line_without_separator() {
    let (title, artists) = parse_track("Only A Title");
    assert_eq!(title, "Only A Title");
    assert!(artists.is_empty());
}

#[test]
fn rejects_missing_album() {
    assert!(matches!(parse_manifest_text(""), Err(LoadTagsError::MissingAlbum)));
}

#[test]
fn rejects_missing_album_artist() {
    assert!(matches!(
        parse_manifest_text("Album\n"),
        Err(LoadTagsError::MissingAlbumArtist)
    ));
}

#[test]
fn rejects_missing_release_date() {
    assert!(matches!(
        parse_manifest_text("Album\nArtist\n"),
        Err(LoadTagsError::MissingReleaseDate)
    ));
}

#[test]
fn rejects_malformed_release_date() {
    assert!(matches!(
        parse_manifest_text("Album\nArtist\n2021/03/05\n"),
        Err(LoadTagsError::MalformedReleaseDate)
    ));
    assert!(matches!(
        parse_manifest_text("Album\nArtist\n21-03-05\n"),
        Err(LoadTagsError::MalformedReleaseDate)
    ));
}

#[test]
fn rejects_missing_separator_line() {
    assert!(matches!(
        parse_manifest_text("Album\nArtist\n2021-03-05"),
        Err(LoadTagsError::MissingSeparator)
    ));
}

#[test]
fn rejects_non_blank_separator_line() {
    assert!(matches!(
        parse_manifest_text("Album\nArtist\n2021-03-05\nTrack One\n"),
        Err(LoadTagsError::NonBlankSeparator)
    ));
}

#[test]
fn rejects_consecutive_blank_lines() {
    let text = "Album\nArtist\n2021-03-05\n\nTrack One\n\n\nTrack Two\n";
    assert!(matches!(
        parse_manifest_text(text),
        Err(LoadTagsError::ConsecutiveBlankLines)
    ));
}

#[test]
fn rejects_blank_line_right_after_separator() {
    let text = "Album\nArtist\n2021-03-05\n\n\nTrack One\n";
    assert!(matches!(
        parse_manifest_text(text),
        Err(LoadTagsError::ConsecutiveBlankLines)
    ));
}

#[test]
fn keeps_trailing_empty_disc_open() {
    // one trailing blank line leaves a final empty disc pending
    let text = "Album\nArtist\n2021-03-05\n\nTrack One\n\n";
    let album = parse_manifest_text(text).unwrap();
    assert_eq!(album.discs().len(), 2);
    assert_eq!(album.discs()[0].tracks().len(), 1);
    assert_eq!(album.discs()[1].tracks().len(), 0);
}

#[test]
fn trims_header_lines_and_track_line_ends() {
    let text = "  Album  \n\tArtist\n2021-03-05\n\nTrack One   \n";
    let album = parse_manifest_text(text).unwrap();
    assert_eq!(album.album(), Some("Album"));
    assert_eq!(album.album_artist(), Some("Artist"));
    assert_eq!(track_titles(&album, 0), vec![Some("Track One".to_string())]);
}

#[test]
fn accepts_crlf_line_endings() {
    let text = "Album\r\nArtist\r\n2021-03-05\r\n\r\nTrack One\r\n";
    let album = parse_manifest_text(text).unwrap();
    assert_eq!(album.album(), Some("Album"));
    assert_eq!(track_titles(&album, 0), vec![Some("Track One".to_string())]);
}

#[test]
fn serializes_exact_text() {
    let mut album = AlbumInfo::new(
        Some("Album".to_string()),
        Some("Artist".to_string()),
        Some("2021-03-05".to_string()),
    );
    let mut d1 = DiscInfo::new();
    d1.new_track(Some("One".to_string()), vec!["A1".to_string(), "A2".to_string()]);
    d1.new_track(Some("Two".to_string()), vec![]);
    album.push_disc(d1);
    let mut d2 = DiscInfo::new();
    d2.new_track(Some("Three".to_string()), vec!["B1".to_string()]);
    album.push_disc(d2);
    let text = serialize_manifest_text(&album);
    assert_eq!(
        text,
        "Album\nArtist\n2021-03-05\n\nOne//A1//A2\nTwo\n\nThree//B1\n"
    );
}

#[test]
fn round_trips_serialized_album() {
    let mut album = AlbumInfo::new(
        Some("Round Trip".to_string()),
        Some("The Artists".to_string()),
        Some("1999-12-31".to_string()),
    );
    let mut d1 = DiscInfo::new();
    d1.new_track(Some("Alpha".to_string()), vec!["X".to_string()]);
    d1.new_track(Some("Beta".to_string()), vec![]);
    album.push_disc(d1);
    let mut d2 = DiscInfo::new();
    d2.new_track(Some("Gamma".to_string()), vec!["Y".to_string(), "Z".to_string()]);
    album.push_disc(d2);

    let text = serialize_manifest_text(&album);
    let back = parse_manifest_text(&text).unwrap();
    assert_eq!(back.album(), album.album());
    assert_eq!(back.album_artist(), album.album_artist());
    assert_eq!(back.release_date(), album.release_date());
    assert_eq!(back.discs().len(), album.discs().len());
    for (da, db) in album.discs().iter().zip(back.discs().iter()) {
        assert_eq!(da.tracks().len(), db.tracks().len());
        for (ta, tb) in da.tracks().iter().zip(db.tracks().iter()) {
            assert_eq!(ta.title(), tb.title());
            assert_eq!(ta.artists(), tb.artists());
        }
    }
}

#[test]
fn parse_composes_decomposed_text() {
    // "e" followed by a combining acute accent must compose to U+00E9
    let text = "Cafe\u{301}\nArtist\n2021-03-05\n\nTrack One\n";
    let album = parse_manifest(text).unwrap();
    assert_eq!(album.album(), Some("Caf\u{e9}"));
}

#[test]
fn serialize_composes_decomposed_text() {
    let album = AlbumInfo::new(
        Some("Cafe\u{301}".to_string()),
        Some("Artist".to_string()),
        Some("2021-03-05".to_string()),
    );
    let text = serialize_manifest(&album);
    assert!(text.starts_with("Caf\u{e9}\n"));
}

#[test]
fn checks_date_shape() {
    assert!(check_date("2021-03-05"));
    assert!(check_date("0000-00-00"));
    assert!(!check_date("2021-3-05"));
    assert!(!check_date("2021-03-05 "));
    assert!(!check_date("abcd-ef-gh"));
}

#[test]
fn manifest_error_messages_are_specific() {
    assert_eq!(
        LoadTagsError::ConsecutiveBlankLines.message(),
        "空白行が連続しています。"
    );
    assert_eq!(LoadTagsError::MissingAlbum.message(), "アルバム名がありません。");
}
