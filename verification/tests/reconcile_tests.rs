use album_tags::audio_file::{
    add_zero_paddings, new_filename, plan_import, to_album_info, NoAudioFileError,
    TitlesMismatchFilesError,
};
use album_tags::model::{AlbumInfo, DiscInfo};
use album_tags::tags::Tags;

fn three_track_album() -> AlbumInfo {
    let mut album = AlbumInfo::new(
        Some("Album".to_string()),
        Some("Artist".to_string()),
        Some("2020-01-02".to_string()),
    );
    let mut d1 = DiscInfo::new();
    d1.new_track(Some("One".to_string()), vec!["A".to_string()]);
    d1.new_track(Some("Two".to_string()), vec![]);
    album.push_disc(d1);
    let mut d2 = DiscInfo::new();
    d2.new_track(Some("Three".to_string()), vec!["B".to_string(), "C".to_string()]);
    album.push_disc(d2);
    album
}

#[test]
fn import_fails_on_count_mismatch_before_any_write() {
    let album = three_track_album();
    // three manifest tracks against two files: nothing is handed out
    assert!(matches!(
        plan_import(&album, 2),
        Err(TitlesMismatchFilesError::INSTANCE)
    ));
    assert!(matches!(
        plan_import(&album, 4),
        Err(TitlesMismatchFilesError::INSTANCE)
    ));
}

#[test]
fn import_composes_one_record_per_track() {
    let album = three_track_album();
    let records = plan_import(&album, 3).unwrap();
    assert_eq!(records.len(), 3);
    for record in &records {
        assert_eq!(record.album(), Some("Album"));
        assert_eq!(record.album_artist(), Some("Artist"));
        assert_eq!(record.release_date(), Some("2020-01-02"));
        assert_eq!(record.number_of_discs(), Some(2));
    }
    assert_eq!(records[0].disc_number(), Some(1));
    assert_eq!(records[0].number_of_tracks(), Some(2));
    assert_eq!(records[0].track_number(), Some(1));
    assert_eq!(records[0].title(), Some("One"));
    assert_eq!(records[0].artists(), &vec!["A".to_string()]);
    assert_eq!(records[1].disc_number(), Some(1));
    assert_eq!(records[1].track_number(), Some(2));
    assert_eq!(records[1].title(), Some("Two"));
    assert!(records[1].artists().is_empty());
    assert_eq!(records[2].disc_number(), Some(2));
    assert_eq!(records[2].number_of_tracks(), Some(1));
    assert_eq!(records[2].track_number(), Some(1));
    assert_eq!(records[2].title(), Some("Three"));
    assert_eq!(records[2].artists(), &vec!["B".to_string(), "C".to_string()]);
}

fn record(
    title: Option<&str>,
    artists: &[&str],
    disc: Option<usize>,
    discs: Option<usize>,
    track: Option<usize>,
    tracks: Option<usize>,
) -> Tags {
    let mut tags = Tags::new();
    tags.set_album(Some("Album".to_string()));
    tags.set_album_artist(Some("Artist".to_string()));
    tags.set_release_date(Some("2020-01-02".to_string()));
    tags.set_title(title.map(|s| s.to_string()));
    for a in artists {
        tags.add_artist(a.to_string());
    }
    tags.set_disc_number(disc);
    tags.set_number_of_discs(discs);
    tags.set_track_number(track);
    tags.set_number_of_tracks(tracks);
    tags
}

#[test]
fn export_requires_at_least_one_file() {
    assert!(matches!(
        to_album_info(&vec![], &vec![]),
        Err(NoAudioFileError::INSTANCE)
    ));
}

#[test]
fn export_seeds_album_from_first_file_and_flattens_discs() {
    // disc numbering in the files is deliberately discarded
    let records = vec![
        record(Some("One"), &["A"], Some(1), Some(2), Some(1), Some(1)),
        record(Some("Two"), &[], Some(2), Some(2), Some(1), Some(1)),
    ];
    let stems = vec!["01 one".to_string(), "02 two".to_string()];
    let album = to_album_info(&records, &stems).unwrap();
    assert_eq!(album.album(), Some("Album"));
    assert_eq!(album.album_artist(), Some("Artist"));
    assert_eq!(album.release_date(), Some("2020-01-02"));
    assert_eq!(album.discs().len(), 1);
    let tracks = album.discs()[0].tracks();
    assert_eq!(tracks.len(), 2);
    assert_eq!(tracks[0].title(), Some("One"));
    assert_eq!(tracks[0].artists(), &vec!["A".to_string()]);
    assert_eq!(tracks[1].title(), Some("Two"));
    assert!(tracks[1].artists().is_empty());
}

#[test]
fn export_falls_back_to_file_stem_for_missing_title() {
    let records = vec![record(None, &[], None, None, None, None)];
    let stems = vec!["03 untitled".to_string()];
    let album = to_album_info(&records, &stems).unwrap();
    assert_eq!(
        album.discs()[0].tracks()[0].title(),
        Some("03 untitled")
    );
}

#[test]
fn export_then_import_writes_the_same_records_back() {
    // records as a previous import would have written them
    let records = vec![
        record(Some("One"), &["A"], Some(1), Some(1), Some(1), Some(2)),
        record(Some("Two"), &["B", "C"], Some(1), Some(1), Some(2), Some(2)),
    ];
    let stems = vec!["01 one".to_string(), "02 two".to_string()];
    let album = to_album_info(&records, &stems).unwrap();
    let back = plan_import(&album, records.len()).unwrap();
    assert_eq!(back.len(), records.len());
    for (orig, new) in records.iter().zip(back.iter()) {
        assert_eq!(orig.album(), new.album());
        assert_eq!(orig.album_artist(), new.album_artist());
        assert_eq!(orig.release_date(), new.release_date());
        assert!(orig.art_work().is_none() && new.art_work().is_none());
        assert_eq!(orig.number_of_discs(), new.number_of_discs());
        assert_eq!(orig.disc_number(), new.disc_number());
        assert_eq!(orig.number_of_tracks(), new.number_of_tracks());
        assert_eq!(orig.track_number(), new.track_number());
        assert_eq!(orig.title(), new.title());
        assert_eq!(orig.artists(), new.artists());
    }
}

#[test]
fn pads_numbers_to_the_width_of_the_count() {
    assert_eq!(add_zero_paddings(3, 12), "03");
    assert_eq!(add_zero_paddings(10, 12), "10");
    assert_eq!(add_zero_paddings(3, 9), "3");
    assert_eq!(add_zero_paddings(7, 100), "007");
    assert_eq!(add_zero_paddings(0, 1), "0");
}

#[test]
fn single_disc_rename_has_no_disc_prefix() {
    let tags = record(Some("Title"), &[], Some(9), Some(1), Some(3), Some(12));
    assert_eq!(new_filename(&tags, Some("flac")), "03.Title.flac");
    let no_count = record(Some("Title"), &[], None, None, Some(3), Some(12));
    assert_eq!(new_filename(&no_count, Some("flac")), "03.Title.flac");
}

#[test]
fn multi_disc_rename_prefixes_padded_disc_number() {
    let tags = record(Some("Title"), &[], Some(2), Some(10), Some(3), Some(12));
    assert_eq!(new_filename(&tags, Some("flac")), "02.03.Title.flac");
}

#[test]
fn rename_strips_unsafe_characters_and_optional_extension() {
    let tags = record(Some("A/B:C?D"), &[], None, Some(1), Some(1), Some(8));
    assert_eq!(new_filename(&tags, Some("mp3")), "1.ABCD.mp3");
    assert_eq!(new_filename(&tags, None), "1.ABCD");
}

#[test]
fn reconcile_error_messages_are_specific() {
    assert_eq!(
        TitlesMismatchFilesError::INSTANCE.message(),
        "対象ファイル数とtagsのタイトル数が一致しません"
    );
    assert_eq!(NoAudioFileError::INSTANCE.message(), "対象ファイルがありません");
}
