use prism::list::List;
use prism::track::{
    cover_from_file, duration_nanos, from_file, trim_unit, track_from_tags, TagKey, Track,
};

fn tag(key: TagKey, value: &str) -> (TagKey, String) {
    (key, value.to_string())
}

#[test]
fn trims_every_trailing_decibel_unit() {
    assert_eq!(trim_unit("-6.5 dB"), "-6.5");
    assert_eq!(trim_unit("-6.5 dB dB"), "-6.5");
    assert_eq!(trim_unit("-6.5"), "-6.5");
    assert_eq!(trim_unit("dB"), "dB");
    assert_eq!(trim_unit(" dB"), "");
    assert_eq!(trim_unit("1.0 db"), "1.0 db");
    assert_eq!(trim_unit("é dB"), "é");
}

#[test]
fn the_last_tag_of_a_kind_wins() {
    let tags = vec![
        tag(TagKey::Album, "First Album"),
        tag(TagKey::Artist, "Artist"),
        tag(TagKey::TrackTitle, "Title"),
        tag(TagKey::Other, "ignored"),
        tag(TagKey::Album, "Second Album"),
        tag(TagKey::ReplayGainTrackGain, "+1.00 dB"),
        tag(TagKey::ReplayGainTrackGain, "-3.21 dB"),
    ];
    let track = track_from_tags(b"/music/song.flac".to_vec(), &tags, Some(1_500_000_000));
    assert_eq!(track.album.as_deref(), Some("Second Album"));
    assert_eq!(track.artist.as_deref(), Some("Artist"));
    assert_eq!(track.title.as_deref(), Some("Title"));
    assert_eq!(track.replay_gain.as_deref(), Some("-3.21"));
    assert_eq!(track.duration_nanos, Some(1_500_000_000));
    assert_eq!(track.path, b"/music/song.flac");
}

#[test]
fn a_file_without_tags_gives_an_untitled_track() {
    let track = track_from_tags(b"/music/raw.wav".to_vec(), &[], None);
    assert_eq!(track.album, None);
    assert_eq!(track.artist, None);
    assert_eq!(track.title, None);
    assert_eq!(track.replay_gain, None);
    assert_eq!(track.duration_nanos, None);
    assert_eq!(track.album_str(), "");
    assert_eq!(track.artist_str(), "");
    assert_eq!(track.title_str(), "");
}

#[test]
fn the_string_accessors_read_the_tags() {
    let track = Track {
        album: Some("Album".into()),
        artist: Some("Artist".into()),
        title: Some("Title".into()),
        ..Default::default()
    };
    assert_eq!(track.album_str(), "Album");
    assert_eq!(track.artist_str(), "Artist");
    assert_eq!(track.title_str(), "Title");
}

#[test]
fn a_copied_handle_reads_the_same_track() {
    let mut list = List::new();
    let added = list.extend(vec![Track {
        title: Some("shared".into()),
        path: "/shared".into(),
        ..Default::default()
    }]);
    let copy = added[0].clone();
    assert_eq!(copy.id(), added[0].id());
    assert_eq!(copy.track().title.as_deref(), Some("shared"));
    assert_eq!(copy.track().path, b"/shared");
    let track_copy = copy.track().clone();
    assert_eq!(track_copy.title.as_deref(), Some("shared"));
}

#[test]
fn the_information_line_joins_the_tags_there_are() {
    let full = Track {
        album: Some("Album".into()),
        artist: Some("Artist".into()),
        title: Some("Title".into()),
        ..Default::default()
    };
    assert_eq!(prism::track::information(&full), "Title :: Artist :: Album");
    let no_artist = Track {
        album: Some("Album".into()),
        title: Some("Title".into()),
        ..Default::default()
    };
    assert_eq!(prism::track::information(&no_artist), "Title :: Album");
    let only_album = Track {
        album: Some("Album".into()),
        ..Default::default()
    };
    assert_eq!(prism::track::information(&only_album), "Album");
    assert_eq!(prism::track::information(&Track::default()), "");
}

/// A mono 16-bit PCM wave file of `frames` silent frames at `sample_rate`.
fn wave(sample_rate: u32, frames: u32) -> Vec<u8> {
    let data_len = frames * 2;
    let mut bytes = Vec::new();
    bytes.extend_from_slice(b"RIFF");
    bytes.extend_from_slice(&(4 + 8 + 16 + 8 + data_len).to_le_bytes());
    bytes.extend_from_slice(b"WAVE");
    bytes.extend_from_slice(b"fmt ");
    bytes.extend_from_slice(&16u32.to_le_bytes());
    bytes.extend_from_slice(&1u16.to_le_bytes());
    bytes.extend_from_slice(&1u16.to_le_bytes());
    bytes.extend_from_slice(&sample_rate.to_le_bytes());
    bytes.extend_from_slice(&(sample_rate * 2).to_le_bytes());
    bytes.extend_from_slice(&2u16.to_le_bytes());
    bytes.extend_from_slice(&16u16.to_le_bytes());
    bytes.extend_from_slice(b"data");
    bytes.extend_from_slice(&data_len.to_le_bytes());
    bytes.resize(bytes.len() + data_len as usize, 0);
    bytes
}

#[test]
fn the_play_time_is_the_ticks_over_the_time_base() {
    assert_eq!(duration_nanos(1, 44_100, 44_100), Some(1_000_000_000));
    assert_eq!(duration_nanos(1, 48_000, 72_000), Some(1_500_000_000));
    assert_eq!(duration_nanos(1, 3, 1), Some(333_333_333));
    assert_eq!(duration_nanos(1, 1, 0), Some(0));
    assert_eq!(duration_nanos(3, 2, 10), Some(15_000_000_000));
}

#[test]
fn a_play_time_that_does_not_fit_is_unknown() {
    assert_eq!(duration_nanos(1, 1, i64::MAX as u64 + 1), None);
    assert_eq!(duration_nanos(1, 1, 18_446_744_074), None);
    assert_eq!(duration_nanos(1, 1, 18_446_744_073), Some(18_446_744_073_000_000_000));
    assert_eq!(duration_nanos(u32::MAX, 1, u32::MAX as u64), None);
}

#[test]
fn a_wave_file_gives_its_path_and_play_time() {
    let track = from_file(b"/music/tone.wav".to_vec(), &wave(8_000, 12_000)).unwrap();
    assert_eq!(track.path, b"/music/tone.wav");
    assert_eq!(track.duration_nanos, Some(1_500_000_000));
    assert_eq!(track.title, None);
    assert_eq!(track.replay_gain, None);
}

#[test]
fn bytes_that_are_no_audio_give_no_track_and_no_cover() {
    assert!(from_file(b"/music/notes.txt".to_vec(), b"these are no audio bytes").is_none());
    assert!(from_file(b"/music/empty".to_vec(), &[]).is_none());
    assert_eq!(cover_from_file(b"these are no audio bytes"), None);
}

#[test]
fn a_wave_file_without_pictures_has_no_cover() {
    assert_eq!(cover_from_file(&wave(8_000, 100)), None);
}
