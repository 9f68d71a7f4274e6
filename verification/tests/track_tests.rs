use rustcast::{get_content_type_from_path, get_ext, split_basename, LocalFileTrack, PlaylistChildList, Silent, StreamError, TrackProbe, DEFAULT_FRAME_SIZE};

#[test]
fn extensions_are_recognized_case_insensitively() {
    assert_eq!(get_ext("/music/a.MP3"), Some("mp3".to_string()));
    assert_eq!(get_ext("a.flac"), Some("flac".to_string()));
    assert_eq!(get_ext("dir.d/noext"), None);
    assert_eq!(get_ext("/music/.hidden"), None);
    assert_eq!(get_content_type_from_path("x/y/track.mp3"), Some("audio/mpeg".to_string()));
    assert_eq!(get_content_type_from_path("clip.OGV"), Some("video/ogg".to_string()));
    assert_eq!(get_content_type_from_path("notes.txt"), None);
}

#[test]
fn split_basename_strips_the_extension_and_splits_at_the_first_dash() {
    let (title, artist) = split_basename("My Song - Some Artist.mp3");
    assert_eq!(title, "My Song");
    assert_eq!(artist, Some("Some Artist".to_string()));

    let (title2, artist2) = split_basename("plain.mp3");
    assert_eq!(title2, "plain");
    assert_eq!(artist2, None);

    // everything right of the first dash belongs to the artist
    let (title3, artist3) = split_basename("a - b - c.mp3");
    assert_eq!(title3, "a");
    assert_eq!(artist3, Some("b - c".to_string()));
}

#[test]
fn split_basename_is_idempotent_on_split_titles() {
    let (title, _) = split_basename("  My Song - Some Artist ");
    let (again, artist) = split_basename(&title);
    assert_eq!(again, title);
    assert_eq!(artist, None);
}

#[test]
fn track_metadata_falls_back_to_the_file_name() {
    let probe = TrackProbe { title: None, artist: None, duration: Some(1024) };
    let t = LocalFileTrack::new("/m/a.mp3".to_string(), probe, 65535, true).unwrap();
    assert_eq!(t.title, "a");
    assert_eq!(t.artist, "Unknown Artist");
    assert_eq!(t.content_type, "audio/mpeg");
    assert_eq!(t.byte_per_millisecond.bytes, 65536);
    assert_eq!(t.byte_per_millisecond.millis, 1024);
    assert!(!t.is_finished());
}

#[test]
fn track_rejects_unknown_formats_and_missing_durations() {
    let probe = TrackProbe { title: None, artist: None, duration: Some(10) };
    let r = LocalFileTrack::new("/m/a.txt".to_string(), probe, 100, false);
    assert!(matches!(r, Err(StreamError::UnsupportedFormat(_))));

    let probe2 = TrackProbe { title: None, artist: None, duration: None };
    let r2 = LocalFileTrack::new("/m/a.mp3".to_string(), probe2, 100, false);
    assert!(matches!(r2, Err(StreamError::ProbeFailure(_))));
}

#[test]
fn streaming_cuts_bytes_into_frames_with_durations() {
    let probe = TrackProbe {
        title: Some("T".to_string()),
        artist: Some("A".to_string()),
        duration: Some(100),
    };
    let mut t = LocalFileTrack::new("x.mp3".to_string(), probe, 6399, false).unwrap();
    assert_eq!(t.byte_per_millisecond.bytes, 6400);
    assert_eq!(t.byte_per_millisecond.millis, 100);
    let content = vec![5u8; DEFAULT_FRAME_SIZE + 640];
    let frames = t.stream_frames_from_bytes(&content).unwrap();
    assert_eq!(frames.len(), 2);
    assert_eq!(frames[0].frame.len(), DEFAULT_FRAME_SIZE);
    assert_eq!(frames[1].frame.len(), 640);
    assert_eq!(frames[0].duration, (DEFAULT_FRAME_SIZE as u64) / 64);
    assert_eq!(frames[1].duration, 10);
    assert_eq!(frames[0].title, "T");
    assert_eq!(frames[0].artist, "A");
    // the pass marked the non-repeating track as played
    assert!(t.is_finished());
}

#[test]
fn streaming_an_empty_file_is_an_error() {
    let probe = TrackProbe { title: None, artist: None, duration: Some(1) };
    let mut t = LocalFileTrack::new("e.mp3".to_string(), probe, 1, false).unwrap();
    let r = t.stream_frames_from_bytes(&Vec::new());
    match r {
        Err(StreamError::IoError(msg)) => assert_eq!(msg, "file is empty"),
        _ => panic!("an empty file is reported as such"),
    }
    assert!(!t.is_finished());
}

#[test]
fn silent_child_plays_the_clip_forever() {
    let s = Silent::new().unwrap();
    assert!(!s.is_finished());
    let f = s.frame_with_meta();
    assert_eq!(f.title, "Silent");
    assert_eq!(f.artist, "Silent");
    assert_eq!(f.content_type, "audio/mpeg");
    assert_eq!(f.duration, 1000);
    // one second of MPEG frames: headers every 417 bytes, silence between
    assert_eq!(f.frame.len(), 38 * 417);
    assert_eq!(&f.frame[0..4], &[255, 251, 144, 100]);
    assert_eq!(&f.frame[417..421], &[255, 251, 144, 100]);
    assert_eq!(f.frame[4], 0);
}

#[test]
fn composite_skips_a_failing_child_and_plays_on() {
    let mut list = PlaylistChildList::new(false, false);
    assert!(!list.is_finished());
    // the first child fails to probe: the error passes through and the
    // composite is not finished
    let e = list.on_child_error(StreamError::ProbeFailure("bad.mp3".to_string()));
    assert!(matches!(e, StreamError::ProbeFailure(_)));
    assert!(!list.is_finished());
    // the remaining child still plays
    assert_eq!(list.next_child(1), Some(1));
    // and once the source runs out, the composite finishes
    assert!(matches!(list.on_source_exhausted(), rustcast::DrainStep::Finished));
    assert!(list.is_finished());
}

#[test]
fn low_bitrate_tracks_keep_a_positive_rate() {
    // 500 KB over ten minutes: under 1 byte per millisecond, yet playable
    let probe = TrackProbe { title: None, artist: None, duration: Some(600_000) };
    let mut t = LocalFileTrack::new("slow.mp3".to_string(), probe, 500_000, false).unwrap();
    assert_eq!(t.byte_per_millisecond.bytes, 500_001);
    assert_eq!(t.byte_per_millisecond.millis, 600_000);
    let content = vec![1u8; 500_000];
    let frames = t.stream_frames_from_bytes(&content).unwrap();
    assert_eq!(frames.len(), 1);
    // 500000 * 600000 / 500001 milliseconds, about the whole ten minutes
    assert_eq!(frames[0].duration, 599_998);
}
