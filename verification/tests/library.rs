use meusic::library::{
    album_groups, art_file_for, art_file_name, art_is_stale, artist_groups, detect_ext, file_uri,
    fmt_time, fmt_total, folder_groups, is_audio, sort_tracks, station_art_file_name, station_art_name, track_from_tags,
    Group, TagFields, TagInfo, Track, ART_MAX_AGE_SECS,
};

fn track(path: &str, title: &str, artist: &str, album: &str, album_artist: &str, no: u32) -> Track {
    Track {
        path: path.to_string(),
        title: title.to_string(),
        artist: artist.to_string(),
        album: album.to_string(),
        album_artist: album_artist.to_string(),
        track_no: no,
        duration: 0,
        format: "MP3".to_string(),
        bitrate: 0,
        has_cover: false,
    }
}

fn labels(g: &[Group]) -> Vec<(String, String, usize)> {
    g.iter().map(|g| (g.label.clone(), g.key.clone(), g.count)).collect()
}

#[test]
fn total_duration_text() {
    assert_eq!(fmt_total(0), "0 detik");
    assert_eq!(fmt_total(59), "59 detik");
    assert_eq!(fmt_total(60), "1 menit");
    assert_eq!(fmt_total(3599), "59 menit");
    assert_eq!(fmt_total(3600), "1 jam 0 menit");
    assert_eq!(fmt_total(26580), "7 jam 23 menit");
}

#[test]
fn clock_text() {
    assert_eq!(fmt_time(0), "0:00");
    assert_eq!(fmt_time(65), "1:05");
    assert_eq!(fmt_time(600), "10:00");
    assert_eq!(fmt_time(3661), "1:01:01");
    assert_eq!(fmt_time(36000), "10:00:00");
}

#[test]
fn audio_extensions() {
    assert!(is_audio("/m/a.mp3"));
    assert!(is_audio("/m/a.FLAC"));
    assert!(is_audio("/m/a.b.opus"));
    assert!(is_audio("a.aif"));
    assert!(!is_audio("/m/a.txt"));
    assert!(!is_audio("/m/a"));
    assert!(!is_audio("/m/.mp3"));
    assert!(is_audio("/m/a.mp3/"));
}

#[test]
fn image_kind_sniffing() {
    assert_eq!(detect_ext(&[0x89, b'P', b'N', b'G', 0, 0]), "png");
    assert_eq!(detect_ext(b"GIF89a"), "gif");
    assert_eq!(detect_ext(&[0x42, 0x4D, 1]), "bmp");
    assert_eq!(detect_ext(b"RIFF\0\0\0\0WEBP"), "webp");
    assert_eq!(detect_ext(b"RIFF\0\0\0\0WEB"), "jpg");
    assert_eq!(detect_ext(&[0xFF, 0xD8, 0xFF]), "jpg");
    assert_eq!(detect_ext(&[]), "jpg");
}

#[test]
fn file_uri_escaping() {
    assert_eq!(file_uri("/home/me/a-b_c.~.mp3"), "file:///home/me/a-b_c.~.mp3");
    assert_eq!(file_uri("/a b/\u{fc}.mp3"), "file:///a%20b/%C3%BC.mp3");
    assert_eq!(file_uri("/x?#"), "file:///x%3F%23");
}

#[test]
fn art_names() {
    assert_eq!(art_file_name(0xab, b"GIF8"), "00000000000000ab.gif");
    assert_eq!(art_file_name(u64::MAX, &[0x89, b'P', b'N', b'G']), "ffffffffffffffff.png");
    let a = art_file_for("/m/a.mp3", b"GIF8");
    assert_eq!(a.len(), 20);
    assert!(a.ends_with(".gif"));
    assert_eq!(a, art_file_for("/m/a.mp3", b"GIF8"));
    let s = station_art_name("Gen FM");
    assert!(s.starts_with("station-") && s.ends_with(".png"));
    assert_eq!(s.len(), "station-".len() + 16 + 4);
    assert!(s["station-".len()..s.len() - 4].chars().all(|c| c.is_ascii_hexdigit()));
}

#[test]
fn stale_art() {
    assert_eq!(ART_MAX_AGE_SECS, 7 * 24 * 3600);
    assert!(art_is_stale(Some(ART_MAX_AGE_SECS + 1)));
    assert!(!art_is_stale(Some(ART_MAX_AGE_SECS)));
    assert!(!art_is_stale(Some(0)));
    assert!(!art_is_stale(None));
}

#[test]
fn unreadable_file_gives_defaults() {
    let t = track_from_tags("/m/Song One.flac", None);
    assert_eq!(t.path, "/m/Song One.flac");
    assert_eq!(t.title, "Song One");
    assert_eq!(t.artist, "Unknown Artist");
    assert_eq!(t.album, "Unknown Album");
    assert_eq!(t.album_artist, "Unknown Artist");
    assert_eq!(t.track_no, 0);
    assert_eq!(t.duration, 0);
    assert_eq!(t.bitrate, 0);
    assert_eq!(t.format, "FLAC");
    assert!(!t.has_cover);
}

#[test]
fn tags_fill_the_track() {
    let info = TagInfo {
        duration: 245,
        audio_bitrate: None,
        overall_bitrate: Some(320),
        tag: Some(TagFields {
            title: Some("   ".to_string()),
            artist: Some("Band".to_string()),
            album: Some("Record".to_string()),
            album_artist: None,
            track: Some(3),
            has_picture: true,
        }),
    };
    let t = track_from_tags("/m/03 song.mp3", Some(info));
    assert_eq!(t.title, "03 song");
    assert_eq!(t.artist, "Band");
    assert_eq!(t.album, "Record");
    assert_eq!(t.album_artist, "Band");
    assert_eq!(t.track_no, 3);
    assert_eq!(t.duration, 245);
    assert_eq!(t.bitrate, 320);
    assert_eq!(t.format, "MP3");
    assert!(t.has_cover);
}

#[test]
fn tags_prefer_audio_bitrate_and_album_artist() {
    let info = TagInfo {
        duration: 10,
        audio_bitrate: Some(128),
        overall_bitrate: Some(320),
        tag: Some(TagFields {
            title: Some("Real Title".to_string()),
            artist: Some(" ".to_string()),
            album: None,
            album_artist: Some("Various".to_string()),
            track: None,
            has_picture: false,
        }),
    };
    let t = track_from_tags("noext", Some(info));
    assert_eq!(t.title, "Real Title");
    assert_eq!(t.artist, "Unknown Artist");
    assert_eq!(t.album, "Unknown Album");
    assert_eq!(t.album_artist, "Various");
    assert_eq!(t.bitrate, 128);
    assert_eq!(t.format, "");
}

#[test]
fn scan_order_is_artist_album_number_title() {
    let v = vec![
        track("/1", "b", "x", "Album1", "B", 2),
        track("/2", "z", "x", "album1", "a", 1),
        track("/3", "y", "x", "Album1", "A", 1),
        track("/4", "a", "x", "Album0", "a", 9),
        track("/5", "B", "x", "album1", "b", 2),
        track("/6", "a", "x", "album1", "b", 2),
    ];
    let sorted = sort_tracks(v);
    let paths: Vec<&str> = sorted.iter().map(|t| t.path.as_str()).collect();
    assert_eq!(paths, vec!["/4", "/3", "/2", "/6", "/1", "/5"]);
}

#[test]
fn sorting_twice_changes_nothing() {
    let v = vec![
        track("/1", "b", "x", "B", "B", 2),
        track("/2", "a", "x", "A", "A", 1),
        track("/3", "c", "x", "A", "A", 1),
    ];
    let once = sort_tracks(v);
    let p1: Vec<String> = once.iter().map(|t| t.path.clone()).collect();
    let twice = sort_tracks(once);
    let p2: Vec<String> = twice.iter().map(|t| t.path.clone()).collect();
    assert_eq!(p1, p2);
}

#[test]
fn folder_groups_count_tracks() {
    let v = vec![
        track("/m/x/1.mp3", "1", "a", "A", "A", 0),
        track("/m/Y/3.mp3", "3", "a", "A", "A", 0),
        track("/m/x/2.mp3", "2", "a", "A", "A", 0),
    ];
    let g = folder_groups(&v);
    assert_eq!(
        labels(&g),
        vec![("x".to_string(), "/m/x".to_string(), 2), ("Y".to_string(), "/m/Y".to_string(), 1)]
    );
}

#[test]
fn album_and_artist_groups() {
    let v = vec![
        track("/1", "1", "a", "beta", "Zed", 0),
        track("/2", "2", "a", "Alpha", "amy", 0),
        track("/3", "3", "a", "beta", "Zed", 0),
    ];
    assert_eq!(
        labels(&album_groups(&v)),
        vec![("Alpha".to_string(), "Alpha".to_string(), 1), ("beta".to_string(), "beta".to_string(), 2)]
    );
    assert_eq!(
        labels(&artist_groups(&v)),
        vec![("amy".to_string(), "amy".to_string(), 1), ("Zed".to_string(), "Zed".to_string(), 2)]
    );
    assert!(folder_groups(&[]).is_empty());
}

#[test]
fn group_counts_add_up_to_the_library() {
    let v = vec![
        track("/m/a/1.mp3", "1", "x", "A", "P", 0),
        track("/m/b/2.mp3", "2", "x", "B", "Q", 0),
        track("/m/a/3.mp3", "3", "x", "A", "P", 0),
        track("/m/c/4.mp3", "4", "x", "a", "p", 0),
    ];
    for g in [folder_groups(&v), album_groups(&v), artist_groups(&v)] {
        assert_eq!(g.iter().map(|g| g.count).sum::<usize>(), v.len());
    }
}

#[test]
fn station_art_file_names() {
    assert_eq!(station_art_file_name(0x1f), "station-000000000000001f.png");
    assert_eq!(station_art_name("X"), station_art_name("X"));
    assert_ne!(station_art_name("X"), station_art_name("Y"));
}
