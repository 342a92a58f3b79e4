use meusic::library::Track;
use meusic::view::{
    ctl_classes, folder_icon, seg_classes, tab_classes, filter_view, groups, mode_from_key, mode_key, scroll_target, sidebar_visible, track_key,
    track_position, view_summary, view_title, Browse, Mode,
};

fn t(path: &str, title: &str, artist: &str, album: &str, dur: u64) -> Track {
    Track {
        path: path.to_string(),
        title: title.to_string(),
        artist: artist.to_string(),
        album: album.to_string(),
        album_artist: artist.to_string(),
        track_no: 0,
        duration: dur,
        format: "MP3".to_string(),
        bitrate: 0,
        has_cover: false,
    }
}

fn library() -> Vec<Track> {
    vec![
        t("/m/rock/1.mp3", "Thunder", "AC Band", "Loud", 200),
        t("/m/jazz/2.mp3", "Blue", "Miles", "Kind", 300),
        t("/m/rock/3.mp3", "Quiet ROCK song", "Other", "Soft", 100),
    ]
}

fn paths(v: &[Track]) -> Vec<&str> {
    v.iter().map(|t| t.path.as_str()).collect()
}

#[test]
fn mode_keys_round_trip() {
    for m in [Mode::Folders, Mode::Albums, Mode::Artists, Mode::Songs] {
        assert_eq!(mode_from_key(mode_key(m)), m);
    }
    assert_eq!(mode_key(Mode::Albums), "albums");
    assert_eq!(mode_from_key("bogus"), Mode::Folders);
    assert_eq!(mode_from_key("Albums"), Mode::Folders);
}

#[test]
fn track_keys_by_mode() {
    let x = t("/m/rock/1.mp3", "T", "Art", "Alb", 1);
    assert_eq!(track_key(&x, Mode::Folders), "/m/rock");
    assert_eq!(track_key(&x, Mode::Albums), "Alb");
    assert_eq!(track_key(&x, Mode::Artists), "Art");
    assert_eq!(track_key(&x, Mode::Songs), "");
}

#[test]
fn sidebar_shows_outside_songs_and_search() {
    assert!(!sidebar_visible(Mode::Songs, ""));
    assert!(sidebar_visible(Mode::Albums, ""));
    assert!(!sidebar_visible(Mode::Albums, "x"));
}

#[test]
fn sidebar_groups_per_mode() {
    let lib = library();
    let g = groups(&lib, Mode::Folders);
    let got: Vec<(&str, usize)> = g.iter().map(|g| (g.label.as_str(), g.count)).collect();
    assert_eq!(got, vec![("jazz", 1), ("rock", 2)]);
    assert!(groups(&lib, Mode::Songs).is_empty());
    assert_eq!(groups(&lib, Mode::Albums).len(), 3);
}

#[test]
fn search_matches_title_artist_album_ignoring_case() {
    let lib = library();
    assert_eq!(paths(&filter_view(&lib, Mode::Folders, None, "ROCK")), vec!["/m/rock/3.mp3"]);
    assert_eq!(paths(&filter_view(&lib, Mode::Folders, None, "miles")), vec!["/m/jazz/2.mp3"]);
    assert_eq!(paths(&filter_view(&lib, Mode::Folders, None, "o")), vec!["/m/rock/1.mp3", "/m/rock/3.mp3"]);
    assert!(filter_view(&lib, Mode::Folders, Some("/m/jazz"), "zzz").is_empty());
}

#[test]
fn group_selection_filters() {
    let lib = library();
    assert_eq!(paths(&filter_view(&lib, Mode::Folders, Some("/m/rock"), "")), vec!["/m/rock/1.mp3", "/m/rock/3.mp3"]);
    assert_eq!(paths(&filter_view(&lib, Mode::Albums, Some("Kind"), "")), vec!["/m/jazz/2.mp3"]);
    assert_eq!(filter_view(&lib, Mode::Songs, Some("Kind"), "").len(), 3);
    assert_eq!(filter_view(&lib, Mode::Albums, None, "").len(), 3);
    assert!(filter_view(&lib, Mode::Artists, Some("nobody"), "").is_empty());
}

#[test]
fn titles() {
    assert_eq!(view_title("q", Mode::Albums, Some("X")), "Pencarian: q");
    assert_eq!(view_title("", Mode::Songs, Some("X")), "Semua Lagu");
    assert_eq!(view_title("", Mode::Albums, Some("X")), "X");
    assert_eq!(view_title("", Mode::Folders, None), "Semua Folder");
    assert_eq!(view_title("", Mode::Albums, None), "Semua Album");
    assert_eq!(view_title("", Mode::Artists, None), "Semua Artis");
}

#[test]
fn summary_line() {
    let lib = library();
    assert_eq!(view_summary(&lib), "3 lagu \u{b7} 10 menit");
    assert_eq!(view_summary(&[]), "0 lagu \u{b7} 0 detik");
    let long = vec![t("/a", "a", "b", "c", 3600), t("/b", "a", "b", "c", 60)];
    assert_eq!(view_summary(&long), "2 lagu \u{b7} 1 jam 1 menit");
}

#[test]
fn positions_and_scrolling() {
    let lib = library();
    assert_eq!(track_position(&lib, "/m/rock/3.mp3"), Some(2));
    assert_eq!(track_position(&lib, "/nope"), None);
    assert_eq!(scroll_target(&lib, Some("/m/jazz/2.mp3"), true), Some(1));
    assert_eq!(scroll_target(&lib, Some("/m/jazz/2.mp3"), false), None);
    assert_eq!(scroll_target(&lib, None, true), None);
    assert_eq!(scroll_target(&lib, Some("/nope"), true), None);
}

#[test]
fn browsing_state() {
    let lib = library();
    let mut b = Browse::new();
    assert_eq!(b.mode, Mode::Folders);
    b.select_group("/m/rock".to_string());
    assert_eq!(b.shown(&lib).len(), 2);
    assert!(!b.set_mode(Mode::Folders));
    assert_eq!(b.sel_group.as_deref(), Some("/m/rock"));
    assert!(b.set_mode(Mode::Albums));
    assert_eq!(b.sel_group, None);
    b.search("blue".to_string());
    assert_eq!(paths(&b.shown(&lib)), vec!["/m/jazz/2.mp3"]);
    b.restore_page(true, "artists", Some("Miles".to_string()));
    assert_eq!(b.mode, Mode::Artists);
    assert_eq!(b.sel_group.as_deref(), Some("Miles"));
    b.restore_page(false, "songs", Some("x".to_string()));
    assert_eq!(b.mode, Mode::Artists);
    assert_eq!(b.sel_group, None);
    b.select_group("k".to_string());
    b.reset_group();
    assert_eq!(b.sel_group, None);
}

#[test]
fn style_classes() {
    assert_eq!(tab_classes(true), vec!["flat", "tab", "active"]);
    assert_eq!(tab_classes(false), vec!["flat", "tab"]);
    assert_eq!(ctl_classes(true), vec!["flat", "ctl", "active"]);
    assert_eq!(ctl_classes(false), vec!["flat", "ctl"]);
    assert_eq!(seg_classes(true), vec!["suggested-action"]);
    assert_eq!(seg_classes(false), vec!["flat"]);
    assert_eq!(folder_icon(Some("/m/a"), "/m/a"), "meusic-folder-open");
    assert_eq!(folder_icon(Some("/m/a"), "/m/b"), "meusic-folder");
    assert_eq!(folder_icon(None, "/m/a"), "meusic-folder");
}
