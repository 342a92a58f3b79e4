use meusic::mpris::{make_trackid, trackid_for_hash, Control};
use meusic::tauri_mpris;

#[test]
fn track_ids() {
    assert_eq!(make_trackid(None), "/org/mpris/MediaPlayer2/track/none");
    assert_eq!(tauri_mpris::make_trackid(None), "/org/mpris/MediaPlayer2/track/stream");
    assert_eq!(trackid_for_hash(255), "/org/mpris/MediaPlayer2/track/00000000000000ff");
    let a = make_trackid(Some("/m/a.mp3"));
    let prefix = "/org/mpris/MediaPlayer2/track/";
    assert!(a.starts_with(prefix));
    assert_eq!(a.len(), prefix.len() + 16);
    assert_eq!(a, make_trackid(Some("/m/a.mp3")));
    assert_eq!(a, tauri_mpris::make_trackid(Some("/m/a.mp3")));
    assert_ne!(a, make_trackid(Some("/m/b.mp3")));
}

#[test]
fn controls_compare() {
    assert_eq!(Control::Play, Control::Play);
    assert_ne!(Control::Play, Control::Pause);
}
