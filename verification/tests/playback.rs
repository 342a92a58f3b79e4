use meusic::library::Track;
use meusic::playback::{
    backoff_delay, is_permanent_failure, remove_station, station_form_valid, station_index, Advance,
    AppMode, ErrorOutcome, ModeSwitch, NextOutcome, PlayerState, Prev, RadioTick, Repeat,
    RADIO_STALL_TICKS,
};
use meusic::stations::Station;

fn tr(path: &str, title: &str) -> Track {
    Track {
        path: path.to_string(),
        title: title.to_string(),
        artist: format!("{title} artist"),
        album: format!("{title} album"),
        album_artist: String::new(),
        track_no: 0,
        duration: 100,
        format: "FLAC".to_string(),
        bitrate: 0,
        has_cover: false,
    }
}

fn tracks(n: usize) -> Vec<Track> {
    (0..n).map(|i| tr(&format!("/m/{i}.mp3"), &format!("t{i}"))).collect()
}

fn st(id: &str, name: &str) -> Station {
    Station { id: id.to_string(), name: name.to_string(), url: format!("http://{id}.example") }
}

fn music(n: usize, i: usize) -> PlayerState {
    let mut p = PlayerState::new(vec![st("a", "Alpha"), st("b", "Beta")], false);
    assert!(p.play_index(&tracks(n), i));
    p
}

fn radio() -> PlayerState {
    let mut p = PlayerState::new(vec![st("a", "Alpha FM"), st("b", "Beta")], false);
    assert_eq!(p.set_app_mode(AppMode::Radio), ModeSwitch::ToRadio);
    assert!(p.play_station("a").is_some());
    p
}

#[test]
fn fresh_player_state() {
    let p = PlayerState::new(Vec::new(), true);
    assert!(!p.has_current());
    assert!(p.power_save);
    assert_eq!(p.app_mode, AppMode::Music);
    assert_eq!(p.repeat, Repeat::Off);
    assert_eq!(p.playback_status(), "Stopped");
    assert_eq!(p.now_title(), "meusic");
    assert_eq!(p.now_artist(), "Belum ada lagu");
}

#[test]
fn playing_a_row_makes_the_view_the_queue() {
    let mut p = PlayerState::new(Vec::new(), false);
    p.music_err_streak = 2;
    assert!(!p.play_index(&tracks(2), 2));
    assert_eq!(p.music_err_streak, 2);
    assert!(p.play_index(&tracks(3), 1));
    assert_eq!(p.queue.len(), 3);
    assert_eq!(p.qidx, Some(1));
    assert_eq!(p.current_path.as_deref(), Some("/m/1.mp3"));
    assert!(p.playing);
    assert_eq!(p.music_err_streak, 0);
    assert_eq!(p.playback_status(), "Playing");
    assert_eq!(p.now_title(), "t1");
    assert_eq!(p.now_artist(), "t1 artist");
    assert_eq!(p.now_album(), "t1 album");
    assert_eq!(p.now_format(), "FLAC");
    assert_eq!(p.now_kbps(), "");
}

#[test]
fn play_pause() {
    let mut p = PlayerState::new(Vec::new(), false);
    assert_eq!(p.toggle(), None);
    assert!(!p.set_playing(true));
    let mut p = music(2, 0);
    assert_eq!(p.toggle(), Some(false));
    assert_eq!(p.playback_status(), "Paused");
    assert_eq!(p.toggle(), Some(true));
    assert!(!p.set_playing(true));
    assert!(p.set_playing(false));
    assert!(!p.playing);
}

#[test]
fn stop_clears_the_current_track() {
    let mut p = music(2, 1);
    p.stop();
    assert!(!p.playing);
    assert_eq!(p.qidx, None);
    assert_eq!(p.current_path, None);
    assert_eq!(p.queue.len(), 2);
}

#[test]
fn repeat_cycles_back_in_three_presses() {
    let mut p = PlayerState::new(Vec::new(), false);
    p.cycle_repeat();
    assert_eq!(p.repeat, Repeat::All);
    p.cycle_repeat();
    assert_eq!(p.repeat, Repeat::One);
    p.cycle_repeat();
    assert_eq!(p.repeat, Repeat::Off);
    p.toggle_shuffle();
    assert!(p.shuffle);
    p.toggle_shuffle();
    assert!(!p.shuffle);
}

#[test]
fn advance_in_order_and_at_the_end() {
    let mut p = music(3, 0);
    assert_eq!(p.advance(0), Advance::Play(1));
    assert_eq!(p.advance(0), Advance::Play(2));
    assert_eq!(p.advance(0), Advance::Stopped);
    assert_eq!(p.qidx, None);
    assert!(!p.playing);
    assert_eq!(p.advance(0), Advance::Nothing);
}

#[test]
fn repeat_all_wraps_and_repeat_one_replays() {
    let mut p = music(3, 2);
    p.repeat = Repeat::All;
    assert_eq!(p.advance(7), Advance::Play(0));
    p.repeat = Repeat::One;
    p.shuffle = true;
    assert_eq!(p.advance(7), Advance::Play(0));
    assert_eq!(p.advance(1), Advance::Play(0));
}

#[test]
fn shuffle_never_repeats_the_same_track() {
    let mut p = music(4, 2);
    p.shuffle = true;
    assert_eq!(p.advance(2), Advance::Play(3));
    assert_eq!(p.advance(7), Advance::Play(0));
    assert_eq!(p.advance(9), Advance::Play(1));
    let mut q = music(4, 3);
    q.shuffle = true;
    assert_eq!(q.advance(3), Advance::Play(0));
    let mut one = music(1, 0);
    one.shuffle = true;
    assert_eq!(one.advance(5), Advance::Play(0));
}

#[test]
fn previous_track() {
    let mut p = music(3, 1);
    assert_eq!(p.prev(true), Prev::SeekStart);
    assert_eq!(p.qidx, Some(1));
    assert_eq!(p.prev(false), Prev::Play(0));
    assert_eq!(p.prev(false), Prev::Play(0));
    p.repeat = Repeat::All;
    assert_eq!(p.prev(false), Prev::Play(2));
    let mut none = PlayerState::new(Vec::new(), false);
    assert_eq!(none.prev(false), Prev::Nothing);
}

#[test]
fn next_event_advances_music() {
    let mut p = music(2, 0);
    assert_eq!(p.next_event(0), NextOutcome::Advanced(Advance::Play(1)));
}

#[test]
fn music_errors_skip_then_stop_after_the_whole_queue() {
    let mut p = music(3, 0);
    assert_eq!(p.playback_error("decode failed", 0), ErrorOutcome::Skipped(Advance::Play(1)));
    assert_eq!(p.playback_error("decode failed", 0), ErrorOutcome::Skipped(Advance::Play(2)));
    assert_eq!(p.playback_error("decode failed", 0), ErrorOutcome::MusicStopped);
    assert_eq!(p.qidx, None);
    assert!(!p.playing);
    assert_eq!(p.music_err_streak, 0);
    assert_eq!(p.playback_error("decode failed", 0), ErrorOutcome::Ignored);
}

#[test]
fn a_played_track_resets_the_error_streak() {
    let mut p = music(2, 0);
    p.repeat = Repeat::All;
    assert_eq!(p.playback_error("x", 0), ErrorOutcome::Skipped(Advance::Play(1)));
    p.tick_music(false);
    assert_eq!(p.music_err_streak, 1);
    p.tick_music(true);
    assert_eq!(p.music_err_streak, 0);
    assert_eq!(p.playback_error("x", 0), ErrorOutcome::Skipped(Advance::Play(0)));
    let mut single = music(1, 0);
    assert_eq!(single.playback_error("x", 0), ErrorOutcome::MusicStopped);
}

#[test]
fn permanent_failures_are_recognised() {
    assert!(is_permanent_failure("HTTP 404 Not Found"));
    assert!(is_permanent_failure("FORBIDDEN"));
    assert!(is_permanent_failure("error 401"));
    assert!(is_permanent_failure("Unauthorized access"));
    assert!(!is_permanent_failure("connection reset"));
    assert!(!is_permanent_failure(""));
}

#[test]
fn reconnect_delays_follow_the_schedule() {
    let mut p = radio();
    let mut delays = Vec::new();
    for _ in 0..7 {
        delays.push(p.schedule_reconnect().unwrap());
        assert_eq!(p.schedule_reconnect(), None);
        assert!(p.radio_connecting);
        assert_eq!(p.reconnect_radio(false).as_deref(), Some("http://a.example"));
    }
    assert_eq!(delays, vec![2, 5, 10, 30, 60, 60, 60]);
    assert_eq!(backoff_delay(0), 2);
    assert_eq!(backoff_delay(3), 30);
    assert_eq!(backoff_delay(u32::MAX), 60);
}

#[test]
fn transient_radio_errors_reconnect_and_titles_reset_the_delay() {
    let mut p = radio();
    assert_eq!(p.playback_error("connection reset", 0), ErrorOutcome::Reconnect(Some(2)));
    assert_eq!(p.playback_error("connection reset", 0), ErrorOutcome::Reconnect(None));
    assert_eq!(p.reconnect_radio(true), None);
    assert!(!p.radio_reconnect_pending);
    assert_eq!(p.playback_error("stall", 0), ErrorOutcome::Reconnect(Some(5)));
    p.reconnect_radio(false);
    assert!(p.radio_title_changed(Some("Song".to_string())));
    assert_eq!(p.radio_retries, 0);
    assert!(!p.radio_connecting);
    assert_eq!(p.now_artist(), "Song");
    assert_eq!(p.next_event(0), NextOutcome::Reconnect(Some(2)));
}

#[test]
fn permanent_radio_failure_stops_for_good() {
    let mut p = radio();
    assert_eq!(p.playback_error("HTTP error 404", 0), ErrorOutcome::RadioStopped);
    assert!(p.radio_error);
    assert!(!p.playing);
    assert_eq!(p.schedule_reconnect(), None);
    assert_eq!(p.next_event(0), NextOutcome::Reconnect(None));
    assert_eq!(p.now_artist(), "Gagal menyambung \u{2014} stream mungkin mati");
    assert!(p.play_station("b").is_some());
    assert!(!p.radio_error);
    assert!(p.playing);
}

#[test]
fn stalled_stream_reconnects_after_the_limit() {
    let mut p = radio();
    assert_eq!(p.tick_radio(true, true), RadioTick::Progressed);
    for n in 1..=RADIO_STALL_TICKS {
        assert_eq!(p.tick_radio(true, false), RadioTick::Stalled(n));
    }
    assert_eq!(p.tick_radio(true, false), RadioTick::Reconnect(Some(2)));
    assert!(p.radio_reconnect_pending);
    assert_eq!(p.radio_stall_ticks, 0);
    assert_eq!(p.tick_radio(true, false), RadioTick::Idle);
    assert_eq!(p.tick_radio(false, false), RadioTick::Idle);
}

#[test]
fn power_save_stall_limit_is_a_quarter() {
    let mut p = radio();
    assert!(p.toggle_power_save());
    for n in 1..=RADIO_STALL_TICKS / 4 {
        assert_eq!(p.tick_radio(true, false), RadioTick::Stalled(n));
    }
    assert_eq!(p.tick_radio(true, false), RadioTick::Reconnect(Some(2)));
}

#[test]
fn progress_resets_the_stall_count() {
    let mut p = radio();
    for _ in 0..10 {
        p.tick_radio(true, false);
    }
    assert_eq!(p.radio_stall_ticks, 10);
    assert_eq!(p.tick_radio(true, true), RadioTick::Progressed);
    assert_eq!(p.radio_stall_ticks, 0);
}

#[test]
fn stations_tune_edit_and_delete() {
    let mut p = radio();
    assert_eq!(p.now_title(), "Alpha FM");
    assert_eq!(p.now_artist(), "Menyambungkan\u{2026}");
    assert_eq!(p.cur_station().map(|s| s.id.as_str()), Some("a"));
    assert!(p.play_station("zzz").is_none());
    p.save_station(Some("a"), "Renamed".to_string(), "http://new".to_string());
    assert_eq!(p.stations[0].name, "Renamed");
    assert_eq!(p.stations[0].url, "http://new");
    assert_eq!(p.stations[0].id, "a");
    p.save_station(None, " Gamma ".to_string(), " http://g ".to_string());
    assert_eq!(p.stations.len(), 3);
    assert_eq!(p.stations[2].name, "Gamma");
    assert!(p.stations[2].id.starts_with("st-"));
    assert!(!p.delete_station("b"));
    assert_eq!(p.stations.len(), 2);
    assert!(p.playing);
    assert!(p.delete_station("a"));
    assert!(!p.playing);
    assert_eq!(p.station_id, None);
    assert_eq!(p.now_artist(), "Belum ada stasiun");
    assert_eq!(p.now_title(), "meusic");
}

#[test]
fn deleting_removes_every_station_with_the_id() {
    let v = vec![st("a", "1"), st("b", "2"), st("a", "3")];
    let kept = remove_station(&v, "a");
    assert_eq!(kept.len(), 1);
    assert_eq!(kept[0].name, "2");
    assert_eq!(station_index(&v, "a"), Some(0));
    assert_eq!(station_index(&v, "b"), Some(1));
    assert_eq!(station_index(&v, "c"), None);
}

#[test]
fn station_form_needs_name_and_url() {
    assert!(station_form_valid("Gen", "http://x"));
    assert!(!station_form_valid("  ", "http://x"));
    assert!(!station_form_valid("Gen", "\t"));
}

#[test]
fn switching_modes() {
    let mut p = music(2, 1);
    assert_eq!(p.set_app_mode(AppMode::Music), ModeSwitch::Unchanged);
    assert_eq!(p.set_app_mode(AppMode::Radio), ModeSwitch::ToRadio);
    assert!(!p.playing);
    assert_eq!(p.now_title(), "meusic");
    assert_eq!(p.now_album(), "");
    assert_eq!(p.playback_status(), "Stopped");
    assert_eq!(p.set_app_mode(AppMode::Music), ModeSwitch::ToMusic(Some(1)));
    assert_eq!(p.playback_status(), "Paused");
}

#[test]
fn now_playing_view_rules() {
    let mut p = music(2, 0);
    assert!(p.open_now_playing());
    assert!(p.np_open);
    assert!(p.toggle_power_save());
    assert!(!p.np_open);
    assert!(!p.open_now_playing());
    assert!(!p.toggle_power_save());
    p.close_now_playing();
    assert!(!p.np_open);
    let mut r = radio();
    assert!(!r.open_now_playing());
}

#[test]
fn restoring_the_last_track() {
    let all = tracks(3);
    let mut p = PlayerState::new(Vec::new(), false);
    assert_eq!(p.restore_track(&all, Some("/m/2.mp3"), false), None);
    assert_eq!(p.restore_track(&all, None, true), None);
    assert_eq!(p.restore_track(&all, Some("/nope"), true), None);
    assert_eq!(p.restore_track(&all, Some("/m/2.mp3"), true), Some(2));
    assert_eq!(p.queue.len(), 3);
    assert_eq!(p.qidx, Some(2));
    assert!(!p.playing);
    assert_eq!(p.playback_status(), "Paused");
}

#[test]
fn media_info_for_music_and_radio() {
    let mut m = music(2, 1);
    m.queue[1].bitrate = 320;
    assert_eq!(m.now_kbps(), "320 kbps");
    let i = m.media_info().unwrap();
    assert_eq!((i.title.as_str(), i.artist.as_str(), i.album.as_str(), i.length_secs, i.key.as_str()),
        ("t1", "t1 artist", "t1 album", 100, "/m/1.mp3"));
    let mut r = radio();
    let j = r.media_info().unwrap();
    assert_eq!((j.title.as_str(), j.artist.as_str(), j.album.as_str(), j.key.as_str()), ("Alpha FM", "Alpha FM", "", "a"));
    r.radio_title_changed(Some("Live Song".to_string()));
    assert_eq!(r.media_info().unwrap().title, "Live Song");
    assert_eq!(r.now_format(), "");
    assert!(PlayerState::new(Vec::new(), false).media_info().is_none());
}

#[test]
fn radio_idle_texts() {
    let mut r = radio();
    r.radio_title_changed(None);
    assert_eq!(r.now_artist(), "Live");
    r.set_playing(false);
    assert_eq!(r.now_artist(), "Radio");
    r.radio_connecting = true;
    r.radio_retries = 1;
    assert_eq!(r.now_artist(), "Menyambung ulang\u{2026}");
}

#[test]
fn equalizer_sliders_to_bands() {
    let bands: Vec<Option<u32>> = (0..7).map(meusic::playback::eq_band).collect();
    assert_eq!(bands, vec![Some(1), Some(2), Some(4), Some(5), Some(7), Some(8), None]);
}

#[test]
fn station_list_search_and_playing_mark() {
    let v = vec![st("a", "Gen FM"), st("b", "Prambors"), st("c", "GENIUS radio")];
    assert_eq!(meusic::playback::station_rows(&v, "", Some("b")), vec![(0, false), (1, true), (2, false)]);
    assert_eq!(meusic::playback::station_rows(&v, "gen", Some("c")), vec![(0, false), (2, true)]);
    assert_eq!(meusic::playback::station_rows(&v, "ZZZ", None), vec![]);
}
