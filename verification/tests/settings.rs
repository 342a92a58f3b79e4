use meusic::settings::{has_tray_in_names, CloseAction, SettingField, Settings};

#[test]
fn default_settings() {
    let s = Settings::default();
    assert!(s.remember_last_played);
    assert!(s.resume_startup_page);
    assert!(s.follow_song);
    assert_eq!(s.volume_scroll_step, 2);
    assert!(s.tray_icon);
    assert!(s.minimize_to_tray);
    assert!(s.close_to_tray);
    assert!(!s.power_save);
}

#[test]
fn switches_and_close_action() {
    let mut s = Settings::default();
    assert_eq!(s.close_action(), CloseAction::Minimize);
    s.set(SettingField::CloseTray, false);
    assert_eq!(s.close_action(), CloseAction::Quit);
    s.set(SettingField::Remember, false);
    s.set(SettingField::FollowSong, false);
    assert!(!s.remember_last_played);
    assert!(!s.follow_song);
    assert!(s.resume_startup_page);
    s.set(SettingField::ResumePage, false);
    s.set(SettingField::TrayIcon, false);
    s.set(SettingField::MinTray, false);
    assert!(!s.resume_startup_page && !s.tray_icon && !s.minimize_to_tray);
}

#[test]
fn tray_detection_from_bus_names() {
    let names = vec!["org.freedesktop.DBus".to_string(), "org.kde.StatusNotifierWatcher".to_string()];
    assert!(has_tray_in_names(&names));
    assert!(!has_tray_in_names(&["org.gnome.Shell".to_string()]));
    assert!(!has_tray_in_names(&[]));
}
