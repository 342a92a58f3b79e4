//! User settings, and telling whether a system tray is on the bus.
use vstd::prelude::*;
use crate::text::{chars_of, contains_str, has_sub};

verus! {

/// User settings.
#[derive(Clone, Debug)]
pub struct Settings {
    pub remember_last_played: bool,
    pub resume_startup_page: bool,
    pub follow_song: bool,
    pub volume_scroll_step: u32,
    pub tray_icon: bool,
    pub minimize_to_tray: bool,
    pub close_to_tray: bool,
    pub power_save: bool,
}

impl Default for Settings {
    fn default() -> (r: Self)
        ensures
            r.remember_last_played,
            r.resume_startup_page,
            r.follow_song,
            r.volume_scroll_step == 2,
            r.tray_icon,
            r.minimize_to_tray,
            r.close_to_tray,
            !r.power_save,
    {
        Settings {
            remember_last_played: true,
            resume_startup_page: true,
            follow_song: true,
            volume_scroll_step: 2,
            tray_icon: true,
            minimize_to_tray: true,
            close_to_tray: true,
            power_save: false,
        }
    }
}

/// Whether a StatusNotifier host (system tray) is among the names registered
/// on the session bus.
pub fn has_tray_in_names(names: &[String]) -> (r: bool)
    ensures
        r == exists|i: int| 0 <= i < names.len() && has_sub(#[trigger] names@[i]@, "StatusNotifierWatcher"@),
{
    let mut i: usize = 0;
    while i < names.len()
        invariant
            i <= names.len(),
            forall|j: int| 0 <= j < i ==> !has_sub(#[trigger] names@[j]@, "StatusNotifierWatcher"@),
        decreases names.len() - i,
    {
        let c = chars_of(names[i].as_str());
        if contains_str(c.as_slice(), "StatusNotifierWatcher") {
            return true;
        }
        i += 1;
    }
    false
}

/// The switches of the settings panel.
#[derive(Clone, Copy, PartialEq, Eq, Structural, Debug)]
pub enum SettingField {
    Remember,
    ResumePage,
    FollowSong,
    TrayIcon,
    MinTray,
    CloseTray,
}

/// What closing the window does.
#[derive(Clone, Copy, PartialEq, Eq, Structural, Debug)]
pub enum CloseAction {
    /// Keep playing with the window minimized (restored from the dock).
    Minimize,
    Quit,
}

impl Settings {
    /// Sets one switch of the settings panel; the rest stay as they are.
    pub fn set(&mut self, field: SettingField, v: bool)
        ensures
            *final(self) == match field {
                SettingField::Remember => Settings { remember_last_played: v, ..*old(self) },
                SettingField::ResumePage => Settings { resume_startup_page: v, ..*old(self) },
                SettingField::FollowSong => Settings { follow_song: v, ..*old(self) },
                SettingField::TrayIcon => Settings { tray_icon: v, ..*old(self) },
                SettingField::MinTray => Settings { minimize_to_tray: v, ..*old(self) },
                SettingField::CloseTray => Settings { close_to_tray: v, ..*old(self) },
            },
    {
        match field {
            SettingField::Remember => self.remember_last_played = v,
            SettingField::ResumePage => self.resume_startup_page = v,
            SettingField::FollowSong => self.follow_song = v,
            SettingField::TrayIcon => self.tray_icon = v,
            SettingField::MinTray => self.minimize_to_tray = v,
            SettingField::CloseTray => self.close_to_tray = v,
        }
    }

    /// Closing the window with "close to tray" on minimizes it and keeps
    /// playing (stock GNOME has no tray to restore from); otherwise it quits.
    pub fn close_action(&self) -> (r: CloseAction)
        ensures
            r == (if self.close_to_tray {
                CloseAction::Minimize
            } else {
                CloseAction::Quit
            }),
    {
        if self.close_to_tray {
            CloseAction::Minimize
        } else {
            CloseAction::Quit
        }
    }
}

} // verus!
