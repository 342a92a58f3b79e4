//! The player's decisions: the play queue with repeat and shuffle, and the
//! radio connection with its backoff reconnects and stall watchdog. The
//! window performs what each step asks for (load, play, pause, seek, wait).
use vstd::prelude::*;
use crate::library::Track;
use crate::stations::{new_station, Station};
use crate::text::{chars_of, contains_chars, contains_str, decimal, eq_chars, has_sub, hex, lowercase, push_digits, push_str, string_of, to_lower, trim, trim_range};
use crate::view::{find_path, track_position};

verus! {

/// What happens when a track ends.
#[derive(Clone, Copy, PartialEq, Eq, Structural, Debug)]
pub enum Repeat {
    Off,
    All,
    One,
}

/// Whether the window plays the music library or internet radio.
#[derive(Clone, Copy, PartialEq, Eq, Structural, Debug)]
pub enum AppMode {
    Music,
    Radio,
}

/// Ticks without playback progress (at 250 ms each, ~12 s) after which a
/// "playing" radio stream counts as stalled.
pub const RADIO_STALL_TICKS: u32 = 48;

/// The bands of a ten-band equalizer that the six equalizer sliders set.
pub open spec fn eq_bands() -> Seq<u32> {
    seq![1u32, 2, 4, 5, 7, 8]
}

/// The equalizer band slider `i` sets; `None` past the last slider.
pub fn eq_band(i: usize) -> (r: Option<u32>)
    ensures
        r == (if i < eq_bands().len() {
            Some(eq_bands()[i as int])
        } else {
            None
        }),
{
    if i == 0 {
        Some(1)
    } else if i == 1 {
        Some(2)
    } else if i == 2 {
        Some(4)
    } else if i == 3 {
        Some(5)
    } else if i == 4 {
        Some(7)
    } else if i == 5 {
        Some(8)
    } else {
        None
    }
}

/// The radio reconnect delay in seconds after `retries` earlier attempts:
/// 2, 5, 10, 30, then 60 for as long as it takes.
pub open spec fn backoff(retries: u32) -> u64 {
    if retries == 0 {
        2
    } else if retries == 1 {
        5
    } else if retries == 2 {
        10
    } else if retries == 3 {
        30
    } else {
        60
    }
}

/// The reconnect delay for the given number of earlier attempts.
pub fn backoff_delay(retries: u32) -> (r: u64)
    ensures
        r == backoff(retries),
{
    if retries == 0 {
        2
    } else if retries == 1 {
        5
    } else if retries == 2 {
        10
    } else if retries == 3 {
        30
    } else {
        60
    }
}

/// The index of the first station with the given id.
pub open spec fn find_station(s: Seq<Station>, id: Seq<char>) -> Option<int>
    decreases s.len(),
{
    if s.len() == 0 {
        None
    } else if s[0].id@ == id {
        Some(0)
    } else {
        match find_station(s.drop_first(), id) {
            Some(i) => Some(i + 1),
            None => None,
        }
    }
}

proof fn lemma_find_station(s: Seq<Station>, id: Seq<char>, k: int)
    requires
        0 <= k <= s.len(),
        forall|j: int| 0 <= j < k ==> s[j].id@ != id,
        k == s.len() || s[k].id@ == id,
    ensures
        find_station(s, id) == (if k < s.len() {
            Some(k)
        } else {
            None
        }),
    decreases k,
{
    if k > 0 {
        assert forall|j: int| 0 <= j < k - 1 implies s.drop_first()[j].id@ != id by {
            assert(s.drop_first()[j] == s[j + 1]);
        }
        if k < s.len() {
            assert(s.drop_first()[k - 1] == s[k]);
        }
        lemma_find_station(s.drop_first(), id, k - 1);
    }
}

/// The index of the first station with id `id`.
pub fn station_index(stations: &[Station], id: &str) -> (r: Option<usize>)
    ensures
        match r {
            Some(i) => find_station(stations@, id@) == Some(i as int) && i < stations.len(),
            None => find_station(stations@, id@) is None,
        },
{
    let idc = chars_of(id);
    let mut i: usize = 0;
    while i < stations.len()
        invariant
            i <= stations.len(),
            idc@ == id@,
            forall|j: int| 0 <= j < i ==> stations@[j].id@ != id@,
        decreases stations.len() - i,
    {
        let c = chars_of(stations[i].id.as_str());
        if eq_chars(c.as_slice(), idc.as_slice()) {
            proof {
                lemma_find_station(stations@, id@, i as int);
            }
            return Some(i);
        }
        i += 1;
    }
    proof {
        lemma_find_station(stations@, id@, i as int);
    }
    None
}

/// The stations other than those with id `id`, in order.
pub open spec fn without_station(s: Seq<Station>, id: Seq<char>) -> Seq<Station>
    decreases s.len(),
{
    if s.len() == 0 {
        Seq::empty()
    } else if s.last().id@ != id {
        without_station(s.drop_last(), id).push(s.last())
    } else {
        without_station(s.drop_last(), id)
    }
}

/// The track to play after track `i` of `len` when one ends: the same one on
/// repeat-one; a random other one (from `random`) on shuffle; else the next,
/// wrapping round on repeat-all; `None` at the end of the queue.
pub open spec fn next_index(i: nat, len: nat, repeat: Repeat, shuffle: bool, random: nat) -> Option<nat> {
    if repeat == Repeat::One {
        Some(i)
    } else if shuffle {
        if len <= 1 {
            Some(i)
        } else if random % len == i {
            Some((i + 1) % len)
        } else {
            Some(random % len)
        }
    } else if i + 1 < len {
        Some(i + 1)
    } else if repeat == Repeat::All {
        Some(0)
    } else {
        None
    }
}

/// The repeat mode after `r` in the cycle off → all → one → off.
pub open spec fn next_repeat(r: Repeat) -> Repeat {
    match r {
        Repeat::Off => Repeat::All,
        Repeat::All => Repeat::One,
        Repeat::One => Repeat::Off,
    }
}

/// The track "previous" goes to from track `i` of `len`.
pub open spec fn prev_index(i: nat, len: nat, repeat: Repeat) -> nat {
    if i > 0 {
        (i - 1) as nat
    } else if repeat == Repeat::All && len > 0 {
        (len - 1) as nat
    } else {
        0
    }
}

/// A radio failure that no reconnect will mend: the player's message,
/// lowercased, mentions "not found", "404", "forbidden", "403",
/// "unauthorized" or "401".
pub open spec fn permanent_failure(detail: Seq<char>) -> bool {
    let m = lowercase(detail);
    ||| has_sub(m, "not found"@)
    ||| has_sub(m, "404"@)
    ||| has_sub(m, "forbidden"@)
    ||| has_sub(m, "403"@)
    ||| has_sub(m, "unauthorized"@)
    ||| has_sub(m, "401"@)
}

/// Whether the player's error message `detail` reports a permanent radio
/// failure (bad address or no access) rather than a dropped stream.
pub fn is_permanent_failure(detail: &str) -> (r: bool)
    ensures
        r == permanent_failure(detail@),
{
    let m = to_lower(detail);
    let mc = chars_of(m.as_str());
    contains_str(mc.as_slice(), "not found")
        || contains_str(mc.as_slice(), "404")
        || contains_str(mc.as_slice(), "forbidden")
        || contains_str(mc.as_slice(), "403")
        || contains_str(mc.as_slice(), "unauthorized")
        || contains_str(mc.as_slice(), "401")
}

/// What a player tick on radio did.
#[derive(Clone, Copy, PartialEq, Eq, Structural, Debug)]
pub enum RadioTick {
    /// Not on radio, or the player is not running: nothing to watch.
    Idle,
    /// The position moved: the window records it as the last position.
    Progressed,
    /// The position stood still for `n` ticks in a row.
    Stalled(u32),
    /// Stalled too long: reconnect after the delay, if one was scheduled.
    Reconnect(Option<u64>),
}

/// The stall limit in ticks: the tick runs four times slower in power-save,
/// so the limit is a quarter there, keeping the timeout near twelve seconds.
pub open spec fn stall_limit(power_save: bool) -> u32 {
    if power_save { (RADIO_STALL_TICKS / 4) as u32 } else { RADIO_STALL_TICKS }
}

/// What advancing did.
#[derive(Clone, Copy, PartialEq, Eq, Structural, Debug)]
pub enum Advance {
    /// Nothing was playing.
    Nothing,
    /// Play track `i` of the queue from the start.
    Play(usize),
    /// The queue ended: stop.
    Stopped,
}

/// What "previous" does.
#[derive(Clone, Copy, PartialEq, Eq, Structural, Debug)]
pub enum Prev {
    /// Seek the current track back to its start.
    SeekStart,
    /// Play track `i` of the queue.
    Play(usize),
    Nothing,
}

/// What the end of the stream (or a "next" press) does.
#[derive(Clone, Copy, PartialEq, Eq, Structural, Debug)]
pub enum NextOutcome {
    /// Radio: reconnect after the delay, if one was scheduled.
    Reconnect(Option<u64>),
    /// Music: the queue advanced.
    Advanced(Advance),
}

/// What a playback error does.
#[derive(Clone, Copy, PartialEq, Eq, Structural, Debug)]
pub enum ErrorOutcome {
    /// Not for anything that plays now.
    Ignored,
    /// A permanent radio failure: the stream stops.
    RadioStopped,
    /// A transient radio failure: reconnect after the delay, if one was scheduled.
    Reconnect(Option<u64>),
    /// Every track of the queue failed in a row: playback stops.
    MusicStopped,
    /// The failed track is skipped.
    Skipped(Advance),
}

/// What switching between music and radio does.
#[derive(Clone, Copy, PartialEq, Eq, Structural, Debug)]
pub enum ModeSwitch {
    Unchanged,
    /// Now radio: stop the player.
    ToRadio,
    /// Now music: stop the player and, given a track, load it paused.
    ToMusic(Option<usize>),
}

/// The playing state of the window.
pub struct PlayerState {
    /// The tracks "next" and "previous" move through.
    pub queue: Vec<Track>,
    /// The queue position of the current track.
    pub qidx: Option<usize>,
    /// The path of the current track.
    pub current_path: Option<String>,
    pub playing: bool,
    pub repeat: Repeat,
    pub shuffle: bool,
    pub app_mode: AppMode,
    /// Music errors in a row since a track last played.
    pub music_err_streak: u32,
    pub stations: Vec<Station>,
    pub station_id: Option<String>,
    /// The live song title of the station.
    pub radio_title: Option<String>,
    pub radio_connecting: bool,
    /// A permanent failure: no more reconnects.
    pub radio_error: bool,
    pub radio_retries: u32,
    pub radio_reconnect_pending: bool,
    pub radio_stall_ticks: u32,
    pub power_save: bool,
    /// The Now-Playing view is open.
    pub np_open: bool,
}

impl PlayerState {
    /// The current track is the queue entry at `qidx`.
    pub open spec fn wf(&self) -> bool {
        match self.qidx {
            Some(i) => i < self.queue.len() && self.current_path == Some(self.queue@[i as int].path),
            None => self.current_path is None,
        }
    }

    /// Nothing loaded, music mode.
    pub fn new(stations: Vec<Station>, power_save: bool) -> (r: Self)
        ensures
            r.wf(),
            r.queue.len() == 0,
            r.qidx is None,
            !r.playing,
            r.repeat == Repeat::Off,
            !r.shuffle,
            r.app_mode == AppMode::Music,
            r.stations == stations,
            r.station_id is None,
            r.power_save == power_save,
            !r.np_open,
            !r.radio_error && !r.radio_connecting && !r.radio_reconnect_pending,
            r.radio_retries == 0 && r.radio_stall_ticks == 0 && r.music_err_streak == 0,
            r.radio_title is None,
    {
        PlayerState {
            queue: Vec::new(),
            qidx: None,
            current_path: None,
            playing: false,
            repeat: Repeat::Off,
            shuffle: false,
            app_mode: AppMode::Music,
            music_err_streak: 0,
            stations,
            station_id: None,
            radio_title: None,
            radio_connecting: false,
            radio_error: false,
            radio_retries: 0,
            radio_reconnect_pending: false,
            radio_stall_ticks: 0,
            power_save,
            np_open: false,
        }
    }

    /// Something is loaded: a music track or a radio station.
    pub open spec fn has_current_spec(&self) -> bool {
        self.qidx is Some || self.station_id is Some
    }

    /// Whether anything is loaded (a music track or a radio station).
    pub fn has_current(&self) -> (r: bool)
        ensures
            r == self.has_current_spec(),
    {
        self.qidx.is_some() || self.station_id.is_some()
    }

    /// Makes track `i` of the queue current and playing (the window loads
    /// and plays it); `false`, changing nothing, when there is no such track.
    pub fn play_at(&mut self, i: usize) -> (r: bool)
        requires
            old(self).wf(),
        ensures
            final(self).wf(),
            r == (i < old(self).queue.len()),
            r ==> *final(self) == (PlayerState {
                qidx: Some(i),
                current_path: Some(old(self).queue@[i as int].path),
                playing: true,
                ..*old(self)
            }),
            !r ==> *final(self) == *old(self),
    {
        if i < self.queue.len() {
            let p = self.queue[i].path.clone();
            self.qidx = Some(i);
            self.current_path = Some(p);
            self.playing = true;
            true
        } else {
            false
        }
    }

    /// The state after stopping music playback: nothing current, not playing.
    pub open spec fn stopped(self) -> Self {
        PlayerState { qidx: None, current_path: None, playing: false, ..self }
    }

    /// The state after making track `i` of the queue current and playing.
    pub open spec fn playing_at(self, i: int) -> Self {
        PlayerState {
            qidx: Some(i as usize),
            current_path: Some(self.queue@[i].path),
            playing: true,
            ..self
        }
    }

    /// What advancing returns and leaves, with `random` as the shuffle draw.
    pub open spec fn advanced(self, random: nat) -> (Advance, Self) {
        match self.qidx {
            None => (Advance::Nothing, self),
            Some(i) => match next_index(i as nat, self.queue.len() as nat, self.repeat, self.shuffle, random) {
                Some(j) => (Advance::Play(j as usize), self.playing_at(j as int)),
                None => (Advance::Stopped, self.stopped()),
            },
        }
    }

    /// A click on row `i` of the song list: the shown tracks become the
    /// queue, the error streak restarts and track `i` plays. `false`, changing
    /// nothing, when the view has no row `i`.
    pub fn play_index(&mut self, view: &Vec<Track>, i: usize) -> (r: bool)
        requires
            old(self).wf(),
        ensures
            final(self).wf(),
            r == (i < view.len()),
            r ==> final(self).queue@ == view@,
            r ==> *final(self) == (PlayerState {
                queue: final(self).queue,
                music_err_streak: 0,
                ..*old(self)
            }).playing_at(i as int),
            !r ==> *final(self) == *old(self),
    {
        if i < view.len() {
            let q = view.clone();
            assert(q@ =~= view@);
            self.music_err_streak = 0;
            self.queue = q;
            self.qidx = None;
            self.current_path = None;
            self.play_at(i);
            true
        } else {
            false
        }
    }

    /// Play/pause: flips `playing` when something is loaded and returns the
    /// new value (the window plays or pauses accordingly); `None` otherwise.
    pub fn toggle(&mut self) -> (r: Option<bool>)
        ensures
            old(self).has_current_spec() ==> r == Some(!old(self).playing)
                && *final(self) == (PlayerState { playing: !old(self).playing, ..*old(self) }),
            !old(self).has_current_spec() ==> r is None && *final(self) == *old(self),
    {
        if self.has_current() {
            self.playing = !self.playing;
            Some(self.playing)
        } else {
            None
        }
    }

    /// A play or pause request from outside (media keys): applied when
    /// something is loaded and it changes the state; returns whether it did.
    pub fn set_playing(&mut self, p: bool) -> (r: bool)
        ensures
            r == (old(self).has_current_spec() && old(self).playing != p),
            r ==> *final(self) == (PlayerState { playing: p, ..*old(self) }),
            !r ==> *final(self) == *old(self),
    {
        if self.has_current() && self.playing != p {
            self.playing = p;
            true
        } else {
            false
        }
    }

    /// Stop: the player stops and no track is current.
    pub fn stop(&mut self)
        ensures
            *final(self) == old(self).stopped(),
            final(self).wf(),
    {
        self.playing = false;
        self.qidx = None;
        self.current_path = None;
    }

    /// Off → all → one → off.
    pub fn cycle_repeat(&mut self)
        ensures
            *final(self) == (PlayerState { repeat: next_repeat(old(self).repeat), ..*old(self) }),
    {
        self.repeat = match self.repeat {
            Repeat::Off => Repeat::All,
            Repeat::All => Repeat::One,
            Repeat::One => Repeat::Off,
        };
    }

    pub fn toggle_shuffle(&mut self)
        ensures
            *final(self) == (PlayerState { shuffle: !old(self).shuffle, ..*old(self) }),
    {
        self.shuffle = !self.shuffle;
    }

    /// Moves on when a track ends (or "next" is pressed): to the track that
    /// `next_index` picks (with `random` as the shuffle draw), or stops at the
    /// end of the queue. Nothing happens when no track is current.
    pub fn advance(&mut self, random: usize) -> (r: Advance)
        requires
            old(self).wf(),
        ensures
            final(self).wf(),
            (r, *final(self)) == old(self).advanced(random as nat),
    {
        let i = match self.qidx {
            Some(i) => i,
            None => {
                return Advance::Nothing;
            },
        };
        let len = self.queue.len();
        let next: usize = if self.repeat == Repeat::One {
            i
        } else if self.shuffle {
            if len <= 1 {
                i
            } else {
                let r = random % len;
                if r == i {
                    (i + 1) % len
                } else {
                    r
                }
            }
        } else if i + 1 < len {
            i + 1
        } else if self.repeat == Repeat::All {
            0
        } else {
            self.stop();
            return Advance::Stopped;
        };
        self.play_at(next);
        Advance::Play(next)
    }

    /// "Previous": back to the start of the track once more than three
    /// seconds of it have played (`past_start`); else the track before, or
    /// the last one from the first on repeat-all, or the first again.
    pub fn prev(&mut self, past_start: bool) -> (r: Prev)
        requires
            old(self).wf(),
        ensures
            final(self).wf(),
            past_start ==> r == Prev::SeekStart && *final(self) == *old(self),
            !past_start ==> match old(self).qidx {
                None => r == Prev::Nothing && *final(self) == *old(self),
                Some(i) => r == Prev::Play(prev_index(i as nat, old(self).queue.len() as nat, old(self).repeat) as usize)
                    && *final(self) == old(self).playing_at(prev_index(i as nat, old(self).queue.len() as nat, old(self).repeat) as int),
            },
    {
        if past_start {
            return Prev::SeekStart;
        }
        match self.qidx {
            None => Prev::Nothing,
            Some(i) => {
                let len = self.queue.len();
                let p = if i > 0 {
                    i - 1
                } else if self.repeat == Repeat::All && len > 0 {
                    len - 1
                } else {
                    0
                };
                self.play_at(p);
                Prev::Play(p)
            },
        }
    }

    /// The current station: the first with the selected id.
    pub open spec fn cur_station_spec(&self) -> Option<Station> {
        match self.station_id {
            Some(id) => match find_station(self.stations@, id@) {
                Some(k) => Some(self.stations@[k]),
                None => None,
            },
            None => None,
        }
    }

    /// The current station, if one is selected and still in the list.
    pub fn cur_station(&self) -> (r: Option<&Station>)
        ensures
            r == match self.cur_station_spec() {
                Some(st) => Some(&st),
                None => None::<&Station>,
            },
    {
        match &self.station_id {
            Some(id) => match station_index(self.stations.as_slice(), id.as_str()) {
                Some(k) => Some(&self.stations[k]),
                None => None,
            },
            None => None,
        }
    }

    /// Whether a reconnect may be scheduled: none is pending, the failure was
    /// not permanent and a station is selected.
    pub open spec fn may_reconnect(&self) -> bool {
        !self.radio_reconnect_pending && !self.radio_error && self.station_id is Some
    }

    /// The state once a reconnect is scheduled.
    pub open spec fn reconnecting(self) -> Self {
        PlayerState {
            radio_retries: (self.radio_retries + 1) as u32,
            radio_connecting: true,
            radio_reconnect_pending: true,
            radio_stall_ticks: 0,
            ..self
        }
    }

    /// What scheduling a reconnect returns and leaves: the backoff delay for
    /// the attempts so far, when a reconnect may be scheduled; else nothing.
    pub open spec fn reconnect_step(self) -> (Option<u64>, Self) {
        if self.may_reconnect() {
            (Some(backoff(self.radio_retries)), self.reconnecting())
        } else {
            (None, self)
        }
    }

    /// Schedules a reconnect of the current station after the backoff delay
    /// for the attempts so far, which it returns (the window waits that many
    /// seconds and then calls `reconnect_radio`). Transient failures never
    /// give up: the last delay repeats. One reconnect is in flight at a time:
    /// `None`, changing nothing, while one is pending, after a permanent
    /// failure or with no station.
    pub fn schedule_reconnect(&mut self) -> (r: Option<u64>)
        requires
            old(self).may_reconnect() ==> old(self).radio_retries < u32::MAX,
        ensures
            (r, *final(self)) == old(self).reconnect_step(),
    {
        if self.radio_reconnect_pending || self.radio_error || self.station_id.is_none() {
            return None;
        }
        let delay = backoff_delay(self.radio_retries);
        self.radio_retries = self.radio_retries + 1;
        self.radio_connecting = true;
        self.radio_reconnect_pending = true;
        self.radio_stall_ticks = 0;
        Some(delay)
    }

    /// The end of the stream, or "next": on radio the live stream dropped, so
    /// it reconnects (when a station plays and has not failed for good); on
    /// music the queue advances.
    pub fn next_event(&mut self, random: usize) -> (r: NextOutcome)
        requires
            old(self).wf(),
            old(self).may_reconnect() ==> old(self).radio_retries < u32::MAX,
        ensures
            final(self).wf(),
            old(self).app_mode == AppMode::Radio ==> (if old(self).station_id is Some && !old(self).radio_error {
                r == NextOutcome::Reconnect(old(self).reconnect_step().0) && *final(self) == old(self).reconnect_step().1
            } else {
                r == NextOutcome::Reconnect(None) && *final(self) == *old(self)
            }),
            old(self).app_mode == AppMode::Music ==> r == NextOutcome::Advanced(old(self).advanced(random as nat).0)
                && *final(self) == old(self).advanced(random as nat).1,
    {
        if self.app_mode == AppMode::Radio {
            if self.station_id.is_some() && !self.radio_error {
                NextOutcome::Reconnect(self.schedule_reconnect())
            } else {
                NextOutcome::Reconnect(None)
            }
        } else {
            NextOutcome::Advanced(self.advance(random))
        }
    }

    /// The state after a music error ends the streak: stopped, streak reset.
    pub open spec fn music_gave_up(self) -> Self {
        PlayerState { music_err_streak: 0, ..self.stopped() }
    }

    /// A playback error with the player's message `detail` (`random` is the
    /// shuffle draw if a track is skipped). On radio with a station: a
    /// permanent failure (see `permanent_failure`) stops the stream for good,
    /// anything else schedules a reconnect. On music with a current track:
    /// the failed track is skipped, unless every track of the queue (at least
    /// one) has now failed in a row, which stops playback. Else ignored.
    pub fn playback_error(&mut self, detail: &str, random: usize) -> (r: ErrorOutcome)
        requires
            old(self).wf(),
            old(self).may_reconnect() ==> old(self).radio_retries < u32::MAX,
            (old(self).app_mode == AppMode::Music && old(self).qidx is Some) ==> old(self).music_err_streak < u32::MAX,
        ensures
            final(self).wf(),
            (r, *final(self)) == old(self).error_step(detail@, random as nat),
    {
        if self.app_mode == AppMode::Radio && self.station_id.is_some() {
            if is_permanent_failure(detail) {
                self.playing = false;
                self.radio_connecting = false;
                self.radio_error = true;
                ErrorOutcome::RadioStopped
            } else {
                ErrorOutcome::Reconnect(self.schedule_reconnect())
            }
        } else if self.app_mode == AppMode::Music && self.qidx.is_some() {
            self.music_err_streak = self.music_err_streak + 1;
            let len = self.queue.len();
            let bound: usize = if len > 1 { len } else { 1 };
            if self.music_err_streak as usize >= bound {
                self.music_err_streak = 0;
                self.stop();
                ErrorOutcome::MusicStopped
            } else {
                ErrorOutcome::Skipped(self.advance(random))
            }
        } else {
            ErrorOutcome::Ignored
        }
    }

    /// What a playback error returns and leaves.
    pub open spec fn error_step(self, detail: Seq<char>, random: nat) -> (ErrorOutcome, Self) {
        if self.app_mode == AppMode::Radio && self.station_id is Some {
            if permanent_failure(detail) {
                (ErrorOutcome::RadioStopped, PlayerState {
                    playing: false,
                    radio_connecting: false,
                    radio_error: true,
                    ..self
                })
            } else {
                (ErrorOutcome::Reconnect(self.reconnect_step().0), self.reconnect_step().1)
            }
        } else if self.app_mode == AppMode::Music && self.qidx is Some {
            let streak = self.music_err_streak + 1;
            let bound = if self.queue.len() > 1 { self.queue.len() as int } else { 1 };
            if streak >= bound {
                (ErrorOutcome::MusicStopped, self.music_gave_up())
            } else {
                let s2 = PlayerState { music_err_streak: streak as u32, ..self };
                (ErrorOutcome::Skipped(s2.advanced(random).0), s2.advanced(random).1)
            }
        } else {
            (ErrorOutcome::Ignored, self)
        }
    }

    /// The reconnect timer fired: the pending flag clears and, on radio with
    /// the player not running (`active` false) and a current station, that
    /// station is loaded again and plays; its URL is returned for the window.
    pub fn reconnect_radio(&mut self, active: bool) -> (r: Option<String>)
        ensures
            ({
                let s1 = PlayerState { radio_reconnect_pending: false, ..*old(self) };
                if old(self).app_mode == AppMode::Radio && !active && old(self).cur_station_spec() is Some {
                    r == Some(old(self).cur_station_spec()->0.url) && *final(self) == PlayerState { playing: true, ..s1 }
                } else {
                    r is None && *final(self) == s1
                }
            }),
    {
        self.radio_reconnect_pending = false;
        if self.app_mode == AppMode::Radio && !active {
            let url = match self.cur_station() {
                Some(st) => Some(st.url.clone()),
                None => None,
            };
            if url.is_some() {
                self.playing = true;
            }
            url
        } else {
            None
        }
    }

    /// Tunes in station `id`: it becomes current and plays, with the title,
    /// the failure and the retry state cleared. Returns the station (the
    /// window loads its URL and colors itself by its name); `None`, changing
    /// nothing, when no station has that id.
    pub fn play_station(&mut self, id: &str) -> (r: Option<Station>)
        ensures
            match find_station(old(self).stations@, id@) {
                Some(k) => r == Some(old(self).stations@[k]) && final(self).station_id is Some
                    && final(self).station_id->0@ == id@ && *final(self) == (PlayerState {
                        station_id: final(self).station_id,
                        radio_title: None,
                        radio_connecting: true,
                        radio_error: false,
                        radio_retries: 0,
                        radio_reconnect_pending: false,
                        radio_stall_ticks: 0,
                        playing: true,
                        ..*old(self)
                    }),
                None => r is None && *final(self) == *old(self),
            },
    {
        match station_index(self.stations.as_slice(), id) {
            Some(k) => {
                let st = self.stations[k].clone();
                self.station_id = Some(id.to_string());
                self.radio_title = None;
                self.radio_connecting = true;
                self.radio_error = false;
                self.radio_retries = 0;
                self.radio_reconnect_pending = false;
                self.radio_stall_ticks = 0;
                self.playing = true;
                Some(st)
            },
            None => None,
        }
    }

    /// The stream reported a (possibly absent) song title: on radio it is
    /// shown, and the stream counts as connected. Returns whether it applied.
    pub fn radio_title_changed(&mut self, t: Option<String>) -> (r: bool)
        ensures
            r == (old(self).app_mode == AppMode::Radio),
            r ==> *final(self) == (PlayerState {
                radio_title: t,
                radio_connecting: false,
                radio_error: false,
                radio_retries: 0,
                ..*old(self)
            }),
            !r ==> *final(self) == *old(self),
    {
        if self.app_mode == AppMode::Radio {
            self.radio_title = t;
            self.radio_connecting = false;
            self.radio_error = false;
            self.radio_retries = 0;
            true
        } else {
            false
        }
    }

    /// The stall watchdog, once per tick on radio. With the player running
    /// (`active`) the stream counts as connected and the retries reset;
    /// while it plays (no failure, no reconnect pending) a moving position
    /// (`progressed`) resets the stall count, and a still one raises it,
    /// scheduling a reconnect once it passes `stall_limit`.
    pub fn tick_radio(&mut self, active: bool, progressed: bool) -> (r: RadioTick)
        requires
            (old(self).app_mode == AppMode::Radio && active && old(self).playing && !old(self).radio_error
                && !old(self).radio_reconnect_pending && !progressed) ==> old(self).radio_stall_ticks < u32::MAX,
        ensures
            (r, *final(self)) == old(self).radio_tick_step(active, progressed),
    {
        if self.app_mode != AppMode::Radio || !active {
            return RadioTick::Idle;
        }
        self.radio_connecting = false;
        self.radio_retries = 0;
        if self.playing && !self.radio_error && !self.radio_reconnect_pending {
            if progressed {
                self.radio_stall_ticks = 0;
                RadioTick::Progressed
            } else {
                self.radio_stall_ticks = self.radio_stall_ticks + 1;
                let limit = if self.power_save { RADIO_STALL_TICKS / 4 } else { RADIO_STALL_TICKS };
                if self.radio_stall_ticks > limit {
                    RadioTick::Reconnect(self.schedule_reconnect())
                } else {
                    RadioTick::Stalled(self.radio_stall_ticks)
                }
            }
        } else {
            RadioTick::Idle
        }
    }

    /// What a radio tick returns and leaves.
    pub open spec fn radio_tick_step(self, active: bool, progressed: bool) -> (RadioTick, Self) {
        if self.app_mode != AppMode::Radio || !active {
            (RadioTick::Idle, self)
        } else {
            let s1 = PlayerState { radio_connecting: false, radio_retries: 0, ..self };
            if s1.playing && !s1.radio_error && !s1.radio_reconnect_pending {
                if progressed {
                    (RadioTick::Progressed, PlayerState { radio_stall_ticks: 0, ..s1 })
                } else {
                    let n = (s1.radio_stall_ticks + 1) as u32;
                    let s2 = PlayerState { radio_stall_ticks: n, ..s1 };
                    if n > stall_limit(s1.power_save) {
                        (RadioTick::Reconnect(s2.reconnect_step().0), s2.reconnect_step().1)
                    } else {
                        (RadioTick::Stalled(n), s2)
                    }
                }
            } else {
                (RadioTick::Idle, s1)
            }
        }
    }

    /// A tick on music with a current track: once the track has really
    /// started (`started`: more than half a second played) the error streak
    /// resets.
    pub fn tick_music(&mut self, started: bool)
        ensures
            (old(self).app_mode == AppMode::Music && old(self).qidx is Some && started)
                ==> *final(self) == (PlayerState { music_err_streak: 0, ..*old(self) }),
            !(old(self).app_mode == AppMode::Music && old(self).qidx is Some && started)
                ==> *final(self) == *old(self),
    {
        if self.app_mode == AppMode::Music && self.qidx.is_some() && started {
            self.music_err_streak = 0;
        }
    }

    /// Switches between music and radio. On a change the player stops; on
    /// radio the song title clears; back on music the current track, if
    /// any, is loaded again paused (`ToMusic` names its queue position).
    pub fn set_app_mode(&mut self, m: AppMode) -> (r: ModeSwitch)
        requires
            old(self).wf(),
        ensures
            final(self).wf(),
            old(self).app_mode == m ==> r == ModeSwitch::Unchanged && *final(self) == *old(self),
            old(self).app_mode != m && m == AppMode::Radio ==> r == ModeSwitch::ToRadio
                && *final(self) == (PlayerState { app_mode: m, playing: false, radio_title: None, ..*old(self) }),
            old(self).app_mode != m && m == AppMode::Music ==> r == ModeSwitch::ToMusic(old(self).qidx)
                && *final(self) == (PlayerState { app_mode: m, playing: false, ..*old(self) }),
    {
        if self.app_mode == m {
            return ModeSwitch::Unchanged;
        }
        self.app_mode = m;
        self.playing = false;
        match m {
            AppMode::Radio => {
                self.radio_title = None;
                ModeSwitch::ToRadio
            },
            AppMode::Music => ModeSwitch::ToMusic(self.qidx),
        }
    }

    /// Opens the Now-Playing view: only on music, with a current track, and
    /// not in power-save (its visualizer is frozen there). Returns whether
    /// it opened.
    pub fn open_now_playing(&mut self) -> (r: bool)
        ensures
            r == (old(self).app_mode == AppMode::Music && old(self).qidx is Some && !old(self).power_save),
            r ==> *final(self) == (PlayerState { np_open: true, ..*old(self) }),
            !r ==> *final(self) == *old(self),
    {
        if self.app_mode == AppMode::Music && self.qidx.is_some() && !self.power_save {
            self.np_open = true;
            true
        } else {
            false
        }
    }

    pub fn close_now_playing(&mut self)
        ensures
            *final(self) == (PlayerState { np_open: false, ..*old(self) }),
    {
        self.np_open = false;
    }

    /// Flips power-save and returns the new value; turning it on closes the
    /// Now-Playing view.
    pub fn toggle_power_save(&mut self) -> (r: bool)
        ensures
            r == !old(self).power_save,
            *final(self) == (PlayerState {
                power_save: r,
                np_open: if r { false } else { old(self).np_open },
                ..*old(self)
            }),
    {
        self.power_save = !self.power_save;
        if self.power_save {
            self.np_open = false;
        }
        self.power_save
    }

    /// Deletes the stations with id `id`. Deleting the current station stops
    /// the player and deselects it; returns whether that happened.
    pub fn delete_station(&mut self, id: &str) -> (r: bool)
        ensures
            r == (old(self).station_id is Some && old(self).station_id->0@ == id@),
            final(self).stations@ == without_station(old(self).stations@, id@),
            *final(self) == (PlayerState {
                stations: final(self).stations,
                playing: if r { false } else { old(self).playing },
                station_id: if r { None } else { old(self).station_id },
                ..*old(self)
            }),
    {
        let idc = chars_of(id);
        let r = match &self.station_id {
            Some(sid) => {
                let c = chars_of(sid.as_str());
                eq_chars(c.as_slice(), idc.as_slice())
            },
            None => false,
        };
        if r {
            self.playing = false;
            self.station_id = None;
        }
        let kept = remove_station(&self.stations, id);
        self.stations = kept;
        r
    }

    /// Saves the station dialog: with an id, the first station with that id
    /// takes the new name and URL (as typed); without one, a new station (see
    /// `new_station`) joins the end of the list.
    pub fn save_station(&mut self, id: Option<&str>, name: String, url: String)
        ensures
            *final(self) == (PlayerState { stations: final(self).stations, ..*old(self) }),
            id matches Some(i) ==> match find_station(old(self).stations@, i@) {
                Some(k) => final(self).stations@ == old(self).stations@.update(
                    k,
                    Station { id: old(self).stations@[k].id, name, url },
                ),
                None => final(self).stations@ == old(self).stations@,
            },
            id is None ==> {
                &&& final(self).stations@.len() == old(self).stations@.len() + 1
                &&& final(self).stations@.drop_last() == old(self).stations@
                &&& final(self).stations@.last().name@ == trim(name@)
                &&& final(self).stations@.last().url@ == trim(url@)
                &&& exists|n: nat| final(self).stations@.last().id@ == "st-"@ + hex(n)
            },
    {
        match id {
            Some(i) => {
                match station_index(self.stations.as_slice(), i) {
                    Some(k) => {
                        let sid = self.stations[k].id.clone();
                        self.stations.set(k, Station { id: sid, name, url });
                    },
                    None => {},
                }
            },
            None => {
                let st = new_station(name.as_str(), url.as_str());
                self.stations.push(st);
                assert(self.stations@.drop_last() =~= old(self).stations@);
            },
        }
    }

    /// Resumes the last track, paused, after the saved folder was scanned
    /// again: with "remember the last song" on (`remember`) and the saved
    /// path among the scanned tracks, the whole library becomes the queue and
    /// that track is current. Returns its position (the window loads it paused
    /// and seeks to the saved spot); `None`, changing nothing, otherwise.
    pub fn restore_track(&mut self, all: &Vec<Track>, track_path: Option<&str>, remember: bool) -> (r: Option<usize>)
        requires
            old(self).wf(),
        ensures
            final(self).wf(),
            r == (if remember && track_path is Some {
                match find_path(all@, track_path->0@) {
                    Some(i) => Some(i as usize),
                    None => None,
                }
            } else {
                None
            }),
            r matches Some(i) ==> final(self).queue@ == all@ && *final(self) == (PlayerState {
                queue: final(self).queue,
                qidx: Some(i),
                current_path: Some(all@[i as int].path),
                playing: false,
                ..*old(self)
            }),
            r is None ==> *final(self) == *old(self),
    {
        if !remember {
            return None;
        }
        let tp = match track_path {
            Some(tp) => tp,
            None => {
                return None;
            },
        };
        match track_position(all.as_slice(), tp) {
            Some(i) => {
                let q = all.clone();
                assert(q@ =~= all@);
                let p = q[i].path.clone();
                self.queue = q;
                self.qidx = Some(i);
                self.current_path = Some(p);
                self.playing = false;
                Some(i)
            },
            None => None,
        }
    }

    /// The current track.
    pub open spec fn cur_track_spec(&self) -> Option<Track> {
        match self.qidx {
            Some(i) => if i < self.queue.len() {
                Some(self.queue@[i as int])
            } else {
                None
            },
            None => None,
        }
    }

    /// The current track, if any.
    pub fn cur_track(&self) -> (r: Option<&Track>)
        ensures
            r == match self.cur_track_spec() {
                Some(t) => Some(&t),
                None => None::<&Track>,
            },
    {
        match self.qidx {
            Some(i) => if i < self.queue.len() {
                Some(&self.queue[i])
            } else {
                None
            },
            None => None,
        }
    }

    /// The big title: the station's name on radio, the track's title on
    /// music, else the app's name.
    pub open spec fn now_title_spec(&self) -> Seq<char> {
        match self.app_mode {
            AppMode::Radio => match self.cur_station_spec() {
                Some(st) => st.name@,
                None => "meusic"@,
            },
            AppMode::Music => match self.cur_track_spec() {
                Some(t) => t.title@,
                None => "meusic"@,
            },
        }
    }

    pub fn now_title(&self) -> (r: String)
        ensures
            r@ == self.now_title_spec(),
    {
        match self.app_mode {
            AppMode::Radio => match self.cur_station() {
                Some(st) => st.name.clone(),
                None => "meusic".to_owned(),
            },
            AppMode::Music => match self.cur_track() {
                Some(t) => t.title.clone(),
                None => "meusic".to_owned(),
            },
        }
    }

    /// The line under the title: on radio the connection state or the live
    /// song title; on music the track's artist.
    pub open spec fn now_artist_spec(&self) -> Seq<char> {
        match self.app_mode {
            AppMode::Radio => if self.cur_station_spec() is None {
                "Belum ada stasiun"@
            } else if self.radio_error {
                "Gagal menyambung \u{2014} stream mungkin mati"@
            } else if self.radio_connecting {
                if self.radio_retries > 0 {
                    "Menyambung ulang\u{2026}"@
                } else {
                    "Menyambungkan\u{2026}"@
                }
            } else {
                match self.radio_title {
                    Some(t) => t@,
                    None => if self.playing {
                        "Live"@
                    } else {
                        "Radio"@
                    },
                }
            },
            AppMode::Music => match self.cur_track_spec() {
                Some(t) => t.artist@,
                None => "Belum ada lagu"@,
            },
        }
    }

    pub fn now_artist(&self) -> (r: String)
        ensures
            r@ == self.now_artist_spec(),
    {
        match self.app_mode {
            AppMode::Radio => {
                if self.cur_station().is_none() {
                    "Belum ada stasiun".to_owned()
                } else if self.radio_error {
                    "Gagal menyambung \u{2014} stream mungkin mati".to_owned()
                } else if self.radio_connecting {
                    if self.radio_retries > 0 {
                        "Menyambung ulang\u{2026}".to_owned()
                    } else {
                        "Menyambungkan\u{2026}".to_owned()
                    }
                } else {
                    match &self.radio_title {
                        Some(t) => t.clone(),
                        None => if self.playing {
                            "Live".to_owned()
                        } else {
                            "Radio".to_owned()
                        },
                    }
                }
            },
            AppMode::Music => match self.cur_track() {
                Some(t) => t.artist.clone(),
                None => "Belum ada lagu".to_owned(),
            },
        }
    }

    /// The current track's album on music; empty on radio or with no track.
    pub fn now_album(&self) -> (r: String)
        ensures
            r@ == (match (self.app_mode, self.cur_track_spec()) {
                (AppMode::Music, Some(t)) => t.album@,
                _ => Seq::empty(),
            }),
    {
        if self.app_mode == AppMode::Music {
            if let Some(t) = self.cur_track() {
                return t.album.clone();
            }
        }
        String::new()
    }

    /// The current track's format (`FLAC`, `MP3`, ...) on music; else empty.
    pub fn now_format(&self) -> (r: String)
        ensures
            r@ == (match (self.app_mode, self.cur_track_spec()) {
                (AppMode::Music, Some(t)) => t.format@,
                _ => Seq::empty(),
            }),
    {
        if self.app_mode == AppMode::Music {
            if let Some(t) = self.cur_track() {
                return t.format.clone();
            }
        }
        String::new()
    }

    /// `N kbps` for the current track on music when its bitrate is known;
    /// else empty.
    pub fn now_kbps(&self) -> (r: String)
        ensures
            r@ == (match (self.app_mode, self.cur_track_spec()) {
                (AppMode::Music, Some(t)) => if t.bitrate > 0 {
                    decimal(t.bitrate as nat) + " kbps"@
                } else {
                    Seq::empty()
                },
                _ => Seq::empty(),
            }),
    {
        if self.app_mode == AppMode::Music {
            if let Some(t) = self.cur_track() {
                if t.bitrate > 0 {
                    let mut v: Vec<char> = Vec::new();
                    push_digits(&mut v, t.bitrate as u128, 10);
                    push_str(&mut v, " kbps");
                    return string_of(v.as_slice());
                }
            }
        }
        String::new()
    }

    /// The MPRIS playback status: `Stopped` with nothing current (no station
    /// on radio, no track on music), else `Playing` or `Paused`.
    pub open spec fn status_spec(&self) -> Seq<char> {
        let none = match self.app_mode {
            AppMode::Radio => self.station_id is None,
            AppMode::Music => self.qidx is None,
        };
        if none {
            "Stopped"@
        } else if self.playing {
            "Playing"@
        } else {
            "Paused"@
        }
    }

    pub fn playback_status(&self) -> (r: &'static str)
        ensures
            r@ == self.status_spec(),
    {
        let none = match self.app_mode {
            AppMode::Radio => self.station_id.is_none(),
            AppMode::Music => self.qidx.is_none(),
        };
        if none {
            "Stopped"
        } else if self.playing {
            "Playing"
        } else {
            "Paused"
        }
    }

    /// What the media controls show: on radio the live song title (else the
    /// station's name) over the station's name, keyed by the station id; on
    /// music the track's title, artist, album and length, keyed by its path.
    /// `None` with nothing current.
    pub fn media_info(&self) -> (r: Option<MediaInfo>)
        ensures
            match self.app_mode {
                AppMode::Radio => match self.cur_station_spec() {
                    Some(st) => r matches Some(m) && m.title@ == (match self.radio_title {
                        Some(t) => t@,
                        None => st.name@,
                    }) && m.artist@ == st.name@ && m.album@.len() == 0 && m.length_secs == 0 && m.key@ == st.id@,
                    None => r is None,
                },
                AppMode::Music => match self.cur_track_spec() {
                    Some(t) => r matches Some(m) && m.title@ == t.title@ && m.artist@ == t.artist@
                        && m.album@ == t.album@ && m.length_secs == t.duration && m.key@ == t.path@,
                    None => r is None,
                },
            },
    {
        match self.app_mode {
            AppMode::Radio => match self.cur_station() {
                Some(st) => Some(MediaInfo {
                    title: match &self.radio_title {
                        Some(t) => t.clone(),
                        None => st.name.clone(),
                    },
                    artist: st.name.clone(),
                    album: String::new(),
                    length_secs: 0,
                    key: st.id.clone(),
                }),
                None => None,
            },
            AppMode::Music => match self.cur_track() {
                Some(t) => Some(MediaInfo {
                    title: t.title.clone(),
                    artist: t.artist.clone(),
                    album: t.album.clone(),
                    length_secs: t.duration,
                    key: t.path.clone(),
                }),
                None => None,
            },
        }
    }
}

/// What the media controls show of the current track or station.
pub struct MediaInfo {
    pub title: String,
    pub artist: String,
    pub album: String,
    pub length_secs: u64,
    /// The station id or the track path the control's track id derives from.
    pub key: String,
}

/// The stations other than those with id `id`, in order.
pub fn remove_station(stations: &Vec<Station>, id: &str) -> (r: Vec<Station>)
    ensures
        r@ == without_station(stations@, id@),
{
    let idc = chars_of(id);
    let mut out: Vec<Station> = Vec::new();
    let mut i: usize = 0;
    while i < stations.len()
        invariant
            i <= stations.len(),
            idc@ == id@,
            out@ == without_station(stations@.take(i as int), id@),
        decreases stations.len() - i,
    {
        let c = chars_of(stations[i].id.as_str());
        let keep = !eq_chars(c.as_slice(), idc.as_slice());
        assert(stations@.take(i + 1).drop_last() =~= stations@.take(i as int));
        if keep {
            out.push(stations[i].clone());
        }
        i += 1;
    }
    assert(stations@.take(stations.len() as int) =~= stations@);
    out
}

/// Whether the station list shows a station for the lower-cased search
/// text `q`: always with no search, else when its lower-cased name contains it.
pub open spec fn station_shown(st: Station, q: Seq<char>) -> bool {
    q.len() == 0 || has_sub(lowercase(st.name@), q)
}

/// The rows of the station list: the position of each shown station, in
/// order, and whether it is the one playing.
pub open spec fn station_rows_spec(s: Seq<Station>, q: Seq<char>, playing: Option<Seq<char>>) -> Seq<(usize, bool)>
    decreases s.len(),
{
    if s.len() == 0 {
        Seq::empty()
    } else {
        let pre = station_rows_spec(s.drop_last(), q, playing);
        if station_shown(s.last(), q) {
            pre.push(((s.len() - 1) as usize, playing == Some(s.last().id@)))
        } else {
            pre
        }
    }
}

/// The station list for a search: the stations whose name contains the
/// search text (ignoring case), each with whether it is the one playing.
pub fn station_rows(stations: &[Station], query: &str, playing: Option<&str>) -> (r: Vec<(usize, bool)>)
    ensures
        r@ == station_rows_spec(
            stations@,
            lowercase(query@),
            match playing {
                Some(p) => Some(p@),
                None => None,
            },
        ),
{
    let ql = to_lower(query);
    let q = chars_of(ql.as_str());
    let pc: Option<Vec<char>> = match playing {
        Some(p) => Some(chars_of(p)),
        None => None,
    };
    let ghost pv = match playing {
        Some(p) => Some(p@),
        None => None::<Seq<char>>,
    };
    let mut out: Vec<(usize, bool)> = Vec::new();
    let mut i: usize = 0;
    while i < stations.len()
        invariant
            i <= stations.len(),
            q@ == lowercase(query@),
            pv == match pc {
                Some(v) => Some(v@),
                None => None::<Seq<char>>,
            },
            out@ == station_rows_spec(stations@.take(i as int), q@, pv),
        decreases stations.len() - i,
    {
        assert(stations@.take(i + 1).drop_last() =~= stations@.take(i as int));
        assert(stations@.take(i + 1).last() == stations@[i as int]);
        let shown = if q.len() == 0 {
            true
        } else {
            let n = to_lower(stations[i].name.as_str());
            let nc = chars_of(n.as_str());
            contains_chars(nc.as_slice(), q.as_slice())
        };
        if shown {
            let idc = chars_of(stations[i].id.as_str());
            let on = match &pc {
                Some(v) => eq_chars(v.as_slice(), idc.as_slice()),
                None => false,
            };
            out.push((i, on));
        }
        i += 1;
    }
    assert(stations@.take(stations.len() as int) =~= stations@);
    out
}

/// Whether the station dialog may be saved: neither the name nor the URL is
/// blank.
pub fn station_form_valid(name: &str, url: &str) -> (r: bool)
    ensures
        r == (trim(name@).len() > 0 && trim(url@).len() > 0),
{
    let n = chars_of(name);
    let u = chars_of(url);
    assert(n@.subrange(0, n.len() as int) =~= n@);
    assert(u@.subrange(0, u.len() as int) =~= u@);
    let tn = trim_range(n.as_slice(), 0, n.len());
    let tu = trim_range(u.as_slice(), 0, u.len());
    tn.len() > 0 && tu.len() > 0
}

} // verus!

verus! {

/// Three presses of the repeat button come back to where they started.
pub proof fn law_repeat_cycle(r: Repeat)
    ensures
        next_repeat(next_repeat(next_repeat(r))) == r,
        next_repeat(r) != r,
{
}

/// Reconnect delays run 2, 5, 10, 30 seconds and then stay at 60 for good:
/// they never shrink as attempts add up, and never run out.
pub proof fn law_backoff_schedule(a: u32, b: u32)
    ensures
        backoff(0) == 2 && backoff(1) == 5 && backoff(2) == 10 && backoff(3) == 30,
        a >= 4 ==> backoff(a) == 60,
        a <= b ==> backoff(a) <= backoff(b),
        2 <= backoff(a) <= 60,
{
}

/// The track after the current one is always a track of the queue.
pub proof fn law_next_in_queue(i: nat, len: nat, repeat: Repeat, shuffle: bool, random: nat)
    requires
        i < len,
    ensures
        next_index(i, len, repeat, shuffle, random) matches Some(j) ==> j < len,
{
}

/// Repeat-one plays the same track again.
pub proof fn law_repeat_one_replays(i: nat, len: nat, shuffle: bool, random: nat)
    ensures
        next_index(i, len, Repeat::One, shuffle, random) == Some(i),
{
}

/// Shuffle never picks the track that just ended while there is another one
/// to play.
pub proof fn law_shuffle_moves_on(i: nat, len: nat, repeat: Repeat, random: nat)
    requires
        i < len,
        len > 1,
        repeat != Repeat::One,
    ensures
        next_index(i, len, repeat, true, random) matches Some(j) && j != i && j < len,
{
    assert(random % len < len && (i + 1) % len < len && (i + 1) % len != i) by (nonlinear_arith)
        requires
            i < len,
            len > 1,
    {
        if i + 1 < len {
            assert((i + 1) % len == i + 1);
        } else {
            assert((i + 1) % len == 0);
        }
    }
}

/// In order, the last track ends the queue, unless repeat-all wraps round
/// to the first.
pub proof fn law_end_of_queue(len: nat, random: nat)
    requires
        len > 0,
    ensures
        next_index((len - 1) as nat, len, Repeat::Off, false, random) is None,
        next_index((len - 1) as nat, len, Repeat::All, false, random) == Some(0nat),
{
}

/// One reconnect is in flight at a time: while one is pending, asking for
/// another schedules nothing.
pub proof fn law_one_reconnect_at_a_time(s: PlayerState)
    ensures
        s.reconnect_step().1.reconnect_step().0 is None,
        s.reconnect_step().1.reconnect_step().1 == s.reconnect_step().1,
{
}

/// Each reconnect that does not bring the stream back waits the next delay
/// of the schedule: once the timer has fired, the following reconnect
/// waits `backoff` of one attempt more.
pub proof fn law_backoff_progresses(s: PlayerState)
    requires
        s.may_reconnect(),
        s.radio_retries < u32::MAX,
    ensures
        s.reconnect_step().0 == Some(backoff(s.radio_retries)),
        (PlayerState { radio_reconnect_pending: false, ..s.reconnect_step().1 }).reconnect_step().0
            == Some(backoff((s.radio_retries + 1) as u32)),
{
}

/// A song title from the stream proves it is back: the next failure starts
/// the delays over at two seconds.
pub proof fn law_title_restarts_backoff(s: PlayerState, t: Option<String>)
    requires
        s.app_mode == AppMode::Radio,
        s.station_id is Some,
        !s.radio_reconnect_pending,
    ensures
        (PlayerState {
            radio_title: t,
            radio_connecting: false,
            radio_error: false,
            radio_retries: 0,
            ..s
        }).reconnect_step().0 == Some(2u64),
{
}

/// A permanent radio failure (a bad address or no access) stops the stream
/// for good: no reconnect follows, from the error or from the end of the
/// stream, until another station is tuned in.
pub proof fn law_permanent_failure_is_final(s: PlayerState, detail: Seq<char>, random: nat)
    requires
        s.app_mode == AppMode::Radio,
        s.station_id is Some,
        permanent_failure(detail),
    ensures
        s.error_step(detail, random).0 == ErrorOutcome::RadioStopped,
        s.error_step(detail, random).1.radio_error,
        !s.error_step(detail, random).1.playing,
        !s.error_step(detail, random).1.may_reconnect(),
{
}

/// The state after a run of playback errors, one per shuffle draw.
pub open spec fn after_errors(s: PlayerState, detail: Seq<char>, draws: Seq<nat>) -> PlayerState
    decreases draws.len(),
{
    if draws.len() == 0 {
        s
    } else {
        after_errors(s, detail, draws.drop_last()).error_step(detail, draws.last()).1
    }
}

/// How many errors in a row stop music playback: one per queued track, and
/// at least one.
pub open spec fn streak_bound(s: PlayerState) -> int {
    if s.queue.len() > 1 {
        s.queue.len() as int
    } else {
        1
    }
}

proof fn lemma_errors(s: PlayerState, detail: Seq<char>, draws: Seq<nat>)
    requires
        s.app_mode == AppMode::Music,
        s.wf(),
        s.queue.len() < u32::MAX,
        s.music_err_streak < streak_bound(s),
    ensures
        ({
            let t = after_errors(s, detail, draws);
            &&& t.app_mode == AppMode::Music
            &&& t.queue == s.queue
            &&& t.wf()
            &&& t.qidx is Some ==> t.music_err_streak == s.music_err_streak + draws.len()
                && s.music_err_streak + draws.len() < streak_bound(s)
            &&& (s.qidx is Some && t.qidx is None) ==> !t.playing
        }),
    decreases draws.len(),
{
    if draws.len() > 0 {
        lemma_errors(s, detail, draws.drop_last());
        let t0 = after_errors(s, detail, draws.drop_last());
        if t0.qidx is Some {
            let i = t0.qidx->0;
            law_next_in_queue(i as nat, t0.queue.len() as nat, t0.repeat, t0.shuffle, draws.last());
        }
    }
}

/// A queue of broken files cannot keep the player skipping forever: on
/// music, errors in a row stop playback once every queued track (and at
/// least one) has failed since a track last played.
pub proof fn law_failing_queue_stops(s: PlayerState, detail: Seq<char>, draws: Seq<nat>)
    requires
        s.app_mode == AppMode::Music,
        s.wf(),
        s.qidx is Some,
        s.queue.len() < u32::MAX,
        s.music_err_streak < streak_bound(s),
        s.music_err_streak + draws.len() >= streak_bound(s),
    ensures
        after_errors(s, detail, draws).qidx is None,
        !after_errors(s, detail, draws).playing,
{
    lemma_errors(s, detail, draws);
}

/// The state after `n` radio ticks in a row on which the player runs but
/// the position stands still.
pub open spec fn after_still_ticks(s: PlayerState, n: nat) -> PlayerState
    decreases n,
{
    if n == 0 {
        s
    } else {
        after_still_ticks(s, (n - 1) as nat).radio_tick_step(true, false).1
    }
}

/// A radio stream that plays with nothing pending or failed.
pub open spec fn radio_live(s: PlayerState) -> bool {
    &&& s.app_mode == AppMode::Radio
    &&& s.playing
    &&& !s.radio_error
    &&& !s.radio_reconnect_pending
    &&& s.station_id is Some
}

proof fn lemma_still_ticks(s: PlayerState, n: nat)
    requires
        radio_live(s),
        s.radio_stall_ticks == 0,
        n <= stall_limit(s.power_save),
    ensures
        radio_live(after_still_ticks(s, n)),
        after_still_ticks(s, n).radio_stall_ticks == n,
        after_still_ticks(s, n).power_save == s.power_save,
        n > 0 ==> after_still_ticks(s, n).radio_retries == 0,
        n > 0 ==> s.radio_tick_step(true, false).0 == RadioTick::Stalled(1),
        n > 0 ==> after_still_ticks(s, (n - 1) as nat).radio_tick_step(true, false).0 == RadioTick::Stalled(n as u32),
    decreases n,
{
    if n > 0 {
        lemma_still_ticks(s, (n - 1) as nat);
    }
}

/// The stall watchdog: a playing stream whose position stands still is
/// reconnected on the tick after the stall limit (48 ticks, about twelve
/// seconds; 12 of the slower power-save ticks), after a two-second wait;
/// the ticks before only count.
pub proof fn law_stall_reconnects(s: PlayerState, n: nat)
    requires
        radio_live(s),
        s.radio_stall_ticks == 0,
        1 <= n <= stall_limit(s.power_save),
    ensures
        after_still_ticks(s, (n - 1) as nat).radio_tick_step(true, false).0 == RadioTick::Stalled(n as u32),
        !after_still_ticks(s, n).radio_reconnect_pending,
        after_still_ticks(s, stall_limit(s.power_save) as nat).radio_tick_step(true, false).0
            == RadioTick::Reconnect(Some(2u64)),
        after_still_ticks(s, (stall_limit(s.power_save) + 1) as nat).radio_reconnect_pending,
{
    lemma_still_ticks(s, n);
    lemma_still_ticks(s, stall_limit(s.power_save) as nat);
}

/// Deleting a station removes every station with its id and keeps every
/// other one.
pub proof fn law_deleted_station_gone(s: Seq<Station>, id: Seq<char>)
    ensures
        forall|k: int| 0 <= k < without_station(s, id).len() ==> (#[trigger] without_station(s, id)[k]).id@ != id
            && s.contains(without_station(s, id)[k]),
        forall|k: int| 0 <= k < s.len() && (#[trigger] s[k]).id@ != id ==> without_station(s, id).contains(s[k]),
    decreases s.len(),
{
    if s.len() > 0 {
        let p = s.drop_last();
        law_deleted_station_gone(p, id);
        let wp = without_station(p, id);
        let w = without_station(s, id);
        assert forall|k: int| 0 <= k < w.len() implies (#[trigger] w[k]).id@ != id && s.contains(w[k]) by {
            if k < wp.len() {
                assert(w[k] == wp[k]);
                let x = choose|x: int| 0 <= x < p.len() && p[x] == wp[k];
                assert(s[x] == p[x]);
            } else {
                assert(s[s.len() - 1] == s.last());
            }
        }
        assert forall|k: int| 0 <= k < s.len() && (#[trigger] s[k]).id@ != id implies w.contains(s[k]) by {
            if k < s.len() - 1 {
                assert(p[k] == s[k]);
                let x = choose|x: int| 0 <= x < wp.len() && wp[x] == p[k];
                assert(w[x] == wp[x]);
            } else {
                assert(w[w.len() - 1] == s.last());
            }
        }
    }
}

/// The radio failures that stop the stream for good are exactly the
/// messages that mention, ignoring case, a missing stream ("not found",
/// "404") or refused access ("forbidden", "403", "unauthorized", "401");
/// any other message is a drop worth reconnecting after.
pub proof fn law_permanent_failures(detail: Seq<char>)
    ensures
        has_sub(lowercase(detail), "not found"@) ==> permanent_failure(detail),
        has_sub(lowercase(detail), "404"@) ==> permanent_failure(detail),
        has_sub(lowercase(detail), "forbidden"@) ==> permanent_failure(detail),
        has_sub(lowercase(detail), "403"@) ==> permanent_failure(detail),
        has_sub(lowercase(detail), "unauthorized"@) ==> permanent_failure(detail),
        has_sub(lowercase(detail), "401"@) ==> permanent_failure(detail),
        permanent_failure(detail) ==> (has_sub(lowercase(detail), "not found"@) || has_sub(lowercase(detail), "404"@)
            || has_sub(lowercase(detail), "forbidden"@) || has_sub(lowercase(detail), "403"@)
            || has_sub(lowercase(detail), "unauthorized"@) || has_sub(lowercase(detail), "401"@)),
{
}

/// On radio with a station, an error that mentions "not found" (or any of
/// the other permanent failures) stops the stream and schedules no
/// reconnect, whatever the retry state.
pub proof fn law_not_found_stops_radio(s: PlayerState, detail: Seq<char>, random: nat)
    requires
        s.app_mode == AppMode::Radio,
        s.station_id is Some,
        has_sub(lowercase(detail), "not found"@) || has_sub(lowercase(detail), "404"@)
            || has_sub(lowercase(detail), "forbidden"@) || has_sub(lowercase(detail), "403"@)
            || has_sub(lowercase(detail), "unauthorized"@) || has_sub(lowercase(detail), "401"@),
    ensures
        s.error_step(detail, random).0 == ErrorOutcome::RadioStopped,
        !s.error_step(detail, random).1.may_reconnect(),
{
    law_permanent_failures(detail);
}

/// The stall limit is 48 ticks, and 12 of the four-times-slower
/// power-save ticks: about twelve seconds either way.
pub proof fn law_stall_limits()
    ensures
        stall_limit(false) == 48,
        stall_limit(true) == 12,
        RADIO_STALL_TICKS == 48,
{
}

} // verus!
