//! What the desktop window shows: browsing modes, the sidebar groups of a
//! mode, the filtered song list, and the titles above it.
use vstd::prelude::*;
use crate::library::{
    album_groups, artist_groups, count_key, fmt_total, fmt_total_spec, folder_groups, group_key_of, groups_of,
    Group, GroupKind, Track,
};
use crate::paths::{parent_dir, parent_dir_spec};
use crate::text::{chars_of, contains_chars, eq_chars, eq_str, has_sub, lowercase, push_str, string_of, to_lower};

verus! {

/// How the library is browsed.
#[derive(Clone, Copy, PartialEq, Eq, Structural, Debug)]
pub enum Mode {
    Folders,
    Albums,
    Artists,
    Songs,
}

/// The name a mode is saved under.
pub open spec fn mode_key_spec(m: Mode) -> Seq<char> {
    match m {
        Mode::Folders => "folders"@,
        Mode::Albums => "albums"@,
        Mode::Artists => "artists"@,
        Mode::Songs => "songs"@,
    }
}

/// Persisted string key for a view mode.
pub fn mode_key(m: Mode) -> (r: &'static str)
    ensures
        r@ == mode_key_spec(m),
{
    match m {
        Mode::Folders => "folders",
        Mode::Albums => "albums",
        Mode::Artists => "artists",
        Mode::Songs => "songs",
    }
}

/// The mode a saved key names; anything unknown is `Folders`.
pub open spec fn mode_from_key_spec(s: Seq<char>) -> Mode {
    if s == "albums"@ {
        Mode::Albums
    } else if s == "artists"@ {
        Mode::Artists
    } else if s == "songs"@ {
        Mode::Songs
    } else {
        Mode::Folders
    }
}

/// The mode a saved key names.
pub fn mode_from_key(s: &str) -> (r: Mode)
    ensures
        r == mode_from_key_spec(s@),
{
    let c = chars_of(s);
    if eq_str(c.as_slice(), "albums") {
        Mode::Albums
    } else if eq_str(c.as_slice(), "artists") {
        Mode::Artists
    } else if eq_str(c.as_slice(), "songs") {
        Mode::Songs
    } else {
        Mode::Folders
    }
}

/// The grouping key a track belongs to in the given mode (matches sidebar keys).
pub open spec fn track_key_spec(t: Track, m: Mode) -> Seq<char> {
    match m {
        Mode::Folders => parent_dir_spec(t.path@),
        Mode::Albums => t.album@,
        Mode::Artists => t.album_artist@,
        Mode::Songs => Seq::empty(),
    }
}

/// The grouping key a track belongs to in the given mode.
pub fn track_key(t: &Track, m: Mode) -> (r: String)
    ensures
        r@ == track_key_spec(*t, m),
        kind_of(m) matches Some(k) ==> r@ == group_key_of(*t, k),
{
    match m {
        Mode::Folders => parent_dir(t.path.as_str()),
        Mode::Albums => t.album.clone(),
        Mode::Artists => t.album_artist.clone(),
        Mode::Songs => String::new(),
    }
}

/// The group kind a browsing mode lists in the sidebar (none for songs).
pub open spec fn kind_of(m: Mode) -> Option<GroupKind> {
    match m {
        Mode::Folders => Some(GroupKind::Folder),
        Mode::Albums => Some(GroupKind::Album),
        Mode::Artists => Some(GroupKind::Artist),
        Mode::Songs => None,
    }
}

/// The sidebar entries of a mode.
pub fn groups(all: &[Track], m: Mode) -> (r: Vec<Group>)
    ensures
        match kind_of(m) {
            Some(k) => groups_of(all@, k, r@),
            None => r.len() == 0,
        },
{
    match m {
        Mode::Folders => folder_groups(all),
        Mode::Albums => album_groups(all),
        Mode::Artists => artist_groups(all),
        Mode::Songs => Vec::new(),
    }
}

/// The sidebar shows except in the song list and while searching.
pub fn sidebar_visible(m: Mode, query: &str) -> (r: bool)
    ensures
        r == (m != Mode::Songs && query@.len() == 0),
{
    m != Mode::Songs && query.is_empty()
}

/// The elements of `s` that satisfy `f`, in order.
pub open spec fn select(s: Seq<Track>, f: spec_fn(Track) -> bool) -> Seq<Track>
    decreases s.len(),
{
    if s.len() == 0 {
        Seq::empty()
    } else if f(s.last()) {
        select(s.drop_last(), f).push(s.last())
    } else {
        select(s.drop_last(), f)
    }
}

/// A track matches a lower-cased search query in its title, artist or album
/// (compared lower-cased).
pub open spec fn matches_query(t: Track, q: Seq<char>) -> bool {
    has_sub(lowercase(t.title@), q) || has_sub(lowercase(t.artist@), q) || has_sub(
        lowercase(t.album@),
        q,
    )
}

/// The tracks the song list shows: search results while there is a query,
/// else the selected group's tracks, else all of them.
pub open spec fn view_spec(all: Seq<Track>, m: Mode, sel: Option<Seq<char>>, query: Seq<char>) -> Seq<Track> {
    if query.len() > 0 {
        select(all, |t: Track| matches_query(t, lowercase(query)))
    } else {
        match sel {
            Some(key) => if m == Mode::Songs {
                all
            } else {
                select(all, |t: Track| track_key_spec(t, m) == key)
            },
            None => all,
        }
    }
}

fn lower_chars(s: &str) -> (r: Vec<char>)
    ensures
        r@ == lowercase(s@),
{
    let l = to_lower(s);
    chars_of(l.as_str())
}

fn track_matches(t: &Track, q: &[char]) -> (r: bool)
    ensures
        r == matches_query(*t, q@),
{
    let a = lower_chars(t.title.as_str());
    if contains_chars(a.as_slice(), q) {
        return true;
    }
    let b = lower_chars(t.artist.as_str());
    if contains_chars(b.as_slice(), q) {
        return true;
    }
    let c = lower_chars(t.album.as_str());
    contains_chars(c.as_slice(), q)
}

fn in_group(t: &Track, m: Mode, key: &[char]) -> (r: bool)
    ensures
        r == (track_key_spec(*t, m) == key@),
{
    let k = track_key(t, m);
    let kc = chars_of(k.as_str());
    eq_chars(kc.as_slice(), key)
}

fn copy_all(all: &[Track]) -> (r: Vec<Track>)
    ensures
        r@ == all@,
{
    let mut out: Vec<Track> = Vec::new();
    let mut i: usize = 0;
    while i < all.len()
        invariant
            i <= all.len(),
            out@ == all@.take(i as int),
        decreases all.len() - i,
    {
        out.push(all[i].clone());
        i += 1;
        assert(out@ =~= all@.take(i as int));
    }
    assert(all@.take(all.len() as int) =~= all@);
    out
}

/// The song list for the current mode, selected group and search query.
pub fn filter_view(all: &[Track], m: Mode, sel_group: Option<&str>, query: &str) -> (r: Vec<Track>)
    ensures
        r@ == view_spec(
            all@,
            m,
            match sel_group {
                Some(g) => Some(g@),
                None => None,
            },
            query@,
        ),
{
    if !query.is_empty() {
        let q = lower_chars(query);
        let ghost f = |t: Track| matches_query(t, lowercase(query@));
        let mut out: Vec<Track> = Vec::new();
        let mut i: usize = 0;
        while i < all.len()
            invariant
                i <= all.len(),
                q@ == lowercase(query@),
                f == (|t: Track| matches_query(t, lowercase(query@))),
                out@ == select(all@.take(i as int), f),
            decreases all.len() - i,
        {
            assert(all@.take(i + 1).drop_last() =~= all@.take(i as int));
            assert(all@.take(i + 1).last() == all@[i as int]);
            if track_matches(&all[i], q.as_slice()) {
                out.push(all[i].clone());
            }
            i += 1;
        }
        assert(all@.take(all.len() as int) =~= all@);
        return out;
    }
    match sel_group {
        None => copy_all(all),
        Some(g) => {
            if m == Mode::Songs {
                return copy_all(all);
            }
            let key = chars_of(g);
            let ghost f = |t: Track| track_key_spec(t, m) == g@;
            let mut out: Vec<Track> = Vec::new();
            let mut i: usize = 0;
            while i < all.len()
                invariant
                    i <= all.len(),
                    key@ == g@,
                    f == (|t: Track| track_key_spec(t, m) == g@),
                    out@ == select(all@.take(i as int), f),
                decreases all.len() - i,
            {
                assert(all@.take(i + 1).drop_last() =~= all@.take(i as int));
                assert(all@.take(i + 1).last() == all@[i as int]);
                if in_group(&all[i], m, key.as_slice()) {
                    out.push(all[i].clone());
                }
                i += 1;
            }
            assert(all@.take(all.len() as int) =~= all@);
            out
        },
    }
}

} // verus!

verus! {

/// The heading of the song list.
pub open spec fn view_title_spec(query: Seq<char>, m: Mode, sel: Option<Seq<char>>) -> Seq<char> {
    if query.len() > 0 {
        "Pencarian: "@ + query
    } else if m == Mode::Songs {
        "Semua Lagu"@
    } else {
        match sel {
            Some(g) => g,
            None => match m {
                Mode::Folders => "Semua Folder"@,
                Mode::Albums => "Semua Album"@,
                _ => "Semua Artis"@,
            },
        }
    }
}

/// The heading of the song list: the search, the selected group, or "all".
pub fn view_title(query: &str, m: Mode, sel_group: Option<&str>) -> (r: String)
    ensures
        r@ == view_title_spec(
            query@,
            m,
            match sel_group {
                Some(g) => Some(g@),
                None => None,
            },
        ),
{
    if !query.is_empty() {
        let mut v: Vec<char> = Vec::new();
        push_str(&mut v, "Pencarian: ");
        push_str(&mut v, query);
        return string_of(v.as_slice());
    }
    if m == Mode::Songs {
        return "Semua Lagu".to_owned();
    }
    match sel_group {
        Some(g) => g.to_owned(),
        None => match m {
            Mode::Folders => "Semua Folder".to_owned(),
            Mode::Albums => "Semua Album".to_owned(),
            _ => "Semua Artis".to_owned(),
        },
    }
}

/// The summed duration of tracks, in seconds.
pub open spec fn total_duration(s: Seq<Track>) -> nat
    decreases s.len(),
{
    if s.len() == 0 {
        0
    } else {
        total_duration(s.drop_last()) + s.last().duration as nat
    }
}

/// The subtitle of the song list: `N lagu · total duration`.
pub fn view_summary(view: &[Track]) -> (r: String)
    requires
        total_duration(view@) <= u64::MAX,
    ensures
        r@ == crate::text::decimal(view.len() as nat) + " lagu \u{b7} "@ + fmt_total_spec(
            total_duration(view@) as u64,
        ),
{
    let mut total: u64 = 0;
    let mut i: usize = 0;
    while i < view.len()
        invariant
            i <= view.len(),
            total_duration(view@) <= u64::MAX,
            total == total_duration(view@.take(i as int)),
        decreases view.len() - i,
    {
        assert(view@.take(i + 1).drop_last() =~= view@.take(i as int));
        proof {
            lemma_total_prefix(view@, i + 1);
        }
        total = total + view[i].duration;
        i += 1;
    }
    assert(view@.take(view.len() as int) =~= view@);
    let mut v: Vec<char> = Vec::new();
    crate::text::push_digits(&mut v, view.len() as u128, 10);
    push_str(&mut v, " lagu \u{b7} ");
    let t = fmt_total(total);
    push_str(&mut v, t.as_str());
    string_of(v.as_slice())
}

proof fn lemma_total_prefix(s: Seq<Track>, k: int)
    requires
        0 <= k <= s.len(),
    ensures
        total_duration(s.take(k)) <= total_duration(s),
    decreases s.len(),
{
    if k < s.len() {
        assert(s.drop_last().take(k) =~= s.take(k));
        lemma_total_prefix(s.drop_last(), k);
    } else {
        assert(s.take(k) =~= s);
    }
}

} // verus!

verus! {

/// The index of the first track with path `p`.
pub open spec fn find_path(s: Seq<Track>, p: Seq<char>) -> Option<int>
    decreases s.len(),
{
    if s.len() == 0 {
        None
    } else if s[0].path@ == p {
        Some(0)
    } else {
        match find_path(s.drop_first(), p) {
            Some(i) => Some(i + 1),
            None => None,
        }
    }
}

proof fn lemma_find_path(s: Seq<Track>, p: Seq<char>, k: int)
    requires
        0 <= k <= s.len(),
        forall|j: int| 0 <= j < k ==> s[j].path@ != p,
        k == s.len() || s[k].path@ == p,
    ensures
        find_path(s, p) == (if k < s.len() {
            Some(k)
        } else {
            None
        }),
    decreases k,
{
    if k > 0 {
        assert forall|j: int| 0 <= j < k - 1 implies s.drop_first()[j].path@ != p by {
            assert(s.drop_first()[j] == s[j + 1]);
        }
        if k < s.len() {
            assert(s.drop_first()[k - 1] == s[k]);
        }
        lemma_find_path(s.drop_first(), p, k - 1);
    }
}

/// The position of the first track with path `path`.
pub fn track_position(tracks: &[Track], path: &str) -> (r: Option<usize>)
    ensures
        match r {
            Some(i) => find_path(tracks@, path@) == Some(i as int) && i < tracks.len(),
            None => find_path(tracks@, path@) is None,
        },
{
    let pc = chars_of(path);
    let mut i: usize = 0;
    while i < tracks.len()
        invariant
            i <= tracks.len(),
            pc@ == path@,
            forall|j: int| 0 <= j < i ==> tracks@[j].path@ != path@,
        decreases tracks.len() - i,
    {
        let c = chars_of(tracks[i].path.as_str());
        if eq_chars(c.as_slice(), pc.as_slice()) {
            proof {
                lemma_find_path(tracks@, path@, i as int);
            }
            return Some(i);
        }
        i += 1;
    }
    proof {
        lemma_find_path(tracks@, path@, i as int);
    }
    None
}

/// With "follow the song" on, the row of the song list to scroll to: where
/// the current track stands in the shown list, if it does.
pub fn scroll_target(view: &[Track], current_path: Option<&str>, follow_song: bool) -> (r: Option<usize>)
    ensures
        r == (if follow_song && current_path is Some {
            match find_path(view@, current_path->0@) {
                Some(i) => Some(i as usize),
                None => None,
            }
        } else {
            None
        }),
{
    if !follow_song {
        return None;
    }
    match current_path {
        Some(p) => track_position(view, p),
        None => None,
    }
}

/// What the song list is browsing: the mode, the chosen sidebar group and
/// the search text.
pub struct Browse {
    pub mode: Mode,
    pub sel_group: Option<String>,
    pub query: String,
}

impl Browse {
    /// The start page: all folders, nothing searched.
    pub fn new() -> (r: Self)
        ensures
            r.mode == Mode::Folders,
            r.sel_group is None,
            r.query@.len() == 0,
    {
        Browse { mode: Mode::Folders, sel_group: None, query: String::new() }
    }

    /// Switches the mode; a change drops the chosen group. Returns whether the
    /// mode changed (the sidebar and list are rebuilt then).
    pub fn set_mode(&mut self, m: Mode) -> (r: bool)
        ensures
            r == (old(self).mode != m),
            r ==> final(self).mode == m && final(self).sel_group is None && final(self).query == old(self).query,
            !r ==> *final(self) == *old(self),
    {
        if self.mode != m {
            self.mode = m;
            self.sel_group = None;
            true
        } else {
            false
        }
    }

    /// Chooses a sidebar group.
    pub fn select_group(&mut self, key: String)
        ensures
            *final(self) == (Browse { sel_group: Some(key), ..*old(self) }),
    {
        self.sel_group = Some(key);
    }

    /// Sets the search text.
    pub fn search(&mut self, q: String)
        ensures
            *final(self) == (Browse { query: q, ..*old(self) }),
    {
        self.query = q;
    }

    /// A new folder was scanned: back to the mode's full list.
    pub fn reset_group(&mut self)
        ensures
            *final(self) == (Browse { sel_group: None, ..*old(self) }),
    {
        self.sel_group = None;
    }

    /// Restores the saved page when resuming it is on (`resume`): the mode
    /// saved under `mode_key` and the saved group; else only the group clears.
    pub fn restore_page(&mut self, resume: bool, mode_key: &str, sel_group: Option<String>)
        ensures
            resume ==> *final(self) == (Browse { mode: mode_from_key_spec(mode_key@), sel_group, ..*old(self) }),
            !resume ==> *final(self) == (Browse { sel_group: None, ..*old(self) }),
    {
        if resume {
            self.mode = mode_from_key(mode_key);
            self.sel_group = sel_group;
        } else {
            self.sel_group = None;
        }
    }

    /// The tracks of `all` that the page shows.
    pub fn shown(&self, all: &[Track]) -> (r: Vec<Track>)
        ensures
            r@ == view_spec(
                all@,
                self.mode,
                match self.sel_group {
                    Some(g) => Some(g@),
                    None => None,
                },
                self.query@,
            ),
    {
        let sel = match &self.sel_group {
            Some(g) => Some(g.as_str()),
            None => None,
        };
        filter_view(all, self.mode, sel, self.query.as_str())
    }
}

} // verus!

verus! {

/// A saved mode reads back as itself.
pub proof fn law_mode_key_round_trip(m: Mode)
    ensures
        mode_from_key_spec(mode_key_spec(m)) == m,
{
    reveal_strlit("folders");
    reveal_strlit("albums");
    reveal_strlit("artists");
    reveal_strlit("songs");
    assert("folders"@[0] != "albums"@[0] && "folders"@ != "albums"@);
    assert("folders"@[0] != "artists"@[0] && "folders"@ != "artists"@);
    assert("folders"@[0] != "songs"@[0] && "folders"@ != "songs"@);
    assert("albums"@[1] != "artists"@[1] && "albums"@ != "artists"@);
    assert("albums"@[0] != "songs"@[0] && "albums"@ != "songs"@);
    assert("artists"@[0] != "songs"@[0] && "artists"@ != "songs"@);
}

proof fn lemma_select(s: Seq<Track>, f: spec_fn(Track) -> bool)
    ensures
        forall|k: int| 0 <= k < select(s, f).len() ==> f(#[trigger] select(s, f)[k]) && s.contains(select(s, f)[k]),
        forall|k: int| 0 <= k < s.len() && f(#[trigger] s[k]) ==> select(s, f).contains(s[k]),
    decreases s.len(),
{
    if s.len() > 0 {
        let p = s.drop_last();
        lemma_select(p, f);
        let sp = select(p, f);
        assert forall|k: int| 0 <= k < select(s, f).len() implies f(#[trigger] select(s, f)[k]) && s.contains(select(s, f)[k]) by {
            if k < sp.len() {
                assert(select(s, f)[k] == sp[k]);
                let w = choose|w: int| 0 <= w < p.len() && p[w] == sp[k];
                assert(s[w] == p[w]);
            } else {
                assert(s[s.len() - 1] == s.last());
            }
        }
        assert forall|k: int| 0 <= k < s.len() && f(#[trigger] s[k]) implies select(s, f).contains(s[k]) by {
            if k < s.len() - 1 {
                assert(p[k] == s[k]);
                let w = choose|w: int| 0 <= w < sp.len() && sp[w] == p[k];
                assert(select(s, f)[w] == sp[w]);
            } else {
                assert(select(s, f)[select(s, f).len() - 1] == s.last());
            }
        }
    }
}

/// Search shows exactly the tracks whose title, artist or album contains the
/// query, ignoring case: every shown track matches, and no matching track
/// is left out.
pub proof fn law_search_shows_matches(all: Seq<Track>, m: Mode, sel: Option<Seq<char>>, q: Seq<char>)
    requires
        q.len() > 0,
    ensures
        forall|k: int| 0 <= k < view_spec(all, m, sel, q).len()
            ==> matches_query(#[trigger] view_spec(all, m, sel, q)[k], lowercase(q)),
        forall|k: int| 0 <= k < all.len() && matches_query(#[trigger] all[k], lowercase(q))
            ==> view_spec(all, m, sel, q).contains(all[k]),
{
    let f = |t: Track| matches_query(t, lowercase(q));
    lemma_select(all, f);
    assert forall|k: int| 0 <= k < view_spec(all, m, sel, q).len()
        implies matches_query(#[trigger] view_spec(all, m, sel, q)[k], lowercase(q)) by {
        assert(f(select(all, f)[k]));
    }
    assert forall|k: int| 0 <= k < all.len() && matches_query(#[trigger] all[k], lowercase(q))
        implies view_spec(all, m, sel, q).contains(all[k]) by {
        assert(f(all[k]));
    }
}

/// Choosing a sidebar group (with no search) shows exactly that group's
/// tracks.
pub proof fn law_group_shows_its_tracks(all: Seq<Track>, m: Mode, key: Seq<char>)
    requires
        m != Mode::Songs,
    ensures
        forall|k: int| 0 <= k < view_spec(all, m, Some(key), Seq::empty()).len()
            ==> track_key_spec(#[trigger] view_spec(all, m, Some(key), Seq::empty())[k], m) == key,
        forall|k: int| 0 <= k < all.len() && track_key_spec(#[trigger] all[k], m) == key
            ==> view_spec(all, m, Some(key), Seq::empty()).contains(all[k]),
{
    let f = |t: Track| track_key_spec(t, m) == key;
    lemma_select(all, f);
    assert forall|k: int| 0 <= k < view_spec(all, m, Some(key), Seq::empty()).len()
        implies track_key_spec(#[trigger] view_spec(all, m, Some(key), Seq::empty())[k], m) == key by {
        assert(f(select(all, f)[k]));
    }
    assert forall|k: int| 0 <= k < all.len() && track_key_spec(#[trigger] all[k], m) == key
        implies view_spec(all, m, Some(key), Seq::empty()).contains(all[k]) by {
        assert(f(all[k]));
    }
}

} // verus!

verus! {

/// The style classes of a browsing-mode tab.
pub fn tab_classes(active: bool) -> (r: Vec<&'static str>)
    ensures
        r@.map_values(|s: &str| s@) == (if active {
            seq!["flat"@, "tab"@, "active"@]
        } else {
            seq!["flat"@, "tab"@]
        }),
{
    let r = if active {
        vec!["flat", "tab", "active"]
    } else {
        vec!["flat", "tab"]
    };
    assert(r@.map_values(|s: &str| s@) =~= (if active {
        seq!["flat"@, "tab"@, "active"@]
    } else {
        seq!["flat"@, "tab"@]
    }));
    r
}

/// The style classes of a transport toggle (shuffle, repeat).
pub fn ctl_classes(active: bool) -> (r: Vec<&'static str>)
    ensures
        r@.map_values(|s: &str| s@) == (if active {
            seq!["flat"@, "ctl"@, "active"@]
        } else {
            seq!["flat"@, "ctl"@]
        }),
{
    let r = if active {
        vec!["flat", "ctl", "active"]
    } else {
        vec!["flat", "ctl"]
    };
    assert(r@.map_values(|s: &str| s@) =~= (if active {
        seq!["flat"@, "ctl"@, "active"@]
    } else {
        seq!["flat"@, "ctl"@]
    }));
    r
}

/// The style classes of a segment of the music/radio switch.
pub fn seg_classes(active: bool) -> (r: Vec<&'static str>)
    ensures
        r@.map_values(|s: &str| s@) == (if active {
            seq!["suggested-action"@]
        } else {
            seq!["flat"@]
        }),
{
    let r = if active {
        vec!["suggested-action"]
    } else {
        vec!["flat"]
    };
    assert(r@.map_values(|s: &str| s@) =~= (if active {
        seq!["suggested-action"@]
    } else {
        seq!["flat"@]
    }));
    r
}

/// The icon of a folder in the sidebar: open for the chosen one.
pub fn folder_icon(sel_group: Option<&str>, key: &str) -> (r: &'static str)
    ensures
        r@ == (if sel_group is Some && sel_group->0@ == key@ {
            "meusic-folder-open"@
        } else {
            "meusic-folder"@
        }),
{
    match sel_group {
        Some(g) => {
            let a = chars_of(g);
            let b = chars_of(key);
            if eq_chars(a.as_slice(), b.as_slice()) {
                "meusic-folder-open"
            } else {
                "meusic-folder"
            }
        },
        None => "meusic-folder",
    }
}

} // verus!

verus! {

proof fn lemma_select_count(s: Seq<Track>, m: Mode, k: GroupKind, key: Seq<char>)
    requires
        forall|t: Track| track_key_spec(t, m) == group_key_of(t, k),
    ensures
        select(s, |t: Track| track_key_spec(t, m) == key).len() == count_key(s, k, key),
    decreases s.len(),
{
    if s.len() > 0 {
        lemma_select_count(s.drop_last(), m, k, key);
        assert(track_key_spec(s.last(), m) == group_key_of(s.last(), k));
    }
}

/// The song list filters a sidebar group by the same key the sidebar
/// grouped it by: choosing a group (with no search) shows exactly the tracks
/// counted under it, as many as its count, each with that group key.
pub proof fn law_group_view_matches_sidebar(all: Seq<Track>, m: Mode, key: Seq<char>)
    requires
        m != Mode::Songs,
    ensures
        forall|t: Track| #[trigger] track_key_spec(t, m) == group_key_of(t, kind_of(m)->0),
        view_spec(all, m, Some(key), Seq::empty()).len() == count_key(all, kind_of(m)->0, key),
        forall|i: int| 0 <= i < view_spec(all, m, Some(key), Seq::empty()).len()
            ==> group_key_of(#[trigger] view_spec(all, m, Some(key), Seq::empty())[i], kind_of(m)->0) == key,
        forall|i: int| 0 <= i < all.len() && group_key_of(#[trigger] all[i], kind_of(m)->0) == key
            ==> view_spec(all, m, Some(key), Seq::empty()).contains(all[i]),
{
    let k = kind_of(m)->0;
    assert forall|t: Track| #[trigger] track_key_spec(t, m) == group_key_of(t, k) by {}
    lemma_select_count(all, m, k, key);
    law_group_shows_its_tracks(all, m, key);
    assert forall|i: int| 0 <= i < view_spec(all, m, Some(key), Seq::empty()).len()
        implies group_key_of(#[trigger] view_spec(all, m, Some(key), Seq::empty())[i], k) == key by {
        assert(track_key_spec(view_spec(all, m, Some(key), Seq::empty())[i], m) == key);
    }
    assert forall|i: int| 0 <= i < all.len() && group_key_of(#[trigger] all[i], k) == key
        implies view_spec(all, m, Some(key), Seq::empty()).contains(all[i]) by {
        assert(track_key_spec(all[i], m) == key);
    }
}

/// Search looks at a track's title, artist and album, ignoring case: a
/// track matches a search text exactly when one of them, lower-cased,
/// contains the lower-cased text.
pub proof fn law_search_fields(t: Track, query: Seq<char>)
    ensures
        matches_query(t, lowercase(query)) <==> (has_sub(lowercase(t.title@), lowercase(query))
            || has_sub(lowercase(t.artist@), lowercase(query)) || has_sub(lowercase(t.album@), lowercase(query))),
{
}

} // verus!
