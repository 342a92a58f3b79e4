//! The music library: tracks read from tags, their order, sidebar groups,
//! search and duration formatting.
use vstd::prelude::*;
use crate::order::{chars_lt, key_less, key_lt, lemma_chars_lt_irreflexive, lemma_key_lt_order, sort_stable, sorted_by, stably_sorted, Key4, SortKey};
use crate::paths::{
    dir_name, dir_name_spec, extension, extension_spec, file_stem, file_stem_spec, parent_dir,
    parent_dir_spec,
};
use crate::text::{
    chars_of, decimal, eq_chars, eq_str, hex, push_digits, push_padded, push_str, string_of, zero_pad, lowercase, to_lower, to_upper, trim, trim_range, uppercase};

verus! {

/// Metadata for a single audio track.
#[derive(Debug)]
pub struct Track {
    pub path: String,
    pub title: String,
    pub artist: String,
    pub album: String,
    pub album_artist: String,
    pub track_no: u32,
    /// Seconds.
    pub duration: u64,
    /// e.g. `FLAC`, `MP3`.
    pub format: String,
    /// kbps, `0` if unknown.
    pub bitrate: u32,
    /// The tag holds a picture.
    pub has_cover: bool,
}

impl Clone for Track {
    fn clone(&self) -> (r: Self)
        ensures
            r == *self,
    {
        Track {
            path: self.path.clone(),
            title: self.title.clone(),
            artist: self.artist.clone(),
            album: self.album.clone(),
            album_artist: self.album_artist.clone(),
            track_no: self.track_no,
            duration: self.duration,
            format: self.format.clone(),
            bitrate: self.bitrate,
            has_cover: self.has_cover,
        }
    }
}


/// The tag fields of a file's primary (or first) tag.
pub struct TagFields {
    pub title: Option<String>,
    pub artist: Option<String>,
    pub album: Option<String>,
    pub album_artist: Option<String>,
    pub track: Option<u32>,
    /// The tag holds at least one picture.
    pub has_picture: bool,
}

/// What reading a file's tags gave.
pub struct TagInfo {
    /// Whole seconds.
    pub duration: u64,
    pub audio_bitrate: Option<u32>,
    pub overall_bitrate: Option<u32>,
    pub tag: Option<TagFields>,
}

/// `v` when it holds more than white space, else `d`.
pub open spec fn nonblank_or(v: Option<Seq<char>>, d: Seq<char>) -> Seq<char> {
    match v {
        Some(t) => if trim(t).len() > 0 {
            t
        } else {
            d
        },
        None => d,
    }
}

pub open spec fn opt_chars(v: Option<String>) -> Option<Seq<char>> {
    match v {
        Some(s) => Some(s@),
        None => None,
    }
}

fn is_blank(s: &str) -> (r: bool)
    ensures
        r == (trim(s@).len() == 0),
{
    let c = chars_of(s);
    assert(c@.subrange(0, c.len() as int) =~= c@);
    trim_range(c.as_slice(), 0, c.len()).len() == 0
}

fn nonblank_or_exec(v: Option<String>, d: String) -> (r: String)
    ensures
        r@ == nonblank_or(opt_chars(v), d@),
{
    match v {
        Some(t) => if !is_blank(t.as_str()) {
            t
        } else {
            d
        },
        None => d,
    }
}

/// The track a file gives: tag values where present and not blank, else the
/// file name for the title and `Unknown Artist` / `Unknown Album`; the album
/// artist falls back to the artist; the format is the upper-cased extension;
/// the cover flag says whether the tag holds a picture.
pub open spec fn track_from_tags_spec(path: Seq<char>, info: Option<TagInfo>, t: Track) -> bool {
    let stem = match file_stem_spec(path) {
        Some(s) => s,
        None => "Unknown"@,
    };
    let tag = match info {
        Some(i) => i.tag,
        None => None,
    };
    let artist = match tag {
        Some(f) => nonblank_or(opt_chars(f.artist), "Unknown Artist"@),
        None => "Unknown Artist"@,
    };
    let aa = match tag {
        Some(f) => match f.album_artist {
            Some(a) => a@,
            None => Seq::empty(),
        },
        None => Seq::empty(),
    };
    &&& t.path@ == path
    &&& t.title@ == match tag {
        Some(f) => nonblank_or(opt_chars(f.title), stem),
        None => stem,
    }
    &&& t.artist@ == artist
    &&& t.album@ == match tag {
        Some(f) => nonblank_or(opt_chars(f.album), "Unknown Album"@),
        None => "Unknown Album"@,
    }
    &&& t.album_artist@ == (if trim(aa).len() == 0 {
        artist
    } else {
        aa
    })
    &&& t.track_no == match tag {
        Some(f) => match f.track {
            Some(n) => n,
            None => 0,
        },
        None => 0,
    }
    &&& t.duration == match info {
        Some(i) => i.duration,
        None => 0,
    }
    &&& t.has_cover == match tag {
        Some(f) => f.has_picture,
        None => false,
    }
    &&& t.bitrate == match info {
        Some(i) => match i.audio_bitrate {
            Some(b) => b,
            None => match i.overall_bitrate {
                Some(b) => b,
                None => 0,
            },
        },
        None => 0,
    }
    &&& t.format@ == match extension_spec(path) {
        Some(e) => uppercase(e),
        None => Seq::empty(),
    }
}

/// Builds a track from a file path and what its tags gave (`None` when the
/// file could not be read), so a broken file still yields a track.
pub fn track_from_tags(path: &str, info: Option<TagInfo>) -> (r: Track)
    ensures
        track_from_tags_spec(path@, info, r),
{
    let ghost info0 = info;
    let stem = match file_stem(path) {
        Some(s) => s,
        None => "Unknown".to_owned(),
    };
    let format = match extension(path) {
        Some(e) => to_upper(e.as_str()),
        None => String::new(),
    };
    let mut title = stem;
    let mut artist = "Unknown Artist".to_owned();
    let mut album = "Unknown Album".to_owned();
    let mut album_artist = String::new();
    let mut track_no: u32 = 0;
    let mut duration: u64 = 0;
    let mut bitrate: u32 = 0;
    let mut has_cover = false;
    match info {
        Some(i) => {
            duration = i.duration;
            bitrate = match i.audio_bitrate {
                Some(b) => b,
                None => match i.overall_bitrate {
                    Some(b) => b,
                    None => 0,
                },
            };
            match i.tag {
                Some(f) => {
                    title = nonblank_or_exec(f.title, title);
                    artist = nonblank_or_exec(f.artist, artist);
                    album = nonblank_or_exec(f.album, album);
                    if let Some(a) = f.album_artist {
                        album_artist = a;
                    }
                    if let Some(n) = f.track {
                        track_no = n;
                    }
                    has_cover = f.has_picture;
                },
                None => {},
            }
        },
        None => {},
    }
    if is_blank(album_artist.as_str()) {
        album_artist = artist.clone();
    }
    Track {
        path: path.to_owned(),
        title,
        artist,
        album,
        album_artist,
        track_no,
        duration,
        format,
        bitrate,
        has_cover,
    }
}

} // verus!

verus! {

/// The order of a library: album artist, album, track number, title, the
/// strings compared case-insensitively.
pub open spec fn track_order_key(t: Track) -> Key4 {
    (lowercase(t.album_artist@), lowercase(t.album@), t.track_no, lowercase(t.title@))
}

/// `track_order_key` as a function value.
pub open spec fn track_order() -> spec_fn(Track) -> Key4 {
    |t: Track| track_order_key(t)
}

fn lower_chars(s: &String) -> (r: Vec<char>)
    ensures
        r@ == lowercase(s@),
{
    let l = to_lower(s.as_str());
    chars_of(l.as_str())
}

/// Sorts tracks by album artist → album → track number → title, the strings
/// compared case-insensitively, keeping the scan order among equals.
pub fn sort_tracks(tracks: Vec<Track>) -> (r: Vec<Track>)
    ensures
        stably_sorted(tracks@, r@, track_order()),
        forall|i: int, j: int| 0 <= i < j < r.len() ==> !track_before(#[trigger] r@[j], #[trigger] r@[i]),
{
    let mut keys: Vec<SortKey> = Vec::new();
    let mut i: usize = 0;
    while i < tracks.len()
        invariant
            i <= tracks.len(),
            keys.len() == i,
            forall|j: int| 0 <= j < i ==> #[trigger] keys@[j].view() == (track_order())(tracks@[j]),
        decreases tracks.len() - i,
    {
        let t = &tracks[i];
        let k = SortKey {
            a: lower_chars(&t.album_artist),
            b: lower_chars(&t.album),
            n: t.track_no,
            c: lower_chars(&t.title),
        };
        keys.push(k);
        i += 1;
    }
    let ghost orig = tracks@;
    let r = sort_stable(tracks, keys, Ghost(track_order()));
    proof {
        law_library_order(orig, r@);
    }
    r
}

} // verus!

verus! {

/// A sidebar grouping entry (a folder, album, or artist) and its track count.
#[derive(Debug)]
pub struct Group {
    pub label: String,
    pub key: String,
    pub count: usize,
}

/// What tracks are grouped by.
#[derive(PartialEq, Eq, Structural, Clone, Copy, Debug)]
pub enum GroupKind {
    /// The folder a track sits in (labelled by the folder's name).
    Folder,
    Album,
    /// The album artist.
    Artist,
}

/// The key a track is grouped under.
pub open spec fn group_key_of(t: Track, kind: GroupKind) -> Seq<char> {
    match kind {
        GroupKind::Folder => parent_dir_spec(t.path@),
        GroupKind::Album => t.album@,
        GroupKind::Artist => t.album_artist@,
    }
}

/// The label of a track's group.
pub open spec fn group_label_of(t: Track, kind: GroupKind) -> Seq<char> {
    match kind {
        GroupKind::Folder => dir_name_spec(parent_dir_spec(t.path@)),
        GroupKind::Album => t.album@,
        GroupKind::Artist => t.album_artist@,
    }
}

/// How many of `s` are grouped under `k`.
pub open spec fn count_key(s: Seq<Track>, kind: GroupKind, k: Seq<char>) -> nat
    decreases s.len(),
{
    if s.len() == 0 {
        0
    } else {
        count_key(s.drop_last(), kind, k) + if group_key_of(s.last(), kind) == k {
            1nat
        } else {
            0nat
        }
    }
}

/// The label of the first of `s` grouped under `k`.
pub open spec fn first_label(s: Seq<Track>, kind: GroupKind, k: Seq<char>) -> Seq<char>
    decreases s.len(),
{
    if s.len() == 0 {
        Seq::empty()
    } else if count_key(s.drop_last(), kind, k) > 0 {
        first_label(s.drop_last(), kind, k)
    } else {
        group_label_of(s.last(), kind)
    }
}

/// The order of the sidebar: labels compared case-insensitively.
pub open spec fn group_order_key(g: Group) -> Key4 {
    (lowercase(g.label@), Seq::empty(), 0, Seq::empty())
}

/// `group_order_key` as a function value.
pub open spec fn group_order() -> spec_fn(Group) -> Key4 {
    |g: Group| group_order_key(g)
}

/// `r` are the groups of `tracks`: one per key, with the number of tracks
/// under it and the label of the first of them, ordered by label.
pub open spec fn groups_of(tracks: Seq<Track>, kind: GroupKind, r: Seq<Group>) -> bool {
    &&& sorted_by(r, group_order())
    &&& forall|i: int|
        0 <= i < r.len() ==> {
            &&& (#[trigger] r[i]).count == count_key(tracks, kind, r[i].key@)
            &&& r[i].count > 0
            &&& r[i].label@ == first_label(tracks, kind, r[i].key@)
        }
    &&& forall|i: int, j: int| 0 <= i < j < r.len() ==> r[i].key@ != r[j].key@
    &&& forall|p: int|
        0 <= p < tracks.len() ==> exists|i: int|
            0 <= i < r.len() && r[i].key@ == group_key_of(#[trigger] tracks[p], kind)
}

proof fn lemma_count_key_bound(s: Seq<Track>, kind: GroupKind, k: Seq<char>)
    ensures
        count_key(s, kind, k) <= s.len(),
    decreases s.len(),
{
    if s.len() > 0 {
        lemma_count_key_bound(s.drop_last(), kind, k);
    }
}

fn key_label(t: &Track, kind: GroupKind) -> (r: (String, String))
    ensures
        r.0@ == group_key_of(*t, kind),
        r.1@ == group_label_of(*t, kind),
{
    match kind {
        GroupKind::Folder => {
            let dir = parent_dir(t.path.as_str());
            let name = dir_name(dir.as_str());
            (dir, name)
        },
        GroupKind::Album => (t.album.clone(), t.album.clone()),
        GroupKind::Artist => (t.album_artist.clone(), t.album_artist.clone()),
    }
}

fn key_is(g: &Group, k: &[char]) -> (r: bool)
    ensures
        r == (g.key@ == k@),
{
    let c = chars_of(g.key.as_str());
    eq_chars(c.as_slice(), k)
}

/// The groups built so far, with each group's sort key alongside.
pub open spec fn groups_wf(tracks: Seq<Track>, kind: GroupKind, out: Seq<Group>, okeys: Seq<SortKey>) -> bool {
    &&& okeys.len() == out.len()
    &&& forall|a: int| 0 <= a < out.len() ==> #[trigger] okeys[a].view() == group_order_key(out[a])
    &&& groups_of(tracks, kind, out)
}

/// One more track under the existing group `found`.
#[verifier::rlimit(40)]
fn bump_group(
    out: &mut Vec<Group>,
    okeys: &Vec<SortKey>,
    found: usize,
    Ghost(pre): Ghost<Seq<Track>>,
    Ghost(x): Ghost<Track>,
    kind: GroupKind,
)
    requires
        groups_wf(pre, kind, old(out)@, okeys@),
        found < old(out).len(),
        pre.len() < usize::MAX,
        old(out)@[found as int].key@ == group_key_of(x, kind),
    ensures
        groups_wf(pre.push(x), kind, final(out)@, okeys@),
{
    let ghost post = pre.push(x);
    let ghost k = group_key_of(x, kind);
    assert(post.drop_last() =~= pre);
    let ghost old_out = out@;
    proof {
        lemma_count_key_bound(pre, kind, k);
    }
    let mut g = out.remove(found);
    assert(g.count <= pre.len());
    g.count = g.count + 1;
    out.insert(found, g);
    proof {
        assert forall|a: int| 0 <= a < out.len() implies #[trigger] okeys@[a].view() == group_order_key(out@[a]) by {
            if a != found {
                assert(out@[a] == old_out[a]);
            }
        }
        assert forall|a: int, b: int| 0 <= a < b < out@.len() implies !key_lt(group_order_key(out@[b]), group_order_key(out@[a])) by {
            assert(group_order_key(out@[a]) == group_order_key(old_out[a]));
            assert(group_order_key(out@[b]) == group_order_key(old_out[b]));
        }
        assert forall|a: int| 0 <= a < out@.len() implies {
            &&& (#[trigger] out@[a]).count == count_key(post, kind, out@[a].key@)
            &&& out@[a].count > 0
            &&& out@[a].label@ == first_label(post, kind, out@[a].key@)
        } by {
            if a != found {
                assert(out@[a] == old_out[a]);
            }
        }
        assert forall|a: int, b: int| 0 <= a < b < out@.len() implies out@[a].key@ != out@[b].key@ by {
            assert(out@[a].key@ == old_out[a].key@);
            assert(out@[b].key@ == old_out[b].key@);
        }
        assert forall|p: int| 0 <= p < post.len() implies exists|a: int|
            0 <= a < out@.len() && out@[a].key@ == group_key_of(#[trigger] post[p], kind) by {
            if p < pre.len() {
                assert(post[p] == pre[p]);
                let a = choose|a: int| 0 <= a < old_out.len() && old_out[a].key@ == group_key_of(pre[p], kind);
                assert(out@[a].key@ == old_out[a].key@);
            } else {
                assert(out@[found as int].key@ == k);
            }
        }
    }
}

/// A new group for a track whose key no group has yet, placed after every
/// group that sorts before or with it.
#[verifier::rlimit(40)]
fn add_group(
    out: &mut Vec<Group>,
    okeys: &mut Vec<SortKey>,
    key: String,
    label: String,
    Ghost(pre): Ghost<Seq<Track>>,
    Ghost(x): Ghost<Track>,
    kind: GroupKind,
)
    requires
        groups_wf(pre, kind, old(out)@, old(okeys)@),
        key@ == group_key_of(x, kind),
        label@ == group_label_of(x, kind),
        forall|a: int| 0 <= a < old(out).len() ==> old(out)@[a].key@ != key@,
    ensures
        groups_wf(pre.push(x), kind, final(out)@, final(okeys)@),
{
    let ghost post = pre.push(x);
    let ghost k = key@;
    assert(post.drop_last() =~= pre);
    assert(post.last() == x);
    let ghost old_out = out@;
    let ghost old_keys = okeys@;
    let lk = SortKey { a: lower_chars(&label), b: Vec::new(), n: 0, c: Vec::new() };
    let mut p = out.len();
    while p > 0 && key_less(&lk, &okeys[p - 1])
        invariant
            p <= out.len() == okeys.len(),
            out@ == old_out,
            okeys@ == old_keys,
            forall|a: int| 0 <= a < out.len() ==> #[trigger] okeys@[a].view() == group_order_key(out@[a]),
            forall|a: int| p <= a < out.len() ==> key_lt(lk.view(), group_order_key(out@[a])),
        decreases p,
    {
        p -= 1;
    }
    let g = Group { label, key, count: 1 };
    assert(group_order_key(g) == lk.view());
    out.insert(p, g);
    okeys.insert(p, lk);
    proof {
        assert(count_key(pre, kind, k) == 0) by {
            assert forall|q: int| 0 <= q < pre.len() implies group_key_of(#[trigger] pre[q], kind) != k by {
                let a = choose|a: int| 0 <= a < old_out.len() && old_out[a].key@ == group_key_of(pre[q], kind);
            }
            lemma_count_zero(pre, kind, k);
        }
        assert forall|a: int| 0 <= a < out.len() implies #[trigger] okeys@[a].view() == group_order_key(out@[a]) by {
            if a > p {
                assert(okeys@[a] == old_keys[a - 1]);
                assert(out@[a] == old_out[a - 1]);
            } else if a < p {
                assert(okeys@[a] == old_keys[a]);
                assert(out@[a] == old_out[a]);
            }
        }
        assert forall|a: int, b: int| 0 <= a < b < out@.len() implies !key_lt(group_order_key(out@[b]), group_order_key(out@[a])) by {
            let ka = group_order_key(out@[a]);
            let kb = group_order_key(out@[b]);
            if b < p {
                assert(out@[a] == old_out[a] && out@[b] == old_out[b]);
            } else if a == p {
                assert(out@[b] == old_out[b - 1]);
                lemma_key_lt_order(lk.view(), kb, lk.view());
            } else if a > p {
                assert(out@[a] == old_out[a - 1] && out@[b] == old_out[b - 1]);
            } else if b == p {
                if p > 0 {
                    assert(!key_lt(lk.view(), old_keys[p - 1].view()));
                    assert(out@[a] == old_out[a]);
                    assert(old_keys[p - 1].view() == group_order_key(old_out[p - 1]));
                    lemma_key_lt_order(lk.view(), ka, group_order_key(old_out[p - 1]));
                    lemma_key_lt_order(ka, group_order_key(old_out[p - 1]), lk.view());
                }
            } else {
                assert(out@[a] == old_out[a] && out@[b] == old_out[b - 1]);
            }
        }
        assert forall|a: int| 0 <= a < out@.len() implies {
            &&& (#[trigger] out@[a]).count == count_key(post, kind, out@[a].key@)
            &&& out@[a].count > 0
            &&& out@[a].label@ == first_label(post, kind, out@[a].key@)
        } by {
            if a < p {
                assert(out@[a] == old_out[a]);
            } else if a > p {
                assert(out@[a] == old_out[a - 1]);
            }
        }
        assert forall|a: int, b: int| 0 <= a < b < out@.len() implies out@[a].key@ != out@[b].key@ by {
            if a == p {
                assert(out@[b] == old_out[b - 1]);
            } else if b == p {
                assert(out@[a] == old_out[a]);
            } else if a < p && b < p {
                assert(out@[a] == old_out[a] && out@[b] == old_out[b]);
            } else if a < p {
                assert(out@[a] == old_out[a] && out@[b] == old_out[b - 1]);
            } else {
                assert(out@[a] == old_out[a - 1] && out@[b] == old_out[b - 1]);
            }
        }
        assert forall|q: int| 0 <= q < post.len() implies exists|a: int|
            0 <= a < out@.len() && out@[a].key@ == group_key_of(#[trigger] post[q], kind) by {
            if q < pre.len() {
                assert(post[q] == pre[q]);
                let a = choose|a: int| 0 <= a < old_out.len() && old_out[a].key@ == group_key_of(pre[q], kind);
                if a < p {
                    assert(out@[a] == old_out[a]);
                } else {
                    assert(out@[a + 1] == old_out[a]);
                }
            } else {
                assert(out@[p as int].key@ == k);
            }
        }
    }
}

/// Groups tracks by the key of `kind`, counting them, ordered by label
/// (case-insensitively).
pub fn group_by(tracks: &[Track], kind: GroupKind) -> (r: Vec<Group>)
    ensures
        groups_of(tracks@, kind, r@),
        forall|i: int, j: int| 0 <= i < j < r.len() ==> !chars_lt(lowercase((#[trigger] r@[j]).label@), lowercase((#[trigger] r@[i]).label@)),
{
    let mut out: Vec<Group> = Vec::new();
    let mut okeys: Vec<SortKey> = Vec::new();
    let mut i: usize = 0;
    assert(tracks@.take(0) =~= Seq::<Track>::empty());
    while i < tracks.len()
        invariant
            i <= tracks.len(),
            groups_wf(tracks@.take(i as int), kind, out@, okeys@),
        decreases tracks.len() - i,
    {
        assert(tracks@.take(i + 1) =~= tracks@.take(i as int).push(tracks@[i as int]));
        let (k, label) = key_label(&tracks[i], kind);
        let kc = chars_of(k.as_str());
        let mut found: usize = 0;
        while found < out.len() && !key_is(&out[found], kc.as_slice())
            invariant
                found <= out.len(),
                kc@ == k@,
                forall|a: int| 0 <= a < found ==> out@[a].key@ != k@,
            decreases out.len() - found,
        {
            found += 1;
        }
        if found < out.len() {
            bump_group(&mut out, &okeys, found, Ghost(tracks@.take(i as int)), Ghost(tracks@[i as int]), kind);
        } else {
            add_group(&mut out, &mut okeys, k, label, Ghost(tracks@.take(i as int)), Ghost(tracks@[i as int]), kind);
        }
        i += 1;
    }
    assert(tracks@.take(tracks.len() as int) =~= tracks@);
    proof {
        law_groups_by_label(tracks@, kind, out@);
    }
    out
}

/// No track of `s` is grouped under `k`.
proof fn lemma_count_zero(s: Seq<Track>, kind: GroupKind, k: Seq<char>)
    requires
        forall|p: int| 0 <= p < s.len() ==> group_key_of(#[trigger] s[p], kind) != k,
    ensures
        count_key(s, kind, k) == 0,
    decreases s.len(),
{
    if s.len() > 0 {
        assert forall|p: int| 0 <= p < s.drop_last().len() implies group_key_of(
            #[trigger] s.drop_last()[p],
            kind,
        ) != k by {
            assert(s.drop_last()[p] == s[p]);
        }
        lemma_count_zero(s.drop_last(), kind, k);
        assert(s.last() == s[s.len() - 1]);
    }
}

/// Folders that directly contain audio (label = folder name, key = full path).
pub fn folder_groups(tracks: &[Track]) -> (r: Vec<Group>)
    ensures
        groups_of(tracks@, GroupKind::Folder, r@),
{
    group_by(tracks, GroupKind::Folder)
}

/// Albums (label = key = album title).
pub fn album_groups(tracks: &[Track]) -> (r: Vec<Group>)
    ensures
        groups_of(tracks@, GroupKind::Album, r@),
{
    group_by(tracks, GroupKind::Album)
}

/// Album artists (label = key = album artist).
pub fn artist_groups(tracks: &[Track]) -> (r: Vec<Group>)
    ensures
        groups_of(tracks@, GroupKind::Artist, r@),
{
    group_by(tracks, GroupKind::Artist)
}

} // verus!

verus! {

/// Human total duration in Indonesian, e.g. `7 jam 23 menit`, `23 menit`,
/// or `45 detik` under a minute.
pub open spec fn fmt_total_spec(secs: u64) -> Seq<char> {
    let h = secs / 3600;
    let m = (secs % 3600) / 60;
    if h > 0 {
        decimal(h as nat) + " jam "@ + decimal(m as nat) + " menit"@
    } else if m > 0 {
        decimal(m as nat) + " menit"@
    } else {
        decimal(secs as nat) + " detik"@
    }
}

/// Human total duration, e.g. "7 jam 23 menit" or "23 menit".
pub fn fmt_total(secs: u64) -> (r: String)
    ensures
        r@ == fmt_total_spec(secs),
{
    let h = secs / 3600;
    let m = (secs % 3600) / 60;
    let mut v: Vec<char> = Vec::new();
    if h > 0 {
        push_digits(&mut v, h as u128, 10);
        push_str(&mut v, " jam ");
        push_digits(&mut v, m as u128, 10);
        push_str(&mut v, " menit");
    } else if m > 0 {
        push_digits(&mut v, m as u128, 10);
        push_str(&mut v, " menit");
    } else {
        push_digits(&mut v, secs as u128, 10);
        push_str(&mut v, " detik");
    }
    string_of(v.as_slice())
}

/// A duration as `m:ss`, or `h:mm:ss` from an hour up.
pub open spec fn fmt_time_spec(secs: u64) -> Seq<char> {
    let h = secs / 3600;
    let m = (secs % 3600) / 60;
    let s = secs % 60;
    if h > 0 {
        decimal(h as nat) + ":"@ + zero_pad(decimal(m as nat), 2) + ":"@ + zero_pad(
            decimal(s as nat),
            2,
        )
    } else {
        decimal(m as nat) + ":"@ + zero_pad(decimal(s as nat), 2)
    }
}

/// Format a duration in seconds as `m:ss` (or `h:mm:ss`).
pub fn fmt_time(secs: u64) -> (r: String)
    ensures
        r@ == fmt_time_spec(secs),
{
    let h = secs / 3600;
    let m = (secs % 3600) / 60;
    let s = secs % 60;
    let mut v: Vec<char> = Vec::new();
    if h > 0 {
        push_digits(&mut v, h as u128, 10);
        push_str(&mut v, ":");
        push_padded(&mut v, m as u128, 10, 2);
        push_str(&mut v, ":");
        push_padded(&mut v, s as u128, 10, 2);
    } else {
        push_digits(&mut v, m as u128, 10);
        push_str(&mut v, ":");
        push_padded(&mut v, s as u128, 10, 2);
    }
    string_of(v.as_slice())
}

/// A lower-cased extension that names an audio format the library scans.
pub open spec fn is_audio_ext(e: Seq<char>) -> bool {
    ||| e == "mp3"@
    ||| e == "flac"@
    ||| e == "wav"@
    ||| e == "ogg"@
    ||| e == "m4a"@
    ||| e == "aac"@
    ||| e == "opus"@
    ||| e == "wma"@
    ||| e == "aiff"@
    ||| e == "aif"@
    ||| e == "alac"@
}

/// A file the scan takes for audio: its extension, lower-cased, names an
/// audio format.
pub open spec fn is_audio_path(path: Seq<char>) -> bool {
    match extension_spec(path) {
        Some(e) => is_audio_ext(lowercase(e)),
        None => false,
    }
}

/// Whether an already lower-cased extension names an audio format.
pub fn is_audio_ext_exec(e: &str) -> (r: bool)
    ensures
        r == is_audio_ext(e@),
{
    let c = chars_of(e);
    let c = c.as_slice();
    eq_str(c, "mp3") || eq_str(c, "flac") || eq_str(c, "wav") || eq_str(c, "ogg") || eq_str(
        c,
        "m4a",
    ) || eq_str(c, "aac") || eq_str(c, "opus") || eq_str(c, "wma") || eq_str(c, "aiff")
        || eq_str(c, "aif") || eq_str(c, "alac")
}

/// Whether a file is audio, by its extension compared case-insensitively.
pub fn is_audio(path: &str) -> (r: bool)
    ensures
        r == is_audio_path(path@),
{
    match extension(path) {
        Some(e) => {
            let l = to_lower(e.as_str());
            is_audio_ext_exec(l.as_str())
        },
        None => false,
    }
}

/// The image extension that the leading bytes of cover art reveal
/// (JPEG when nothing else matches).
pub open spec fn detect_ext_spec(b: Seq<u8>) -> Seq<char> {
    if b.len() >= 4 && b[0] == 0x89 && b[1] == 80 && b[2] == 78 && b[3] == 71 {
        "png"@
    } else if b.len() >= 4 && b[0] == 71 && b[1] == 73 && b[2] == 70 && b[3] == 56 {
        "gif"@
    } else if b.len() >= 2 && b[0] == 0x42 && b[1] == 0x4d {
        "bmp"@
    } else if b.len() > 11 && b[0] == 82 && b[1] == 73 && b[2] == 70 && b[3] == 70 && b[8] == 87
        && b[9] == 69 && b[10] == 66 && b[11] == 80 {
        "webp"@
    } else {
        "jpg"@
    }
}

/// Sniffs the image format of encoded cover-art bytes.
pub fn detect_ext(bytes: &[u8]) -> (r: &'static str)
    ensures
        r@ == detect_ext_spec(bytes@),
{
    let b = bytes;
    if b.len() >= 4 && b[0] == 0x89 && b[1] == 80 && b[2] == 78 && b[3] == 71 {
        "png"
    } else if b.len() >= 4 && b[0] == 71 && b[1] == 73 && b[2] == 70 && b[3] == 56 {
        "gif"
    } else if b.len() >= 2 && b[0] == 0x42 && b[1] == 0x4d {
        "bmp"
    } else if b.len() > 11 && b[0] == 82 && b[1] == 73 && b[2] == 70 && b[3] == 70 && b[8] == 87
        && b[9] == 69 && b[10] == 66 && b[11] == 80 {
        "webp"
    } else {
        "jpg"
    }
}

/// A byte that stays as it is in a `file://` URL: `/` and the unreserved
/// characters.
pub open spec fn uri_keeps(b: u8) -> bool {
    b == 47 || (65 <= b <= 90) || (97 <= b <= 122) || (48 <= b <= 57) || b == 45 || b == 46 || b
        == 95 || b == 126
}

/// An upper-case hex digit.
pub open spec fn hex_upper(d: u8) -> u8 {
    if d < 10 {
        (48 + d) as u8
    } else {
        (55 + d) as u8
    }
}

/// Percent-encoding of a path's bytes: kept bytes as they are, every other
/// byte as `%XY` in upper-case hex.
pub open spec fn uri_escape(b: Seq<u8>) -> Seq<u8>
    decreases b.len(),
{
    if b.len() == 0 {
        seq![]
    } else if uri_keeps(b[0]) {
        seq![b[0]] + uri_escape(b.skip(1))
    } else {
        seq![37u8, hex_upper(b[0] / 16), hex_upper(b[0] % 16)] + uri_escape(b.skip(1))
    }
}

/// Bytes (all ASCII) as characters.
pub open spec fn ascii_chars(b: Seq<u8>) -> Seq<char> {
    Seq::new(b.len(), |i: int| b[i] as char)
}

fn hex_upper_exec(d: u8) -> (r: u8)
    requires
        d < 16,
    ensures
        r == hex_upper(d),
{
    if d < 10 {
        48 + d
    } else {
        55 + d
    }
}

/// Percent-encodes an absolute path into a `file://` URL (keeps `/`, encodes
/// the rest).
pub fn file_uri(path: &str) -> (r: String)
    ensures
        r@ == "file://"@ + ascii_chars(uri_escape(vstd::utf8::encode_utf8(path@))),
{
    let b = path.as_bytes();
    let mut out: Vec<u8> = Vec::new();
    let mut i: usize = 0;
    assert(b@.skip(0) =~= b@);
    assert(out@ + uri_escape(b@) =~= uri_escape(b@));
    while i < b.len()
        invariant
            i <= b.len(),
            b@ == vstd::utf8::encode_utf8(path@),
            out@ + uri_escape(b@.skip(i as int)) == uri_escape(b@),
        decreases b.len() - i,
    {
        let c = b[i];
        let ghost before = out@;
        assert(b@.skip(i as int).skip(1) =~= b@.skip(i + 1));
        if c == 47 || (65 <= c && c <= 90) || (97 <= c && c <= 122) || (48 <= c && c <= 57) || c
            == 45 || c == 46 || c == 95 || c == 126 {
            out.push(c);
            assert(out@ + uri_escape(b@.skip(i + 1)) =~= before + (seq![c] + uri_escape(
                b@.skip(i + 1),
            )));
        } else {
            out.push(37);
            out.push(hex_upper_exec(c / 16));
            out.push(hex_upper_exec(c % 16));
            assert(out@ + uri_escape(b@.skip(i + 1)) =~= before + (seq![
                37u8,
                hex_upper(c / 16),
                hex_upper(c % 16),
            ] + uri_escape(b@.skip(i + 1))));
        }
        i += 1;
    }
    assert(b@.skip(b.len() as int) =~= Seq::<u8>::empty());
    let mut v: Vec<char> = Vec::new();
    push_str(&mut v, "file://");
    let ghost pre = v@;
    let mut j: usize = 0;
    while j < out.len()
        invariant
            j <= out.len(),
            v@ == pre + ascii_chars(out@.take(j as int)),
        decreases out.len() - j,
    {
        v.push(out[j] as char);
        j += 1;
        assert(v@ =~= pre + ascii_chars(out@.take(j as int)));
    }
    assert(out@.take(out.len() as int) =~= out@);
    string_of(v.as_slice())
}

/// The temp file name of a track's cover art: the path's hash in 16 hex
/// digits and the sniffed image extension.
pub fn art_file_name(path_hash: u64, bytes: &[u8]) -> (r: String)
    ensures
        r@ == zero_pad(hex(path_hash as nat), 16) + "."@ + detect_ext_spec(bytes@),
{
    let mut v: Vec<char> = Vec::new();
    push_padded(&mut v, path_hash as u128, 16, 16);
    push_str(&mut v, ".");
    push_str(&mut v, detect_ext(bytes));
    string_of(v.as_slice())
}

/// The temp file name of a track's cover art (see `art_file_name`), from
/// the hash of its path.
pub fn art_file_for(path: &str, bytes: &[u8]) -> (r: String)
    ensures
        r@ == zero_pad(hex(crate::mpris::default_hash(path@) as nat), 16) + "."@ + detect_ext_spec(bytes@),
{
    art_file_name(crate::mpris::path_hash(path), bytes)
}

/// The temp file name of a station's chip image for a name that hashes to
/// `h`: `station-`, the hash in 16 hex digits, `.png`.
pub fn station_art_file_name(h: u64) -> (r: String)
    ensures
        r@ == "station-"@ + zero_pad(hex(h as nat), 16) + ".png"@,
{
    let mut v: Vec<char> = Vec::new();
    push_str(&mut v, "station-");
    push_padded(&mut v, h as u128, 16, 16);
    push_str(&mut v, ".png");
    let r = string_of(v.as_slice());
    assert(r@ =~= "station-"@ + zero_pad(hex(h as nat), 16) + ".png"@);
    r
}

/// The temp file name of a station's chip image, from the hash of its name.
pub fn station_art_name(name: &str) -> (r: String)
    ensures
        r@ == "station-"@ + zero_pad(hex(crate::mpris::default_hash(name@) as nat), 16) + ".png"@,
{
    station_art_file_name(crate::mpris::path_hash(name))
}

/// Temp art older than this many seconds (a week) is deleted.
pub const ART_MAX_AGE_SECS: u64 = 604800;

/// Whether a temp art file of the given age is stale; a file whose age
/// cannot be read is kept.
pub fn art_is_stale(age_secs: Option<u64>) -> (r: bool)
    ensures
        r == (age_secs matches Some(a) && a > ART_MAX_AGE_SECS),
{
    match age_secs {
        Some(a) => a > ART_MAX_AGE_SECS,
        None => false,
    }
}

} // verus!

verus! {

/// The sum of the groups' track counts.
pub open spec fn sum_counts(r: Seq<Group>) -> nat
    decreases r.len(),
{
    if r.len() == 0 {
        0
    } else {
        sum_counts(r.drop_last()) + r.last().count as nat
    }
}

/// The tracks of `s` under any of the keys `ks`, counted per key.
spec fn sum_keys(s: Seq<Track>, kind: GroupKind, ks: Seq<Seq<char>>) -> nat
    decreases ks.len(),
{
    if ks.len() == 0 {
        0
    } else {
        sum_keys(s, kind, ks.drop_last()) + count_key(s, kind, ks.last())
    }
}

/// How often `k` occurs in `ks`.
spec fn occurrences(ks: Seq<Seq<char>>, k: Seq<char>) -> nat
    decreases ks.len(),
{
    if ks.len() == 0 {
        0
    } else {
        occurrences(ks.drop_last(), k) + if ks.last() == k {
            1nat
        } else {
            0nat
        }
    }
}

proof fn lemma_sum_keys_push(s: Seq<Track>, x: Track, kind: GroupKind, ks: Seq<Seq<char>>)
    ensures
        sum_keys(s.push(x), kind, ks) == sum_keys(s, kind, ks) + occurrences(ks, group_key_of(x, kind)),
    decreases ks.len(),
{
    if ks.len() > 0 {
        lemma_sum_keys_push(s, x, kind, ks.drop_last());
        assert(s.push(x).drop_last() =~= s);
    }
}

proof fn lemma_occurs_once(ks: Seq<Seq<char>>, k: Seq<char>)
    requires
        forall|i: int, j: int| 0 <= i < j < ks.len() ==> ks[i] != ks[j],
    ensures
        ks.contains(k) ==> occurrences(ks, k) == 1,
        !ks.contains(k) ==> occurrences(ks, k) == 0,
    decreases ks.len(),
{
    if ks.len() > 0 {
        let p = ks.drop_last();
        assert forall|i: int, j: int| 0 <= i < j < p.len() implies p[i] != p[j] by {
            assert(p[i] == ks[i] && p[j] == ks[j]);
        }
        lemma_occurs_once(p, k);
        if ks.last() == k {
            assert forall|i: int| 0 <= i < p.len() implies p[i] != k by {
                assert(p[i] == ks[i]);
                assert(ks[ks.len() - 1] == k);
            }
            assert(!p.contains(k));
            assert(ks[ks.len() - 1] == k);
        } else {
            if ks.contains(k) {
                let w = choose|w: int| 0 <= w < ks.len() && ks[w] == k;
                assert(w < ks.len() - 1);
                assert(p[w] == k);
            }
            if p.contains(k) {
                let w = choose|w: int| 0 <= w < p.len() && p[w] == k;
                assert(ks[w] == k);
            }
        }
    }
}

proof fn lemma_sum_keys_total(s: Seq<Track>, kind: GroupKind, ks: Seq<Seq<char>>)
    requires
        forall|i: int, j: int| 0 <= i < j < ks.len() ==> ks[i] != ks[j],
        forall|p: int| 0 <= p < s.len() ==> ks.contains(group_key_of(#[trigger] s[p], kind)),
    ensures
        sum_keys(s, kind, ks) == s.len(),
    decreases s.len(),
{
    if s.len() == 0 {
        lemma_sum_keys_empty(s, kind, ks);
    } else {
        let pre = s.drop_last();
        assert forall|p: int| 0 <= p < pre.len() implies ks.contains(group_key_of(#[trigger] pre[p], kind)) by {
            assert(pre[p] == s[p]);
        }
        lemma_sum_keys_total(pre, kind, ks);
        assert(pre.push(s.last()) =~= s);
        lemma_sum_keys_push(pre, s.last(), kind, ks);
        assert(s[s.len() - 1] == s.last());
        lemma_occurs_once(ks, group_key_of(s.last(), kind));
    }
}

proof fn lemma_sum_keys_empty(s: Seq<Track>, kind: GroupKind, ks: Seq<Seq<char>>)
    requires
        s.len() == 0,
    ensures
        sum_keys(s, kind, ks) == 0,
    decreases ks.len(),
{
    if ks.len() > 0 {
        lemma_sum_keys_empty(s, kind, ks.drop_last());
    }
}

proof fn lemma_sum_counts_keys(tracks: Seq<Track>, kind: GroupKind, r: Seq<Group>)
    requires
        forall|i: int| 0 <= i < r.len() ==> (#[trigger] r[i]).count == count_key(tracks, kind, r[i].key@),
    ensures
        sum_counts(r) == sum_keys(tracks, kind, r.map_values(|g: Group| g.key@)),
    decreases r.len(),
{
    if r.len() > 0 {
        let p = r.drop_last();
        assert forall|i: int| 0 <= i < p.len() implies (#[trigger] p[i]).count == count_key(tracks, kind, p[i].key@) by {
            assert(p[i] == r[i]);
        }
        lemma_sum_counts_keys(tracks, kind, p);
        assert(r.map_values(|g: Group| g.key@).drop_last() =~= p.map_values(|g: Group| g.key@));
        assert(r[r.len() - 1] == r.last());
    }
}

/// The sidebar's counts add up to the library: every track is counted in
/// exactly one group.
pub proof fn law_group_counts_add_up(tracks: Seq<Track>, kind: GroupKind, r: Seq<Group>)
    requires
        groups_of(tracks, kind, r),
    ensures
        sum_counts(r) == tracks.len(),
{
    let ks = r.map_values(|g: Group| g.key@);
    lemma_sum_counts_keys(tracks, kind, r);
    assert forall|i: int, j: int| 0 <= i < j < ks.len() implies ks[i] != ks[j] by {
        assert(r[i].key@ != r[j].key@);
    }
    assert forall|p: int| 0 <= p < tracks.len() implies ks.contains(group_key_of(#[trigger] tracks[p], kind)) by {
        let i = choose|i: int| 0 <= i < r.len() && r[i].key@ == group_key_of(tracks[p], kind);
        assert(ks[i] == r[i].key@);
    }
    lemma_sum_keys_total(tracks, kind, ks);
}

} // verus!

verus! {

/// Sorting the library twice gives what sorting it once gave.
pub proof fn law_library_sort_twice(scanned: Seq<Track>, once: Seq<Track>, twice: Seq<Track>)
    requires
        stably_sorted(scanned, once, track_order()),
        stably_sorted(once, twice, track_order()),
    ensures
        twice == once,
{
    crate::order::law_sort_idempotent(once, twice, track_order());
}

} // verus!

verus! {

/// Track `b` belongs strictly before track `a` in the library: by album
/// artist, then album, then track number, then title, the strings compared
/// case-insensitively.
pub open spec fn track_before(b: Track, a: Track) -> bool {
    let (ba, aa) = (lowercase(b.album_artist@), lowercase(a.album_artist@));
    let (bl, al) = (lowercase(b.album@), lowercase(a.album@));
    ||| chars_lt(ba, aa)
    ||| ba == aa && chars_lt(bl, al)
    ||| ba == aa && bl == al && b.track_no < a.track_no
    ||| ba == aa && bl == al && b.track_no == a.track_no && chars_lt(lowercase(b.title@), lowercase(a.title@))
}

/// The sorted library is in library order: no track comes after one it
/// belongs before; in particular, within an album (same album artist and
/// album, ignoring case) a smaller track number always comes first.
pub proof fn law_library_order(scanned: Seq<Track>, sorted: Seq<Track>)
    requires
        stably_sorted(scanned, sorted, track_order()),
    ensures
        forall|i: int, j: int| 0 <= i < j < sorted.len() ==> !track_before(#[trigger] sorted[j], #[trigger] sorted[i]),
        forall|i: int, j: int| 0 <= i < j < sorted.len()
            ==> !chars_lt(lowercase((#[trigger] sorted[j]).album_artist@), lowercase((#[trigger] sorted[i]).album_artist@)),
        forall|i: int, j: int| 0 <= i < j < sorted.len()
            && lowercase((#[trigger] sorted[j]).album_artist@) == lowercase((#[trigger] sorted[i]).album_artist@)
            ==> !chars_lt(lowercase(sorted[j].album@), lowercase(sorted[i].album@)),
        forall|i: int, j: int| 0 <= i < j < sorted.len()
            && lowercase((#[trigger] sorted[j]).album_artist@) == lowercase((#[trigger] sorted[i]).album_artist@)
            && lowercase(sorted[j].album@) == lowercase(sorted[i].album@) && sorted[j].track_no == sorted[i].track_no
            ==> !chars_lt(lowercase(sorted[j].title@), lowercase(sorted[i].title@)),
        forall|i: int, j: int|
            0 <= i < sorted.len() && 0 <= j < sorted.len()
            && lowercase((#[trigger] sorted[i]).album_artist@) == lowercase((#[trigger] sorted[j]).album_artist@)
            && lowercase(sorted[i].album@) == lowercase(sorted[j].album@)
            && sorted[i].track_no < sorted[j].track_no ==> i < j,
{
    assert forall|i: int, j: int| 0 <= i < j < sorted.len() implies !track_before(#[trigger] sorted[j], #[trigger] sorted[i]) by {
        assert(!key_lt((track_order())(sorted[j]), (track_order())(sorted[i])));
    }
    assert forall|i: int, j: int|
        0 <= i < sorted.len() && 0 <= j < sorted.len()
        && lowercase((#[trigger] sorted[i]).album_artist@) == lowercase((#[trigger] sorted[j]).album_artist@)
        && lowercase(sorted[i].album@) == lowercase(sorted[j].album@)
        && sorted[i].track_no < sorted[j].track_no implies i < j by {
        if j < i {
            assert(!key_lt((track_order())(sorted[i]), (track_order())(sorted[j])));
            lemma_chars_lt_irreflexive(lowercase(sorted[i].album_artist@));
        }
    }
}

/// Every extension the scan takes for audio is one the file proxy serves
/// with an audio type, and every extension the proxy serves as audio is one
/// the scan finds: the library holds exactly the formats it can play.
pub proof fn law_scanned_formats_play(e: Seq<char>)
    ensures
        is_audio_ext(e) <==> crate::radio::audio_mime_for(e) != "application/octet-stream"@,
{
    reveal_strlit("application/octet-stream");
    reveal_strlit("audio/mpeg");
    reveal_strlit("audio/flac");
    reveal_strlit("audio/wav");
    reveal_strlit("audio/ogg");
    reveal_strlit("audio/mp4");
    reveal_strlit("audio/aiff");
    reveal_strlit("audio/x-ms-wma");
    let o = "application/octet-stream"@;
    assert("audio/mpeg"@[1] != o[1]);
    assert("audio/flac"@[1] != o[1]);
    assert("audio/wav"@[1] != o[1]);
    assert("audio/ogg"@[1] != o[1]);
    assert("audio/mp4"@[1] != o[1]);
    assert("audio/aiff"@[1] != o[1]);
    assert("audio/x-ms-wma"@[1] != o[1]);
}

/// The formats the library scans: MP3, FLAC, M4A / AAC / ALAC, OGG, Opus,
/// WAV, AIFF and WMA files, whatever the case of their extension.
pub proof fn law_audio_formats(path: Seq<char>, e: Seq<char>)
    requires
        extension_spec(path) == Some(e),
        seq!["mp3"@, "flac"@, "wav"@, "ogg"@, "m4a"@, "aac"@, "opus"@, "wma"@, "aiff"@, "aif"@, "alac"@].contains(lowercase(e)),
    ensures
        is_audio_ext(lowercase(e)),
{
    let l = seq!["mp3"@, "flac"@, "wav"@, "ogg"@, "m4a"@, "aac"@, "opus"@, "wma"@, "aiff"@, "aif"@, "alac"@];
    let k = choose|k: int| 0 <= k < l.len() && l[k] == lowercase(e);
    assert(l[k] == lowercase(e));
}

/// The sidebar lists its groups in order of their labels compared
/// case-insensitively (the folder's name, not its path).
pub proof fn law_groups_by_label(tracks: Seq<Track>, kind: GroupKind, r: Seq<Group>)
    requires
        groups_of(tracks, kind, r),
    ensures
        forall|i: int, j: int| 0 <= i < j < r.len() ==> !chars_lt(lowercase((#[trigger] r[j]).label@), lowercase((#[trigger] r[i]).label@)),
{
    assert forall|i: int, j: int| 0 <= i < j < r.len() implies !chars_lt(lowercase((#[trigger] r[j]).label@), lowercase((#[trigger] r[i]).label@)) by {
        assert(!key_lt((group_order())(r[j]), (group_order())(r[i])));
    }
}

/// The scan takes a file for audio exactly when its extension, compared
/// case-insensitively, is one of mp3, flac, wav, ogg, m4a, aac, opus, wma,
/// aiff, aif or alac; files without an extension are left out.
pub proof fn law_audio_files(path: Seq<char>)
    ensures
        is_audio_path(path) <==> (extension_spec(path) is Some && seq![
            "mp3"@, "flac"@, "wav"@, "ogg"@, "m4a"@, "aac"@, "opus"@, "wma"@, "aiff"@, "aif"@, "alac"@,
        ].contains(lowercase(extension_spec(path)->0))),
{
    let l = seq!["mp3"@, "flac"@, "wav"@, "ogg"@, "m4a"@, "aac"@, "opus"@, "wma"@, "aiff"@, "aif"@, "alac"@];
    if let Some(e) = extension_spec(path) {
        let x = lowercase(e);
        if is_audio_ext(x) {
            if x == "mp3"@ { assert(l[0] == x); }
            if x == "flac"@ { assert(l[1] == x); }
            if x == "wav"@ { assert(l[2] == x); }
            if x == "ogg"@ { assert(l[3] == x); }
            if x == "m4a"@ { assert(l[4] == x); }
            if x == "aac"@ { assert(l[5] == x); }
            if x == "opus"@ { assert(l[6] == x); }
            if x == "wma"@ { assert(l[7] == x); }
            if x == "aiff"@ { assert(l[8] == x); }
            if x == "aif"@ { assert(l[9] == x); }
            if x == "alac"@ { assert(l[10] == x); }
        }
        if l.contains(x) {
            let k = choose|k: int| 0 <= k < l.len() && l[k] == x;
            assert(l[k] == x);
        }
    }
}

/// What the sidebar groups by: a track's folder (the path without its file
/// name), its album, or its album artist.
pub proof fn law_group_keys(t: Track)
    ensures
        group_key_of(t, GroupKind::Folder) == parent_dir_spec(t.path@),
        group_key_of(t, GroupKind::Album) == t.album@,
        group_key_of(t, GroupKind::Artist) == t.album_artist@,
        group_label_of(t, GroupKind::Folder) == dir_name_spec(parent_dir_spec(t.path@)),
        group_label_of(t, GroupKind::Album) == t.album@,
        group_label_of(t, GroupKind::Artist) == t.album_artist@,
{
}

/// The label a group shows for its key: a folder's name, or the album or
/// album artist itself.
pub open spec fn label_for_key(kind: GroupKind, k: Seq<char>) -> Seq<char> {
    match kind {
        GroupKind::Folder => dir_name_spec(k),
        _ => k,
    }
}

proof fn lemma_first_label(s: Seq<Track>, kind: GroupKind, k: Seq<char>)
    requires
        count_key(s, kind, k) > 0,
    ensures
        first_label(s, kind, k) == label_for_key(kind, k),
    decreases s.len(),
{
    if count_key(s.drop_last(), kind, k) > 0 {
        lemma_first_label(s.drop_last(), kind, k);
    }
}

/// Each sidebar group is labelled by its own key: a folder group by the
/// folder's name (the last part of its path), an album or artist group by
/// the album or artist.
pub proof fn law_group_labels(tracks: Seq<Track>, kind: GroupKind, r: Seq<Group>)
    requires
        groups_of(tracks, kind, r),
    ensures
        forall|i: int| 0 <= i < r.len() ==> (#[trigger] r[i]).label@ == match kind {
            GroupKind::Folder => dir_name_spec(r[i].key@),
            _ => r[i].key@,
        },
{
    assert forall|i: int| 0 <= i < r.len() implies (#[trigger] r[i]).label@ == label_for_key(kind, r[i].key@) by {
        lemma_first_label(tracks, kind, r[i].key@);
    }
}

} // verus!
