//! File-path helpers with the meaning `std::path::Path` gives them on Unix:
//! components are separated by `/`, empty and `.` components are skipped
//! (a leading `.` is the current directory), and a leading `/` is the root.
use vstd::prelude::*;
use crate::text::{chars_of, string_of, sub_chars};

verus! {

/// Index of the last `c` in `s`, or `-1` when there is none.
pub open spec fn last_index_of(s: Seq<char>, c: char) -> int
    decreases s.len(),
{
    if s.len() == 0 {
        -1
    } else if s.last() == c {
        s.len() - 1
    } else {
        last_index_of(s.drop_last(), c)
    }
}

pub proof fn lemma_last_index_of(s: Seq<char>, c: char)
    ensures
        -1 <= last_index_of(s, c) < s.len(),
        last_index_of(s, c) >= 0 ==> s[last_index_of(s, c)] == c,
        forall|j: int| last_index_of(s, c) < j < s.len() ==> s[j] != c,
    decreases s.len(),
{
    if s.len() > 0 && s.last() != c {
        lemma_last_index_of(s.drop_last(), c);
        assert forall|j: int| last_index_of(s, c) < j < s.len() implies s[j] != c by {
            if j < s.len() - 1 {
                assert(s[j] == s.drop_last()[j]);
            }
        }
    }
}

/// Length of what comes before the components: `1` for a root `/`, `1` for a
/// leading `.` that is the current directory, else `0`.
pub open spec fn body_start(p: Seq<char>) -> int {
    if p.len() > 0 && p[0] == '/' {
        1
    } else if has_cur_dir(p) {
        1
    } else {
        0
    }
}

/// The path starts with a `.` component that names the current directory.
pub open spec fn has_cur_dir(p: Seq<char>) -> bool {
    p.len() > 0 && p[0] == '.' && (p.len() == 1 || p[1] == '/')
}

/// Where the segment ending at `end` starts, scanning `p[bs..end]` from the back.
pub open spec fn seg_start(p: Seq<char>, bs: int, end: int) -> int {
    let k = last_index_of(p.subrange(bs, end), '/');
    if k < 0 {
        bs
    } else {
        bs + k + 1
    }
}

/// Where the path ends once the segment ending at `end` and its separator are
/// removed.
pub open spec fn seg_cut(p: Seq<char>, bs: int, end: int) -> int {
    let k = last_index_of(p.subrange(bs, end), '/');
    if k < 0 {
        bs
    } else {
        bs + k
    }
}

/// A segment that counts as a component: not empty and not `.`.
pub open spec fn is_component(c: Seq<char>) -> bool {
    c.len() > 0 && c != seq!['.']
}

pub proof fn lemma_seg(p: Seq<char>, bs: int, end: int)
    requires
        0 <= bs < end <= p.len(),
    ensures
        bs <= seg_cut(p, bs, end) < seg_start(p, bs, end) <= end || seg_cut(p, bs, end) == bs
            == seg_start(p, bs, end),
        bs <= seg_start(p, bs, end) <= end,
        bs <= seg_cut(p, bs, end) < end,
        forall|j: int| seg_start(p, bs, end) <= j < end ==> p[j] != '/',
        seg_start(p, bs, end) > bs ==> p[seg_start(p, bs, end) - 1] == '/' && seg_cut(p, bs, end)
            == seg_start(p, bs, end) - 1,
{
    lemma_last_index_of(p.subrange(bs, end), '/');
    let k = last_index_of(p.subrange(bs, end), '/');
    assert forall|j: int| seg_start(p, bs, end) <= j < end implies p[j] != '/' by {
        assert(p[j] == p.subrange(bs, end)[j - bs]);
    }
    if k >= 0 {
        assert(p[bs + k] == p.subrange(bs, end)[k]);
    }
}

/// Scanning back from `end`: the last component of `p[bs..end]` as
/// `(start, end, cut)`, where `cut` is where the path ends once the component
/// and its separator are removed.
pub open spec fn last_component(p: Seq<char>, bs: int, end: int) -> Option<(int, int, int)>
    decreases end,
{
    if end <= bs || bs < 0 || end > p.len() {
        None
    } else {
        let s = seg_start(p, bs, end);
        let cut = seg_cut(p, bs, end);
        if is_component(p.subrange(s, end)) {
            Some((s, end, cut))
        } else {
            proof {
                lemma_seg(p, bs, end);
            }
            last_component(p, bs, cut)
        }
    }
}

/// Where `p[..end]` ends once trailing separators and `.` segments above `bs`
/// are removed.
pub open spec fn trim_back(p: Seq<char>, bs: int, end: int) -> int
    decreases end,
{
    if end <= bs || bs < 0 || end > p.len() {
        end
    } else {
        let s = seg_start(p, bs, end);
        if is_component(p.subrange(s, end)) {
            end
        } else {
            proof {
                lemma_seg(p, bs, end);
            }
            trim_back(p, bs, seg_cut(p, bs, end))
        }
    }
}

/// The final component of `p`, unless it is `..` (`Path::file_name`).
pub open spec fn file_name_spec(p: Seq<char>) -> Option<Seq<char>> {
    match last_component(p, body_start(p), p.len() as int) {
        Some((s, e, _)) => {
            let c = p.subrange(s, e);
            if c == seq!['.', '.'] {
                None
            } else {
                Some(c)
            }
        },
        None => None,
    }
}

/// `p` without its final component (`Path::parent`).
pub open spec fn parent_spec(p: Seq<char>) -> Option<Seq<char>> {
    let bs = body_start(p);
    match last_component(p, bs, p.len() as int) {
        Some((_, _, cut)) => Some(p.take(trim_back(p, bs, cut))),
        None => if p.len() > 0 && p[0] == '/' {
            None
        } else if has_cur_dir(p) {
            Some(Seq::empty())
        } else {
            None
        },
    }
}

fn last_slash_in(p: &[char], bs: usize, end: usize) -> (r: usize)
    requires
        bs < end <= p.len(),
    ensures
        r == seg_start(p@, bs as int, end as int),
{
    let mut i = end;
    while i > bs && p[i - 1] != '/'
        invariant
            bs <= i <= end <= p.len(),
            forall|j: int| i <= j < end ==> p@[j] != '/',
        decreases i - bs,
    {
        i -= 1;
    }
    proof {
        let sub = p@.subrange(bs as int, end as int);
        lemma_last_index_of(sub, '/');
        let k = last_index_of(sub, '/');
        if i > bs {
            assert(sub[i - 1 - bs] == '/');
            assert(k >= i - 1 - bs);
            if k > i - 1 - bs {
                assert(p@[bs + k] == sub[k]);
            }
        } else {
            if k >= 0 {
                assert(p@[bs + k] == sub[k]);
            }
        }
    }
    i
}

fn is_component_range(p: &[char], s: usize, e: usize) -> (r: bool)
    requires
        s <= e <= p.len(),
    ensures
        r == is_component(p@.subrange(s as int, e as int)),
{
    if s == e {
        return false;
    }
    if e - s == 1 && p[s] == '.' {
        assert(p@.subrange(s as int, e as int) =~= seq!['.']);
        return false;
    }
    proof {
        if e - s == 1 {
            assert(p@.subrange(s as int, e as int)[0] != '.');
        } else {
            assert(p@.subrange(s as int, e as int).len() != 1);
        }
    }
    true
}

fn body_start_exec(p: &[char]) -> (r: usize)
    ensures
        r == body_start(p@),
        r <= p.len(),
{
    if p.len() > 0 && p[0] == '/' {
        1
    } else if p.len() > 0 && p[0] == '.' && (p.len() == 1 || p[1] == '/') {
        1
    } else {
        0
    }
}

/// The last component of `p[bs..end]`, scanning from the back.
fn last_component_exec(p: &[char], bs: usize, end: usize) -> (r: Option<(usize, usize, usize)>)
    requires
        bs <= end <= p.len(),
    ensures
        match r {
            Some((s, e, c)) => last_component(p@, bs as int, end as int) == Some(
                (s as int, e as int, c as int),
            ) && bs <= c <= s < e <= end,
            None => last_component(p@, bs as int, end as int) is None,
        },
{
    let mut e = end;
    while e > bs
        invariant
            bs <= e <= end <= p.len(),
            last_component(p@, bs as int, end as int) == last_component(p@, bs as int, e as int),
        decreases e,
    {
        let s = last_slash_in(p, bs, e);
        proof {
            lemma_seg(p@, bs as int, e as int);
        }
        let cut = if s > bs {
            s - 1
        } else {
            bs
        };
        if is_component_range(p, s, e) {
            assert(s > bs ==> cut < s);
            if s == bs {
                assert(cut == bs);
            }
            return Some((s, e, cut));
        }
        e = cut;
    }
    None
}

fn trim_back_exec(p: &[char], bs: usize, end: usize) -> (r: usize)
    requires
        bs <= end <= p.len(),
    ensures
        r == trim_back(p@, bs as int, end as int),
        r <= end,
{
    let mut e = end;
    while e > bs
        invariant
            bs <= e <= end <= p.len(),
            trim_back(p@, bs as int, end as int) == trim_back(p@, bs as int, e as int),
        decreases e,
    {
        let s = last_slash_in(p, bs, e);
        proof {
            lemma_seg(p@, bs as int, e as int);
        }
        if is_component_range(p, s, e) {
            return e;
        }
        e = if s > bs {
            s - 1
        } else {
            bs
        };
    }
    e
}

/// The final component of a path, unless it is `..` (`Path::file_name`).
pub fn file_name(path: &str) -> (r: Option<String>)
    ensures
        match r {
            Some(n) => file_name_spec(path@) == Some(n@),
            None => file_name_spec(path@) is None,
        },
{
    let p = chars_of(path);
    let bs = body_start_exec(p.as_slice());
    match last_component_exec(p.as_slice(), bs, p.len()) {
        Some((s, e, _)) => {
            if e - s == 2 && p[s] == '.' && p[s + 1] == '.' {
                assert(p@.subrange(s as int, e as int) =~= seq!['.', '.']);
                return None;
            }
            let c = sub_chars(p.as_slice(), s, e);
            assert(c@ != seq!['.', '.']) by {
                if c@.len() == 2 {
                    assert(c@[0] == p@[s as int] && c@[1] == p@[s + 1]);
                }
            }
            Some(string_of(c.as_slice()))
        },
        None => None,
    }
}

/// The path without its final component (`Path::parent`).
pub fn parent(path: &str) -> (r: Option<String>)
    ensures
        match r {
            Some(n) => parent_spec(path@) == Some(n@),
            None => parent_spec(path@) is None,
        },
{
    let p = chars_of(path);
    let bs = body_start_exec(p.as_slice());
    match last_component_exec(p.as_slice(), bs, p.len()) {
        Some((_, _, cut)) => {
            let t = trim_back_exec(p.as_slice(), bs, cut);
            let c = sub_chars(p.as_slice(), 0, t);
            assert(c@ =~= p@.take(t as int));
            Some(string_of(c.as_slice()))
        },
        None => {
            if p.len() > 0 && p[0] == '/' {
                None
            } else if p.len() > 0 && p[0] == '.' && (p.len() == 1 || p[1] == '/') {
                Some(String::new())
            } else {
                None
            }
        },
    }
}

} // verus!

verus! {

/// How `Path` splits a file name at its last `.`: `(stem, extension)`; a
/// name whose only dot is the first character has no extension.
pub open spec fn split_at_dot(f: Seq<char>) -> (Option<Seq<char>>, Option<Seq<char>>) {
    if f == seq!['.', '.'] {
        (Some(f), None)
    } else {
        let d = last_index_of(f, '.');
        if d < 0 {
            (None, Some(f))
        } else if d == 0 {
            (Some(f), None)
        } else {
            (Some(f.take(d)), Some(f.skip(d + 1)))
        }
    }
}

/// The extension of the path's file name (`Path::extension`).
pub open spec fn extension_spec(p: Seq<char>) -> Option<Seq<char>> {
    match file_name_spec(p) {
        Some(f) => match split_at_dot(f) {
            (Some(_), Some(e)) => Some(e),
            _ => None,
        },
        None => None,
    }
}

/// The file name without its extension (`Path::file_stem`).
pub open spec fn file_stem_spec(p: Seq<char>) -> Option<Seq<char>> {
    match file_name_spec(p) {
        Some(f) => match split_at_dot(f) {
            (Some(b), _) => Some(b),
            (None, a) => a,
        },
        None => None,
    }
}

fn last_dot(f: &[char]) -> (r: Option<usize>)
    ensures
        match r {
            Some(d) => d as int == last_index_of(f@, '.') && d < f.len(),
            None => last_index_of(f@, '.') < 0,
        },
{
    let mut i = f.len();
    while i > 0 && f[i - 1] != '.'
        invariant
            i <= f.len(),
            forall|j: int| i <= j < f.len() ==> f@[j] != '.',
        decreases i,
    {
        i -= 1;
    }
    proof {
        lemma_last_index_of(f@, '.');
        let k = last_index_of(f@, '.');
        if i > 0 {
            assert(k >= i - 1);
        }
    }
    if i == 0 {
        None
    } else {
        Some(i - 1)
    }
}

/// The extension of a path's file name (`Path::extension`).
pub fn extension(path: &str) -> (r: Option<String>)
    ensures
        match r {
            Some(e) => extension_spec(path@) == Some(e@),
            None => extension_spec(path@) is None,
        },
{
    let f = match file_name(path) {
        Some(f) => f,
        None => return None,
    };
    let c = chars_of(f.as_str());
    if c.len() == 2 && c[0] == '.' && c[1] == '.' {
        assert(c@ =~= seq!['.', '.']);
        return None;
    }
    assert(c@ != seq!['.', '.']) by {
        if c@ == seq!['.', '.'] {
            assert(c@[0] == '.' && c@[1] == '.');
        }
    }
    match last_dot(c.as_slice()) {
        None => None,
        Some(d) => {
            if d == 0 {
                None
            } else {
                let e = sub_chars(c.as_slice(), d + 1, c.len());
                assert(e@ =~= c@.skip(d + 1));
                Some(string_of(e.as_slice()))
            }
        },
    }
}

/// The file name without its extension (`Path::file_stem`).
pub fn file_stem(path: &str) -> (r: Option<String>)
    ensures
        match r {
            Some(e) => file_stem_spec(path@) == Some(e@),
            None => file_stem_spec(path@) is None,
        },
{
    let f = match file_name(path) {
        Some(f) => f,
        None => return None,
    };
    let c = chars_of(f.as_str());
    if c.len() == 2 && c[0] == '.' && c[1] == '.' {
        assert(c@ =~= seq!['.', '.']);
        return Some(f);
    }
    match last_dot(c.as_slice()) {
        None => Some(f),
        Some(d) => {
            if d == 0 {
                Some(f)
            } else {
                let b = sub_chars(c.as_slice(), 0, d);
                assert(b@ =~= c@.take(d as int));
                Some(string_of(b.as_slice()))
            }
        },
    }
}

/// The folder a track's file sits in, or empty when the path has none.
pub open spec fn parent_dir_spec(p: Seq<char>) -> Seq<char> {
    match parent_spec(p) {
        Some(d) => d,
        None => Seq::empty(),
    }
}

/// The absolute parent-directory path of a track (its containing folder).
pub fn parent_dir(path: &str) -> (r: String)
    ensures
        r@ == parent_dir_spec(path@),
{
    match parent(path) {
        Some(d) => d,
        None => String::new(),
    }
}

/// The last component of a folder path, or the whole path when it has none.
pub open spec fn dir_name_spec(p: Seq<char>) -> Seq<char> {
    match file_name_spec(p) {
        Some(n) => n,
        None => p,
    }
}

/// The display name of a folder: its last path component.
pub fn dir_name(path: &str) -> (r: String)
    ensures
        r@ == dir_name_spec(path@),
{
    match file_name(path) {
        Some(n) => n,
        None => path.to_owned(),
    }
}

} // verus!
