//! Radio stations: the user-editable list, station ids, tile initials and
//! each station's color hue.
use vstd::prelude::*;
use vstd::wrapping::u32_specs;
use crate::text::{chars_of, hex, push_digits, push_str, string_of, trim, trim_range, uppercase, to_upper, decimal};

verus! {

/// A radio station.
#[derive(Debug)]
pub struct Station {
    pub id: String,
    pub name: String,
    pub url: String,
}

impl Clone for Station {
    fn clone(&self) -> (r: Self)
        ensures
            r == *self,
    {
        Station { id: self.id.clone(), name: self.name.clone(), url: self.url.clone() }
    }
}

/// What `char::is_alphanumeric` says of `c` (the Unicode `Alphabetic` or
/// `Numeric` properties).
pub uninterp spec fn alphanumeric(c: char) -> bool;

/// `char::is_alphanumeric`: its answer depends on `c` alone and is named
/// `alphanumeric`; the Unicode tables are not written out here, only that
/// among ASCII characters exactly the letters and digits are alphanumeric.
#[verifier::external_body]
pub(crate) fn is_alphanumeric(c: char) -> (r: bool)
    ensures
        r == alphanumeric(c),
        (c as u32) < 128 ==> (r <==> (('a' <= c && c <= 'z') || ('A' <= c && c <= 'Z') || ('0' <= c && c <= '9'))),
{
    c.is_alphanumeric()
}

/// `SystemTime::elapsed` on `UNIX_EPOCH`: the time since the epoch in
/// nanoseconds, `None` when the clock reads earlier than the epoch. Nothing
/// is promised of the value: it is the clock's.
#[verifier::external_body]
fn nanos_since_epoch() -> Option<u128> {
    std::time::UNIX_EPOCH.elapsed().ok().map(|d| d.as_nanos())
}

/// The id of a station created at `nanos`: `st-` and the time in hex.
pub fn id_for_time(nanos: u128) -> (r: String)
    ensures
        r@ == "st-"@ + hex(nanos as nat),
{
    let mut v: Vec<char> = Vec::new();
    push_str(&mut v, "st-");
    push_digits(&mut v, nanos, 16);
    string_of(v.as_slice())
}

fn trimmed_string(s: &str) -> (r: String)
    ensures
        r@ == trim(s@),
{
    let c = chars_of(s);
    assert(c@.subrange(0, c.len() as int) =~= c@);
    let t = trim_range(c.as_slice(), 0, c.len());
    string_of(t.as_slice())
}

/// A fresh station id: `st-` and the current time in nanoseconds, in hex.
pub fn new_id() -> (r: String)
    ensures
        exists|n: nat| r@ == "st-"@ + hex(n),
{
    let n = match nanos_since_epoch() {
        Some(n) => n,
        None => 0,
    };
    id_for_time(n)
}

/// A new station from what the user typed: name and URL trimmed, and a fresh
/// time-based id.
pub fn new_station(name: &str, url: &str) -> (r: Station)
    ensures
        r.name@ == trim(name@),
        r.url@ == trim(url@),
        exists|n: nat| r.id@ == "st-"@ + hex(n),
{
    let id = new_id();
    Station { id, name: trimmed_string(name), url: trimmed_string(url) }
}

/// The stations of the bundled seed list, with ids `seed-0`, `seed-1`, ….
pub fn seed_stations(seeds: Vec<(String, String)>) -> (r: Vec<Station>)
    ensures
        r.len() == seeds.len(),
        forall|i: int|
            0 <= i < r.len() ==> {
                &&& (#[trigger] r@[i]).id@ == "seed-"@ + decimal(i as nat)
                &&& r@[i].name == seeds@[i].0
                &&& r@[i].url == seeds@[i].1
            },
{
    let ghost orig = seeds@;
    let mut out: Vec<Station> = Vec::new();
    let mut i: usize = 0;
    let mut seeds = seeds;
    let mut rev: Vec<(String, String)> = Vec::new();
    // Reverse so that entries come out from the front by popping.
    while seeds.len() > 0
        invariant
            seeds@ == orig.take(seeds.len() as int),
            rev.len() == orig.len() - seeds.len(),
            forall|j: int| 0 <= j < rev.len() ==> #[trigger] rev@[j] == orig[orig.len() - 1 - j],
        decreases seeds.len(),
    {
        let e = seeds.pop().unwrap();
        rev.push(e);
    }
    while rev.len() > 0
        invariant
            rev.len() + out.len() == orig.len(),
            forall|j: int| 0 <= j < rev.len() ==> #[trigger] rev@[j] == orig[orig.len() - 1 - j],
            forall|j: int|
                0 <= j < out.len() ==> {
                    &&& (#[trigger] out@[j]).id@ == "seed-"@ + decimal(j as nat)
                    &&& out@[j].name == orig[j].0
                    &&& out@[j].url == orig[j].1
                },
        decreases rev.len(),
    {
        let k = out.len();
        let (name, url) = rev.pop().unwrap();
        let mut v: Vec<char> = Vec::new();
        push_str(&mut v, "seed-");
        push_digits(&mut v, k as u128, 10);
        out.push(Station { id: string_of(v.as_slice()), name, url });
    }
    out
}

/// The text of a station tile: the first character of the first two words
/// (runs of alphanumeric characters), or `?` when there is none.
pub open spec fn next_with(s: Seq<char>, from: int, alnum: bool) -> int
    decreases s.len() - from,
{
    if from < 0 || from >= s.len() {
        s.len() as int
    } else if alphanumeric(s[from]) == alnum {
        from
    } else {
        next_with(s, from + 1, alnum)
    }
}

/// Up to two initials, before upper-casing.
pub open spec fn raw_initials(s: Seq<char>) -> Seq<char> {
    let i1 = next_with(s, 0, true);
    let e1 = next_with(s, i1, false);
    let i2 = next_with(s, e1, true);
    let first = if i1 < s.len() {
        seq![s[i1]]
    } else {
        Seq::empty()
    };
    let second = if i2 < s.len() {
        seq![s[i2]]
    } else {
        Seq::empty()
    };
    if first.len() + second.len() == 0 {
        seq!['?']
    } else {
        first + second
    }
}

fn next_with_exec(s: &[char], from: usize, alnum: bool) -> (r: usize)
    requires
        from <= s.len(),
    ensures
        r as int == next_with(s@, from as int, alnum),
        r <= s.len(),
{
    let mut i = from;
    while i < s.len() && is_alphanumeric(s[i]) != alnum
        invariant
            from <= i <= s.len(),
            next_with(s@, from as int, alnum) == next_with(s@, i as int, alnum),
        decreases s.len() - i,
    {
        i += 1;
    }
    i
}

proof fn lemma_next_with_bound(s: Seq<char>, from: int, alnum: bool)
    ensures
        0 <= from ==> from <= next_with(s, from, alnum) || next_with(s, from, alnum) == s.len(),
        next_with(s, from, alnum) <= s.len(),
    decreases s.len() - from,
{
    if 0 <= from < s.len() && alphanumeric(s[from]) != alnum {
        lemma_next_with_bound(s, from + 1, alnum);
    }
}

/// Up to two upper-case initials for a station tile (e.g. "Gen FM" → "GF").
pub fn initials(name: &str) -> (r: String)
    ensures
        r@ == uppercase(raw_initials(name@)),
{
    let s = chars_of(name);
    let s = s.as_slice();
    let i1 = next_with_exec(s, 0, true);
    let e1 = next_with_exec(s, i1, false);
    let i2 = next_with_exec(s, e1, true);
    let mut v: Vec<char> = Vec::new();
    if i1 < s.len() {
        v.push(s[i1]);
    }
    if i2 < s.len() {
        v.push(s[i2]);
    }
    if v.len() == 0 {
        v.push('?');
    }
    proof {
        let first = if i1 < s.len() {
            seq![s@[i1 as int]]
        } else {
            Seq::<char>::empty()
        };
        let second = if i2 < s.len() {
            seq![s@[i2 as int]]
        } else {
            Seq::<char>::empty()
        };
        if first.len() + second.len() > 0 {
            assert(v@ =~= first + second);
        } else {
            assert(v@ =~= seq!['?']);
        }
    }
    let w = string_of(v.as_slice());
    to_upper(w.as_str())
}

/// The string hash a station's color comes from: `h = h * 31 + c` over the
/// characters, wrapping at 32 bits.
pub open spec fn name_hash(s: Seq<char>) -> u32
    decreases s.len(),
{
    if s.len() == 0 {
        0
    } else {
        u32_specs::wrapping_add(u32_specs::wrapping_mul(name_hash(s.drop_last()), 31), s.last() as u32)
    }
}

/// The hue (in degrees, `0..360`) of a station's deterministic color: the
/// same name always yields the same hue.
pub fn station_hue(name: &str) -> (r: u32)
    ensures
        r == name_hash(name@) % 360,
        r < 360,
{
    let s = chars_of(name);
    let mut h: u32 = 0;
    let mut i: usize = 0;
    while i < s.len()
        invariant
            i <= s.len(),
            h == name_hash(s@.take(i as int)),
        decreases s.len() - i,
    {
        assert(s@.take(i + 1).drop_last() =~= s@.take(i as int));
        h = h.wrapping_mul(31).wrapping_add(s[i] as u32);
        i += 1;
    }
    assert(s@.take(s.len() as int) =~= s@);
    h % 360
}

} // verus!
