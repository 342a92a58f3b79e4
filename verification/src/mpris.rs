//! The desktop build's MPRIS2 plumbing: transport actions and track ids.
use vstd::prelude::*;
use std::collections::hash_map::DefaultHasher;
use std::hash::{BuildHasher, BuildHasherDefault};
use crate::text::{hex, push_padded, push_str, string_of, zero_pad};

verus! {

/// Transport actions the media popup and media keys can send.
#[derive(Debug, Clone, Copy, PartialEq, Eq, Structural)]
pub enum Control {
    PlayPause,
    Play,
    Pause,
    Stop,
    Next,
    Previous,
    Raise,
    Quit,
}

/// What a `DefaultHasher::new()` fed the string `s` finishes with. Every
/// `DefaultHasher` made by `new` starts out the same, so this depends on `s`
/// alone; the algorithm itself is not specified.
pub uninterp spec fn default_hash(s: Seq<char>) -> u64;

/// `BuildHasher::hash_one` with `DefaultHasher`: the hash of a track's path
/// (or a station's name), the same value `DefaultHasher::new()`, `hash` and
/// `finish` give. It is named `default_hash`; its value is not stated.
#[verifier::external_body]
pub(crate) fn path_hash(p: &str) -> (r: u64)
    ensures
        r == default_hash(p@),
{
    BuildHasherDefault::<DefaultHasher>::default().hash_one(p)
}

/// The D-Bus object path for a track whose path hashes to `h`.
pub fn trackid_for_hash(h: u64) -> (r: String)
    ensures
        r@ == "/org/mpris/MediaPlayer2/track/"@ + zero_pad(hex(h as nat), 16),
{
    let mut v: Vec<char> = Vec::new();
    push_str(&mut v, "/org/mpris/MediaPlayer2/track/");
    push_padded(&mut v, h as u128, 16, 16);
    string_of(v.as_slice())
}

/// The object path of a track: its path's hash in 16 hex digits.
pub open spec fn trackid_spec(p: Seq<char>) -> Seq<char> {
    "/org/mpris/MediaPlayer2/track/"@ + zero_pad(hex(default_hash(p) as nat), 16)
}

/// A stable D-Bus object path per track (`…/track/none` when nothing plays).
pub fn make_trackid(path: Option<&str>) -> (r: String)
    ensures
        match path {
            Some(p) => r@ == trackid_spec(p@),
            None => r@ == "/org/mpris/MediaPlayer2/track/none"@,
        },
{
    match path {
        Some(p) => trackid_for_hash(path_hash(p)),
        None => "/org/mpris/MediaPlayer2/track/none".to_owned(),
    }
}

} // verus!
