//! The webview build's MPRIS2 track ids.
use vstd::prelude::*;
use crate::mpris::{path_hash, trackid_for_hash, trackid_spec};

verus! {

/// A stable D-Bus object path per track (`…/track/stream` for radio), so the
/// popup's art cache refreshes when the track changes.
pub fn make_trackid(path: Option<&str>) -> (r: String)
    ensures
        match path {
            Some(p) => r@ == trackid_spec(p@),
            None => r@ == "/org/mpris/MediaPlayer2/track/stream"@,
        },
{
    match path {
        Some(p) => trackid_for_hash(path_hash(p)),
        None => "/org/mpris/MediaPlayer2/track/stream".to_owned(),
    }
}

} // verus!
