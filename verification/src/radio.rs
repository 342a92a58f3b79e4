//! The logic of the loopback radio proxy: request routing, query decoding,
//! `Range` parsing, stream headers and ICY metadata stripping.
use vstd::prelude::*;
use crate::paths::{extension, extension_spec};
use crate::text::{
    decimal, eq_str, push_digits, push_str,
    chars_of, contains_str, find, find_spec, from_utf8_lossy, has_prefix_at, has_sub, index_of,
    index_of_from, lemma_index_of, lemma_index_of_bounds, lossy_text, lowercase, occurs_at, parse_u64_range, parse_u64_spec,
    starts_with, string_of, sub_chars, to_lower, trim, trim_range,
};

verus! {

/// The value of the ASCII hex digit `c`, if it is one.
pub open spec fn hex_digit(c: u8) -> Option<u8> {
    if 48 <= c <= 57 {
        Some((c - 48) as u8)
    } else if 97 <= c <= 102 {
        Some((c - 97 + 10) as u8)
    } else if 65 <= c <= 70 {
        Some((c - 65 + 10) as u8)
    } else {
        None
    }
}

/// The value of the ASCII hex digit `c`, if it is one.
pub fn hex_val(c: u8) -> (r: Option<u8>)
    ensures
        r == hex_digit(c),
{
    if 48u8 <= c && c <= 57u8 {
        Some(c - 48u8)
    } else if 97u8 <= c && c <= 102u8 {
        Some(c - 97u8 + 10)
    } else if 65u8 <= c && c <= 70u8 {
        Some(c - 65u8 + 10)
    } else {
        None
    }
}

/// Percent-decoding of bytes: `%XY` with two hex digits becomes one byte,
/// `+` becomes a space, anything else is kept.
pub open spec fn percent_decode_bytes(b: Seq<u8>) -> Seq<u8>
    decreases b.len(),
{
    if b.len() == 0 {
        seq![]
    } else if b[0] == 37 && b.len() > 2 && hex_digit(b[1]) is Some && hex_digit(b[2]) is Some {
        seq![(hex_digit(b[1])->0 * 16 + hex_digit(b[2])->0) as u8] + percent_decode_bytes(
            b.skip(3),
        )
    } else if b[0] == 43 {
        seq![32u8] + percent_decode_bytes(b.skip(1))
    } else {
        seq![b[0]] + percent_decode_bytes(b.skip(1))
    }
}

/// The string that `percent_decode` makes of the characters `s`.
pub open spec fn percent_decode_spec(s: Seq<char>) -> Seq<char> {
    lossy_text(percent_decode_bytes(vstd::utf8::encode_utf8(s)))
}

/// Percent-decodes a query value (`%XY` and `+`), then reads the bytes as
/// UTF-8, replacing invalid sequences.
pub fn percent_decode(s: &str) -> (r: String)
    ensures
        r@ == percent_decode_spec(s@),
{
    let b = s.as_bytes();
    let mut out: Vec<u8> = Vec::new();
    let mut i: usize = 0;
    assert(b@.skip(0) =~= b@);
    assert(out@ + percent_decode_bytes(b@) =~= percent_decode_bytes(b@));
    while i < b.len()
        invariant
            i <= b.len(),
            out@ + percent_decode_bytes(b@.skip(i as int)) == percent_decode_bytes(b@),
        decreases b.len() - i,
    {
        let ghost rest = b@.skip(i as int);
        let ghost before = out@;
        if b[i] == 37u8 && b.len() - i > 2 {
            let h = hex_val(b[i + 1]);
            let l = hex_val(b[i + 2]);
            if let (Some(h), Some(l)) = (h, l) {
                assert(rest.skip(3) =~= b@.skip(i + 3));
                assert(h * 16 + l <= 255) by (nonlinear_arith)
                    requires
                        h < 16,
                        l < 16,
                ;
                out.push(h * 16 + l);
                assert(out@ + percent_decode_bytes(b@.skip(i + 3)) =~= before + (seq![(h * 16 + l) as u8] + percent_decode_bytes(rest.skip(3))));
                i += 3;
                continue;
            }
            assert(rest.skip(1) =~= b@.skip(i + 1));
            out.push(b[i]);
            assert(out@ + percent_decode_bytes(b@.skip(i + 1)) =~= before + (seq![b@[i as int]] + percent_decode_bytes(rest.skip(1))));
            i += 1;
        } else if b[i] == 43u8 {
            assert(rest.skip(1) =~= b@.skip(i + 1));
            out.push(32u8);
            assert(out@ + percent_decode_bytes(b@.skip(i + 1)) =~= before + (seq![32u8] + percent_decode_bytes(rest.skip(1))));
            i += 1;
        } else {
            assert(rest.skip(1) =~= b@.skip(i + 1));
            out.push(b[i]);
            assert(out@ + percent_decode_bytes(b@.skip(i + 1)) =~= before + (seq![b@[i as int]] + percent_decode_bytes(rest.skip(1))));
            i += 1;
        }
    }
    assert(b@.skip(b.len() as int) =~= Seq::<u8>::empty());
    assert(out@ =~= percent_decode_bytes(b@));
    from_utf8_lossy(out.as_slice())
}

} // verus!

verus! {

/// The rest of the first `&`-separated pair of `q` that starts with `prefix`
/// (what a `for pair in q.split('&')` with `strip_prefix` finds).
pub open spec fn find_pair(q: Seq<char>, prefix: Seq<char>) -> Option<Seq<char>>
    decreases q.len(),
{
    let e = index_of(q, '&');
    let pair = q.take(e);
    if prefix.len() <= pair.len() && pair.take(prefix.len() as int) == prefix {
        Some(pair.skip(prefix.len() as int))
    } else if e < q.len() {
        proof {
            lemma_index_of_bounds(q, '&');
        }
        find_pair(q.skip(e + 1), prefix)
    } else {
        None
    }
}

/// The percent-decoded value of query parameter `key` in a request path.
pub open spec fn query_param_spec(s: Seq<char>, key: Seq<char>) -> Option<Seq<char>> {
    let qi = index_of(s, '?');
    if qi >= s.len() {
        None
    } else {
        match find_pair(s.skip(qi + 1), key.push('=')) {
            Some(v) => Some(percent_decode_spec(v)),
            None => None,
        }
    }
}

/// Extracts and percent-decodes the named query parameter from a request path.
pub fn query_param(path_and_query: &str, key: &str) -> (r: Option<String>)
    ensures
        match r {
            Some(v) => query_param_spec(path_and_query@, key@) == Some(v@),
            None => query_param_spec(path_and_query@, key@) is None,
        },
{
    let s = chars_of(path_and_query);
    let qi = index_of_from(s.as_slice(), '?', 0);
    assert(s@.skip(0) =~= s@);
    if qi >= s.len() {
        return None;
    }
    let mut prefix = chars_of(key);
    prefix.push('=');
    let ghost q = s@.skip(qi + 1);
    let mut pos = qi + 1;
    assert(q =~= s@.skip(pos as int));
    loop
        invariant
            qi < pos <= s.len(),
            s@ == path_and_query@,
            qi as int == index_of(s@, '?'),
            q == s@.skip(qi + 1),
            prefix@ == key@.push('='),
            find_pair(q, prefix@) == find_pair(s@.skip(pos as int), prefix@),
        decreases s.len() - pos,
    {
        let e = index_of_from(s.as_slice(), '&', pos);
        let ghost rest = s@.skip(pos as int);
        assert(rest.take(e - pos) =~= s@.subrange(pos as int, e as int));
        if has_prefix_at(s.as_slice(), prefix.as_slice(), pos, e) {
            let v = sub_chars(s.as_slice(), pos + prefix.len(), e);
            assert(v@ =~= rest.take(e - pos).skip(prefix.len() as int));
            let vs = string_of(v.as_slice());
            return Some(percent_decode(vs.as_str()));
        }
        if e >= s.len() {
            return None;
        }
        assert(rest.skip(e - pos + 1) =~= s@.skip(e + 1));
        pos = e + 1;
    }
}

/// The decoded `url` query parameter of a request path.
pub fn url_param(path_and_query: &str) -> (r: Option<String>)
    ensures
        match r {
            Some(v) => query_param_spec(path_and_query@, "url"@) == Some(v@),
            None => query_param_spec(path_and_query@, "url"@) is None,
        },
{
    query_param(path_and_query, "url")
}

} // verus!

verus! {

/// `s` holds the character `c`.
pub open spec fn has_char(s: Seq<char>, c: char) -> bool {
    index_of(s, c) < s.len()
}

/// What a single-range `Range: bytes=start-end` header means for a body of
/// `total` bytes: absolute offsets, with `bytes=start-` running to the end and
/// `bytes=-n` naming the last `n` bytes; `None` for several ranges, an empty
/// body, or anything that does not parse.
pub open spec fn parse_range_spec(value: Seq<char>, total: u64) -> Option<(u64, u64)> {
    let t = trim(value);
    let p = "bytes="@;
    if !(p.len() <= t.len() && t.take(p.len() as int) == p) {
        None
    } else {
        let r = t.skip(p.len() as int);
        if has_char(r, ',') || total == 0 {
            None
        } else {
            let d = index_of(r, '-');
            if d >= r.len() {
                None
            } else {
                let a = trim(r.take(d));
                let b = trim(r.skip(d + 1));
                if a.len() == 0 {
                    match parse_u64_spec(b) {
                        Some(n) => {
                            let n2 = if n < total {
                                n
                            } else {
                                total
                            };
                            Some(((total - n2) as u64, (total - 1) as u64))
                        },
                        None => None,
                    }
                } else {
                    match parse_u64_spec(a) {
                        None => None,
                        Some(start) => if b.len() == 0 {
                            Some((start, (total - 1) as u64))
                        } else {
                            match parse_u64_spec(b) {
                                Some(e) => Some(
                                    (
                                        start,
                                        if e < total - 1 {
                                            e
                                        } else {
                                            (total - 1) as u64
                                        },
                                    ),
                                ),
                                None => None,
                            }
                        },
                    }
                }
            }
        }
    }
}

/// Parses a single-range `bytes=start-end` header into absolute byte offsets.
/// Open-ended forms (`bytes=start-`, `bytes=-suffix`) are resolved against the
/// total size. Returns `None` for multi-range or unparseable values.
pub fn parse_range(value: &str, total: u64) -> (r: Option<(u64, u64)>)
    ensures
        r == parse_range_spec(value@, total),
        r matches Some((s, e)) ==> e < total,
{
    let v = chars_of(value);
    let t = trim_range(v.as_slice(), 0, v.len());
    assert(v@.subrange(0, v.len() as int) =~= v@);
    let p = chars_of("bytes=");
    if !starts_with(t.as_slice(), p.as_slice()) {
        return None;
    }
    let r = sub_chars(t.as_slice(), p.len(), t.len());
    assert(r@ =~= t@.skip(p.len() as int));
    let comma = index_of_from(r.as_slice(), ',', 0);
    assert(r@.skip(0) =~= r@);
    if comma < r.len() || total == 0 {
        return None;
    }
    let d = index_of_from(r.as_slice(), '-', 0);
    if d >= r.len() {
        return None;
    }
    let a = trim_range(r.as_slice(), 0, d);
    let b = trim_range(r.as_slice(), d + 1, r.len());
    assert(r@.subrange(0, d as int) =~= r@.take(d as int));
    assert(r@.subrange(d + 1, r.len() as int) =~= r@.skip(d + 1));
    if a.len() == 0 {
        let n = match parse_u64_range(b.as_slice(), 0, b.len()) {
            Some(n) => n,
            None => {
                assert(b@.subrange(0, b.len() as int) =~= b@);
                return None;
            },
        };
        assert(b@.subrange(0, b.len() as int) =~= b@);
        let n2 = if n < total {
            n
        } else {
            total
        };
        return Some((total - n2, total - 1));
    }
    assert(a@.subrange(0, a.len() as int) =~= a@);
    assert(b@.subrange(0, b.len() as int) =~= b@);
    let start = match parse_u64_range(a.as_slice(), 0, a.len()) {
        Some(s) => s,
        None => return None,
    };
    if b.len() == 0 {
        return Some((start, total - 1));
    }
    let e = match parse_u64_range(b.as_slice(), 0, b.len()) {
        Some(e) => e,
        None => return None,
    };
    let end = if e < total - 1 {
        e
    } else {
        total - 1
    };
    Some((start, end))
}

} // verus!

verus! {

/// The `StreamTitle` in an ICY metadata block, as characters: the text
/// between `StreamTitle='` and the next `';` (or `'`), trimmed, when not empty.
pub open spec fn stream_title_spec(meta: Seq<u8>) -> Option<Seq<char>> {
    let s = lossy_text(meta);
    let key = "StreamTitle='"@;
    match find_spec(s, key) {
        None => None,
        Some(i) => {
            let rest = s.skip(i + key.len());
            let end = match find_spec(rest, "';"@) {
                Some(e) => Some(e),
                None => if has_char(rest, '\'') {
                    Some(index_of(rest, '\''))
                } else {
                    None
                },
            };
            match end {
                None => None,
                Some(e) => {
                    let title = trim(rest.take(e));
                    if title.len() == 0 {
                        None
                    } else {
                        Some(title)
                    }
                },
            }
        },
    }
}

/// Extracts the `StreamTitle` from an ICY metadata block.
pub fn parse_stream_title(meta: &[u8]) -> (r: Option<String>)
    ensures
        match r {
            Some(t) => stream_title_spec(meta@) == Some(t@),
            None => stream_title_spec(meta@) is None,
        },
{
    let s = from_utf8_lossy(meta);
    let c = chars_of(s.as_str());
    let key = chars_of("StreamTitle='");
    let i = match find(c.as_slice(), key.as_slice()) {
        Some(i) => i,
        None => return None,
    };
    assert(occurs_at(c@, key@, i as int));
    let klen = key.len();
    let clen = c.len();
    assert(i + klen <= clen);
    let start = i + klen;
    let rest = sub_chars(c.as_slice(), start, c.len());
    assert(rest@ =~= c@.skip(start as int));
    let close = chars_of("';");
    let end = match find(rest.as_slice(), close.as_slice()) {
        Some(e) => e,
        None => {
            let q = index_of_from(rest.as_slice(), '\'', 0);
            assert(rest@.skip(0) =~= rest@);
            if q >= rest.len() {
                return None;
            }
            q
        },
    };
    proof {
        lemma_index_of_bounds(rest@, '\'');
        if let Some(e) = find_spec(rest@, close@) {
            assert(end == e);
        }
    }
    assert(end <= rest.len()) by {
        if let Some(e) = find_spec(rest@, close@) {
            assert(occurs_at(rest@, close@, end as int));
        }
    }
    let title = trim_range(rest.as_slice(), 0, end);
    assert(rest@.subrange(0, end as int) =~= rest@.take(end as int));
    if title.len() == 0 {
        None
    } else {
        Some(string_of(title.as_slice()))
    }
}

/// The codec that a lower-cased `Content-Type` names.
pub open spec fn codec_for(lower: Seq<char>) -> Option<Seq<char>> {
    if has_sub(lower, "mpeg"@) || has_sub(lower, "mp3"@) {
        Some("MP3"@)
    } else if has_sub(lower, "aac"@) || has_sub(lower, "mp4"@) {
        Some("AAC"@)
    } else if has_sub(lower, "ogg"@) || has_sub(lower, "opus"@) || has_sub(lower, "vorbis"@) {
        Some("OGG"@)
    } else if has_sub(lower, "flac"@) {
        Some("FLAC"@)
    } else {
        None
    }
}

/// The codec name for an already lower-cased `Content-Type`.
pub fn codec_from_lowercase(lower: &str) -> (r: Option<String>)
    ensures
        match r {
            Some(c) => codec_for(lower@) == Some(c@),
            None => codec_for(lower@) is None,
        },
{
    let l = chars_of(lower);
    let h = l.as_slice();
    if contains_str(h, "mpeg") || contains_str(h, "mp3") {
        Some("MP3".to_owned())
    } else if contains_str(h, "aac") || contains_str(h, "mp4") {
        Some("AAC".to_owned())
    } else if contains_str(h, "ogg") || contains_str(h, "opus") || contains_str(h, "vorbis") {
        Some("OGG".to_owned())
    } else if contains_str(h, "flac") {
        Some("FLAC".to_owned())
    } else {
        None
    }
}

/// The codec name (`MP3`, `AAC`, `OGG`, `FLAC`) a stream's `Content-Type`
/// names, compared case-insensitively.
pub fn codec_from_ct(ct: &str) -> (r: Option<String>)
    ensures
        match r {
            Some(c) => codec_for(lowercase(ct@)) == Some(c@),
            None => codec_for(lowercase(ct@)) is None,
        },
{
    let lower = to_lower(ct);
    codec_from_lowercase(lower.as_str())
}

} // verus!

verus! {

/// The audio MIME type served for a lower-cased file extension.
pub open spec fn audio_mime_for(ext: Seq<char>) -> Seq<char> {
    if ext == "mp3"@ {
        "audio/mpeg"@
    } else if ext == "flac"@ {
        "audio/flac"@
    } else if ext == "wav"@ {
        "audio/wav"@
    } else if ext == "ogg"@ || ext == "opus"@ {
        "audio/ogg"@
    } else if ext == "m4a"@ || ext == "aac"@ || ext == "alac"@ {
        "audio/mp4"@
    } else if ext == "aiff"@ || ext == "aif"@ {
        "audio/aiff"@
    } else if ext == "wma"@ {
        "audio/x-ms-wma"@
    } else {
        "application/octet-stream"@
    }
}

/// The audio MIME type for an already lower-cased extension.
pub fn audio_mime_for_ext(ext: &str) -> (r: &'static str)
    ensures
        r@ == audio_mime_for(ext@),
{
    let e = chars_of(ext);
    let e = e.as_slice();
    if eq_str(e, "mp3") {
        "audio/mpeg"
    } else if eq_str(e, "flac") {
        "audio/flac"
    } else if eq_str(e, "wav") {
        "audio/wav"
    } else if eq_str(e, "ogg") || eq_str(e, "opus") {
        "audio/ogg"
    } else if eq_str(e, "m4a") || eq_str(e, "aac") || eq_str(e, "alac") {
        "audio/mp4"
    } else if eq_str(e, "aiff") || eq_str(e, "aif") {
        "audio/aiff"
    } else if eq_str(e, "wma") {
        "audio/x-ms-wma"
    } else {
        "application/octet-stream"
    }
}

/// The audio MIME type served for a file path, by its extension compared
/// case-insensitively (best-effort; players also sniff).
pub fn audio_mime(path: &str) -> (r: &'static str)
    ensures
        r@ == match extension_spec(path@) {
            Some(e) => audio_mime_for(lowercase(e)),
            None => "application/octet-stream"@,
        },
{
    match extension(path) {
        Some(e) => {
            let l = to_lower(e.as_str());
            audio_mime_for_ext(l.as_str())
        },
        None => "application/octet-stream",
    }
}

} // verus!

verus! {

/// Where the proxy sends a request.
pub enum Route {
    /// `/file?path=<abs>`: stream a local file.
    File(String),
    /// `/radio?url=<upstream>`: proxy an internet-radio stream.
    Stream(String),
    /// The parameter the route needs is missing.
    BadRequest,
}

/// The route a request path names: paths starting with `/file` stream the
/// local file in `path`, all others proxy the stream in `url`.
pub open spec fn route_spec(url: Seq<char>) -> (Option<Seq<char>>, bool) {
    let file = "/file"@;
    if file.len() <= url.len() && url.take(file.len() as int) == file {
        (query_param_spec(url, "path"@), true)
    } else {
        (query_param_spec(url, "url"@), false)
    }
}

/// Decides what to do with a request to the proxy.
pub fn route(url: &str) -> (r: Route)
    ensures
        match r {
            Route::File(p) => route_spec(url@) == (Some(p@), true),
            Route::Stream(u) => route_spec(url@) == (Some(u@), false),
            Route::BadRequest => route_spec(url@).0 is None,
        },
{
    let c = chars_of(url);
    let f = chars_of("/file");
    if starts_with(c.as_slice(), f.as_slice()) {
        match query_param(url, "path") {
            Some(p) => Route::File(p),
            None => Route::BadRequest,
        }
    } else {
        match url_param(url) {
            Some(u) => Route::Stream(u),
            None => Route::BadRequest,
        }
    }
}

/// How a local file is answered.
pub enum FileReply {
    /// `206 Partial Content` for bytes `start..=end`, `len` bytes long.
    Partial { start: u64, end: u64, len: u64 },
    /// `200 OK` with the whole file.
    Whole,
}

/// A satisfiable range gets a partial reply; anything else the whole file.
pub fn plan_file_reply(range: Option<(u64, u64)>, total: u64) -> (r: FileReply)
    ensures
        match range {
            Some((s, e)) if s <= e && e < total => r == FileReply::Partial {
                start: s,
                end: e,
                len: (e - s + 1) as u64,
            },
            _ => r == FileReply::Whole,
        },
{
    match range {
        Some((start, end)) if start <= end && end < total => FileReply::Partial {
            start,
            end,
            len: end - start + 1,
        },
        _ => FileReply::Whole,
    }
}

/// The `Content-Range` header value `bytes start-end/total`.
pub fn content_range(start: u64, end: u64, total: u64) -> (r: String)
    ensures
        r@ == "bytes "@ + decimal(start as nat) + "-"@ + decimal(end as nat) + "/"@ + decimal(
            total as nat,
        ),
{
    let mut v: Vec<char> = Vec::new();
    push_str(&mut v, "bytes ");
    push_digits(&mut v, start as u128, 10);
    push_str(&mut v, "-");
    push_digits(&mut v, end as u128, 10);
    push_str(&mut v, "/");
    push_digits(&mut v, total as u128, 10);
    string_of(v.as_slice())
}

/// Auth and not-found failures (401, 403, 404, 410) are permanent; everything
/// else, including failing to connect at all (`None`), is worth retrying.
pub fn is_permanent(status: Option<u16>) -> (r: bool)
    ensures
        r == (status == Some(401u16) || status == Some(403u16) || status == Some(404u16)
            || status == Some(410u16)),
{
    match status {
        Some(c) => c == 401 || c == 403 || c == 404 || c == 410,
        None => false,
    }
}

/// The message shown for a failed connection: by HTTP status, or a generic
/// one when no status came back.
pub open spec fn friendly_error_spec(status: Option<u16>) -> Seq<char> {
    match status {
        Some(c) => if c == 401 || c == 403 {
            "Akses ditolak (HTTP "@ + decimal(c as nat)
                + ") \u{2014} URL/token mungkin kedaluwarsa"@
        } else if c == 404 {
            "Stream tidak ditemukan (404)"@
        } else {
            "Server menolak (HTTP "@ + decimal(c as nat) + ")"@
        },
        None => "Gagal terhubung ke server"@,
    }
}

/// A short, human-readable Indonesian message for a connection failure.
pub fn friendly_error(status: Option<u16>) -> (r: String)
    ensures
        r@ == friendly_error_spec(status),
{
    match status {
        Some(c) => {
            let mut v: Vec<char> = Vec::new();
            if c == 401 || c == 403 {
                push_str(&mut v, "Akses ditolak (HTTP ");
                push_digits(&mut v, c as u128, 10);
                push_str(&mut v, ") \u{2014} URL/token mungkin kedaluwarsa");
            } else if c == 404 {
                push_str(&mut v, "Stream tidak ditemukan (404)");
            } else {
                push_str(&mut v, "Server menolak (HTTP ");
                push_digits(&mut v, c as u128, 10);
                push_str(&mut v, ")");
            }
            string_of(v.as_slice())
        },
        None => "Gagal terhubung ke server".to_owned(),
    }
}

} // verus!

verus! {

/// `s` up to its first `c` (what `s.split(c).next()` gives).
pub open spec fn before_char(s: Seq<char>, c: char) -> Seq<char> {
    s.take(index_of(s, c))
}

/// What the upstream headers tell about a stream.
pub struct StreamInfo {
    /// `Content-Type`, `audio/mpeg` when absent.
    pub content_type: String,
    /// `icy-metaint`: audio bytes between metadata blocks, `0` for none.
    pub metaint: usize,
    /// `icy-br`: bitrate in kbps (the first of a comma-separated list).
    pub bitrate: Option<u32>,
    /// `icy-name`, trimmed, when not empty.
    pub name: Option<String>,
    /// The codec the content type names.
    pub codec: Option<String>,
}

/// The `icy-metaint` value: a trimmed unsigned integer, `0` when absent or
/// unparseable.
pub open spec fn metaint_spec(v: Option<Seq<char>>) -> usize {
    match v {
        Some(s) => match parse_u64_spec(trim(s)) {
            Some(n) => if n <= usize::MAX {
                n as usize
            } else {
                0
            },
            None => 0,
        },
        None => 0,
    }
}

/// The `icy-br` value: the first comma-separated field, trimmed, as a `u32`.
pub open spec fn bitrate_spec(v: Option<Seq<char>>) -> Option<u32> {
    match v {
        Some(s) => match parse_u64_spec(trim(before_char(s, ','))) {
            Some(n) => if n <= u32::MAX {
                Some(n as u32)
            } else {
                None
            },
            None => None,
        },
        None => None,
    }
}

/// The `icy-name` value, trimmed, when not empty.
pub open spec fn name_spec(v: Option<Seq<char>>) -> Option<Seq<char>> {
    match v {
        Some(s) => if trim(s).len() > 0 {
            Some(trim(s))
        } else {
            None
        },
        None => None,
    }
}

pub open spec fn opt_view(v: Option<&str>) -> Option<Seq<char>> {
    match v {
        Some(s) => Some(s@),
        None => None,
    }
}

pub open spec fn opt_string_view(v: Option<String>) -> Option<Seq<char>> {
    match v {
        Some(s) => Some(s@),
        None => None,
    }
}

fn trimmed(s: &str) -> (r: Vec<char>)
    ensures
        r@ == trim(s@),
{
    let c = chars_of(s);
    assert(c@.subrange(0, c.len() as int) =~= c@);
    trim_range(c.as_slice(), 0, c.len())
}

/// Reads the stream facts from the upstream response headers.
pub fn stream_info(
    content_type: Option<&str>,
    icy_metaint: Option<&str>,
    icy_br: Option<&str>,
    icy_name: Option<&str>,
) -> (r: StreamInfo)
    ensures
        r.content_type@ == match content_type {
            Some(c) => c@,
            None => "audio/mpeg"@,
        },
        r.metaint == metaint_spec(opt_view(icy_metaint)),
        r.bitrate == bitrate_spec(opt_view(icy_br)),
        opt_string_view(r.name) == name_spec(opt_view(icy_name)),
        opt_string_view(r.codec) == codec_for(lowercase(r.content_type@)),
{
    let ct = match content_type {
        Some(c) => c.to_owned(),
        None => "audio/mpeg".to_owned(),
    };
    let metaint: usize = match icy_metaint {
        Some(v) => {
            let t = trimmed(v);
            assert(t@.subrange(0, t.len() as int) =~= t@);
            match parse_u64_range(t.as_slice(), 0, t.len()) {
                Some(n) => if n <= usize::MAX as u64 {
                    n as usize
                } else {
                    0
                },
                None => 0,
            }
        },
        None => 0,
    };
    let bitrate: Option<u32> = match icy_br {
        Some(v) => {
            let c = chars_of(v);
            let comma = index_of_from(c.as_slice(), ',', 0);
            assert(c@.skip(0) =~= c@);
            let t = trim_range(c.as_slice(), 0, comma);
            assert(c@.subrange(0, comma as int) =~= before_char(c@, ','));
            assert(t@.subrange(0, t.len() as int) =~= t@);
            match parse_u64_range(t.as_slice(), 0, t.len()) {
                Some(n) => if n <= u32::MAX as u64 {
                    Some(n as u32)
                } else {
                    None
                },
                None => None,
            }
        },
        None => None,
    };
    let name = match icy_name {
        Some(v) => {
            let t = trimmed(v);
            if t.len() > 0 {
                Some(string_of(t.as_slice()))
            } else {
                None
            }
        },
        None => None,
    };
    let codec = codec_from_ct(ct.as_str());
    StreamInfo { content_type: ct, metaint, bitrate, name, codec }
}

} // verus!

verus! {

/// Where a reader that strips ICY metadata stands in the stream: `metaint`
/// audio bytes, then one length byte `L`, then `16·L` metadata bytes, over
/// and over (`metaint` 0: the stream has no metadata).
pub struct IcyModel {
    pub metaint: nat,
    /// Audio bytes left before the next length byte.
    pub until: nat,
    /// Metadata bytes left to skip (0: none pending).
    pub meta: nat,
    /// The last title reported.
    pub last_title: Option<Seq<char>>,
}

/// The model's invariant: inside a metadata block no audio is pending, and
/// never more audio is pending than a whole block.
pub open spec fn icy_model_wf(m: IcyModel) -> bool {
    if m.metaint == 0 {
        m.until == 0 && m.meta == 0
    } else {
        m.until <= m.metaint && (m.meta > 0 ==> m.until == 0) && m.meta <= 16 * 255
    }
}

/// One byte of the stream: the position after it, and whether it is audio
/// that reaches the client.
pub open spec fn icy_byte(metaint: nat, until: nat, meta: nat, x: u8) -> (nat, nat, bool) {
    if metaint == 0 {
        (until, meta, true)
    } else if meta > 0 {
        if meta == 1 {
            (metaint, 0, false)
        } else {
            (until, (meta - 1) as nat, false)
        }
    } else if until == 0 {
        if x == 0 {
            (metaint, 0, false)
        } else {
            (0, 16 * x as nat, false)
        }
    } else {
        ((until - 1) as nat, 0, true)
    }
}

/// The audio bytes of `s` read from position (`until`, `meta`).
pub open spec fn icy_strip_from(metaint: nat, until: nat, meta: nat, s: Seq<u8>) -> Seq<u8>
    decreases s.len(),
{
    if s.len() == 0 {
        Seq::empty()
    } else {
        let (u, m, keep) = icy_byte(metaint, until, meta, s[0]);
        let rest = icy_strip_from(metaint, u, m, s.drop_first());
        if keep {
            seq![s[0]] + rest
        } else {
            rest
        }
    }
}

/// The position after reading `s` from position (`until`, `meta`).
pub open spec fn icy_advance(metaint: nat, until: nat, meta: nat, s: Seq<u8>) -> (nat, nat)
    decreases s.len(),
{
    if s.len() == 0 {
        (until, meta)
    } else {
        let (u, m, keep) = icy_byte(metaint, until, meta, s[0]);
        icy_advance(metaint, u, m, s.drop_first())
    }
}

/// The audio of a stream from its start: every length byte and metadata
/// block removed, the audio kept in order.
pub open spec fn icy_strip(metaint: nat, stream: Seq<u8>) -> Seq<u8> {
    icy_strip_from(metaint, metaint, 0, stream)
}

/// What a stripping reader does next.
#[derive(Clone, Copy, PartialEq, Eq, Structural, Debug)]
pub enum IcyStep {
    /// No metadata in this stream: read straight into the caller's buffer.
    Pass,
    /// Read the one length byte of the next metadata block.
    LenByte,
    /// Read the `n` bytes of a metadata block.
    Meta(usize),
    /// Read at most `n` audio bytes into the caller's buffer.
    Audio(usize),
}

/// The next step for a caller's buffer of `buf_len` bytes: audio never runs
/// past the next metadata block.
pub open spec fn icy_next(m: IcyModel, buf_len: nat) -> IcyStep {
    if m.metaint == 0 {
        IcyStep::Pass
    } else if m.meta > 0 {
        IcyStep::Meta(m.meta as usize)
    } else if m.until == 0 {
        IcyStep::LenByte
    } else {
        IcyStep::Audio(
            (if buf_len < m.until {
                buf_len
            } else {
                m.until
            }) as usize,
        )
    }
}

/// The bytes `b` are what the step `step` reads at `m`.
pub open spec fn icy_fits(m: IcyModel, step: IcyStep, b: Seq<u8>) -> bool {
    match step {
        IcyStep::Pass => m.metaint == 0,
        IcyStep::LenByte => m.metaint > 0 && m.meta == 0 && m.until == 0 && b.len() == 1,
        IcyStep::Meta(n) => m.metaint > 0 && m.meta > 0 && n == m.meta && b.len() == n,
        IcyStep::Audio(n) => m.metaint > 0 && m.meta == 0 && b.len() <= n && n <= m.until,
    }
}

/// The position after a step read `b`, and the title it reports: a
/// metadata block's `StreamTitle` when it parses and differs from the last
/// one reported.
pub open spec fn icy_after(m: IcyModel, step: IcyStep, b: Seq<u8>) -> (IcyModel, Option<Seq<char>>) {
    match step {
        IcyStep::Pass => (m, None),
        IcyStep::LenByte => if b[0] == 0 {
            (IcyModel { until: m.metaint, ..m }, None)
        } else {
            (IcyModel { meta: 16 * b[0] as nat, ..m }, None)
        },
        IcyStep::Meta(_) => {
            let m2 = IcyModel { until: m.metaint, meta: 0, ..m };
            match stream_title_spec(b) {
                Some(t) => if m.last_title == Some(t) {
                    (m2, None)
                } else {
                    (IcyModel { last_title: Some(t), ..m2 }, Some(t))
                },
                None => (m2, None),
            }
        },
        IcyStep::Audio(_) => (IcyModel { until: (m.until - b.len()) as nat, ..m }, None),
    }
}

/// The bytes of a step that reach the client: audio and passed-through bytes.
pub open spec fn icy_delivered(step: IcyStep, b: Seq<u8>) -> Seq<u8> {
    match step {
        IcyStep::Pass | IcyStep::Audio(_) => b,
        _ => Seq::empty(),
    }
}

/// The reader that strips interleaved ICY metadata. The reads themselves
/// are the caller's: it asks `next_step` what to read and hands the bytes
/// to `feed`.
pub struct IcyState {
    metaint: usize,
    until_meta: usize,
    meta_left: usize,
    last_title: Option<String>,
}

impl IcyState {
    /// Where the reader stands.
    pub closed spec fn spec(&self) -> IcyModel {
        IcyModel {
            metaint: self.metaint as nat,
            until: self.until_meta as nat,
            meta: self.meta_left as nat,
            last_title: opt_string_view(self.last_title),
        }
    }

    pub closed spec fn wf(&self) -> bool {
        icy_model_wf(self.spec())
    }

    /// A fresh stream: a whole block of audio comes first, no title yet.
    pub fn new(metaint: usize) -> (r: Self)
        ensures
            r.wf(),
            r.spec() == (IcyModel { metaint: metaint as nat, until: metaint as nat, meta: 0, last_title: None }),
    {
        IcyState { metaint, until_meta: metaint, meta_left: 0, last_title: None }
    }

    /// What to read next into a buffer of `buf_len` bytes.
    pub fn next_step(&self, buf_len: usize) -> (r: IcyStep)
        requires
            self.wf(),
        ensures
            r == icy_next(self.spec(), buf_len as nat),
    {
        if self.metaint == 0 {
            IcyStep::Pass
        } else if self.meta_left > 0 {
            IcyStep::Meta(self.meta_left)
        } else if self.until_meta == 0 {
            IcyStep::LenByte
        } else if buf_len < self.until_meta {
            IcyStep::Audio(buf_len)
        } else {
            IcyStep::Audio(self.until_meta)
        }
    }

    /// The bytes a step read: the position moves on, and a metadata block
    /// whose title is new returns that title to be reported.
    pub fn feed(&mut self, step: IcyStep, bytes: &[u8]) -> (r: Option<String>)
        requires
            old(self).wf(),
            icy_fits(old(self).spec(), step, bytes@),
        ensures
            final(self).wf(),
            (final(self).spec(), opt_string_view(r)) == icy_after(old(self).spec(), step, bytes@),
    {
        match step {
            IcyStep::Pass => None,
            IcyStep::LenByte => {
                if bytes[0] == 0 {
                    self.until_meta = self.metaint;
                } else {
                    self.meta_left = bytes[0] as usize * 16;
                }
                None
            },
            IcyStep::Meta(_) => {
                self.until_meta = self.metaint;
                self.meta_left = 0;
                match parse_stream_title(bytes) {
                    Some(title) => {
                        let same = match &self.last_title {
                            Some(l) => *l == title,
                            None => false,
                        };
                        if same {
                            None
                        } else {
                            self.last_title = Some(title.clone());
                            Some(title)
                        }
                    },
                    None => None,
                }
            },
            IcyStep::Audio(_) => {
                self.until_meta = self.until_meta - bytes.len();
                None
            },
        }
    }
}

proof fn lemma_strip_concat(metaint: nat, until: nat, meta: nat, a: Seq<u8>, b: Seq<u8>)
    ensures
        icy_strip_from(metaint, until, meta, a + b) == icy_strip_from(metaint, until, meta, a)
            + icy_strip_from(metaint, icy_advance(metaint, until, meta, a).0, icy_advance(metaint, until, meta, a).1, b),
        icy_advance(metaint, until, meta, a + b) == icy_advance(
            metaint,
            icy_advance(metaint, until, meta, a).0,
            icy_advance(metaint, until, meta, a).1,
            b,
        ),
    decreases a.len(),
{
    if a.len() == 0 {
        assert(a + b =~= b);
    } else {
        let (u, m, keep) = icy_byte(metaint, until, meta, a[0]);
        assert((a + b)[0] == a[0]);
        assert((a + b).drop_first() =~= a.drop_first() + b);
        lemma_strip_concat(metaint, u, m, a.drop_first(), b);
    }
}

proof fn lemma_pass(metaint: nat, until: nat, meta: nat, b: Seq<u8>)
    requires
        metaint == 0,
    ensures
        icy_strip_from(metaint, until, meta, b) == b,
        icy_advance(metaint, until, meta, b) == (until, meta),
    decreases b.len(),
{
    if b.len() > 0 {
        lemma_pass(metaint, until, meta, b.drop_first());
        assert(b =~= seq![b[0]] + b.drop_first());
    }
}

proof fn lemma_audio(metaint: nat, until: nat, b: Seq<u8>)
    requires
        metaint > 0,
        b.len() <= until,
    ensures
        icy_strip_from(metaint, until, 0, b) == b,
        icy_advance(metaint, until, 0, b) == ((until - b.len()) as nat, 0nat),
    decreases b.len(),
{
    if b.len() > 0 {
        lemma_audio(metaint, (until - 1) as nat, b.drop_first());
        assert(b =~= seq![b[0]] + b.drop_first());
    }
}

proof fn lemma_meta(metaint: nat, meta: nat, b: Seq<u8>)
    requires
        metaint > 0,
        meta > 0,
        b.len() <= meta,
    ensures
        icy_strip_from(metaint, 0, meta, b) == Seq::<u8>::empty(),
        icy_advance(metaint, 0, meta, b) == (if b.len() == meta {
            (metaint, 0nat)
        } else {
            (0nat, (meta - b.len()) as nat)
        }),
    decreases b.len(),
{
    if b.len() > 0 {
        if meta == 1 {
            assert(icy_byte(metaint, 0, meta, b[0]) == (metaint, 0nat, false));
            assert(b.drop_first().len() == 0);
            assert(icy_strip_from(metaint, metaint, 0, b.drop_first()) == Seq::<u8>::empty());
            assert(icy_advance(metaint, metaint, 0, b.drop_first()) == (metaint, 0nat));
        } else {
            assert(icy_byte(metaint, 0, meta, b[0]) == (0nat, (meta - 1) as nat, false));
            lemma_meta(metaint, (meta - 1) as nat, b.drop_first());
        }
    } else {
        assert(icy_strip_from(metaint, 0, meta, b) == Seq::<u8>::empty());
    }
}

/// One step reads exactly its share of the stream: the bytes it delivers are
/// the stripped audio of what it read, and its new position is where the
/// stream's framing puts it.
pub proof fn lemma_icy_step(m: IcyModel, step: IcyStep, b: Seq<u8>)
    requires
        icy_model_wf(m),
        icy_fits(m, step, b),
    ensures
        icy_model_wf(icy_after(m, step, b).0),
        icy_after(m, step, b).0.metaint == m.metaint,
        icy_delivered(step, b) == icy_strip_from(m.metaint, m.until, m.meta, b),
        (icy_after(m, step, b).0.until, icy_after(m, step, b).0.meta) == icy_advance(m.metaint, m.until, m.meta, b),
{
    match step {
        IcyStep::Pass => {
            lemma_pass(m.metaint, m.until, m.meta, b);
        },
        IcyStep::LenByte => {
            let e = b.drop_first();
            assert(e.len() == 0);
            assert(b[0] <= 255);
            if b[0] == 0 {
                assert(icy_byte(m.metaint, 0, 0, b[0]) == (m.metaint, 0nat, false));
                assert(icy_strip_from(m.metaint, m.metaint, 0, e) == Seq::<u8>::empty());
                assert(icy_advance(m.metaint, m.metaint, 0, e) == (m.metaint, 0nat));
            } else {
                assert(icy_byte(m.metaint, 0, 0, b[0]) == (0nat, 16 * b[0] as nat, false));
                assert(icy_strip_from(m.metaint, 0, 16 * b[0] as nat, e) == Seq::<u8>::empty());
                assert(icy_advance(m.metaint, 0, 16 * b[0] as nat, e) == (0nat, 16 * b[0] as nat));
            }
        },
        IcyStep::Meta(n) => {
            lemma_meta(m.metaint, m.meta, b);
        },
        IcyStep::Audio(n) => {
            lemma_audio(m.metaint, m.until, b);
        },
    }
}

/// The position after a run of steps, each with the bytes it read.
pub open spec fn icy_run(m: IcyModel, steps: Seq<(IcyStep, Seq<u8>)>) -> IcyModel
    decreases steps.len(),
{
    if steps.len() == 0 {
        m
    } else {
        icy_after(icy_run(m, steps.drop_last()), steps.last().0, steps.last().1).0
    }
}

/// Every step of the run reads what its position calls for.
pub open spec fn icy_run_fits(m: IcyModel, steps: Seq<(IcyStep, Seq<u8>)>) -> bool
    decreases steps.len(),
{
    steps.len() == 0 || (icy_run_fits(m, steps.drop_last()) && icy_fits(
        icy_run(m, steps.drop_last()),
        steps.last().0,
        steps.last().1,
    ))
}

/// The upstream bytes a run read, in order.
pub open spec fn icy_consumed(steps: Seq<(IcyStep, Seq<u8>)>) -> Seq<u8>
    decreases steps.len(),
{
    if steps.len() == 0 {
        Seq::empty()
    } else {
        icy_consumed(steps.drop_last()) + steps.last().1
    }
}

/// The bytes a run handed to the client, in order.
pub open spec fn icy_output(steps: Seq<(IcyStep, Seq<u8>)>) -> Seq<u8>
    decreases steps.len(),
{
    if steps.len() == 0 {
        Seq::empty()
    } else {
        icy_output(steps.drop_last()) + icy_delivered(steps.last().0, steps.last().1)
    }
}

/// The titles a run reported, in order.
pub open spec fn icy_titles(m: IcyModel, steps: Seq<(IcyStep, Seq<u8>)>) -> Seq<Seq<char>>
    decreases steps.len(),
{
    if steps.len() == 0 {
        Seq::empty()
    } else {
        let pre = icy_titles(m, steps.drop_last());
        match icy_after(icy_run(m, steps.drop_last()), steps.last().0, steps.last().1).1 {
            Some(t) => pre.push(t),
            None => pre,
        }
    }
}

proof fn lemma_icy_run(m: IcyModel, steps: Seq<(IcyStep, Seq<u8>)>)
    requires
        icy_model_wf(m),
        icy_run_fits(m, steps),
    ensures
        icy_model_wf(icy_run(m, steps)),
        icy_run(m, steps).metaint == m.metaint,
        icy_output(steps) == icy_strip_from(m.metaint, m.until, m.meta, icy_consumed(steps)),
        (icy_run(m, steps).until, icy_run(m, steps).meta) == icy_advance(m.metaint, m.until, m.meta, icy_consumed(steps)),
        icy_run(m, steps).last_title == (if icy_titles(m, steps).len() > 0 {
            Some(icy_titles(m, steps).last())
        } else {
            m.last_title
        }),
    decreases steps.len(),
{
    if steps.len() > 0 {
        let pre = steps.drop_last();
        lemma_icy_run(m, pre);
        let p = icy_run(m, pre);
        let (st, b) = steps.last();
        lemma_icy_step(p, st, b);
        lemma_strip_concat(m.metaint, m.until, m.meta, icy_consumed(pre), b);
    }
}

/// The stripped stream: whatever the sizes of the caller's buffers, a run of
/// `next_step`/`feed` from the start of a stream hands the client exactly
/// the stream's audio with every length byte and metadata block removed,
/// in order; and a title is reported exactly when a block's `StreamTitle`
/// parses and differs from the last one reported (see `icy_after`), so the
/// reader's last title is always the last one reported.
pub proof fn law_icy_strip(metaint: nat, steps: Seq<(IcyStep, Seq<u8>)>)
    requires
        metaint <= usize::MAX,
        icy_run_fits(IcyModel { metaint, until: metaint, meta: 0, last_title: None }, steps),
    ensures
        icy_output(steps) == icy_strip(metaint, icy_consumed(steps)),
        icy_run(IcyModel { metaint, until: metaint, meta: 0, last_title: None }, steps).last_title == (if icy_titles(
            IcyModel { metaint, until: metaint, meta: 0, last_title: None },
            steps,
        ).len() > 0 {
            Some(icy_titles(IcyModel { metaint, until: metaint, meta: 0, last_title: None }, steps).last())
        } else {
            None
        }),
{
    lemma_icy_run(IcyModel { metaint, until: metaint, meta: 0, last_title: None }, steps);
}

/// A step read with `next_step` for a buffer of any size fits the reader's
/// position, so a reader driven by `next_step` runs as `law_icy_strip`
/// describes; its audio steps never read past the caller's buffer.
pub proof fn law_icy_next_fits(m: IcyModel, buf_len: nat, b: Seq<u8>)
    requires
        icy_model_wf(m),
        icy_next(m, buf_len) matches IcyStep::Audio(n) ==> b.len() <= n,
        icy_next(m, buf_len) is LenByte ==> b.len() == 1,
        icy_next(m, buf_len) matches IcyStep::Meta(n) ==> b.len() == n,
        m.meta <= usize::MAX && m.until <= usize::MAX,
    ensures
        icy_fits(m, icy_next(m, buf_len), b),
        icy_next(m, buf_len) matches IcyStep::Audio(n) ==> n <= buf_len,
{
}

} // verus!

verus! {

/// What one read into the unfilled rest of a buffer gave.
#[derive(Clone, Copy, PartialEq, Eq, Structural, Debug)]
pub enum ReadResult {
    /// `n` bytes arrived (`0`: the stream ended).
    Data(usize),
    /// The read was interrupted before anything arrived.
    Interrupted,
}

/// Where filling a buffer stands.
#[derive(Clone, Copy, PartialEq, Eq, Structural, Debug)]
pub enum FillStep {
    /// Read again into the buffer from offset `filled`.
    Again(usize),
    /// The buffer is full.
    Full,
    /// The stream ended before the buffer was full.
    Eof,
}

/// The first step of filling a buffer of `len` bytes: an empty buffer is
/// full at once.
pub fn fill_start(len: usize) -> (r: FillStep)
    ensures
        r == (if len == 0 {
            FillStep::Full
        } else {
            FillStep::Again(0)
        }),
{
    if len == 0 {
        FillStep::Full
    } else {
        FillStep::Again(0)
    }
}

/// Where filling stands after a read into the rest of a `len`-byte buffer
/// that held `filled` bytes.
pub open spec fn fill_next(filled: nat, len: nat, got: ReadResult) -> FillStep {
    match got {
        ReadResult::Interrupted => FillStep::Again(filled as usize),
        ReadResult::Data(n) => if n == 0 {
            FillStep::Eof
        } else if filled + n == len {
            FillStep::Full
        } else {
            FillStep::Again((filled + n) as usize)
        },
    }
}

/// Filling a `len`-byte buffer completely, after a read into its rest when
/// `filled` bytes were in: an end of stream stops it, an interruption reads
/// again, and data moves the offset on until the buffer is full.
pub fn read_full(filled: usize, len: usize, got: ReadResult) -> (r: FillStep)
    requires
        filled < len,
        got matches ReadResult::Data(n) ==> n <= len - filled,
    ensures
        r == fill_next(filled as nat, len as nat, got),
        r matches FillStep::Again(f) ==> f < len,
{
    match got {
        ReadResult::Interrupted => FillStep::Again(filled),
        ReadResult::Data(n) => {
            if n == 0 {
                FillStep::Eof
            } else if filled + n == len {
                FillStep::Full
            } else {
                FillStep::Again(filled + n)
            }
        },
    }
}

} // verus!

verus! {

proof fn lemma_hex_round_trip(d: u8)
    requires
        d < 16,
    ensures
        hex_digit(crate::library::hex_upper(d)) == Some(d),
{
}

/// Percent-decoding undoes the escaping of a path into a `file://` URL:
/// what `file_uri` writes reads back as the same bytes.
pub proof fn law_decode_undoes_escape(b: Seq<u8>)
    ensures
        percent_decode_bytes(crate::library::uri_escape(b)) == b,
    decreases b.len(),
{
    if b.len() > 0 {
        let rest = crate::library::uri_escape(b.skip(1));
        law_decode_undoes_escape(b.skip(1));
        let e = crate::library::uri_escape(b);
        if crate::library::uri_keeps(b[0]) {
            assert(e == seq![b[0]] + rest);
            assert(e.skip(1) =~= rest);
            assert(percent_decode_bytes(e) == seq![b[0]] + percent_decode_bytes(rest));
        } else {
            let hi = (b[0] / 16) as u8;
            let lo = (b[0] % 16) as u8;
            lemma_hex_round_trip(hi);
            lemma_hex_round_trip(lo);
            assert(e == seq![37u8, crate::library::hex_upper(hi), crate::library::hex_upper(lo)] + rest);
            assert(e.skip(3) =~= rest);
            assert(e[1] == crate::library::hex_upper(hi));
            assert(e[2] == crate::library::hex_upper(lo));
            assert((hi * 16 + lo) as u8 == b[0]);
            assert(percent_decode_bytes(e) == seq![b[0]] + percent_decode_bytes(rest));
        }
        assert(b =~= seq![b[0]] + b.skip(1));
    }
}

} // verus!

verus! {

/// Where filling a `len`-byte buffer stands after the reads `gots`.
pub open spec fn fill_run(len: nat, gots: Seq<ReadResult>) -> FillStep
    decreases gots.len(),
{
    if gots.len() == 0 {
        if len == 0 {
            FillStep::Full
        } else {
            FillStep::Again(0)
        }
    } else {
        match fill_run(len, gots.drop_last()) {
            FillStep::Again(f) => fill_next(f as nat, len, gots.last()),
            other => other,
        }
    }
}

/// The bytes the reads `gots` brought.
pub open spec fn data_total(gots: Seq<ReadResult>) -> nat
    decreases gots.len(),
{
    if gots.len() == 0 {
        0
    } else {
        data_total(gots.drop_last()) + match gots.last() {
            ReadResult::Data(n) => n as nat,
            ReadResult::Interrupted => 0nat,
        }
    }
}

/// No read of `gots` reports the end of the stream.
pub open spec fn no_eof(gots: Seq<ReadResult>) -> bool {
    forall|i: int| 0 <= i < gots.len() ==> gots[i] != ReadResult::Data(0)
}

/// Filling a buffer: each read lands right after the bytes before it, the
/// buffer is full exactly when `len` bytes have arrived, and an end of
/// stream before that stops the filling.
pub proof fn law_fill_run(len: usize, gots: Seq<ReadResult>)
    requires
        len > 0,
        no_eof(gots),
        data_total(gots) <= len,
    ensures
        fill_run(len as nat, gots) == (if data_total(gots) == len {
            FillStep::Full
        } else {
            FillStep::Again(data_total(gots) as usize)
        }),
        fill_run(len as nat, gots.push(ReadResult::Data(0))) == (if data_total(gots) == len {
            FillStep::Full
        } else {
            FillStep::Eof
        }),
    decreases gots.len(),
{
    if gots.len() > 0 {
        let pre = gots.drop_last();
        assert forall|i: int| 0 <= i < pre.len() implies pre[i] != ReadResult::Data(0) by {
            assert(pre[i] == gots[i]);
        }
        law_fill_run(len, pre);
        assert(gots[gots.len() - 1] == gots.last());
    }
    assert(gots.push(ReadResult::Data(0)).drop_last() =~= gots);
}

} // verus!

verus! {

/// Every byte of `b` written as `%XY`, upper-case hex.
pub open spec fn pct_bytes(b: Seq<u8>) -> Seq<u8>
    decreases b.len(),
{
    if b.len() == 0 {
        seq![]
    } else {
        seq![37u8, crate::library::hex_upper(b[0] / 16), crate::library::hex_upper(b[0] % 16)] + pct_bytes(b.skip(1))
    }
}

proof fn lemma_pct_bytes(b: Seq<u8>)
    ensures
        percent_decode_bytes(pct_bytes(b)) == b,
        forall|i: int| 0 <= i < pct_bytes(b).len() ==> {
            let x = #[trigger] pct_bytes(b)[i];
            x == 37 || (48 <= x <= 57) || (65 <= x <= 70)
        },
    decreases b.len(),
{
    if b.len() > 0 {
        let rest = pct_bytes(b.skip(1));
        lemma_pct_bytes(b.skip(1));
        let e = pct_bytes(b);
        let hi = (b[0] / 16) as u8;
        let lo = (b[0] % 16) as u8;
        lemma_hex_round_trip(hi);
        lemma_hex_round_trip(lo);
        assert(e == seq![37u8, crate::library::hex_upper(hi), crate::library::hex_upper(lo)] + rest);
        assert(e.skip(3) =~= rest);
        assert(e[1] == crate::library::hex_upper(hi));
        assert(e[2] == crate::library::hex_upper(lo));
        assert((hi * 16 + lo) as u8 == b[0]);
        assert(percent_decode_bytes(e) == seq![b[0]] + percent_decode_bytes(rest));
        assert(b =~= seq![b[0]] + b.skip(1));
        assert forall|i: int| 0 <= i < e.len() implies {
            let x = #[trigger] e[i];
            x == 37 || (48 <= x <= 57) || (65 <= x <= 70)
        } by {
            if i >= 3 {
                assert(e[i] == rest[i - 3]);
            }
        }
    }
}

/// A query value `v` percent-encoded byte by byte (`%XY` for every byte
/// of its UTF-8), as a browser's encoder may send it.
pub open spec fn pct_encode(v: Seq<char>) -> Seq<char> {
    crate::library::ascii_chars(pct_bytes(vstd::utf8::encode_utf8(v)))
}

/// Reading back an encoded query parameter: `query_param` on
/// `/x?key=<every byte of v as %XY>` gives `v`, for a key without `?`, `&`
/// or `=`.
pub proof fn law_query_round_trip(key: Seq<char>, v: Seq<char>)
    requires
        key.len() > 0,
        forall|i: int| 0 <= i < key.len() ==> key[i] != '?' && key[i] != '&' && key[i] != '=',
    ensures
        query_param_spec("/x?"@ + key + "="@ + pct_encode(v), key) == Some(v),
{
    broadcast use vstd::utf8::group_utf8_lib;
    reveal_strlit("/x?");
    reveal_strlit("=");
    let b = vstd::utf8::encode_utf8(v);
    let pb = pct_bytes(b);
    lemma_pct_bytes(b);
    let e = pct_encode(v);
    assert(e.len() == pb.len());
    assert forall|i: int| 0 <= i < e.len() implies e[i] != '&' && '\0' <= #[trigger] e[i] <= '\u{7f}' by {
        assert(e[i] == pb[i] as char);
        let x = pb[i];
        assert(x == 37 || (48 <= x <= 57) || (65 <= x <= 70));
    }
    assert(vstd::utf8::is_ascii_chars(e));
    assert(vstd::utf8::encode_utf8(e) =~= pb) by {
        assert forall|i: int| 0 <= i < e.len() implies vstd::utf8::encode_utf8(e)[i] == pb[i] by {
            assert(e[i] == pb[i] as char);
            assert(e[i] as u8 == vstd::utf8::encode_utf8(e)[i]);
        }
    }
    let s = "/x?"@ + key + "="@ + e;
    lemma_index_of(s, '?', 2);
    let q = s.skip(3);
    assert(q =~= key + "="@ + e);
    assert forall|j: int| 0 <= j < q.len() implies q[j] != '&' by {
        if j < key.len() {
            assert(q[j] == key[j]);
        } else if j == key.len() {
            assert(q[j] == '=');
        } else {
            assert(q[j] == e[j - key.len() - 1]);
        }
    }
    lemma_index_of(q, '&', q.len() as int);
    let prefix = key.push('=');
    assert(q.take(q.len() as int) =~= q);
    assert(q.take(prefix.len() as int) =~= prefix);
    assert(q.skip(prefix.len() as int) =~= e);
    assert(find_pair(q, prefix) == Some(e));
    assert(percent_decode_spec(e) == v);
}

} // verus!
