//! Cover art for the webview build: image MIME types, the file names a
//! folder cover may have, and data URIs.
use vstd::prelude::*;
use base64::Engine;
use crate::paths::{extension, extension_spec};
use crate::text::{chars_of, eq_str, lowercase, push_str, string_of, to_lower};

verus! {

/// The character for a 6-bit value in the standard base64 alphabet.
pub open spec fn b64_char(v: int) -> char {
    if v < 26 {
        (65 + v) as char
    } else if v < 52 {
        (71 + v) as char
    } else if v < 62 {
        (v - 4) as char
    } else if v == 62 {
        '+'
    } else {
        '/'
    }
}

/// Standard base64 (RFC 4648 alphabet, `=` padding): every 3 bytes become 4
/// characters; a final 1 or 2 bytes become 2 or 3 characters and padding.
pub open spec fn base64_spec(b: Seq<u8>) -> Seq<char>
    decreases b.len(),
{
    if b.len() == 0 {
        seq![]
    } else if b.len() == 1 {
        seq![b64_char(b[0] as int / 4), b64_char((b[0] as int % 4) * 16), '=', '=']
    } else if b.len() == 2 {
        seq![
            b64_char(b[0] as int / 4),
            b64_char((b[0] % 4) * 16 + b[1] / 16),
            b64_char((b[1] % 16) * 4),
            '=',
        ]
    } else {
        seq![
            b64_char(b[0] as int / 4),
            b64_char((b[0] % 4) * 16 + b[1] / 16),
            b64_char((b[1] % 16) * 4 + b[2] / 64),
            b64_char(b[2] as int % 64),
        ] + base64_spec(b.skip(3))
    }
}

/// `base64::engine::general_purpose::STANDARD.encode`: standard base64 with
/// padding, as the crate documents it.
#[verifier::external_body]
fn base64_encode(bytes: &[u8]) -> (r: String)
    ensures
        r@ == base64_spec(bytes@),
{
    base64::engine::general_purpose::STANDARD.encode(bytes)
}

/// Cover bytes of the given MIME type as a `data:` URI.
pub fn data_uri(bytes: &[u8], mime: &str) -> (r: String)
    ensures
        r@ == "data:"@ + mime@ + ";base64,"@ + base64_spec(bytes@),
{
    let enc = base64_encode(bytes);
    let mut v: Vec<char> = Vec::new();
    push_str(&mut v, "data:");
    push_str(&mut v, mime);
    push_str(&mut v, ";base64,");
    push_str(&mut v, enc.as_str());
    string_of(v.as_slice())
}

/// The image MIME type for a lower-cased extension (JPEG by default).
pub open spec fn image_mime_for(ext: Seq<char>) -> Seq<char> {
    if ext == "png"@ {
        "image/png"@
    } else if ext == "webp"@ {
        "image/webp"@
    } else if ext == "bmp"@ {
        "image/bmp"@
    } else if ext == "gif"@ {
        "image/gif"@
    } else {
        "image/jpeg"@
    }
}

/// The image MIME type for an already lower-cased extension.
pub fn image_mime_for_ext(ext: &str) -> (r: &'static str)
    ensures
        r@ == image_mime_for(ext@),
{
    let e = chars_of(ext);
    let e = e.as_slice();
    if eq_str(e, "png") {
        "image/png"
    } else if eq_str(e, "webp") {
        "image/webp"
    } else if eq_str(e, "bmp") {
        "image/bmp"
    } else if eq_str(e, "gif") {
        "image/gif"
    } else {
        "image/jpeg"
    }
}

/// The image MIME type of a file, by its extension compared
/// case-insensitively.
pub fn image_mime(path: &str) -> (r: &'static str)
    ensures
        r@ == match extension_spec(path@) {
            Some(e) => image_mime_for(lowercase(e)),
            None => "image/jpeg"@,
        },
{
    match extension(path) {
        Some(e) => {
            let l = to_lower(e.as_str());
            image_mime_for_ext(l.as_str())
        },
        None => "image/jpeg",
    }
}

/// Names a standalone cover image commonly has.
pub open spec fn cover_names() -> Seq<Seq<char>> {
    seq![
        "cover"@,
        "folder"@,
        "front"@,
        "album"@,
        "albumart"@,
        "albumartsmall"@,
        "thumb"@,
        "artwork"@,
    ]
}

/// Image extensions a cover may have.
pub open spec fn image_exts() -> Seq<Seq<char>> {
    seq!["jpg"@, "jpeg"@, "png"@, "webp"@, "bmp"@, "gif"@]
}

/// The file names looked for beside an audio file, in order: every cover
/// name with every image extension.
pub fn cover_candidates() -> (r: Vec<String>)
    ensures
        r.len() == 48,
        forall|i: int, j: int|
            0 <= i < 8 && 0 <= j < 6 ==> (#[trigger] r@[i * 6 + j])@ == cover_names()[i] + "."@
                + image_exts()[j],
{
    let names: [&str; 8] = [
        "cover",
        "folder",
        "front",
        "album",
        "albumart",
        "albumartsmall",
        "thumb",
        "artwork",
    ];
    let exts: [&str; 6] = ["jpg", "jpeg", "png", "webp", "bmp", "gif"];
    assert(names@.map_values(|s: &str| s@) =~= cover_names());
    assert(exts@.map_values(|s: &str| s@) =~= image_exts());
    let mut out: Vec<String> = Vec::new();
    let mut i: usize = 0;
    while i < 8
        invariant
            i <= 8,
            out.len() == i * 6,
            names@.map_values(|s: &str| s@) == cover_names(),
            exts@.map_values(|s: &str| s@) == image_exts(),
            forall|a: int, b: int|
                0 <= a < i && 0 <= b < 6 ==> (#[trigger] out@[a * 6 + b])@ == cover_names()[a]
                    + "."@ + image_exts()[b],
        decreases 8 - i,
    {
        let mut j: usize = 0;
        while j < 6
            invariant
                i < 8,
                j <= 6,
                out.len() == i * 6 + j,
                names@.map_values(|s: &str| s@) == cover_names(),
                exts@.map_values(|s: &str| s@) == image_exts(),
                forall|a: int, b: int|
                    0 <= a < i && 0 <= b < 6 ==> (#[trigger] out@[a * 6 + b])@ == cover_names()[a]
                        + "."@ + image_exts()[b],
                forall|b: int|
                    0 <= b < j ==> (#[trigger] out@[i * 6 + b])@ == cover_names()[i as int] + "."@
                        + image_exts()[b],
            decreases 6 - j,
        {
            let mut v: Vec<char> = Vec::new();
            push_str(&mut v, names[i]);
            push_str(&mut v, ".");
            push_str(&mut v, exts[j]);
            assert(names@.map_values(|s: &str| s@)[i as int] == names[i as int]@);
            assert(exts@.map_values(|s: &str| s@)[j as int] == exts[j as int]@);
            out.push(string_of(v.as_slice()));
            j += 1;
        }
        i += 1;
        assert forall|a: int, b: int|
            0 <= a < i && 0 <= b < 6 implies (#[trigger] out@[a * 6 + b])@ == cover_names()[a]
                + "."@ + image_exts()[b] by {
            if a < i - 1 {
            } else {
                assert(a * 6 + b == (i - 1) * 6 + b) by (nonlinear_arith)
                    requires
                        a == i - 1,
                ;
            }
        }
    }
    out
}

/// Whether a file is an image a cover may be, by its extension compared
/// case-insensitively.
pub fn is_image(path: &str) -> (r: bool)
    ensures
        r == match extension_spec(path@) {
            Some(e) => image_exts().contains(lowercase(e)),
            None => false,
        },
{
    match extension(path) {
        Some(e) => {
            let l = to_lower(e.as_str());
            let c = chars_of(l.as_str());
            let c = c.as_slice();
            let r = eq_str(c, "jpg") || eq_str(c, "jpeg") || eq_str(c, "png") || eq_str(c, "webp")
                || eq_str(c, "bmp") || eq_str(c, "gif");
            proof {
                let x = lowercase(e@);
                let v = image_exts();
                if r {
                    if x == "jpg"@ { assert(v[0] == x); }
                    if x == "jpeg"@ { assert(v[1] == x); }
                    if x == "png"@ { assert(v[2] == x); }
                    if x == "webp"@ { assert(v[3] == x); }
                    if x == "bmp"@ { assert(v[4] == x); }
                    if x == "gif"@ { assert(v[5] == x); }
                } else {
                    assert forall|k: int| 0 <= k < v.len() implies v[k] != x by {}
                }
            }
            r
        },
        None => false,
    }
}

} // verus!
