use meusic::cover::{cover_candidates, data_uri, image_mime, image_mime_for_ext};

#[test]
fn data_uris_encode_base64() {
    assert_eq!(data_uri(b"Man", "image/png"), "data:image/png;base64,TWFu");
    assert_eq!(data_uri(b"Ma", "image/png"), "data:image/png;base64,TWE=");
    assert_eq!(data_uri(b"M", "image/jpeg"), "data:image/jpeg;base64,TQ==");
    assert_eq!(data_uri(b"", "x"), "data:x;base64,");
    assert_eq!(data_uri(&[0xfb, 0xff, 0xbf], "x"), "data:x;base64,+/+/");
    assert_eq!(data_uri(b"hello world", "text/plain"), "data:text/plain;base64,aGVsbG8gd29ybGQ=");
}

#[test]
fn image_mime_types() {
    assert_eq!(image_mime("/a/cover.PNG"), "image/png");
    assert_eq!(image_mime("/a/cover.webp"), "image/webp");
    assert_eq!(image_mime("/a/cover.bmp"), "image/bmp");
    assert_eq!(image_mime("/a/cover.GIF"), "image/gif");
    assert_eq!(image_mime("/a/cover.jpeg"), "image/jpeg");
    assert_eq!(image_mime("/a/cover"), "image/jpeg");
    assert_eq!(image_mime_for_ext("png"), "image/png");
    assert_eq!(image_mime_for_ext("PNG"), "image/jpeg");
}

#[test]
fn cover_file_candidates() {
    let c = cover_candidates();
    assert_eq!(c.len(), 48);
    assert_eq!(c[0], "cover.jpg");
    assert_eq!(c[1], "cover.jpeg");
    assert_eq!(c[6], "folder.jpg");
    assert_eq!(c[47], "artwork.gif");
}
