use meusic::radio::{
    audio_mime, codec_from_ct, content_range, fill_start, friendly_error, hex_val, is_permanent,
    parse_range, parse_stream_title, percent_decode, plan_file_reply, query_param, read_full, route,
    stream_info, url_param, FileReply, FillStep, IcyState, IcyStep, ReadResult, Route,
};
use meusic::library::file_uri;

#[test]
fn hex_val_digits() {
    assert_eq!(hex_val(b'0'), Some(0));
    assert_eq!(hex_val(b'9'), Some(9));
    assert_eq!(hex_val(b'a'), Some(10));
    assert_eq!(hex_val(b'F'), Some(15));
    assert_eq!(hex_val(b'g'), None);
    assert_eq!(hex_val(b'%'), None);
}

#[test]
fn percent_decode_escapes_and_plus() {
    assert_eq!(percent_decode("a%20b+c"), "a b c");
    assert_eq!(percent_decode("%2Fhome%2Fme"), "/home/me");
    assert_eq!(percent_decode("%E2%9C%93"), "\u{2713}");
    assert_eq!(percent_decode(""), "");
}

#[test]
fn percent_decode_keeps_malformed_escapes() {
    assert_eq!(percent_decode("%zz"), "%zz");
    assert_eq!(percent_decode("100%"), "100%");
    assert_eq!(percent_decode("%4"), "%4");
    assert_eq!(percent_decode("%41"), "A");
}

#[test]
fn percent_decode_replaces_invalid_utf8() {
    assert_eq!(percent_decode("%FF"), "\u{FFFD}");
    assert_eq!(percent_decode("a%C3"), "a\u{FFFD}");
}

#[test]
fn decoding_undoes_file_uri_escaping() {
    let path = "/music/a b/\u{fc}ber+100%.mp3";
    let uri = file_uri(path);
    assert_eq!(uri, "file:///music/a%20b/%C3%BCber%2B100%25.mp3");
    let escaped = &uri["file://".len()..];
    assert_eq!(percent_decode(escaped), path);
}

#[test]
fn query_param_finds_first_matching_pair() {
    assert_eq!(query_param("/file?path=%2Ftmp%2Fa.mp3", "path"), Some("/tmp/a.mp3".to_string()));
    assert_eq!(query_param("/x?a=1&b=2&b=3", "b"), Some("2".to_string()));
    assert_eq!(query_param("/x?ab=1&b=2", "b"), Some("2".to_string()));
    assert_eq!(query_param("/x?a=1", "b"), None);
    assert_eq!(query_param("/x", "a"), None);
    assert_eq!(query_param("/x?a=", "a"), Some(String::new()));
}

#[test]
fn url_param_reads_url() {
    assert_eq!(url_param("/radio?url=http%3A%2F%2Fs.example%2Flive"), Some("http://s.example/live".to_string()));
    assert_eq!(url_param("/radio"), None);
}

#[test]
fn route_by_prefix() {
    match route("/file?path=%2Ftmp%2Fa.mp3") {
        Route::File(p) => assert_eq!(p, "/tmp/a.mp3"),
        _ => panic!("expected a file route"),
    }
    match route("/radio?url=http%3A%2F%2Fx") {
        Route::Stream(u) => assert_eq!(u, "http://x"),
        _ => panic!("expected a stream route"),
    }
    assert!(matches!(route("/file"), Route::BadRequest));
    assert!(matches!(route("/file?url=x"), Route::BadRequest));
    assert!(matches!(route("/radio"), Route::BadRequest));
}

#[test]
fn parse_range_forms() {
    assert_eq!(parse_range("bytes=0-99", 1000), Some((0, 99)));
    assert_eq!(parse_range("bytes=500-", 1000), Some((500, 999)));
    assert_eq!(parse_range("bytes=-100", 1000), Some((900, 999)));
    assert_eq!(parse_range("bytes=-2000", 1000), Some((0, 999)));
    assert_eq!(parse_range("bytes=0-5000", 1000), Some((0, 999)));
    assert_eq!(parse_range("  bytes= 1 - 2 ", 1000), Some((1, 2)));
    assert_eq!(parse_range("bytes=900-10", 1000), Some((900, 10)));
}

#[test]
fn parse_range_rejects() {
    assert_eq!(parse_range("bytes=0-1,5-6", 1000), None);
    assert_eq!(parse_range("bytes=0-1", 0), None);
    assert_eq!(parse_range("items=0-1", 1000), None);
    assert_eq!(parse_range("bytes=abc", 1000), None);
    assert_eq!(parse_range("bytes=a-1", 1000), None);
    assert_eq!(parse_range("bytes=1-b", 1000), None);
    assert_eq!(parse_range("bytes=-", 1000), None);
}

#[test]
fn parse_range_end_is_inside_the_file() {
    for v in ["bytes=0-", "bytes=10-99999", "bytes=-5", "bytes=3-4"] {
        if let Some((_, e)) = parse_range(v, 50) {
            assert!(e < 50);
        }
    }
}

#[test]
fn file_reply_plans() {
    assert!(matches!(plan_file_reply(Some((0, 99)), 1000), FileReply::Partial { start: 0, end: 99, len: 100 }));
    assert!(matches!(plan_file_reply(Some((5, 2)), 1000), FileReply::Whole));
    assert!(matches!(plan_file_reply(Some((0, 1000)), 1000), FileReply::Whole));
    assert!(matches!(plan_file_reply(None, 1000), FileReply::Whole));
    assert_eq!(content_range(0, 99, 1000), "bytes 0-99/1000");
}

#[test]
fn audio_mime_by_extension() {
    assert_eq!(audio_mime("/a/b.MP3"), "audio/mpeg");
    assert_eq!(audio_mime("x.flac"), "audio/flac");
    assert_eq!(audio_mime("x.wav"), "audio/wav");
    assert_eq!(audio_mime("x.opus"), "audio/ogg");
    assert_eq!(audio_mime("x.ogg"), "audio/ogg");
    assert_eq!(audio_mime("x.alac"), "audio/mp4");
    assert_eq!(audio_mime("x.m4a"), "audio/mp4");
    assert_eq!(audio_mime("x.aif"), "audio/aiff");
    assert_eq!(audio_mime("x.wma"), "audio/x-ms-wma");
    assert_eq!(audio_mime("x.txt"), "application/octet-stream");
    assert_eq!(audio_mime("noext"), "application/octet-stream");
}

#[test]
fn codec_from_content_type() {
    assert_eq!(codec_from_ct("audio/mpeg"), Some("MP3".to_string()));
    assert_eq!(codec_from_ct("AUDIO/MPEG"), Some("MP3".to_string()));
    assert_eq!(codec_from_ct("audio/aacp"), Some("AAC".to_string()));
    assert_eq!(codec_from_ct("application/ogg"), Some("OGG".to_string()));
    assert_eq!(codec_from_ct("audio/flac"), Some("FLAC".to_string()));
    assert_eq!(codec_from_ct("text/html"), None);
}

#[test]
fn stream_title_parsing() {
    assert_eq!(parse_stream_title(b"StreamTitle='Artist - Song';StreamUrl='';"), Some("Artist - Song".to_string()));
    assert_eq!(parse_stream_title(b"StreamTitle='It's me';"), Some("It's me".to_string()));
    assert_eq!(parse_stream_title(b"StreamTitle='  padded  '"), Some("padded".to_string()));
    assert_eq!(parse_stream_title(b"StreamTitle='';"), None);
    assert_eq!(parse_stream_title(b"StreamTitle='unterminated"), None);
    assert_eq!(parse_stream_title(b"nothing here"), None);
    assert_eq!(parse_stream_title(b"StreamTitle='a\xffb';"), Some("a\u{FFFD}b".to_string()));
}

#[test]
fn permanent_statuses() {
    assert!(is_permanent(Some(401)));
    assert!(is_permanent(Some(403)));
    assert!(is_permanent(Some(404)));
    assert!(is_permanent(Some(410)));
    assert!(!is_permanent(Some(500)));
    assert!(!is_permanent(None));
}

#[test]
fn friendly_errors() {
    assert_eq!(friendly_error(Some(403)), "Akses ditolak (HTTP 403) \u{2014} URL/token mungkin kedaluwarsa");
    assert_eq!(friendly_error(Some(401)), "Akses ditolak (HTTP 401) \u{2014} URL/token mungkin kedaluwarsa");
    assert_eq!(friendly_error(Some(404)), "Stream tidak ditemukan (404)");
    assert_eq!(friendly_error(Some(410)), "Server menolak (HTTP 410)");
    assert_eq!(friendly_error(None), "Gagal terhubung ke server");
}

#[test]
fn stream_info_from_headers() {
    let i = stream_info(Some("audio/aac"), Some(" 16000 "), Some("128,44100"), Some("  Gen FM "));
    assert_eq!(i.content_type, "audio/aac");
    assert_eq!(i.metaint, 16000);
    assert_eq!(i.bitrate, Some(128));
    assert_eq!(i.name, Some("Gen FM".to_string()));
    assert_eq!(i.codec, Some("AAC".to_string()));
}

#[test]
fn stream_info_defaults() {
    let i = stream_info(None, None, None, None);
    assert_eq!(i.content_type, "audio/mpeg");
    assert_eq!(i.metaint, 0);
    assert_eq!(i.bitrate, None);
    assert_eq!(i.name, None);
    assert_eq!(i.codec, Some("MP3".to_string()));
    let j = stream_info(Some("text/plain"), Some("abc"), Some("x"), Some("   "));
    assert_eq!(j.metaint, 0);
    assert_eq!(j.bitrate, None);
    assert_eq!(j.name, None);
    assert_eq!(j.codec, None);
}

/// Drives the stripping reader over `stream` with buffers of `buf` bytes,
/// the way the proxy does; returns the audio and the reported titles.
fn strip(metaint: usize, stream: &[u8], buf: usize) -> (Vec<u8>, Vec<String>) {
    let mut s = IcyState::new(metaint);
    let (mut pos, mut audio, mut titles) = (0usize, Vec::new(), Vec::new());
    while pos < stream.len() {
        match s.next_step(buf) {
            IcyStep::Pass => {
                audio.extend_from_slice(&stream[pos..]);
                pos = stream.len();
            }
            IcyStep::LenByte => {
                s.feed(IcyStep::LenByte, &stream[pos..pos + 1]);
                pos += 1;
            }
            IcyStep::Meta(n) => {
                if let Some(t) = s.feed(IcyStep::Meta(n), &stream[pos..pos + n]) {
                    titles.push(t);
                }
                pos += n;
            }
            IcyStep::Audio(k) => {
                let n = k.min(stream.len() - pos);
                s.feed(IcyStep::Audio(k), &stream[pos..pos + n]);
                audio.extend_from_slice(&stream[pos..pos + n]);
                pos += n;
            }
        }
    }
    (audio, titles)
}

fn meta_block(text: &str) -> Vec<u8> {
    let mut b = text.as_bytes().to_vec();
    while b.len() % 16 != 0 {
        b.push(0);
    }
    let mut out = vec![(b.len() / 16) as u8];
    out.extend(b);
    out
}

#[test]
fn icy_reader_strips_metadata() {
    let mut stream = Vec::new();
    stream.extend_from_slice(b"aaaa");
    stream.extend(meta_block("StreamTitle='A';"));
    stream.extend_from_slice(b"bbbb");
    stream.push(0);
    stream.extend_from_slice(b"cccc");
    stream.extend(meta_block("StreamTitle='A';"));
    stream.extend_from_slice(b"dddd");
    stream.extend(meta_block("StreamTitle='B';"));
    stream.extend_from_slice(b"ee");
    for buf in [1, 3, 4, 100] {
        let (audio, titles) = strip(4, &stream, buf);
        assert_eq!(audio, b"aaaabbbbccccddddee".to_vec());
        assert_eq!(titles, vec!["A".to_string(), "B".to_string()]);
    }
}

#[test]
fn icy_reader_steps() {
    let mut s = IcyState::new(16);
    assert_eq!(s.next_step(100), IcyStep::Audio(16));
    assert_eq!(s.next_step(10), IcyStep::Audio(10));
    assert_eq!(s.feed(IcyStep::Audio(10), &[0; 10]), None);
    assert_eq!(s.next_step(100), IcyStep::Audio(6));
    s.feed(IcyStep::Audio(6), &[0; 6]);
    assert_eq!(s.next_step(100), IcyStep::LenByte);
    s.feed(IcyStep::LenByte, &[2]);
    assert_eq!(s.next_step(100), IcyStep::Meta(32));
    let mut block = b"StreamTitle='A';".to_vec();
    block.resize(32, 0);
    assert_eq!(s.feed(IcyStep::Meta(32), &block), Some("A".to_string()));
    assert_eq!(s.next_step(100), IcyStep::Audio(16));
    let p = IcyState::new(0);
    assert_eq!(p.next_step(7), IcyStep::Pass);
}

#[test]
fn buffer_filling_steps() {
    assert_eq!(fill_start(0), FillStep::Full);
    assert_eq!(fill_start(4), FillStep::Again(0));
    assert_eq!(read_full(0, 4, ReadResult::Data(2)), FillStep::Again(2));
    assert_eq!(read_full(2, 4, ReadResult::Data(2)), FillStep::Full);
    assert_eq!(read_full(0, 4, ReadResult::Data(0)), FillStep::Eof);
    assert_eq!(read_full(1, 4, ReadResult::Interrupted), FillStep::Again(1));
}

#[test]
fn query_values_round_trip() {
    for v in ["plain", "a b&c=d?e", "\u{e9}t\u{e9} \u{2713}", ""] {
        let e: String = v.bytes().map(|b| format!("%{b:02X}")).collect();
        assert_eq!(query_param(&format!("/x?path={e}"), "path"), Some(v.to_string()));
    }
}

#[test]
fn filling_runs_to_the_end() {
    let mut step = fill_start(6);
    let mut offsets = Vec::new();
    for got in [ReadResult::Data(2), ReadResult::Interrupted, ReadResult::Data(3), ReadResult::Data(1)] {
        if let FillStep::Again(f) = step {
            offsets.push(f);
            step = read_full(f, 6, got);
        }
    }
    assert_eq!(offsets, vec![0, 2, 2, 5]);
    assert_eq!(step, FillStep::Full);
    assert_eq!(read_full(5, 6, ReadResult::Data(0)), FillStep::Eof);
}
