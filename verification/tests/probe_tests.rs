use ugdown::downloader::get_stream_info;
use ugdown::downloader::DownloadInfo;
use ugdown::DownError;

fn find<'a>(entries: &'a [DownloadInfo], id: &str) -> &'a DownloadInfo {
    entries.iter().find(|e| e.stream_id == id).expect("stream id missing")
}

#[test]
fn lux_listing_is_normalized() {
    let listing = "[{\"site\":\"YouTube\",\"title\":\"Clip\",\"streams\":{\"137\":{\"id\":\"137\",\"quality\":\"1080p\",\"parts\":[{\"url\":\"u\",\"size\":100,\"ext\":\"mp4\"}],\"size\":12345,\"ext\":\"flv\"},\"18\":{\"quality\":\"360p\",\"size\":99,\"ext\":\"webm\"}}}]";
    let entries = get_stream_info("lux", "https://y.test/w", listing.as_bytes()).unwrap();
    assert_eq!(2, entries.len());
    let hd = find(&entries, "137");
    assert_eq!("YouTube", hd.site);
    assert_eq!("Clip", hd.title);
    assert_eq!("mp4", hd.ext);
    assert_eq!("1080p", hd.stream_name);
    assert_eq!(12345, hd.stream_size);
    assert_eq!("Lux", hd.downloader);
    assert_eq!("https://y.test/w", hd.url);
    assert!(hd.save_option.is_none());
    assert!(hd.cookies.is_none());
    let sd = find(&entries, "18");
    assert_eq!("webm", sd.ext);
    assert_eq!(99, sd.stream_size);
}

#[test]
fn lux_defaults_missing_fields() {
    let listing = "[{\"streams\":{\"a\":{}}}]";
    let entries = get_stream_info("lux", "u", listing.as_bytes()).unwrap();
    assert_eq!(1, entries.len());
    assert_eq!("Unknown", entries[0].site);
    assert_eq!("Unknown", entries[0].title);
    assert_eq!("Unknown", entries[0].ext);
    assert_eq!("Unknown", entries[0].stream_name);
    assert_eq!(0, entries[0].stream_size);
}

#[test]
fn lux_errors_are_malformed_output() {
    assert_eq!(
        Err(DownError::MalformedProbeOutput),
        get_stream_info("lux", "u", b"not json").map(|_| ())
    );
    assert_eq!(Err(DownError::MalformedProbeOutput), get_stream_info("lux", "u", b"[]").map(|_| ()));
    assert_eq!(
        Err(DownError::MalformedProbeOutput),
        get_stream_info("lux", "u", b"{\"site\":\"s\"}").map(|_| ())
    );
}

#[test]
fn lux_streams_must_be_an_object() {
    assert_eq!(
        Err(DownError::MalformedProbeOutput),
        get_stream_info("lux", "u", b"[{\"streams\":5}]").map(|_| ())
    );
}

#[test]
fn lux_zero_streams_is_empty_not_error() {
    let entries = get_stream_info("lux", "u", b"[{\"site\":\"s\",\"streams\":{}}]").unwrap();
    assert!(entries.is_empty());
}

#[test]
fn unknown_engine_is_engine_not_found() {
    assert_eq!(Err(DownError::EngineNotFound), get_stream_info("wget", "u", b"{}").map(|_| ()));
}

#[test]
fn youtubedl_listing_with_formats() {
    let listing = "{\"title\":\"Clip\",\"webpage_url\":\"https://y.test/w\",\"formats\":[{\"filesize\":100,\"ext\":\"mp4\",\"format_id\":\"22\",\"format\":\"hd\"},{\"ext\":\"webm\",\"format_id\":\"43\",\"format\":\"sd\"}]}";
    let entries = get_stream_info("youtube-dl", "u", listing.as_bytes()).unwrap();
    assert_eq!(2, entries.len());
    let hd = find(&entries, "22");
    assert_eq!("Clip", hd.title);
    assert_eq!("https://y.test/w", hd.site);
    assert_eq!("mp4", hd.ext);
    assert_eq!(100, hd.stream_size);
    assert_eq!("Youtube-dl", hd.downloader);
    let sd = find(&entries, "43");
    assert_eq!(0, sd.stream_size);
}

#[test]
fn youtubedl_listing_without_formats() {
    let listing = "{\"title\":\"Clip\",\"webpage_url\":\"w\",\"ext\":\"mp4\",\"format_id\":\"best\",\"format\":\"hd\",\"filesize\":7}";
    let entries = get_stream_info("youtube-dl", "u", listing.as_bytes()).unwrap();
    assert_eq!(1, entries.len());
    assert_eq!("best", entries[0].stream_id);
    assert_eq!(7, entries[0].stream_size);
}

#[test]
fn youtubedl_malformed() {
    assert_eq!(
        Err(DownError::MalformedProbeOutput),
        get_stream_info("youtube-dl", "u", b"nope").map(|_| ())
    );
}

#[test]
fn youget_listing_is_parsed() {
    let listing = "site:                Bilibili\ntitle:               Test Video\nstreams:\n    - format:        dash-flv\n      container:     mp4\n      quality:       1080p\n      size:          23.4 MiB (24531205 bytes)\n    # download-with: you-get --format=dash-flv [URL]\n\n    - format:        dash-flv480\n      container:     mkv\n      quality:       480p\n      size:          5.0 MiB (5242880 bytes)\n    # download-with: you-get --format=dash-flv480 [URL]\n";
    let entries = get_stream_info("you-get", "https://b.test/v", listing.as_bytes()).unwrap();
    assert_eq!(2, entries.len());
    // the listing is lowercased before it is cut up
    let hd = find(&entries, "dash-flv");
    assert_eq!("bilibili", hd.site);
    assert_eq!("test video", hd.title);
    assert_eq!("mp4", hd.ext);
    assert_eq!("1080p", hd.stream_name);
    assert_eq!(24531205, hd.stream_size);
    assert_eq!("Youget", hd.downloader);
    let sd = find(&entries, "dash-flv480");
    assert_eq!("mkv", sd.ext);
    assert_eq!(5242880, sd.stream_size);
}

#[test]
fn youget_type_line_gives_default_stream() {
    let listing = "site:      X\ntitle:     Y\ntype:      Video (video/mp4)\nsize:      10.0 MiB (10485760 bytes)\n";
    let entries = get_stream_info("youget", "u", listing.as_bytes()).unwrap();
    assert_eq!(1, entries.len());
    assert_eq!("__default__", entries[0].stream_id);
    assert_eq!("mp4", entries[0].ext);
    assert_eq!("Unknown", entries[0].stream_name);
    assert_eq!(10485760, entries[0].stream_size);
}

#[test]
fn youget_missing_fields_default() {
    let listing = "streams:\n# download-with: you-get [URL]\n";
    let entries = get_stream_info("you-get", "u", listing.as_bytes()).unwrap();
    assert_eq!(1, entries.len());
    assert_eq!("__dafault__", entries[0].stream_id);
    assert_eq!("Unknown", entries[0].ext);
    assert_eq!("Unknown", entries[0].stream_name);
    assert_eq!(0, entries[0].stream_size);
    assert_eq!("Unknown", entries[0].site);
}

#[test]
fn youget_repeated_format_keeps_last() {
    let listing = "- format: a\ncontainer: mp4\n# download-with: x\n- format: a\ncontainer: mkv\n# download-with: x\n";
    let entries = get_stream_info("you-get", "u", listing.as_bytes()).unwrap();
    assert_eq!(1, entries.len());
    assert_eq!("mkv", entries[0].ext);
}

#[test]
fn youget_rejects_invalid_utf8() {
    assert_eq!(
        Err(DownError::MalformedProbeOutput),
        get_stream_info("you-get", "u", &[0xff, 0xfe, 0x80]).map(|_| ())
    );
}

#[test]
fn youget_empty_listing_is_empty() {
    let entries = get_stream_info("you-get", "u", b"nothing here\n").unwrap();
    assert!(entries.is_empty());
}
