use ugdown::downloader::get_engine;
use ugdown::downloader::get_engine_names;
use ugdown::downloader::make_save_option;
use ugdown::downloader::stream_label;
use ugdown::downloader::prepare_download;
use ugdown::downloader::DownloadInfo;
use ugdown::downloader::EngineKind;
use ugdown::downloader::SaveOption;
use ugdown::lux::Lux;
use ugdown::youget::get_extension_from_type;
use ugdown::youget::Youget;
use ugdown::youtubedl::Youtubedl;
use ugdown::tool::download_fraction;
use ugdown::tool::needs_range_request;
use ugdown::tool::plugin_action;
use ugdown::tool::PluginAction;
use ugdown::DownError;

#[test]
fn engine_names_are_fixed() {
    let names = get_engine_names();
    assert_eq!(vec!["lux", "you-get", "youtube-dl"], names);
}

#[test]
fn engine_lookup_ignores_case_and_space() {
    assert_eq!(Ok(EngineKind::Lux), get_engine(" LUX "));
    assert_eq!(Ok(EngineKind::Youget), get_engine("you-get"));
    assert_eq!(Ok(EngineKind::Youget), get_engine("YouGet"));
    assert_eq!(Ok(EngineKind::Youtubedl), get_engine("youtube-dl"));
    assert_eq!(Ok(EngineKind::Youtubedl), get_engine("youtubedl"));
    assert_eq!(Err(DownError::EngineNotFound), get_engine("wget"));
}

#[test]
fn lux_argument_lists() {
    let e = Lux {};
    assert_eq!(vec!["-j", "u"], e.probe_args("u", None));
    assert_eq!(vec!["-c", "ck", "-j", "u"], e.probe_args("u", Some("ck")));
    assert_eq!(
        vec!["-f", "137", "-o", "d", "-O", "n", "u"],
        e.download_args("u", "137", "d", "n", None)
    );
    assert!(e.is_stderr_output());
    assert_eq!("Lux", e.get_downloader_name());
}

#[test]
fn youget_argument_lists() {
    let e = Youget {};
    assert_eq!(vec!["-i", "u"], e.probe_args("u", None));
    assert_eq!(
        vec!["--format", "f1", "-o", "d", "-O", "n", "u"],
        e.download_args("u", "f1", "d", "n", None)
    );
    assert!(!e.is_stderr_output());
    assert_eq!("Youget", e.get_downloader_name());
}

#[test]
fn youtubedl_argument_lists() {
    let e = Youtubedl {};
    assert_eq!(vec!["--socket-timeout", "4", "-j", "u"], e.probe_args("u", None));
    assert_eq!(
        vec!["-f", "22", "-o", "d/n", "u"],
        e.download_args("u", "22", "d", "n", None)
    );
    assert_eq!(
        vec!["-c", "ck", "-f", "22", "-o", "d/n", "u"],
        e.download_args("u", "22", "d", "n", Some("ck"))
    );
    assert!(!e.is_stderr_output());
    assert_eq!("Youtube-dl", e.get_downloader_name());
}

fn info_for(engine: &str) -> DownloadInfo {
    let mut info = DownloadInfo::default();
    info.url = "https://example.test/v".to_owned();
    info.title = "clip".to_owned();
    info.ext = "mp4".to_owned();
    info.stream_id = "137".to_owned();
    info.downloader = engine.to_owned();
    info
}

#[test]
fn prepare_download_resolves_default_target() {
    let info = info_for("Lux");
    let plan = prepare_download(&info, None).unwrap();
    assert_eq!("lux", plan.program);
    assert!(plan.read_stderr);
    assert_eq!(
        vec!["-f", "137", "-o", "./", "-O", "clip.mp4", "https://example.test/v"],
        plan.args
    );
}

#[test]
fn prepare_download_uses_save_option_and_cookie() {
    let mut info = info_for("Youget");
    info.save_option = Some(SaveOption {
        output_dir: "/tmp/out".to_owned(),
        file_name: "clip[hd]".to_owned(),
    });
    let plan = prepare_download(&info, Some("/tmp/ck")).unwrap();
    assert_eq!("you-get", plan.program);
    assert!(!plan.read_stderr);
    assert_eq!(
        vec!["-c", "/tmp/ck", "--format", "137", "-o", "/tmp/out", "-O", "clip[hd]",
            "https://example.test/v"],
        plan.args
    );
}

#[test]
fn prepare_download_unknown_engine() {
    let info = info_for("aria2");
    assert_eq!(Err(DownError::EngineNotFound), prepare_download(&info, None).map(|_| ()));
}

#[test]
fn extension_table() {
    assert_eq!("mp4", get_extension_from_type("video/mp4"));
    assert_eq!("3gp", get_extension_from_type("  video/3gpp "));
    assert_eq!("ts", get_extension_from_type("video/MP2T"));
    assert_eq!("Unknown", get_extension_from_type("video/mp2t"));
    assert_eq!("Unknown", get_extension_from_type("something/else"));
}

#[test]
fn plugin_actions() {
    assert_eq!(PluginAction::ExtractArchive, plugin_action("lux.zip"));
    assert_eq!(PluginAction::CopyBinary, plugin_action("youtube-dl.exe"));
    assert_eq!(PluginAction::Leave, plugin_action("readme.txt"));
}

#[test]
fn fetch_decisions() {
    assert_eq!(500000, download_fraction(500, 1000));
    assert_eq!(0, download_fraction(7, 0));
    assert!(needs_range_request(10, 100));
    assert!(needs_range_request(0, 100));
    assert!(!needs_range_request(0, 0));
}

#[test]
fn save_option_and_label_builders() {
    let mut info = info_for("Lux");
    info.stream_name = "1080p".to_owned();
    info.stream_size = 1200000;
    let save = make_save_option(&info, "/tmp/out");
    assert_eq!("/tmp/out", save.output_dir);
    assert_eq!("clip[1080p]", save.file_name);
    assert_eq!("mp4 - 1080p (size: 1.20 MB)", stream_label(&info));
}
