use ugdown::utils::eta_to_string;
use ugdown::utils::get_filename_from_url;
use ugdown::utils::percent_to_string;
use ugdown::utils::replace_github_download;
use ugdown::utils::size_to_string;
use ugdown::youget::extract_version;
use ugdown::utils::speed_to_string;
use ugdown::utils::GithubLatestRelease;
use ugdown::DownError;

#[test]
fn test_size_to_string() {
    assert_eq!("1.20 MB", size_to_string(1200000));
    assert_eq!("1.22 GB", size_to_string(1220000170));
    assert_eq!("120 B", size_to_string(120));
}

#[test]
fn test_eta_to_string() {
    assert_eq!("1m 40s", eta_to_string(100));
    assert_eq!(">= 2h", eta_to_string(2 * 60 * 60 + 500));
    assert_eq!(">= 1d", eta_to_string(24 * 60 * 60 + 666));
}

#[test]
fn test_size_to_string_edges() {
    assert_eq!("Unknown", size_to_string(0));
    assert_eq!("999 B", size_to_string(999));
    assert_eq!("1.00 KB", size_to_string(1000));
    assert_eq!("1.50 KB", size_to_string(1500));
    assert_eq!("1.00 MB", size_to_string(1000000));
    assert_eq!("1.00 GB", size_to_string(1000000000));
}

#[test]
fn test_speed_to_string() {
    assert_eq!("---", speed_to_string(0));
    assert_eq!("1.20 MB/s", speed_to_string(1200000));
    assert_eq!("120 B/s", speed_to_string(120));
}

#[test]
fn test_eta_to_string_edges() {
    assert_eq!("0s", eta_to_string(0));
    assert_eq!("59s", eta_to_string(59));
    assert_eq!("1m 0s", eta_to_string(60));
    assert_eq!(">= 1h", eta_to_string(3600));
    assert_eq!(">= 1d", eta_to_string(86400));
}

#[test]
fn test_replace_github_download() {
    assert_eq!(
        "https://kgithub.com/a/b.zip",
        replace_github_download("https://github.com/a/b.zip", "kgithub")
    );
    assert_eq!(
        "https://kgithub.com/a/b.zip",
        replace_github_download("https://github.com/a/b.zip", "  KGitHub.COM ")
    );
    assert_eq!(
        "https://ghproxy.com/github.com/a/b.zip",
        replace_github_download("https://github.com/a/b.zip", "ghproxy")
    );
    assert_eq!(
        "https://github.com/a/b.zip",
        replace_github_download("https://github.com/a/b.zip", "github.com")
    );
}

#[test]
fn test_get_filename_from_url() {
    let url = "https://668000.xyz/sample.html";
    let filename = get_filename_from_url(url).unwrap();
    assert_eq!("sample.html", filename);

    let url = "https://668000.xyz/";
    let filename = get_filename_from_url(url).unwrap();
    assert_eq!("", filename);
}

#[test]
fn test_get_filename_from_url_bad() {
    assert_eq!(Err(DownError::BadUrl), get_filename_from_url("not a url"));
}

#[test]
fn test_get_from_github_api_lux() {
    let release = GithubLatestRelease::get_from_github_api("lux", "v0.24.1").unwrap();
    assert_eq!("0.24.1", release.version);
    let pairs = release.download_assets.to_hashmap();
    assert_eq!(5, pairs.len());
    assert_eq!("windows_x86_64", pairs[0].0);
    assert_eq!(
        "https://github.com/iawia002/lux/releases/download/v0.24.1/lux_0.24.1_Windows_x86_64.zip",
        pairs[0].1
    );
    assert_eq!("linux_x86_64", pairs[4].0);
    assert_eq!(
        "https://github.com/iawia002/lux/releases/download/v0.24.1/lux_0.24.1_Linux_x86_64.zip",
        pairs[4].1
    );
}

#[test]
fn test_get_from_github_api_youtubedl() {
    let release = GithubLatestRelease::get_from_github_api("youtube-dl", "2021.12.17").unwrap();
    assert_eq!("2021.12.17", release.version);
    let pairs = release.download_assets.to_hashmap();
    assert_eq!(2, pairs.len());
    assert_eq!(
        "https://github.com/ytdl-org/youtube-dl/releases/download/2021.12.17/youtube-dl.exe",
        pairs[0].1
    );
}

#[test]
fn test_get_from_github_api_youget() {
    let release = GithubLatestRelease::get_from_github_api("you-get", "v0.4.1650").unwrap();
    assert_eq!("0.4.1650", release.version);
    assert!(release.download_assets.to_hashmap().is_empty());
}

#[test]
fn test_get_from_github_api_unknown() {
    assert!(GithubLatestRelease::get_from_github_api("wget", "v1").is_none());
}

#[test]
fn test_to_order_vec() {
    let release = GithubLatestRelease::get_from_github_api("lux", "v1.0.0").unwrap();
    let keys = release.download_assets.to_order_vec("linux", "x86_64");
    assert_eq!(5, keys.len());
    assert_eq!("linux_x86_64", keys[0]);
    assert_eq!("windows_x86", keys[1]);
    assert_eq!("windows_x86_64", keys[4]);
    let unchanged = release.download_assets.to_order_vec("plan9", "mips");
    assert_eq!(
        vec!["windows_x86_64", "windows_x86", "macos_arm64", "macos_x86_64", "linux_x86_64"],
        unchanged
    );
}

#[test]
fn test_extract_version() {
    assert_eq!("0.4.1650", extract_version(b"you-get: version 0.4.1650, a tiny downloader"));
    assert_eq!("1.22.333", extract_version(b"v1.22.333!"));
    assert_eq!("Unknown", extract_version(b"version 1.2 only"));
    assert_eq!("Unknown", extract_version(b"nothing"));
}

#[test]
fn test_percent_display() {
    assert_eq!("22.4%", percent_to_string(224200));
    assert_eq!("0.0%", percent_to_string(0));
    assert_eq!("100.0%", percent_to_string(1000000));
    assert_eq!("12.5%", percent_to_string(125000));
}
