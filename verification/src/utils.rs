//! Presentation helpers: sizes, speeds and remaining times rendered as
//! strings, with integer arithmetic throughout. The unit thresholds are
//! decimal: GB at one billion bytes, MB at one million, KB at one
//! thousand.

use vstd::prelude::*;

verus! {

use crate::DownError;
use crate::decode::lossy_of;
use crate::decode::lossy_string;
use crate::text::ascii_of;
use crate::text::bytes_eq;
use crate::text::lit_bytes;
use crate::text::lower;
use crate::text::lower_trim;
use crate::text::replace_all;
use crate::text::replace_bytes;
use crate::text::slice_range;
use crate::text::trim;
use vstd::string::is_ascii;
use vstd::string::StringSliceAdditionalSpecFns;

/// The character for one decimal digit.
pub open spec fn digit_char(d: nat) -> char {
    if d == 0 {
        '0'
    } else if d == 1 {
        '1'
    } else if d == 2 {
        '2'
    } else if d == 3 {
        '3'
    } else if d == 4 {
        '4'
    } else if d == 5 {
        '5'
    } else if d == 6 {
        '6'
    } else if d == 7 {
        '7'
    } else if d == 8 {
        '8'
    } else {
        '9'
    }
}

/// A natural number written in base ten, most significant digit first.
pub open spec fn dec_chars(n: nat) -> Seq<char>
    decreases n,
{
    if n < 10 {
        seq![digit_char(n)]
    } else {
        dec_chars(n / 10).push(digit_char(n % 10))
    }
}

/// A value under one hundred written with exactly two digits.
pub open spec fn pad2(n: nat) -> Seq<char> {
    if n < 10 {
        "0"@ + dec_chars(n)
    } else {
        dec_chars(n)
    }
}

/// `n` counted in units of `d` and written with two decimal places,
/// rounding half upward.
pub open spec fn two_dec(n: nat, d: nat) -> Seq<char> {
    let h = (100 * n + d / 2) / d;
    dec_chars(h / 100) + "."@ + pad2(h % 100)
}

/// A byte count rendered for display: zero is unknown; a count of at
/// least one billion is written in GB, of at least one million in MB, of
/// at least one thousand in KB, with two decimal places each; anything
/// smaller in whole bytes.
pub open spec fn spec_size_to_string(size: nat) -> Seq<char> {
    if size == 0 {
        "Unknown"@
    } else if size >= 1000000000 {
        two_dec(size, 1000000000) + " GB"@
    } else if size >= 1000000 {
        two_dec(size, 1000000) + " MB"@
    } else if size >= 1000 {
        two_dec(size, 1000) + " KB"@
    } else {
        dec_chars(size) + " B"@
    }
}

/// A speed rendered for display: an unknown size gives the idle marker,
/// anything else the size with a per-second suffix.
pub open spec fn spec_speed_to_string(size: nat) -> Seq<char> {
    if size == 0 {
        "---"@
    } else {
        spec_size_to_string(size) + "/s"@
    }
}

/// A remaining time rendered for display: at least a day or at least an
/// hour give a lower bound in those units; otherwise minutes and seconds,
/// or seconds alone.
pub open spec fn spec_eta_to_string(eta: nat) -> Seq<char> {
    let days = eta / 86400;
    let hours = (eta % 86400) / 3600;
    let minutes = ((eta % 86400) % 3600) / 60;
    let seconds = ((eta % 86400) % 3600) % 60;
    if days != 0 {
        ">= "@ + dec_chars(days) + "d"@
    } else if hours != 0 {
        ">= "@ + dec_chars(hours) + "h"@
    } else if minutes != 0 {
        dec_chars(minutes) + "m "@ + dec_chars(seconds) + "s"@
    } else {
        dec_chars(seconds) + "s"@
    }
}

/// A progress fraction given in millionths of one whole, rendered as a
/// percentage with one decimal place, the half-thousandth rounded
/// upward.
pub open spec fn spec_percent_to_string(micro: nat) -> Seq<char> {
    let t = (micro + 500) / 1000;
    dec_chars(t / 10) + "."@ + dec_chars(t % 10) + "%"@
}

/// A progress fraction in millionths of one whole as a percentage with
/// one decimal place.
pub fn percent_to_string(fraction_micro: u64) -> (r: String)
    ensures
        r@ == spec_percent_to_string(fraction_micro as nat),
{
    let wide: u128 = ((fraction_micro as u128) + 500) / 1000;
    let t = wide as u64;
    let mut s = u64_to_dec(t / 10);
    s.append(".");
    s.append(digit_str(t % 10));
    s.append("%");
    proof {
        assert(seq![digit_char((t % 10) as nat)] =~= dec_chars((t % 10) as nat));
    }
    s
}

/// The string for one decimal digit.
fn digit_str(d: u64) -> (r: &'static str)
    requires
        d < 10,
    ensures
        r@ == seq![digit_char(d as nat)],
{
    proof {
        reveal_strlit("0");
        reveal_strlit("1");
        reveal_strlit("2");
        reveal_strlit("3");
        reveal_strlit("4");
        reveal_strlit("5");
        reveal_strlit("6");
        reveal_strlit("7");
        reveal_strlit("8");
        reveal_strlit("9");
    }
    if d == 0 {
        proof {
            assert("0"@ =~= seq![digit_char(0)]);
        }
        "0"
    } else if d == 1 {
        proof {
            assert("1"@ =~= seq![digit_char(1)]);
        }
        "1"
    } else if d == 2 {
        proof {
            assert("2"@ =~= seq![digit_char(2)]);
        }
        "2"
    } else if d == 3 {
        proof {
            assert("3"@ =~= seq![digit_char(3)]);
        }
        "3"
    } else if d == 4 {
        proof {
            assert("4"@ =~= seq![digit_char(4)]);
        }
        "4"
    } else if d == 5 {
        proof {
            assert("5"@ =~= seq![digit_char(5)]);
        }
        "5"
    } else if d == 6 {
        proof {
            assert("6"@ =~= seq![digit_char(6)]);
        }
        "6"
    } else if d == 7 {
        proof {
            assert("7"@ =~= seq![digit_char(7)]);
        }
        "7"
    } else if d == 8 {
        proof {
            assert("8"@ =~= seq![digit_char(8)]);
        }
        "8"
    } else {
        proof {
            assert("9"@ =~= seq![digit_char(9)]);
        }
        "9"
    }
}

/// A 64-bit value written in base ten.
pub fn u64_to_dec(n: u64) -> (r: String)
    ensures
        r@ == dec_chars(n as nat),
    decreases n,
{
    if n < 10 {
        let s = digit_str(n);
        s.to_owned()
    } else {
        let mut s = u64_to_dec(n / 10);
        s.append(digit_str(n % 10));
        proof {
            assert(dec_chars((n / 10) as nat) + seq![digit_char((n % 10) as nat)] =~= dec_chars(
                n as nat,
            ));
        }
        s
    }
}

/// `n` counted in units of `d`, written with two decimal places and the
/// half rounded upward.
fn two_dec_string(n: usize, d: u64) -> (r: String)
    requires
        d == 1000 || d == 1000000 || d == 1000000000,
        n as nat >= d as nat,
    ensures
        r@ == two_dec(n as nat, d as nat),
{
    let wide: u128 = ((n as u128) * 100 + (d as u128) / 2) / (d as u128);
    proof {
        let a = (n as int) * 100 + (d as int) / 2;
        let q = a / (d as int);
        vstd::arithmetic::div_mod::lemma_fundamental_div_mod(a, d as int);
        if q > n as int {
            vstd::arithmetic::mul::lemma_mul_inequality(n as int + 1, q, d as int);
            vstd::arithmetic::mul::lemma_mul_is_distributive_add_other_way(
                d as int,
                n as int,
                1,
            );
            vstd::arithmetic::mul::lemma_mul_inequality(100, d as int, n as int);
            assert(false);
        }
        assert(wide == two_dec_h(n as nat, d as nat));
    }
    let h = wide as u64;
    let mut s = u64_to_dec(h / 100);
    s.append(".");
    let rem = h % 100;
    if rem < 10 {
        s.append("0");
        s.append(digit_str(rem));
    } else {
        let t = u64_to_dec(rem);
        s.append(t.as_str());
    }
    s
}

/// The hundredths count behind `two_dec`.
pub open spec fn two_dec_h(n: nat, d: nat) -> nat {
    (100 * n + d / 2) / d
}

/// A byte count for display: `0` reads as unknown; one billion bytes and
/// up are written in GB, one million and up in MB, one thousand and up in
/// KB, each with two decimal places (half rounded upward); smaller counts
/// in whole bytes.
pub fn size_to_string(size: usize) -> (r: String)
    ensures
        r@ == spec_size_to_string(size as nat),
{
    if size == 0 {
        "Unknown".to_owned()
    } else if size >= 1000000000 {
        let s = two_dec_string(size, 1000000000);
        s.concat(" GB")
    } else if size >= 1000000 {
        let s = two_dec_string(size, 1000000);
        s.concat(" MB")
    } else if size >= 1000 {
        let s = two_dec_string(size, 1000);
        s.concat(" KB")
    } else {
        let s = u64_to_dec(size as u64);
        s.concat(" B")
    }
}

/// A transfer speed for display: an unknown size reads as an idle
/// marker, anything else as the size per second. The marker appears
/// exactly when the size would read as unknown.
pub fn speed_to_string(size: usize) -> (r: String)
    ensures
        r@ == spec_speed_to_string(size as nat),
{
    if size == 0 {
        "---".to_owned()
    } else {
        let s = size_to_string(size);
        s.concat("/s")
    }
}

/// A remaining time for display: a day or more and an hour or more give
/// lower bounds in those units; otherwise minutes and seconds, or
/// seconds alone.
pub fn eta_to_string(eta: usize) -> (r: String)
    ensures
        r@ == spec_eta_to_string(eta as nat),
{
    let days = eta / 86400;
    let hours = (eta % 86400) / 3600;
    let minutes = ((eta % 86400) % 3600) / 60;
    let seconds = ((eta % 86400) % 3600) % 60;
    if days != 0 {
        let s = ">= ".to_owned();
        let s = s.concat(u64_to_dec(days as u64).as_str());
        s.concat("d")
    } else if hours != 0 {
        let s = ">= ".to_owned();
        let s = s.concat(u64_to_dec(hours as u64).as_str());
        s.concat("h")
    } else if minutes != 0 {
        let s = u64_to_dec(minutes as u64);
        let s = s.concat("m ");
        let s = s.concat(u64_to_dec(seconds as u64).as_str());
        s.concat("s")
    } else {
        let s = u64_to_dec(seconds as u64);
        s.concat("s")
    }
}

/// A download URL moved to a mirror: a known mirror name (ignoring ASCII
/// case and surrounding whitespace) substitutes its host for the GitHub
/// host throughout; an unknown one leaves the URL alone.
pub open spec fn spec_replace_github(origin: Seq<u8>, mirror: Seq<u8>) -> Seq<u8> {
    let m = trim(lower(mirror));
    if m == ascii_of("kgithub"@) || m == ascii_of("kgithub.com"@) {
        replace_all(origin, ascii_of("https://github.com"@), ascii_of("https://kgithub.com"@))
    } else if m == ascii_of("ghproxy"@) || m == ascii_of("ghproxy.com"@) {
        replace_all(
            origin,
            ascii_of("https://github.com"@),
            ascii_of("https://ghproxy.com/github.com"@),
        )
    } else {
        origin
    }
}

/// Move a download URL to a mirror; an unknown mirror name leaves the
/// URL unchanged.
pub fn replace_github_download(origin: &str, mirror: &str) -> (r: String)
    ensures
        r@ == lossy_of(spec_replace_github(origin.spec_bytes(), mirror.spec_bytes())),
{
    proof {
        reveal_strlit("kgithub");
        reveal_strlit("kgithub.com");
        reveal_strlit("ghproxy");
        reveal_strlit("ghproxy.com");
        reveal_strlit("https://github.com");
        reveal_strlit("https://kgithub.com");
        reveal_strlit("https://ghproxy.com/github.com");
        assert(is_ascii("kgithub"));
        assert(is_ascii("kgithub.com"));
        assert(is_ascii("ghproxy"));
        assert(is_ascii("ghproxy.com"));
        assert(is_ascii("https://github.com"));
        assert(is_ascii("https://kgithub.com"));
        assert(is_ascii("https://ghproxy.com/github.com"));
    }
    let m = lower_trim(mirror.as_bytes());
    let ms = m.as_slice();
    let ob = origin.as_bytes();
    if bytes_eq(ms, lit_bytes("kgithub")) || bytes_eq(ms, lit_bytes("kgithub.com")) {
        let replaced = replace_bytes(
            ob,
            lit_bytes("https://github.com"),
            lit_bytes("https://kgithub.com"),
        );
        lossy_string(replaced.as_slice())
    } else if bytes_eq(ms, lit_bytes("ghproxy")) || bytes_eq(ms, lit_bytes("ghproxy.com")) {
        let replaced = replace_bytes(
            ob,
            lit_bytes("https://github.com"),
            lit_bytes("https://ghproxy.com/github.com"),
        );
        lossy_string(replaced.as_slice())
    } else {
        lossy_string(ob)
    }
}

/// The path segments of a URL: nothing when the text does not parse as a
/// URL, an empty inner value when the URL cannot be a base, else the
/// segments. A function of the text alone.
pub uninterp spec fn url_segments(s: Seq<char>) -> Option<Option<Seq<Seq<char>>>>;

/// Relies on url::Url::parse and url::Url::path_segments: parsing is a
/// function of the text alone, and a URL that cannot be a base has no
/// path segments.
#[verifier::external_body]
fn url_path_segments(url: &str) -> (r: Option<Option<Vec<String>>>)
    ensures
        match r {
            None => url_segments(url@) is None,
            Some(None) => url_segments(url@) == Some(Option::<Seq<Seq<char>>>::None),
            Some(Some(v)) => url_segments(url@) matches Some(Some(sv)) && v.deep_view() == sv,
        },
{
    match url::Url::parse(url) {
        Ok(u) => match u.path_segments() {
            Some(segs) => Some(Some(segs.map(|x| x.to_string()).collect())),
            None => Some(None),
        },
        Err(_) => None,
    }
}

/// The file name a URL points at: its last path segment, or the empty
/// string when it has no segments. Text that does not parse as a URL is
/// the bad-URL error, and nothing else is.
pub fn get_filename_from_url(url: &str) -> (r: Result<String, DownError>)
    ensures
        url_segments(url@) is None <==> r == Err::<String, DownError>(DownError::BadUrl),
        url_segments(url@) == Some(Option::<Seq<Seq<char>>>::None) ==> (r matches Ok(s) && s@
            == Seq::<char>::empty()),
        url_segments(url@) matches Some(Some(sv)) ==> (r matches Ok(s) && s@ == (if sv.len() > 0 {
            sv.last()
        } else {
            Seq::<char>::empty()
        })),
{
    match url_path_segments(url) {
        None => Err(DownError::BadUrl),
        Some(None) => Ok(String::new()),
        Some(Some(segs)) => {
            if segs.len() > 0 {
                let s = segs[segs.len() - 1].clone();
                proof {
                    let ghost sv = choose|sv: Seq<Seq<char>>|
                        url_segments(url@) == Some(Some(sv)) && segs.deep_view() == sv;
                    assert(segs.deep_view()[segs@.len() - 1] == sv.last());
                }
                Ok(s)
            } else {
                Ok(String::new())
            }
        },
    }
}

/// The published assets of one engine release: a download URL per
/// platform, where the release offers one.
#[derive(Clone)]
pub struct DownloadAssets {
    pub windows_x86_64: Option<String>,
    pub windows_x86: Option<String>,
    pub macos_x86_64: Option<String>,
    pub macos_arm64: Option<String>,
    pub linux_x86_64: Option<String>,
}

impl Default for DownloadAssets {
    /// No assets.
    fn default() -> (r: Self)
        ensures
            r.windows_x86_64 is None,
            r.windows_x86 is None,
            r.macos_x86_64 is None,
            r.macos_arm64 is None,
            r.linux_x86_64 is None,
    {
        DownloadAssets {
            windows_x86_64: None,
            windows_x86: None,
            macos_x86_64: None,
            macos_arm64: None,
            linux_x86_64: None,
        }
    }
}

/// The assets as platform-name and URL pairs, in their fixed order.
pub open spec fn asset_pairs(a: DownloadAssets) -> Seq<(Seq<char>, Seq<char>)> {
    let s0 = Seq::<(Seq<char>, Seq<char>)>::empty();
    let s1 = if a.windows_x86_64 is Some {
        s0.push(("windows_x86_64"@, a.windows_x86_64.unwrap()@))
    } else {
        s0
    };
    let s2 = if a.windows_x86 is Some {
        s1.push(("windows_x86"@, a.windows_x86.unwrap()@))
    } else {
        s1
    };
    let s3 = if a.macos_arm64 is Some {
        s2.push(("macos_arm64"@, a.macos_arm64.unwrap()@))
    } else {
        s2
    };
    let s4 = if a.macos_x86_64 is Some {
        s3.push(("macos_x86_64"@, a.macos_x86_64.unwrap()@))
    } else {
        s3
    };
    if a.linux_x86_64 is Some {
        s4.push(("linux_x86_64"@, a.linux_x86_64.unwrap()@))
    } else {
        s4
    }
}

impl DownloadAssets {
    /// The mapping from platform name to download URL, as ordered pairs
    /// with the platform names distinct.
    pub fn to_hashmap(&self) -> (r: Vec<(String, String)>)
        ensures
            r@.map_values(|p: (String, String)| (p.0@, p.1@)) == asset_pairs(*self),
    {
        let mut r: Vec<(String, String)> = Vec::new();
        match &self.windows_x86_64 {
            Some(u) => {
                r.push(("windows_x86_64".to_owned(), u.clone()));
            },
            None => {},
        }
        match &self.windows_x86 {
            Some(u) => {
                r.push(("windows_x86".to_owned(), u.clone()));
            },
            None => {},
        }
        match &self.macos_arm64 {
            Some(u) => {
                r.push(("macos_arm64".to_owned(), u.clone()));
            },
            None => {},
        }
        match &self.macos_x86_64 {
            Some(u) => {
                r.push(("macos_x86_64".to_owned(), u.clone()));
            },
            None => {},
        }
        match &self.linux_x86_64 {
            Some(u) => {
                r.push(("linux_x86_64".to_owned(), u.clone()));
            },
            None => {},
        }
        proof {
            assert(r@.map_values(|p: (String, String)| (p.0@, p.1@)) =~= asset_pairs(*self));
        }
        r
    }
}

/// The latest published release of one engine, as its version and its
/// downloadable assets.
#[derive(Clone)]
pub struct GithubLatestRelease {
    pub owner: String,
    pub repo: String,
    pub version: String,
    pub download_assets: DownloadAssets,
}

/// The version a release tag denotes when its first byte (a leading `v`)
/// is stripped; an empty tag reads as the empty version.
pub open spec fn tag_version(tag: Seq<u8>) -> Seq<char> {
    if tag.len() >= 1 {
        lossy_of(tag.skip(1))
    } else {
        Seq::<char>::empty()
    }
}

/// One asset URL of a lux release.
pub open spec fn lux_asset_url(v: Seq<char>, suffix: Seq<char>) -> Seq<char> {
    "https://github.com/iawia002/lux/releases/download/v"@ + v + "/lux_"@ + v + suffix
}

/// The asset URL of a youtube-dl release.
pub open spec fn youtubedl_asset_url(v: Seq<char>) -> Seq<char> {
    "https://github.com/ytdl-org/youtube-dl/releases/download/"@ + v + "/youtube-dl.exe"@
}

impl GithubLatestRelease {
    /// The release that a fetched tag denotes for the named engine
    /// (ignoring ASCII case and surrounding whitespace), or nothing for
    /// an unknown engine. Lux and you-get tags carry a leading `v`,
    /// which is stripped from the version; lux offers one archive per
    /// platform, youtube-dl one Windows binary, you-get no binaries.
    pub fn get_from_github_api(engine_name: &str, tag_name: &str) -> (r: Option<
        GithubLatestRelease,
    >)
        ensures
            ({
                let m = trim(lower(engine_name.spec_bytes()));
                let tag = tag_name.spec_bytes();
                if m == ascii_of("lux"@) {
                    let v = tag_version(tag);
                    &&& r matches Some(g)
                    &&& g.version@ == v
                    &&& (g.download_assets.windows_x86_64 matches Some(u) && u@ == lux_asset_url(
                        v,
                        "_Windows_x86_64.zip"@,
                    ))
                    &&& (g.download_assets.windows_x86 matches Some(u) && u@ == lux_asset_url(
                        v,
                        "_Windows_i386.zip"@,
                    ))
                    &&& (g.download_assets.macos_x86_64 matches Some(u) && u@ == lux_asset_url(
                        v,
                        "_Darwin_x86_64.zip"@,
                    ))
                    &&& (g.download_assets.macos_arm64 matches Some(u) && u@ == lux_asset_url(
                        v,
                        "_Darwin_arm64.zip"@,
                    ))
                    &&& (g.download_assets.linux_x86_64 matches Some(u) && u@ == lux_asset_url(
                        v,
                        "_Linux_x86_64.zip"@,
                    ))
                } else if m == ascii_of("youtube-dl"@) {
                    let v = lossy_of(tag);
                    &&& r matches Some(g)
                    &&& g.version@ == v
                    &&& (g.download_assets.windows_x86_64 matches Some(u) && u@
                        == youtubedl_asset_url(v))
                    &&& (g.download_assets.windows_x86 matches Some(u) && u@
                        == youtubedl_asset_url(v))
                    &&& g.download_assets.macos_x86_64 is None
                    &&& g.download_assets.macos_arm64 is None
                    &&& g.download_assets.linux_x86_64 is None
                } else if m == ascii_of("you-get"@) {
                    let v = tag_version(tag);
                    &&& r matches Some(g)
                    &&& g.version@ == v
                    &&& g.download_assets.windows_x86_64 is None
                    &&& g.download_assets.windows_x86 is None
                    &&& g.download_assets.macos_x86_64 is None
                    &&& g.download_assets.macos_arm64 is None
                    &&& g.download_assets.linux_x86_64 is None
                } else {
                    r is None
                }
            }),
    {
        proof {
            reveal_strlit("lux");
            reveal_strlit("youtube-dl");
            reveal_strlit("you-get");
            assert(is_ascii("lux"));
            assert(is_ascii("youtube-dl"));
            assert(is_ascii("you-get"));
        }
        let m = lower_trim(engine_name.as_bytes());
        let ms = m.as_slice();
        if bytes_eq(ms, lit_bytes("lux")) {
            let v = strip_tag(tag_name);
            let assets = DownloadAssets {
                windows_x86_64: Some(lux_url(&v, "_Windows_x86_64.zip")),
                windows_x86: Some(lux_url(&v, "_Windows_i386.zip")),
                macos_x86_64: Some(lux_url(&v, "_Darwin_x86_64.zip")),
                macos_arm64: Some(lux_url(&v, "_Darwin_arm64.zip")),
                linux_x86_64: Some(lux_url(&v, "_Linux_x86_64.zip")),
            };
            Some(
                GithubLatestRelease {
                    owner: "iawia002".to_owned(),
                    repo: "lux".to_owned(),
                    version: v,
                    download_assets: assets,
                },
            )
        } else if bytes_eq(ms, lit_bytes("youtube-dl")) {
            let v = lossy_string(tag_name.as_bytes());
            let u = "https://github.com/ytdl-org/youtube-dl/releases/download/".to_owned().concat(
                v.as_str(),
            ).concat("/youtube-dl.exe");
            let assets = DownloadAssets {
                windows_x86_64: Some(u.clone()),
                windows_x86: Some(u),
                macos_x86_64: None,
                macos_arm64: None,
                linux_x86_64: None,
            };
            Some(
                GithubLatestRelease {
                    owner: "ytdl-org".to_owned(),
                    repo: "youtube-dl".to_owned(),
                    version: v,
                    download_assets: assets,
                },
            )
        } else if bytes_eq(ms, lit_bytes("you-get")) {
            let v = strip_tag(tag_name);
            let assets = DownloadAssets {
                windows_x86_64: None,
                windows_x86: None,
                macos_x86_64: None,
                macos_arm64: None,
                linux_x86_64: None,
            };
            Some(
                GithubLatestRelease {
                    owner: "soimort".to_owned(),
                    repo: "you-get".to_owned(),
                    version: v,
                    download_assets: assets,
                },
            )
        } else {
            None
        }
    }
}

/// The tag with its first byte (the leading `v`) stripped, decoded.
fn strip_tag(tag: &str) -> (r: String)
    ensures
        r@ == tag_version(tag.spec_bytes()),
{
    let b = tag.as_bytes();
    if b.len() >= 1 {
        let rest = slice_range(b, 1, b.len());
        let r = lossy_string(rest.as_slice());
        proof {
            assert(rest@ =~= tag.spec_bytes().skip(1));
        }
        r
    } else {
        let r = lossy_string(b);
        r
    }
}

/// One lux asset URL for the given version and platform suffix.
fn lux_url(v: &String, suffix: &str) -> (r: String)
    ensures
        r@ == lux_asset_url(v@, suffix@),
{
    "https://github.com/iawia002/lux/releases/download/v".to_owned().concat(v.as_str()).concat(
        "/lux_",
    ).concat(v.as_str()).concat(suffix)
}

/// The position of a key in a key sequence, or the length when it is
/// absent.
pub open spec fn key_ix(s: Seq<Seq<char>>, t: Seq<char>) -> int
    decreases s.len(),
{
    if s.len() == 0 {
        0
    } else if s[0] == t {
        0
    } else {
        1 + key_ix(s.drop_first(), t)
    }
}

/// `key_ix` is in range, points at the key when it occurs, and nothing
/// before it equals it.
pub proof fn lemma_key_ix(s: Seq<Seq<char>>, t: Seq<char>)
    ensures
        0 <= key_ix(s, t) <= s.len(),
        key_ix(s, t) < s.len() ==> s[key_ix(s, t)] == t,
        forall|k: int| 0 <= k < key_ix(s, t) ==> s[k] != t,
    decreases s.len(),
{
    if s.len() > 0 && s[0] != t {
        let rest = s.drop_first();
        lemma_key_ix(rest, t);
        let f = key_ix(s, t);
        if f < s.len() {
            assert(s[f] == rest[f - 1]);
        }
        assert(forall|k: int| 1 <= k < f ==> s[k] == rest[k - 1]);
    }
}

/// The platform names of the assets with the one matching the running
/// platform moved to the front, when it is offered.
pub open spec fn spec_order_keys(a: DownloadAssets, target: Seq<char>) -> Seq<Seq<char>> {
    let keys = asset_pairs(a).map_values(|p: (Seq<char>, Seq<char>)| p.0);
    let ix = key_ix(keys, target);
    if ix < keys.len() {
        keys.update(0, keys[ix]).update(ix, keys[0])
    } else {
        keys
    }
}

impl DownloadAssets {
    /// The platform names of the offered assets, with the name matching
    /// the given platform and architecture swapped to the front when it
    /// is among them.
    pub fn to_order_vec(&self, os: &str, arch: &str) -> (r: Vec<String>)
        ensures
            r@.map_values(|s: String| s@) == spec_order_keys(*self, os@ + "_"@ + arch@),
    {
        let target = os.to_owned().concat("_").concat(arch);
        let pairs = self.to_hashmap();
        let ghost gkeys = asset_pairs(*self).map_values(|p: (Seq<char>, Seq<char>)| p.0);
        let mut keys: Vec<String> = Vec::new();
        let mut i: usize = 0;
        while i < pairs.len()
            invariant
                0 <= i <= pairs@.len(),
                pairs@.map_values(|p: (String, String)| (p.0@, p.1@)) == asset_pairs(*self),
                gkeys == asset_pairs(*self).map_values(|p: (Seq<char>, Seq<char>)| p.0),
                keys@.len() == i,
                forall|k: int| 0 <= k < i ==> #[trigger] keys@[k]@ == gkeys[k],
            decreases pairs@.len() - i,
        {
            proof {
                assert(asset_pairs(*self)[i as int] == (pairs@[i as int].0@, pairs@[i as int].1@));
                assert(gkeys[i as int] == asset_pairs(*self)[i as int].0);
            }
            keys.push(pairs[i].0.clone());
            i = i + 1;
        }
        proof {
            lemma_key_ix(gkeys, target@);
            assert(keys@.map_values(|s: String| s@) =~= gkeys);
        }
        let mut j: usize = 0;
        while j < keys.len() && !str_eq(&keys[j], &target)
            invariant
                0 <= j <= keys@.len(),
                keys@.map_values(|s: String| s@) == gkeys,
                forall|k: int| 0 <= k < j ==> #[trigger] keys@[k]@ != target@,
            decreases keys@.len() - j,
        {
            j = j + 1;
        }
        let found: Option<usize> = if j < keys.len() {
            Some(j)
        } else {
            None
        };
        match found {
            Some(ix) => {
                proof {
                    assert(gkeys[ix as int] == target@);
                    assert forall|k: int| 0 <= k < ix implies gkeys[k] != target@ by {
                        assert(keys@[k]@ != target@);
                    }
                    lemma_key_ix_found(gkeys, target@, ix as int);
                }
                let first = keys[0].clone();
                let chosen = keys[ix].clone();
                keys.set(0, chosen);
                keys.set(ix, first);
                proof {
                    assert(keys@.map_values(|s: String| s@) =~= spec_order_keys(
                        *self,
                        os@ + "_"@ + arch@,
                    ));
                }
                keys
            },
            None => {
                proof {
                    lemma_key_ix(gkeys, target@);
                    if key_ix(gkeys, target@) < gkeys.len() {
                        assert(keys@[key_ix(gkeys, target@)]@ == target@);
                    }
                    assert(keys@.map_values(|s: String| s@) =~= spec_order_keys(
                        *self,
                        os@ + "_"@ + arch@,
                    ));
                }
                keys
            },
        }
    }
}

/// Whether two strings hold the same text.
fn str_eq(a: &String, b: &String) -> (r: bool)
    ensures
        r == (a@ == b@),
{
    *a == *b
}

/// `key_ix` equals any index carrying the key with none before.
proof fn lemma_key_ix_found(s: Seq<Seq<char>>, t: Seq<char>, i: int)
    requires
        0 <= i < s.len(),
        s[i] == t,
        forall|k: int| 0 <= k < i ==> s[k] != t,
    ensures
        key_ix(s, t) == i,
{
    lemma_key_ix(s, t);
    let f = key_ix(s, t);
    if f < i {
        assert(s[f] == t);
    }
    if f > i {
        assert(s[i] != t);
    }
}

} // verus!
