//! The youtube-dl engine: its command line shapes and its progress
//! channel. Youtube-dl lists streams as a JSON document and writes
//! progress to its primary output.

use vstd::prelude::*;

verus! {

use crate::DownError;
use crate::downloader::DownloadInfo;
use crate::downloader::entry_shape;
use crate::downloader::info_ix;
use crate::downloader::lemma_info_ix;
use crate::downloader::lemma_upsert_shape;
use crate::downloader::unique_ids;
use crate::downloader::upsert;
use crate::json::get_member;
use crate::json::json_doc;
use crate::json::member;
use crate::json::member_size_or_zero;
use crate::json::member_text_or_unknown;
use crate::json::parse_json;
use crate::json::size_or_zero;
use crate::json::text_or_unknown;
use crate::json::JsonVal;
use vstd::utf8::decode_utf8;
use vstd::utf8::valid_utf8;

/// The youtube-dl engine.
pub struct Youtubedl {}

/// The probe arguments for youtube-dl: a short socket timeout, the JSON
/// listing flag and the URL, with the cookie-file flag prepended when a
/// cookie file is given.
pub open spec fn youtubedl_probe_args(url: Seq<char>, cookie: Option<Seq<char>>) -> Seq<
    Seq<char>,
> {
    match cookie {
        Some(c) => seq!["-c"@, c, "--socket-timeout"@, "4"@, "-j"@, url],
        None => seq!["--socket-timeout"@, "4"@, "-j"@, url],
    }
}

/// The download arguments for youtube-dl: the format selector, one
/// output path joining directory and file name, and the URL, with the
/// cookie-file flag prepended when a cookie file is given.
pub open spec fn youtubedl_download_args(
    url: Seq<char>,
    id: Seq<char>,
    output: Seq<char>,
    cookie: Option<Seq<char>>,
) -> Seq<Seq<char>> {
    match cookie {
        Some(c) => seq!["-c"@, c, "-f"@, id, "-o"@, output, url],
        None => seq!["-f"@, id, "-o"@, output, url],
    }
}

impl Youtubedl {
    /// The display name under which this engine labels its streams.
    pub fn get_downloader_name(&self) -> (r: String)
        ensures
            r@ == "Youtube-dl"@,
    {
        "Youtube-dl".to_owned()
    }

    /// Youtube-dl writes progress to its primary output.
    pub fn is_stderr_output(&self) -> (r: bool)
        ensures
            r == false,
    {
        false
    }

    /// The argument list for one probe invocation.
    pub fn probe_args(&self, url: &str, cookie_file: Option<&str>) -> (r: Vec<String>)
        ensures
            cookie_file matches Some(c) ==> r.deep_view() == youtubedl_probe_args(url@, Some(c@)),
            cookie_file is None ==> r.deep_view() == youtubedl_probe_args(url@, None),
    {
        let mut r: Vec<String> = Vec::new();
        match cookie_file {
            Some(c) => {
                r.push("-c".to_owned());
                r.push(c.to_owned());
            },
            None => {},
        }
        r.push("--socket-timeout".to_owned());
        r.push("4".to_owned());
        r.push("-j".to_owned());
        r.push(url.to_owned());
        proof {
            match cookie_file {
                Some(c) => {
                    assert(r.deep_view() =~~= youtubedl_probe_args(url@, Some(c@)));
                },
                None => {
                    assert(r.deep_view() =~~= youtubedl_probe_args(url@, None));
                },
            }
        }
        r
    }

    /// The argument list for one download invocation; the output path
    /// joins directory and file name with a slash.
    pub fn download_args(
        &self,
        url: &str,
        id: &str,
        output_dir: &str,
        output_name: &str,
        cookie_file: Option<&str>,
    ) -> (r: Vec<String>)
        ensures
            cookie_file matches Some(c) ==> r.deep_view() == youtubedl_download_args(
                url@,
                id@,
                output_dir@ + "/"@ + output_name@,
                Some(c@),
            ),
            cookie_file is None ==> r.deep_view() == youtubedl_download_args(
                url@,
                id@,
                output_dir@ + "/"@ + output_name@,
                None,
            ),
    {
        let output = output_dir.to_owned().concat("/").concat(output_name);
        let mut r: Vec<String> = Vec::new();
        match cookie_file {
            Some(c) => {
                r.push("-c".to_owned());
                r.push(c.to_owned());
            },
            None => {},
        }
        r.push("-f".to_owned());
        r.push(id.to_owned());
        r.push("-o".to_owned());
        r.push(output);
        r.push(url.to_owned());
        proof {
            match cookie_file {
                Some(c) => {
                    assert(r.deep_view() =~~= youtubedl_download_args(
                        url@,
                        id@,
                        output_dir@ + "/"@ + output_name@,
                        Some(c@),
                    ));
                },
                None => {
                    assert(r.deep_view() =~~= youtubedl_download_args(
                        url@,
                        id@,
                        output_dir@ + "/"@ + output_name@,
                        None,
                    ));
                },
            }
        }
        r
    }
}

/// The stream handle of one listed format: its format identifier, with
/// the unknown sentinel when it carries none.
pub open spec fn ytdl_id(f: JsonVal) -> Seq<char> {
    text_or_unknown(member(f, "format_id"@))
}

/// The position of a handle among listed formats, or their number when
/// no format carries it.
pub open spec fn format_ix(list: Seq<JsonVal>, id: Seq<char>) -> int
    decreases list.len(),
{
    if list.len() == 0 {
        0
    } else if ytdl_id(list[0]) == id {
        0
    } else {
        1 + format_ix(list.drop_first(), id)
    }
}

/// `format_ix` is in range, points at the handle when it occurs, and
/// nothing before it carries it.
pub proof fn lemma_format_ix(list: Seq<JsonVal>, id: Seq<char>)
    ensures
        0 <= format_ix(list, id) <= list.len(),
        format_ix(list, id) < list.len() ==> ytdl_id(list[format_ix(list, id)]) == id,
        forall|k: int| 0 <= k < format_ix(list, id) ==> ytdl_id(list[k]) != id,
    decreases list.len(),
{
    if list.len() > 0 && ytdl_id(list[0]) != id {
        let rest = list.drop_first();
        lemma_format_ix(rest, id);
        let f = format_ix(list, id);
        if f < list.len() {
            assert(list[f] == rest[f - 1]);
        }
        assert(forall|k: int| 1 <= k < f ==> list[k] == rest[k - 1]);
    }
}

/// The listed formats read as a mapping keyed by their handles: a later
/// format whose handle was already seen replaces the earlier in place.
pub open spec fn dedup_formats(list: Seq<JsonVal>) -> Seq<JsonVal>
    decreases list.len(),
{
    if list.len() == 0 {
        Seq::empty()
    } else {
        let d = dedup_formats(list.drop_last());
        let last = list.last();
        let ix = format_ix(d, ytdl_id(last));
        if ix < d.len() {
            d.update(ix, last)
        } else {
            d.push(last)
        }
    }
}

/// Whether a stream record renders one listed format of the document.
pub open spec fn ytdl_entry_matches(
    info: DownloadInfo,
    f: JsonVal,
    site: Seq<char>,
    title: Seq<char>,
    url: Seq<char>,
) -> bool {
    &&& info.url@ == url
    &&& info.site@ == site
    &&& info.title@ == title
    &&& info.stream_id@ == ytdl_id(f)
    &&& info.stream_name@ == text_or_unknown(member(f, "format"@))
    &&& info.ext@ == text_or_unknown(member(f, "ext"@))
    &&& info.stream_size as nat == size_or_zero(member(f, "filesize"@))
}

/// A listing the youtube-dl prober accepts: UTF-8 text that parses as a
/// JSON document.
pub open spec fn ytdl_accepts(output: Seq<u8>) -> bool {
    valid_utf8(output) && json_doc(decode_utf8(output)) is Some
}

/// Whether a probe result renders an accepted youtube-dl listing: one
/// record per listed format, in the listing's order with a later
/// duplicate handle replacing the earlier; a document without a formats
/// array describes a single variant itself.
pub open spec fn ytdl_records_match(v: Seq<DownloadInfo>, output: Seq<u8>, url: Seq<char>) -> bool {
    match json_doc(decode_utf8(output)) {
        Some(doc) => {
            let site = text_or_unknown(member(doc, "webpage_url"@));
            let title = text_or_unknown(member(doc, "title"@));
            match member(doc, "formats"@) {
                Some(JsonVal::Arr(list)) => {
                    let ded = dedup_formats(list@);
                    &&& v.len() == ded.len()
                    &&& forall|j: int|
                        0 <= j < v.len() ==> ytdl_entry_matches(
                            #[trigger] v[j],
                            ded[j],
                            site,
                            title,
                            url,
                        )
                },
                _ => v.len() == 1 && ytdl_entry_matches(v[0], doc, site, title, url),
            }
        },
        None => false,
    }
}

impl Youtubedl {
    /// Normalize one youtube-dl probe listing into stream records. The
    /// prober accepts exactly the listings that decode as UTF-8 and
    /// parse as JSON; anything else is the malformed-output error, the
    /// only error it yields. On acceptance the records are fixed by the
    /// listing: one per listed format keyed by its handle, or a single
    /// record read off the document itself when it lists no formats
    /// array: see `ytdl_records_match`.
    pub fn get_stream_info(&self, url: &str, output: &[u8]) -> (r: Result<
        Vec<DownloadInfo>,
        DownError,
    >)
        ensures
            r is Ok <==> ytdl_accepts(output@),
            r matches Err(e) ==> e == DownError::MalformedProbeOutput,
            r matches Ok(v) ==> {
                &&& unique_ids(v@)
                &&& (forall|i: int|
                    0 <= i < v@.len() ==> entry_shape(#[trigger] v@[i], url@, "Youtube-dl"@))
                &&& ytdl_records_match(v@, output@, url@)
            },
    {
        let text = match crate::decode::utf8_string(output) {
            Some(s) => s,
            None => {
                return Err(DownError::MalformedProbeOutput);
            },
        };
        let doc = match parse_json(text.as_str()) {
            Some(v) => v,
            None => {
                return Err(DownError::MalformedProbeOutput);
            },
        };
        let site = member_text_or_unknown(&doc, "webpage_url");
        let title = member_text_or_unknown(&doc, "title");
        let mut entries: Vec<DownloadInfo> = Vec::new();
        match get_member(&doc, "formats") {
            Some(JsonVal::Arr(list)) => {
                let mut j: usize = 0;
                proof {
                    assert(list@.take(0) =~= Seq::<JsonVal>::empty());
                }
                while j < list.len()
                    invariant
                        0 <= j <= list@.len(),
                        site@ == text_or_unknown(member(doc, "webpage_url"@)),
                        title@ == text_or_unknown(member(doc, "title"@)),
                        unique_ids(entries@),
                        forall|i: int|
                            0 <= i < entries@.len() ==> entry_shape(
                                #[trigger] entries@[i],
                                url@,
                                "Youtube-dl"@,
                            ),
                        entries@.len() == dedup_formats(list@.take(j as int)).len(),
                        forall|i: int|
                            0 <= i < entries@.len() ==> {
                                let ded = dedup_formats(list@.take(j as int));
                                ytdl_entry_matches(
                                    #[trigger] entries@[i],
                                    ded[i],
                                    site@,
                                    title@,
                                    url@,
                                )
                            },
                    decreases list@.len() - j,
                {
                    let ghost ded = dedup_formats(list@.take(j as int));
                    proof {
                        assert(list@.take(j + 1).drop_last() =~= list@.take(j as int));
                        assert(list@.take(j + 1).last() == list@[j as int]);
                        lemma_format_ix(ded, ytdl_id(list@[j as int]));
                    }
                    let f = &list[j];
                    let info = DownloadInfo {
                        url: url.to_owned(),
                        site: site.clone(),
                        title: title.clone(),
                        ext: member_text_or_unknown(f, "ext"),
                        stream_id: member_text_or_unknown(f, "format_id"),
                        stream_name: member_text_or_unknown(f, "format"),
                        stream_size: member_size_or_zero(f, "filesize"),
                        downloader: self.get_downloader_name(),
                        save_option: None,
                        cookies: None,
                    };
                    proof {
                        lemma_upsert_shape(entries@, info, url@, "Youtube-dl"@);
                        lemma_info_ix(entries@, info.stream_id@);
                        let fix = format_ix(ded, ytdl_id(list@[j as int]));
                        if fix < ded.len() {
                            assert(entries@[fix].stream_id@ == ytdl_id(ded[fix]));
                            assert forall|k: int| 0 <= k < fix implies entries@[k].stream_id@
                                != info.stream_id@ by {
                                assert(entries@[k].stream_id@ == ytdl_id(ded[k]));
                            }
                            crate::downloader::lemma_info_ix_found(
                                entries@,
                                info.stream_id@,
                                fix,
                            );
                        } else {
                            assert forall|k: int|
                                0 <= k < entries@.len() implies entries@[k].stream_id@
                                != info.stream_id@ by {
                                assert(entries@[k].stream_id@ == ytdl_id(ded[k]));
                            }
                            if info_ix(entries@, info.stream_id@) < entries@.len() {
                                assert(entries@[info_ix(entries@, info.stream_id@)].stream_id@
                                    == info.stream_id@);
                            }
                        }
                    }
                    upsert(&mut entries, info);
                    j = j + 1;
                }
                proof {
                    assert(list@.take(list@.len() as int) =~= list@);
                }
            },
            _ => {
                let info = DownloadInfo {
                    url: url.to_owned(),
                    site,
                    title,
                    ext: member_text_or_unknown(&doc, "ext"),
                    stream_id: member_text_or_unknown(&doc, "format_id"),
                    stream_name: member_text_or_unknown(&doc, "format"),
                    stream_size: member_size_or_zero(&doc, "filesize"),
                    downloader: self.get_downloader_name(),
                    save_option: None,
                    cookies: None,
                };
                entries.push(info);
            },
        }
        Ok(entries)
    }
}

} // verus!
