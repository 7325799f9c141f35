//! The lux engine: its command line shapes and its progress channel.
//! Lux lists streams as a JSON document and writes progress to its
//! secondary output.

use vstd::prelude::*;

verus! {

use crate::DownError;
use crate::downloader::DownloadInfo;
use crate::downloader::entry_shape;
use crate::downloader::info_ix;
use crate::downloader::lemma_info_ix;
use crate::downloader::lemma_upsert_shape;
use crate::downloader::unique_ids;
use crate::downloader::upsert;
use crate::json::dedup_fields;
use crate::json::field_ix;
use crate::json::get_member;
use crate::json::json_doc;
use crate::json::lemma_field_ix;
use crate::json::member;
use crate::json::member_size_or_zero;
use crate::json::member_text_or_unknown;
use crate::json::parse_json;
use crate::json::size_or_zero;
use crate::json::text_or_unknown;
use crate::json::JsonVal;
use vstd::utf8::decode_utf8;
use vstd::utf8::valid_utf8;

/// The lux engine.
pub struct Lux {}

/// The probe arguments for lux: the JSON listing flag and the URL, with
/// the cookie-file flag prepended when a cookie file is given.
pub open spec fn lux_probe_args(url: Seq<char>, cookie: Option<Seq<char>>) -> Seq<Seq<char>> {
    match cookie {
        Some(c) => seq!["-c"@, c, "-j"@, url],
        None => seq!["-j"@, url],
    }
}

/// The download arguments for lux: the stream selector, the output
/// directory and file name, and the URL, with the cookie-file flag
/// prepended when a cookie file is given.
pub open spec fn lux_download_args(
    url: Seq<char>,
    id: Seq<char>,
    output_dir: Seq<char>,
    output_name: Seq<char>,
    cookie: Option<Seq<char>>,
) -> Seq<Seq<char>> {
    match cookie {
        Some(c) => seq!["-c"@, c, "-f"@, id, "-o"@, output_dir, "-O"@, output_name, url],
        None => seq!["-f"@, id, "-o"@, output_dir, "-O"@, output_name, url],
    }
}

impl Lux {
    /// The display name under which this engine labels its streams.
    pub fn get_downloader_name(&self) -> (r: String)
        ensures
            r@ == "Lux"@,
    {
        "Lux".to_owned()
    }

    /// Lux writes progress to its secondary output.
    pub fn is_stderr_output(&self) -> (r: bool)
        ensures
            r == true,
    {
        true
    }

    /// The argument list for one probe invocation.
    pub fn probe_args(&self, url: &str, cookie_file: Option<&str>) -> (r: Vec<String>)
        ensures
            cookie_file matches Some(c) ==> r.deep_view() == lux_probe_args(url@, Some(c@)),
            cookie_file is None ==> r.deep_view() == lux_probe_args(url@, None),
    {
        let mut r: Vec<String> = Vec::new();
        match cookie_file {
            Some(c) => {
                r.push("-c".to_owned());
                r.push(c.to_owned());
                r.push("-j".to_owned());
                r.push(url.to_owned());
                proof {
                    assert(r.deep_view() =~~= lux_probe_args(url@, Some(c@)));
                }
            },
            None => {
                r.push("-j".to_owned());
                r.push(url.to_owned());
                proof {
                    assert(r.deep_view() =~~= lux_probe_args(url@, None));
                }
            },
        }
        r
    }

    /// The argument list for one download invocation.
    pub fn download_args(
        &self,
        url: &str,
        id: &str,
        output_dir: &str,
        output_name: &str,
        cookie_file: Option<&str>,
    ) -> (r: Vec<String>)
        ensures
            cookie_file matches Some(c) ==> r.deep_view() == lux_download_args(
                url@,
                id@,
                output_dir@,
                output_name@,
                Some(c@),
            ),
            cookie_file is None ==> r.deep_view() == lux_download_args(
                url@,
                id@,
                output_dir@,
                output_name@,
                None,
            ),
    {
        let mut r: Vec<String> = Vec::new();
        match cookie_file {
            Some(c) => {
                r.push("-c".to_owned());
                r.push(c.to_owned());
            },
            None => {},
        }
        r.push("-f".to_owned());
        r.push(id.to_owned());
        r.push("-o".to_owned());
        r.push(output_dir.to_owned());
        r.push("-O".to_owned());
        r.push(output_name.to_owned());
        r.push(url.to_owned());
        proof {
            match cookie_file {
                Some(c) => {
                    assert(r.deep_view() =~~= lux_download_args(
                        url@,
                        id@,
                        output_dir@,
                        output_name@,
                        Some(c@),
                    ));
                },
                None => {
                    assert(r.deep_view() =~~= lux_download_args(
                        url@,
                        id@,
                        output_dir@,
                        output_name@,
                        None,
                    ));
                },
            }
        }
        r
    }
}
impl Lux {
    /// Normalize one lux probe listing into stream records. The prober
    /// accepts exactly the listings that decode as UTF-8, parse as a
    /// non-empty JSON array, and whose first node carries either no
    /// streams member or an object of them; anything else is the
    /// malformed-output error, the only error it yields. On acceptance
    /// the records are fixed by the listing, one per stream handle with
    /// later duplicates replacing earlier: see `lux_records_match`.
    pub fn get_stream_info(&self, url: &str, output: &[u8]) -> (r: Result<
        Vec<DownloadInfo>,
        DownError,
    >)
        ensures
            r is Ok <==> lux_accepts(output@),
            r matches Err(e) ==> e == DownError::MalformedProbeOutput,
            r matches Ok(v) ==> {
                &&& unique_ids(v@)
                &&& (forall|i: int| 0 <= i < v@.len() ==> entry_shape(#[trigger] v@[i], url@, "Lux"@))
                &&& lux_records_match(v@, output@, url@)
            },
    {
        let text = match crate::decode::utf8_string(output) {
            Some(s) => s,
            None => {
                return Err(DownError::MalformedProbeOutput);
            },
        };
        let doc = match parse_json(text.as_str()) {
            Some(v) => v,
            None => {
                return Err(DownError::MalformedProbeOutput);
            },
        };
        let nodes = match &doc {
            JsonVal::Arr(nodes) => nodes,
            _ => {
                return Err(DownError::MalformedProbeOutput);
            },
        };
        if nodes.len() == 0 {
            return Err(DownError::MalformedProbeOutput);
        }
        let node = &nodes[0];
        let site = member_text_or_unknown(node, "site");
        let title = member_text_or_unknown(node, "title");
        let mut entries: Vec<DownloadInfo> = Vec::new();
        let streams = match get_member(node, "streams") {
            Some(s) => s,
            None => {
                return Ok(entries);
            },
        };
        let fields = match streams {
            JsonVal::Obj(fields) => fields,
            _ => {
                return Err(DownError::MalformedProbeOutput);
            },
        };
        let ghost gnode = nodes@[0];
        let mut j: usize = 0;
        proof {
            assert(fields@.take(0) =~= Seq::<(String, JsonVal)>::empty());
        }
        while j < fields.len()
            invariant
                0 <= j <= fields@.len(),
                site@ == text_or_unknown(member(gnode, "site"@)),
                title@ == text_or_unknown(member(gnode, "title"@)),
                unique_ids(entries@),
                forall|i: int|
                    0 <= i < entries@.len() ==> entry_shape(#[trigger] entries@[i], url@, "Lux"@),
                entries@.len() == dedup_fields(fields@.take(j as int)).len(),
                forall|i: int|
                    0 <= i < entries@.len() ==> {
                        let ded = dedup_fields(fields@.take(j as int));
                        lux_entry_matches(
                            #[trigger] entries@[i],
                            ded[i].0@,
                            ded[i].1,
                            site@,
                            title@,
                            url@,
                        )
                    },
            decreases fields@.len() - j,
        {
            let ghost ded = dedup_fields(fields@.take(j as int));
            proof {
                assert(fields@.take(j + 1).drop_last() =~= fields@.take(j as int));
                assert(fields@.take(j + 1).last() == fields@[j as int]);
                lemma_field_ix(ded, fields@[j as int].0@);
            }
            let pair = &fields[j];
            let key = &pair.0;
            let sn = &pair.1;
            let ext = lux_stream_ext(sn);
            let info = DownloadInfo {
                url: url.to_owned(),
                site: site.clone(),
                title: title.clone(),
                ext,
                stream_id: key.clone(),
                stream_name: member_text_or_unknown(sn, "quality"),
                stream_size: member_size_or_zero(sn, "size"),
                downloader: self.get_downloader_name(),
                save_option: None,
                cookies: None,
            };
            proof {
                lemma_upsert_shape(entries@, info, url@, "Lux"@);
                lemma_info_ix(entries@, info.stream_id@);
                let fix = field_ix(ded, info.stream_id@);
                if fix < ded.len() {
                    assert(entries@[fix].stream_id@ == ded[fix].0@);
                    assert forall|k: int| 0 <= k < fix implies entries@[k].stream_id@
                        != info.stream_id@ by {
                        assert(entries@[k].stream_id@ == ded[k].0@);
                    }
                    crate::downloader::lemma_info_ix_found(entries@, info.stream_id@, fix);
                } else {
                    assert forall|k: int| 0 <= k < entries@.len() implies entries@[k].stream_id@
                        != info.stream_id@ by {
                        assert(entries@[k].stream_id@ == ded[k].0@);
                    }
                    if info_ix(entries@, info.stream_id@) < entries@.len() {
                        assert(entries@[info_ix(entries@, info.stream_id@)].stream_id@
                            == info.stream_id@);
                    }
                }
            }
            upsert(&mut entries, info);
            j = j + 1;
        }
        proof {
            assert(fields@.take(fields@.len() as int) =~= fields@);
        }
        Ok(entries)
    }
}

/// The container extension of one stream variant: the extension text of
/// its first part when the variant has parts and that part carries one,
/// else the variant's own extension, with the unknown sentinel as the
/// last resort.
pub open spec fn lux_ext(sn: JsonVal) -> Seq<char> {
    match member(sn, "parts"@) {
        Some(JsonVal::Arr(parts)) => {
            if parts@.len() > 0 && (member(parts@[0], "ext"@) matches Some(JsonVal::Text(_))) {
                text_or_unknown(member(parts@[0], "ext"@))
            } else {
                text_or_unknown(member(sn, "ext"@))
            }
        },
        _ => text_or_unknown(member(sn, "ext"@)),
    }
}

/// The extension of one stream variant.
fn lux_stream_ext(sn: &JsonVal) -> (r: String)
    ensures
        r@ == lux_ext(*sn),
{
    match get_member(sn, "parts") {
        Some(parts_val) => {
            match parts_val {
                JsonVal::Arr(parts) => {
                    if parts.len() > 0 {
                        match get_member(&parts[0], "ext") {
                            Some(JsonVal::Text(s)) => s.clone(),
                            _ => member_text_or_unknown(sn, "ext"),
                        }
                    } else {
                        member_text_or_unknown(sn, "ext")
                    }
                },
                _ => member_text_or_unknown(sn, "ext"),
            }
        },
        None => member_text_or_unknown(sn, "ext"),
    }
}

/// Whether a stream record renders one stream variant of the listing.
pub open spec fn lux_entry_matches(
    info: DownloadInfo,
    key: Seq<char>,
    sn: JsonVal,
    site: Seq<char>,
    title: Seq<char>,
    url: Seq<char>,
) -> bool {
    &&& info.url@ == url
    &&& info.site@ == site
    &&& info.title@ == title
    &&& info.stream_id@ == key
    &&& info.stream_name@ == text_or_unknown(member(sn, "quality"@))
    &&& info.stream_size as nat == size_or_zero(member(sn, "size"@))
    &&& info.ext@ == lux_ext(sn)
}

/// A listing the lux prober accepts: UTF-8 text that parses as a
/// non-empty JSON array whose first node carries no streams member or an
/// object of streams.
pub open spec fn lux_accepts(output: Seq<u8>) -> bool {
    &&& valid_utf8(output)
    &&& match json_doc(decode_utf8(output)) {
        Some(JsonVal::Arr(nodes)) => nodes@.len() > 0 && (match member(nodes@[0], "streams"@) {
            Some(s) => s is Obj,
            None => true,
        }),
        _ => false,
    }
}

/// Whether a probe result renders an accepted lux listing: one record
/// per stream handle of the first node, in the listing's order with a
/// later duplicate handle replacing the earlier, each record fixed by
/// its variant and the node's site and title; no streams member means no
/// records.
pub open spec fn lux_records_match(v: Seq<DownloadInfo>, output: Seq<u8>, url: Seq<char>) -> bool {
    match json_doc(decode_utf8(output)) {
        Some(JsonVal::Arr(nodes)) => nodes.len() > 0 && {
            let node = nodes[0];
            let site = text_or_unknown(member(node, "site"@));
            let title = text_or_unknown(member(node, "title"@));
            match member(node, "streams"@) {
                Some(JsonVal::Obj(fields)) => {
                    let ded = dedup_fields(fields@);
                    &&& v.len() == ded.len()
                    &&& forall|j: int|
                        0 <= j < v.len() ==> lux_entry_matches(
                            #[trigger] v[j],
                            ded[j].0@,
                            ded[j].1,
                            site,
                            title,
                            url,
                        )
                },
                None => v.len() == 0,
                _ => false,
            }
        },
        _ => false,
    }
}

} // verus!
