//! The you-get engine: its command line shapes, its progress channel,
//! and the extension table for the media types its listing reports.

use vstd::prelude::*;

verus! {

use crate::text::ascii_of;
use crate::text::bytes_eq;
use crate::text::lit_bytes;
use crate::text::trim;
use crate::text::trim_copy;
use crate::DownError;
use crate::downloader::DownloadInfo;
use crate::downloader::entry_shape;
use crate::text::first_ix;
use crate::text::has_prefix;
use crate::text::is_digit;
use crate::text::lower;
use crate::text::lemma_first_ix_found;
use crate::text::parse_size;
use crate::text::size_val;
use crate::text::slice_range;
use crate::text::split_excl;
use crate::text::split_on;
use crate::text::tail_trim;
use vstd::slice::slice_to_vec;
use vstd::utf8::valid_utf8;
use vstd::string::is_ascii;
use vstd::string::StringSliceAdditionalSpecFns;

/// The you-get engine.
pub struct Youget {}

/// The probe arguments for you-get: the information flag and the URL,
/// with the cookie-file flag prepended when a cookie file is given.
pub open spec fn youget_probe_args(url: Seq<char>, cookie: Option<Seq<char>>) -> Seq<Seq<char>> {
    match cookie {
        Some(c) => seq!["-c"@, c, "-i"@, url],
        None => seq!["-i"@, url],
    }
}

/// The download arguments for you-get: the format selector, the output
/// directory and file name, and the URL, with the cookie-file flag
/// prepended when a cookie file is given.
pub open spec fn youget_download_args(
    url: Seq<char>,
    id: Seq<char>,
    output_dir: Seq<char>,
    output_name: Seq<char>,
    cookie: Option<Seq<char>>,
) -> Seq<Seq<char>> {
    match cookie {
        Some(c) => seq![
            "-c"@,
            c,
            "--format"@,
            id,
            "-o"@,
            output_dir,
            "-O"@,
            output_name,
            url,
        ],
        None => seq!["--format"@, id, "-o"@, output_dir, "-O"@, output_name, url],
    }
}

impl Youget {
    /// The display name under which this engine labels its streams.
    pub fn get_downloader_name(&self) -> (r: String)
        ensures
            r@ == "Youget"@,
    {
        "Youget".to_owned()
    }

    /// You-get writes progress to its primary output.
    pub fn is_stderr_output(&self) -> (r: bool)
        ensures
            r == false,
    {
        false
    }

    /// The argument list for one probe invocation.
    pub fn probe_args(&self, url: &str, cookie_file: Option<&str>) -> (r: Vec<String>)
        ensures
            cookie_file matches Some(c) ==> r.deep_view() == youget_probe_args(url@, Some(c@)),
            cookie_file is None ==> r.deep_view() == youget_probe_args(url@, None),
    {
        let mut r: Vec<String> = Vec::new();
        match cookie_file {
            Some(c) => {
                r.push("-c".to_owned());
                r.push(c.to_owned());
                r.push("-i".to_owned());
                r.push(url.to_owned());
                proof {
                    assert(r.deep_view() =~~= youget_probe_args(url@, Some(c@)));
                }
            },
            None => {
                r.push("-i".to_owned());
                r.push(url.to_owned());
                proof {
                    assert(r.deep_view() =~~= youget_probe_args(url@, None));
                }
            },
        }
        r
    }

    /// The argument list for one download invocation.
    pub fn download_args(
        &self,
        url: &str,
        id: &str,
        output_dir: &str,
        output_name: &str,
        cookie_file: Option<&str>,
    ) -> (r: Vec<String>)
        ensures
            cookie_file matches Some(c) ==> r.deep_view() == youget_download_args(
                url@,
                id@,
                output_dir@,
                output_name@,
                Some(c@),
            ),
            cookie_file is None ==> r.deep_view() == youget_download_args(
                url@,
                id@,
                output_dir@,
                output_name@,
                None,
            ),
    {
        let mut r: Vec<String> = Vec::new();
        match cookie_file {
            Some(c) => {
                r.push("-c".to_owned());
                r.push(c.to_owned());
            },
            None => {},
        }
        r.push("--format".to_owned());
        r.push(id.to_owned());
        r.push("-o".to_owned());
        r.push(output_dir.to_owned());
        r.push("-O".to_owned());
        r.push(output_name.to_owned());
        r.push(url.to_owned());
        proof {
            match cookie_file {
                Some(c) => {
                    assert(r.deep_view() =~~= youget_download_args(
                        url@,
                        id@,
                        output_dir@,
                        output_name@,
                        Some(c@),
                    ));
                },
                None => {
                    assert(r.deep_view() =~~= youget_download_args(
                        url@,
                        id@,
                        output_dir@,
                        output_name@,
                        None,
                    ));
                },
            }
        }
        r
    }
}

/// The container extension for a media type that a you-get listing
/// reports, after trimming; an unrecognized type reads as the unknown
/// sentinel. The table is case-sensitive.
pub open spec fn ext_for_type(t: Seq<u8>) -> Seq<char> {
    let n = trim(t);
    if n == ascii_of("video/3gpp"@) {
        "3gp"@
    } else if n == ascii_of("video/f4v"@) {
        "flv"@
    } else if n == ascii_of("video/mp4"@) {
        "mp4"@
    } else if n == ascii_of("video/MP2T"@) {
        "ts"@
    } else if n == ascii_of("video/quicktime"@) {
        "mov"@
    } else if n == ascii_of("video/webm"@) {
        "webm"@
    } else if n == ascii_of("video/x-flv"@) {
        "flv"@
    } else if n == ascii_of("video/x-ms-asf"@) {
        "asf"@
    } else if n == ascii_of("audio/mp4"@) {
        "mp4"@
    } else if n == ascii_of("audio/mpeg"@) {
        "mp3"@
    } else if n == ascii_of("audio/wav"@) {
        "wav"@
    } else if n == ascii_of("audio/x-wav"@) {
        "wav"@
    } else if n == ascii_of("audio/wave"@) {
        "wav"@
    } else if n == ascii_of("image/jpeg"@) {
        "jpg"@
    } else if n == ascii_of("image/png"@) {
        "png"@
    } else if n == ascii_of("image/gif"@) {
        "gif"@
    } else if n == ascii_of("application/pdf"@) {
        "pdf"@
    } else {
        "Unknown"@
    }
}

/// The container extension for a media type that a you-get listing
/// reports; an unrecognized type reads as the unknown sentinel.
pub fn get_extension_from_type(tp: &str) -> (r: String)
    ensures
        r@ == ext_for_type(tp.spec_bytes()),
{
    ext_from_type_bytes(tp.as_bytes())
}

/// The container extension for a media type given as bytes.
pub fn ext_from_type_bytes(tp: &[u8]) -> (r: String)
    ensures
        r@ == ext_for_type(tp@),
{
    proof {
        reveal_strlit("video/3gpp");
        reveal_strlit("video/f4v");
        reveal_strlit("video/mp4");
        reveal_strlit("video/MP2T");
        reveal_strlit("video/quicktime");
        reveal_strlit("video/webm");
        reveal_strlit("video/x-flv");
        reveal_strlit("video/x-ms-asf");
        reveal_strlit("audio/mp4");
        reveal_strlit("audio/mpeg");
        reveal_strlit("audio/wav");
        reveal_strlit("audio/x-wav");
        reveal_strlit("audio/wave");
        reveal_strlit("image/jpeg");
        reveal_strlit("image/png");
        reveal_strlit("image/gif");
        reveal_strlit("application/pdf");
        assert(is_ascii("video/3gpp"));
        assert(is_ascii("video/f4v"));
        assert(is_ascii("video/mp4"));
        assert(is_ascii("video/MP2T"));
        assert(is_ascii("video/quicktime"));
        assert(is_ascii("video/webm"));
        assert(is_ascii("video/x-flv"));
        assert(is_ascii("video/x-ms-asf"));
        assert(is_ascii("audio/mp4"));
        assert(is_ascii("audio/mpeg"));
        assert(is_ascii("audio/wav"));
        assert(is_ascii("audio/x-wav"));
        assert(is_ascii("audio/wave"));
        assert(is_ascii("image/jpeg"));
        assert(is_ascii("image/png"));
        assert(is_ascii("image/gif"));
        assert(is_ascii("application/pdf"));
    }
    let n = trim_copy(tp);
    let s = n.as_slice();
    if bytes_eq(s, lit_bytes("video/3gpp")) {
        "3gp".to_owned()
    } else if bytes_eq(s, lit_bytes("video/f4v")) {
        "flv".to_owned()
    } else if bytes_eq(s, lit_bytes("video/mp4")) {
        "mp4".to_owned()
    } else if bytes_eq(s, lit_bytes("video/MP2T")) {
        "ts".to_owned()
    } else if bytes_eq(s, lit_bytes("video/quicktime")) {
        "mov".to_owned()
    } else if bytes_eq(s, lit_bytes("video/webm")) {
        "webm".to_owned()
    } else if bytes_eq(s, lit_bytes("video/x-flv")) {
        "flv".to_owned()
    } else if bytes_eq(s, lit_bytes("video/x-ms-asf")) {
        "asf".to_owned()
    } else if bytes_eq(s, lit_bytes("audio/mp4")) {
        "mp4".to_owned()
    } else if bytes_eq(s, lit_bytes("audio/mpeg")) {
        "mp3".to_owned()
    } else if bytes_eq(s, lit_bytes("audio/wav")) {
        "wav".to_owned()
    } else if bytes_eq(s, lit_bytes("audio/x-wav")) {
        "wav".to_owned()
    } else if bytes_eq(s, lit_bytes("audio/wave")) {
        "wav".to_owned()
    } else if bytes_eq(s, lit_bytes("image/jpeg")) {
        "jpg".to_owned()
    } else if bytes_eq(s, lit_bytes("image/png")) {
        "png".to_owned()
    } else if bytes_eq(s, lit_bytes("image/gif")) {
        "gif".to_owned()
    } else if bytes_eq(s, lit_bytes("application/pdf")) {
        "pdf".to_owned()
    } else {
        "Unknown".to_owned()
    }
}

/// One variant gathered from a you-get listing, as raw bytes: the format
/// handle, the container, the quality label and the size in bytes.
pub struct YgRec {
    pub format: Seq<u8>,
    pub container: Seq<u8>,
    pub quality: Seq<u8>,
    pub size: nat,
}

/// The state of the line-by-line walk over a you-get listing: the source
/// fields seen so far, the fields of the variant being gathered, and the
/// variants already closed.
pub struct YgState {
    pub site: Option<Seq<u8>>,
    pub title: Option<Seq<u8>>,
    pub tp: Option<Seq<char>>,
    pub format: Option<Seq<u8>>,
    pub container: Option<Seq<u8>>,
    pub quality: Option<Seq<u8>>,
    pub size: Option<nat>,
    pub streams: Seq<YgRec>,
}

/// The walk's starting state.
pub open spec fn yg_init() -> YgState {
    YgState {
        site: None,
        title: None,
        tp: None,
        format: None,
        container: None,
        quality: None,
        size: None,
        streams: Seq::empty(),
    }
}

/// The end of the run of digit bytes starting at `p`.
pub open spec fn digit_run_end(t: Seq<u8>, p: int) -> int
    decreases t.len() - p,
{
    if 0 <= p < t.len() && is_digit(t[p]) {
        digit_run_end(t, p + 1)
    } else {
        p
    }
}

/// `digit_run_end` is past `p`, bounded by the length, spans digits and
/// stops at a non-digit.
pub proof fn lemma_digit_run_end(t: Seq<u8>, p: int)
    requires
        0 <= p <= t.len(),
    ensures
        p <= digit_run_end(t, p) <= t.len(),
        forall|k: int| p <= k < digit_run_end(t, p) ==> is_digit(t[k]),
        digit_run_end(t, p) < t.len() ==> !is_digit(t[digit_run_end(t, p)]),
    decreases t.len() - p,
{
    if 0 <= p < t.len() && is_digit(t[p]) {
        lemma_digit_run_end(t, p + 1);
    }
}

/// The content of the first parenthesized group: the bytes between the
/// first opening parenthesis and the first closing one after it, when
/// both occur.
pub open spec fn paren_content(t: Seq<u8>) -> Option<Seq<u8>> {
    let i = first_ix(t, 40);
    if i < t.len() {
        let rest = t.subrange(i + 1, t.len() as int);
        let j = first_ix(rest, 41);
        if j < rest.len() {
            Some(rest.subrange(0, j))
        } else {
            None
        }
    } else {
        None
    }
}

/// The digits of the first size group from position `pos` on: a run of
/// digits between an opening parenthesis and the literal ` bytes)`.
pub open spec fn size_capture_from(t: Seq<u8>, pos: int) -> Option<Seq<u8>>
    decreases t.len() - pos,
    via size_capture_from_decreases
{
    if pos < 0 || pos >= t.len() {
        None
    } else if t[pos] == 40 {
        let d = digit_run_end(t, pos + 1);
        if has_prefix(t.skip(d), ascii_of(" bytes)"@)) {
            Some(t.subrange(pos + 1, d))
        } else {
            size_capture_from(t, pos + 1)
        }
    } else {
        size_capture_from(t, pos + 1)
    }
}

#[via_fn]
proof fn size_capture_from_decreases(t: Seq<u8>, pos: int) {
}

/// The digits of the first size group in the line, when there is one.
pub open spec fn size_capture(t: Seq<u8>) -> Option<Seq<u8>> {
    size_capture_from(t, 0)
}

/// A field of the gathered variant, or its default when the listing
/// never set it.
pub open spec fn yg_field(o: Option<Seq<u8>>, dflt: Seq<char>) -> Seq<u8> {
    match o {
        Some(b) => b,
        None => ascii_of(dflt),
    }
}

/// What one (lowered and trimmed) listing line does to the walk state:
/// labelled lines set the matching field (the value trimmed again, as it
/// follows the label); a type line reads the parenthesized media type
/// through the extension table; a size line reads the first size group;
/// a download-with line closes the gathered variant, defaulting missing
/// fields, and clears the gathering state; anything else is ignored.
pub open spec fn line_step(st: YgState, line: Seq<u8>) -> YgState {
    let t = crate::text::trim(lower(line));
    if has_prefix(t, ascii_of("site:"@)) {
        YgState { site: Some(crate::text::trim(t.skip(5))), ..st }
    } else if has_prefix(t, ascii_of("title:"@)) {
        YgState { title: Some(crate::text::trim(t.skip(6))), ..st }
    } else if has_prefix(t, ascii_of("type:"@)) {
        match paren_content(t) {
            Some(c) => YgState { tp: Some(ext_for_type(c)), ..st },
            None => st,
        }
    } else if has_prefix(t, ascii_of("- format:"@)) {
        YgState { format: Some(crate::text::trim(t.skip(9))), ..st }
    } else if has_prefix(t, ascii_of("container:"@)) {
        YgState { container: Some(crate::text::trim(t.skip(10))), ..st }
    } else if has_prefix(t, ascii_of("quality:"@)) {
        YgState { quality: Some(crate::text::trim(t.skip(8))), ..st }
    } else if has_prefix(t, ascii_of("size:"@)) {
        match size_capture(t) {
            Some(d) => YgState { size: Some(size_val(d)), ..st },
            None => st,
        }
    } else if has_prefix(t, ascii_of("# download-with"@)) {
        YgState {
            format: None,
            container: None,
            quality: None,
            size: None,
            streams: st.streams.push(
                YgRec {
                    format: yg_field(st.format, "__dafault__"@),
                    container: yg_field(st.container, "Unknown"@),
                    quality: yg_field(st.quality, "Unknown"@),
                    size: match st.size {
                        Some(n) => n,
                        None => 0,
                    },
                },
            ),
            ..st
        }
    } else {
        st
    }
}

/// The walk state after all listing lines, in order.
pub open spec fn yg_fold(lines: Seq<Seq<u8>>) -> YgState
    decreases lines.len(),
{
    if lines.len() == 0 {
        yg_init()
    } else {
        line_step(yg_fold(lines.drop_last()), lines.last())
    }
}

/// The position of the variant with the format handle, or the length.
pub open spec fn rec_ix(s: Seq<YgRec>, f: Seq<u8>) -> int
    decreases s.len(),
{
    if s.len() == 0 {
        0
    } else if s[0].format == f {
        0
    } else {
        1 + rec_ix(s.drop_first(), f)
    }
}

/// `rec_ix` is in range, points at the handle when it occurs, and
/// nothing before it carries it.
pub proof fn lemma_rec_ix(s: Seq<YgRec>, f: Seq<u8>)
    ensures
        0 <= rec_ix(s, f) <= s.len(),
        rec_ix(s, f) < s.len() ==> s[rec_ix(s, f)].format == f,
        forall|k: int| 0 <= k < rec_ix(s, f) ==> s[k].format != f,
    decreases s.len(),
{
    if s.len() > 0 && s[0].format != f {
        let rest = s.drop_first();
        lemma_rec_ix(rest, f);
        let g = rec_ix(s, f);
        if g < s.len() {
            assert(s[g] == rest[g - 1]);
        }
        assert(forall|k: int| 1 <= k < g ==> s[k] == rest[k - 1]);
    }
}

/// Entering one variant into the listing read as a mapping keyed by the
/// format handle: a variant with the same handle is replaced in place,
/// anything else is appended.
pub open spec fn upsert_rec(s: Seq<YgRec>, r: YgRec) -> Seq<YgRec> {
    let ix = rec_ix(s, r.format);
    if ix < s.len() {
        s.update(ix, r)
    } else {
        s.push(r)
    }
}

/// The variants read as a mapping: later variants with a handle already
/// seen replace the earlier ones in place.
pub open spec fn dedup_recs(s: Seq<YgRec>) -> Seq<YgRec>
    decreases s.len(),
{
    if s.len() == 0 {
        Seq::empty()
    } else {
        upsert_rec(dedup_recs(s.drop_last()), s.last())
    }
}

/// The site label of the walked listing, decoded, or the unknown
/// sentinel.
pub open spec fn yg_site_chars(st: YgState) -> Seq<char> {
    match st.site {
        Some(b) => crate::decode::lossy_of(b),
        None => "Unknown"@,
    }
}

/// The title of the walked listing, decoded, or the unknown sentinel.
pub open spec fn yg_title_chars(st: YgState) -> Seq<char> {
    match st.title {
        Some(b) => crate::decode::lossy_of(b),
        None => "Unknown"@,
    }
}

/// Whether a stream record renders one gathered variant of the listing.
pub open spec fn yg_entry_matches(
    info: DownloadInfo,
    rec: YgRec,
    st: YgState,
    url: Seq<char>,
) -> bool {
    &&& info.url@ == url
    &&& info.site@ == yg_site_chars(st)
    &&& info.title@ == yg_title_chars(st)
    &&& info.ext@ == crate::decode::lossy_of(rec.container)
    &&& info.stream_id@ == crate::decode::lossy_of(rec.format)
    &&& info.stream_name@ == crate::decode::lossy_of(rec.quality)
    &&& info.stream_size == rec.size
}

/// Whether a probe result renders a you-get listing: when the walked
/// listing closed variants, one record per format handle with a later
/// duplicate replacing the earlier; when it closed none but named a
/// media type, a single default record with that type's extension; else
/// no records.
pub open spec fn youget_records_match(v: Seq<DownloadInfo>, output: Seq<u8>, url: Seq<char>) -> bool {
    let st = yg_fold(split_excl(output, 10));
    if st.streams.len() > 0 {
        let recs = dedup_recs(st.streams);
        &&& v.len() == recs.len()
        &&& forall|j: int| 0 <= j < v.len() ==> yg_entry_matches(#[trigger] v[j], recs[j], st, url)
    } else if st.tp is Some {
        &&& v.len() == 1
        &&& v[0].site@ == yg_site_chars(st)
        &&& v[0].title@ == yg_title_chars(st)
        &&& v[0].ext@ == st.tp.unwrap()
        &&& v[0].stream_id@ == "__default__"@
        &&& v[0].stream_name@ == "Unknown"@
        &&& v[0].stream_size as nat == (match st.size {
            Some(n) => n,
            None => 0,
        })
    } else {
        v.len() == 0
    }
}

/// The in-flight fields of one variant while the listing is walked.
struct YgItem {
    format: Vec<u8>,
    container: Vec<u8>,
    quality: Vec<u8>,
    size: usize,
}

/// The bytes behind an optional field.
spec fn obv(o: Option<Vec<u8>>) -> Option<Seq<u8>> {
    match o {
        Some(v) => Some(v@),
        None => None,
    }
}

/// The text behind an optional field.
spec fn ostr(o: Option<String>) -> Option<Seq<char>> {
    match o {
        Some(s) => Some(s@),
        None => None,
    }
}

/// The count behind an optional field.
spec fn osize(o: Option<usize>) -> Option<nat> {
    match o {
        Some(n) => Some(n as nat),
        None => None,
    }
}

/// Whether the in-flight variant fields carry the walked variant.
spec fn item_matches(it: YgItem, rec: YgRec) -> bool {
    &&& it.format@ == rec.format
    &&& it.container@ == rec.container
    &&& it.quality@ == rec.quality
    &&& it.size == rec.size
}

/// Whether the executable walk state carries the specified walk state.
spec fn state_matches(
    site: Option<Vec<u8>>,
    title: Option<Vec<u8>>,
    tp: Option<String>,
    format: Option<Vec<u8>>,
    container: Option<Vec<u8>>,
    quality: Option<Vec<u8>>,
    size: Option<usize>,
    streams: Seq<YgItem>,
    st: YgState,
) -> bool {
    &&& obv(site) == st.site
    &&& obv(title) == st.title
    &&& ostr(tp) == st.tp
    &&& obv(format) == st.format
    &&& obv(container) == st.container
    &&& obv(quality) == st.quality
    &&& osize(size) == st.size
    &&& streams.len() == st.streams.len()
    &&& forall|j: int| 0 <= j < streams.len() ==> item_matches(#[trigger] streams[j], st.streams[j])
}

/// `rec_ix` equals any index carrying the handle with none before.
proof fn lemma_rec_ix_found(s: Seq<YgRec>, f: Seq<u8>, i: int)
    requires
        0 <= i < s.len(),
        s[i].format == f,
        forall|k: int| 0 <= k < i ==> s[k].format != f,
    ensures
        rec_ix(s, f) == i,
{
    lemma_rec_ix(s, f);
    let g = rec_ix(s, f);
    if g < i {
        assert(s[g].format == f);
    }
    if g > i {
        assert(s[i].format != f);
    }
}

impl Youget {
    /// Normalize one you-get probe listing into stream records. The
    /// listing is free text: labelled lines name the source and its
    /// variants, and each download-with line closes one variant. Output
    /// that is not UTF-8 is the malformed-output error — the only error
    /// this prober yields; a missing field never fails the probe, it
    /// defaults to a sentinel or to size zero. When the listing closes
    /// variants, the result maps each format handle to its last variant;
    /// when it closes none but names a media type, a single default
    /// record carries that type's extension; otherwise the result is
    /// empty. Every record names the probed URL and this engine.
    pub fn get_stream_info(&self, url: &str, output: &[u8]) -> (r: Result<
        Vec<DownloadInfo>,
        DownError,
    >)
        ensures
            r is Ok <==> valid_utf8(output@),
            r matches Err(e) ==> e == DownError::MalformedProbeOutput,
            r matches Ok(v) ==> {
                &&& forall|i: int|
                    0 <= i < v@.len() ==> entry_shape(#[trigger] v@[i], url@, "Youget"@)
                &&& youget_records_match(v@, output@, url@)
            },
    {
        match crate::decode::utf8_string(output) {
            Some(_) => {},
            None => {
                return Err(DownError::MalformedProbeOutput);
            },
        }
        let lines = split_on(output, 10);
        let ghost ldv = lines.deep_view();
        let mut site: Option<Vec<u8>> = None;
        let mut title: Option<Vec<u8>> = None;
        let mut tp: Option<String> = None;
        let mut format: Option<Vec<u8>> = None;
        let mut container: Option<Vec<u8>> = None;
        let mut quality: Option<Vec<u8>> = None;
        let mut size: Option<usize> = None;
        let mut streams: Vec<YgItem> = Vec::new();
        let mut n: usize = 0;
        proof {
            assert(ldv.take(0) =~= Seq::<Seq<u8>>::empty());
        }
        while n < lines.len()
            invariant
                0 <= n <= lines@.len(),
                ldv == lines.deep_view(),
                ldv == split_excl(output@, 10),
                state_matches(
                    site,
                    title,
                    tp,
                    format,
                    container,
                    quality,
                    size,
                    streams@,
                    yg_fold(ldv.take(n as int)),
                ),
            decreases lines@.len() - n,
        {
            let ghost st0 = yg_fold(ldv.take(n as int));
            proof {
                reveal_strlit("site:");
                reveal_strlit("title:");
                reveal_strlit("type:");
                reveal_strlit("- format:");
                reveal_strlit("container:");
                reveal_strlit("quality:");
                reveal_strlit("size:");
                reveal_strlit("# download-with");
                reveal_strlit("__dafault__");
                reveal_strlit("Unknown");
                assert(is_ascii("site:"));
                assert(is_ascii("title:"));
                assert(is_ascii("type:"));
                assert(is_ascii("- format:"));
                assert(is_ascii("container:"));
                assert(is_ascii("quality:"));
                assert(is_ascii("size:"));
                assert(is_ascii("# download-with"));
                assert(is_ascii("__dafault__"));
                assert(is_ascii("Unknown"));
                assert(ldv.take(n + 1).drop_last() =~= ldv.take(n as int));
                assert(ldv.take(n + 1).last() == ldv[n as int]);
                assert(ldv[n as int] =~= lines@[n as int]@);
            }
            let line = &lines[n];
            let t = crate::text::lower_trim(line.as_slice());
            let ts = t.as_slice();
            let ghost tsq = crate::text::trim(lower(ldv[n as int]));
            proof {
                assert(ts@ == tsq);
            }
            if crate::text::starts_with(ts, crate::text::lit_bytes("site:")) {
                site = Some(tail_trim(ts, 5));
                proof {
                    assert(tsq.subrange(5, tsq.len() as int) =~= tsq.skip(5));
                }
            } else if crate::text::starts_with(ts, crate::text::lit_bytes("title:")) {
                title = Some(tail_trim(ts, 6));
                proof {
                    assert(tsq.subrange(6, tsq.len() as int) =~= tsq.skip(6));
                }
            } else if crate::text::starts_with(ts, crate::text::lit_bytes("type:")) {
                match paren_content_exec(ts) {
                    Some(content) => {
                        tp = Some(ext_from_type_bytes(content.as_slice()));
                    },
                    None => {},
                }
            } else if crate::text::starts_with(ts, crate::text::lit_bytes("- format:")) {
                format = Some(tail_trim(ts, 9));
                proof {
                    assert(tsq.subrange(9, tsq.len() as int) =~= tsq.skip(9));
                }
            } else if crate::text::starts_with(ts, crate::text::lit_bytes("container:")) {
                container = Some(tail_trim(ts, 10));
                proof {
                    assert(tsq.subrange(10, tsq.len() as int) =~= tsq.skip(10));
                }
            } else if crate::text::starts_with(ts, crate::text::lit_bytes("quality:")) {
                quality = Some(tail_trim(ts, 8));
                proof {
                    assert(tsq.subrange(8, tsq.len() as int) =~= tsq.skip(8));
                }
            } else if crate::text::starts_with(ts, crate::text::lit_bytes("size:")) {
                match size_capture_exec(ts) {
                    Some(found) => {
                        size = Some(found);
                    },
                    None => {},
                }
            } else if crate::text::starts_with(ts, crate::text::lit_bytes("# download-with")) {
                let f = match format.take() {
                    Some(v) => v,
                    None => slice_to_vec(crate::text::lit_bytes("__dafault__")),
                };
                let c = match container.take() {
                    Some(v) => v,
                    None => slice_to_vec(crate::text::lit_bytes("Unknown")),
                };
                let q = match quality.take() {
                    Some(v) => v,
                    None => slice_to_vec(crate::text::lit_bytes("Unknown")),
                };
                let sz = match size.take() {
                    Some(v) => v,
                    None => 0,
                };
                streams.push(YgItem { format: f, container: c, quality: q, size: sz });
            }
            n = n + 1;
        }
        proof {
            assert(ldv.take(ldv.len() as int) =~= ldv);
        }
        let ghost st = yg_fold(split_excl(output@, 10));
        // build the records, keyed by format handle
        let mut entries: Vec<DownloadInfo> = Vec::new();
        if streams.len() > 0 {
            let site_s = match &site {
                Some(b) => crate::decode::lossy_string(b.as_slice()),
                None => "Unknown".to_owned(),
            };
            let title_s = match &title {
                Some(b) => crate::decode::lossy_string(b.as_slice()),
                None => "Unknown".to_owned(),
            };
            let mut handles: Vec<Vec<u8>> = Vec::new();
            let mut j: usize = 0;
            proof {
                assert(st.streams.take(0) =~= Seq::<YgRec>::empty());
            }
            while j < streams.len()
                invariant
                    0 <= j <= streams@.len(),
                    streams@.len() == st.streams.len(),
                    forall|k: int|
                        0 <= k < streams@.len() ==> item_matches(
                            #[trigger] streams@[k],
                            st.streams[k],
                        ),
                    site_s@ == yg_site_chars(st),
                    title_s@ == yg_title_chars(st),
                    entries@.len() == dedup_recs(st.streams.take(j as int)).len(),
                    handles@.len() == entries@.len(),
                    forall|i: int|
                        0 <= i < entries@.len() ==> yg_entry_matches(
                            #[trigger] entries@[i],
                            dedup_recs(st.streams.take(j as int))[i],
                            st,
                            url@,
                        ),
                    forall|i: int|
                        0 <= i < entries@.len() ==> entry_shape(
                            #[trigger] entries@[i],
                            url@,
                            "Youget"@,
                        ),
                    forall|i: int|
                        0 <= i < handles@.len() ==> #[trigger] handles@[i]@ == dedup_recs(
                            st.streams.take(j as int),
                        )[i].format,
                decreases streams@.len() - j,
            {
                let ghost ded = dedup_recs(st.streams.take(j as int));
                proof {
                    assert(st.streams.take(j + 1).drop_last() =~= st.streams.take(j as int));
                    assert(st.streams.take(j + 1).last() == st.streams[j as int]);
                }
                let item = &streams[j];
                let info = DownloadInfo {
                    url: url.to_owned(),
                    site: site_s.clone(),
                    title: title_s.clone(),
                    ext: crate::decode::lossy_string(item.container.as_slice()),
                    stream_id: crate::decode::lossy_string(item.format.as_slice()),
                    stream_name: crate::decode::lossy_string(item.quality.as_slice()),
                    stream_size: item.size,
                    downloader: self.get_downloader_name(),
                    save_option: None,
                    cookies: None,
                };
                let ghost rec = st.streams[j as int];
                proof {
                    assert(item_matches(streams@[j as int], rec));
                }
                // replace the entry with the same handle, or append
                match find_handle(&handles, item.format.as_slice()) {
                    Some(i) => {
                        proof {
                            assert forall|k: int| 0 <= k < i implies ded[k].format != rec.format by {
                                assert(handles@[k]@ == ded[k].format);
                                assert(handles@[k]@ != item.format@);
                            }
                            lemma_rec_ix_found(ded, rec.format, i as int);
                            assert(upsert_rec(ded, rec) =~= ded.update(i as int, rec));
                        }
                        let key = slice_to_vec(item.format.as_slice());
                        entries.set(i, info);
                        handles.set(i, key);
                    },
                    None => {
                        proof {
                            lemma_rec_ix(ded, rec.format);
                            if rec_ix(ded, rec.format) < ded.len() {
                                assert(handles@[rec_ix(ded, rec.format)]@ == rec.format);
                            }
                            assert(upsert_rec(ded, rec) =~= ded.push(rec));
                        }
                        let key = slice_to_vec(item.format.as_slice());
                        entries.push(info);
                        handles.push(key);
                    },
                }
                j = j + 1;
            }
            proof {
                assert(st.streams.take(st.streams.len() as int) =~= st.streams);
            }
        } else {
            match tp {
                Some(ext) => {
                    let site_s = match &site {
                        Some(b) => crate::decode::lossy_string(b.as_slice()),
                        None => "Unknown".to_owned(),
                    };
                    let title_s = match &title {
                        Some(b) => crate::decode::lossy_string(b.as_slice()),
                        None => "Unknown".to_owned(),
                    };
                    let sz = match size {
                        Some(v) => v,
                        None => 0,
                    };
                    let info = DownloadInfo {
                        url: url.to_owned(),
                        site: site_s,
                        title: title_s,
                        ext,
                        stream_id: "__default__".to_owned(),
                        stream_name: "Unknown".to_owned(),
                        stream_size: sz,
                        downloader: self.get_downloader_name(),
                        save_option: None,
                        cookies: None,
                    };
                    entries.push(info);
                },
                None => {},
            }
        }
        Ok(entries)
    }
}

/// The position of a format handle among those already entered.
fn find_handle(handles: &Vec<Vec<u8>>, key: &[u8]) -> (r: Option<usize>)
    ensures
        match r {
            Some(i) => i < handles@.len() && handles@[i as int]@ == key@ && (forall|k: int|
                0 <= k < i ==> #[trigger] handles@[k]@ != key@),
            None => forall|k: int| 0 <= k < handles@.len() ==> #[trigger] handles@[k]@ != key@,
        },
{
    let mut i: usize = 0;
    while i < handles.len()
        invariant
            0 <= i <= handles@.len(),
            forall|k: int| 0 <= k < i ==> #[trigger] handles@[k]@ != key@,
        decreases handles@.len() - i,
    {
        if crate::text::bytes_eq(handles[i].as_slice(), key) {
            return Some(i);
        }
        i = i + 1;
    }
    None
}

/// The bytes between the first opening parenthesis and the first closing
/// one after it, when both occur.
fn paren_content_exec(t: &[u8]) -> (r: Option<Vec<u8>>)
    ensures
        match r {
            Some(c) => paren_content(t@) == Some(c@),
            None => paren_content(t@) is None,
        },
{
    let mut i: usize = 0;
    while i < t.len() && t[i] != 40
        invariant
            0 <= i <= t@.len(),
            forall|k: int| 0 <= k < i ==> t@[k] != 40,
        decreases t@.len() - i,
    {
        i = i + 1;
    }
    proof {
        lemma_first_ix_found(t@, 40, i as int);
    }
    if i == t.len() {
        return None;
    }
    let ghost rest = t@.subrange(i + 1, t@.len() as int);
    let mut j: usize = i + 1;
    while j < t.len() && t[j] != 41
        invariant
            i + 1 <= j <= t@.len(),
            i < t@.len(),
            rest == t@.subrange(i + 1, t@.len() as int),
            forall|k: int| i + 1 <= k < j ==> t@[k] != 41,
        decreases t@.len() - j,
    {
        j = j + 1;
    }
    proof {
        assert(forall|k: int| 0 <= k < rest.len() ==> rest[k] == t@[i + 1 + k]);
        lemma_first_ix_found(rest, 41, j - (i + 1));
    }
    if j == t.len() {
        return None;
    }
    let content = slice_range(t, i + 1, j);
    proof {
        assert(content@ =~= rest.subrange(0, j - (i + 1)));
    }
    Some(content)
}

/// The value of the first size group in the line: a run of digits
/// between an opening parenthesis and the literal ` bytes)`.
fn size_capture_exec(t: &[u8]) -> (r: Option<usize>)
    requires
        crate::text::has_prefix(t@, ascii_of("size:"@)),
    ensures
        match r {
            Some(v) => size_capture(t@) matches Some(d) && v == size_val(d),
            None => size_capture(t@) is None,
        },
{
    let mut pos: usize = 0;
    while pos < t.len()
        invariant
            0 <= pos <= t@.len(),
            size_capture_from(t@, 0) == size_capture_from(t@, pos as int),
        decreases t@.len() - pos,
    {
        proof {
            reveal_strlit(" bytes)");
            assert(is_ascii(" bytes)"));
        }
        if t[pos] == 40 {
            // the digit run after the parenthesis
            let mut d: usize = pos + 1;
            while d < t.len() && crate::text::is_digit_byte(t[d])
                invariant
                    pos + 1 <= d <= t@.len(),
                    pos < t@.len(),
                    forall|k: int| pos + 1 <= k < d ==> is_digit(t@[k]),
                decreases t@.len() - d,
            {
                d = d + 1;
            }
            proof {
                lemma_digit_run_end_found(t@, pos + 1, d as int);
            }
            let rest = slice_range(t, d, t.len());
            if crate::text::starts_with(rest.as_slice(), crate::text::lit_bytes(" bytes)")) {
                proof {
                    assert(rest@ =~= t@.skip(d as int));
                }
                let digits = slice_range(t, pos + 1, d);
                let v = parse_size(digits.as_slice());
                return Some(v);
            }
            proof {
                assert(rest@ =~= t@.skip(d as int));
            }
        }
        pos = pos + 1;
    }
    None
}

/// `digit_run_end` equals the index found by a left-to-right digit scan.
proof fn lemma_digit_run_end_found(t: Seq<u8>, p: int, d: int)
    requires
        0 <= p <= d <= t.len(),
        forall|k: int| p <= k < d ==> is_digit(t[k]),
        d < t.len() ==> !is_digit(t[d]),
    ensures
        digit_run_end(t, p) == d,
    decreases d - p,
{
    if p < d {
        lemma_digit_run_end_found(t, p + 1, d);
    }
}

/// The end of a version triple starting at `p`: three digit runs joined
/// by single dots, each run non-empty and the last taken maximal; or
/// nothing when no triple starts at `p`.
pub open spec fn semver_end(s: Seq<u8>, p: int) -> Option<int> {
    let a = digit_run_end(s, p);
    if p >= 0 && a > p && a < s.len() && s[a] == 46 {
        let b = digit_run_end(s, a + 1);
        if b > a + 1 && b < s.len() && s[b] == 46 {
            let c = digit_run_end(s, b + 1);
            if c > b + 1 {
                Some(c)
            } else {
                None
            }
        } else {
            None
        }
    } else {
        None
    }
}

/// The bounds of the first version triple in `s`, scanning from `p`.
pub open spec fn find_semver_from(s: Seq<u8>, p: int) -> Option<(int, int)>
    decreases s.len() - p,
{
    if p < 0 || p >= s.len() {
        None
    } else {
        match semver_end(s, p) {
            Some(e) => Some((p, e)),
            None => find_semver_from(s, p + 1),
        }
    }
}

/// The first version triple in a tool's version banner, or the unknown
/// sentinel when none occurs.
pub open spec fn spec_extract_version(s: Seq<u8>) -> Seq<char> {
    match find_semver_from(s, 0) {
        Some(bounds) => crate::decode::lossy_of(s.subrange(bounds.0, bounds.1)),
        None => "Unknown"@,
    }
}

/// The first version triple (three dot-joined digit runs) in a tool's
/// version banner, or the unknown sentinel.
pub fn extract_version(text: &[u8]) -> (r: String)
    ensures
        r@ == spec_extract_version(text@),
{
    let n = text.len();
    let mut p: usize = 0;
    while p < n
        invariant
            0 <= p <= n == text@.len(),
            find_semver_from(text@, 0) == find_semver_from(text@, p as int),
        decreases n - p,
    {
        let a = digit_run_to(text, p);
        if a > p && a < n && text[a] == 46 {
            let b = digit_run_to(text, a + 1);
            if b > a + 1 && b < n && text[b] == 46 {
                let c = digit_run_to(text, b + 1);
                if c > b + 1 {
                    let token = slice_range(text, p, c);
                    let r = crate::decode::lossy_string(token.as_slice());
                    proof {
                        assert(semver_end(text@, p as int) == Some(c as int));
                        assert(token@ =~= text@.subrange(p as int, c as int));
                    }
                    return r;
                }
            }
        }
        proof {
            assert(semver_end(text@, p as int) is None);
        }
        p = p + 1;
    }
    "Unknown".to_owned()
}

/// The end of the digit run starting at `p`, by a left-to-right scan.
fn digit_run_to(text: &[u8], p: usize) -> (r: usize)
    requires
        p <= text@.len(),
    ensures
        r as int == digit_run_end(text@, p as int),
        p <= r <= text@.len(),
{
    let mut d: usize = p;
    while d < text.len() && crate::text::is_digit_byte(text[d])
        invariant
            p <= d <= text@.len(),
            forall|k: int| p <= k < d ==> is_digit(text@[k]),
        decreases text@.len() - d,
    {
        d = d + 1;
    }
    proof {
        lemma_digit_run_end_found(text@, p as int, d as int);
    }
    d
}

} // verus!
