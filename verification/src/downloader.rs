//! The engine registry and the shapes that the prober and the task queue
//! exchange: one downloadable stream, an optional save target, and the
//! plan for one engine invocation.

use vstd::prelude::*;

verus! {

use crate::DownError;
use crate::text::ascii_of;
use crate::text::bytes_eq;
use crate::text::lit_bytes;
use crate::text::lower;
use crate::text::lower_trim;
use crate::text::trim;
use vstd::string::is_ascii;

/// One downloadable quality or format variant of a source URL. A size of
/// zero means the size is unknown.
#[derive(Debug)]
pub struct DownloadInfo {
    pub url: String,
    pub site: String,
    pub title: String,
    pub ext: String,
    pub stream_id: String,
    pub stream_name: String,
    pub stream_size: usize,
    pub downloader: String,
    pub save_option: Option<SaveOption>,
    pub cookies: Option<String>,
}

/// Where a download is written: a directory and a file name.
#[derive(Debug)]
pub struct SaveOption {
    pub output_dir: String,
    pub file_name: String,
}

impl Clone for SaveOption {
    fn clone(&self) -> (r: Self)
        ensures
            r == *self,
    {
        SaveOption { output_dir: self.output_dir.clone(), file_name: self.file_name.clone() }
    }
}

impl Clone for DownloadInfo {
    fn clone(&self) -> (r: Self)
        ensures
            r == *self,
    {
        DownloadInfo {
            url: self.url.clone(),
            site: self.site.clone(),
            title: self.title.clone(),
            ext: self.ext.clone(),
            stream_id: self.stream_id.clone(),
            stream_name: self.stream_name.clone(),
            stream_size: self.stream_size,
            downloader: self.downloader.clone(),
            save_option: match &self.save_option {
                Some(s) => Some(s.clone()),
                None => None,
            },
            cookies: match &self.cookies {
                Some(c) => Some(c.clone()),
                None => None,
            },
        }
    }
}

impl Default for DownloadInfo {
    /// An empty record: every text field empty, size zero, no save
    /// target and no cookies.
    fn default() -> (r: Self)
        ensures
            r.url@ == Seq::<char>::empty(),
            r.site@ == Seq::<char>::empty(),
            r.title@ == Seq::<char>::empty(),
            r.ext@ == Seq::<char>::empty(),
            r.stream_id@ == Seq::<char>::empty(),
            r.stream_name@ == Seq::<char>::empty(),
            r.stream_size == 0,
            r.downloader@ == Seq::<char>::empty(),
            r.save_option is None,
            r.cookies is None,
    {
        DownloadInfo {
            url: String::new(),
            site: String::new(),
            title: String::new(),
            ext: String::new(),
            stream_id: String::new(),
            stream_name: String::new(),
            stream_size: 0,
            downloader: String::new(),
            save_option: None,
            cookies: None,
        }
    }
}

/// The closed set of download engines.
#[derive(Clone, Copy, Debug, PartialEq, Eq, Structural)]
pub enum EngineKind {
    Lux,
    Youget,
    Youtubedl,
}

/// The names under which the engines are offered, in their fixed order.
pub fn get_engine_names() -> (r: Vec<String>)
    ensures
        r@.len() == 3,
        r@[0]@ == "lux"@,
        r@[1]@ == "you-get"@,
        r@[2]@ == "youtube-dl"@,
{
    let mut r: Vec<String> = Vec::new();
    r.push("lux".to_owned());
    r.push("you-get".to_owned());
    r.push("youtube-dl".to_owned());
    r
}

/// The engine that a name denotes, after ASCII lowercasing and trimming,
/// or nothing for an unknown name.
pub open spec fn spec_engine_of(name_bytes: Seq<u8>) -> Option<EngineKind> {
    let t = trim(lower(name_bytes));
    if t == ascii_of("lux"@) {
        Some(EngineKind::Lux)
    } else if t == ascii_of("you-get"@) || t == ascii_of("youget"@) {
        Some(EngineKind::Youget)
    } else if t == ascii_of("youtube-dl"@) || t == ascii_of("youtubedl"@) {
        Some(EngineKind::Youtubedl)
    } else {
        None
    }
}

/// The engine that a character-level name denotes, through its UTF-8
/// bytes.
pub open spec fn engine_of_str(name: Seq<char>) -> Option<EngineKind> {
    spec_engine_of(vstd::utf8::encode_utf8(name))
}

/// Look an engine up by name, ignoring ASCII case and surrounding
/// whitespace. An unknown name is the engine-not-found error, and
/// nothing else is.
pub fn get_engine(engine: &str) -> (r: Result<EngineKind, DownError>)
    ensures
        match r {
            Ok(e) => engine_of_str(engine@) == Some(e),
            Err(e) => e == DownError::EngineNotFound && engine_of_str(engine@) is None,
        },
{
    proof {
        reveal_strlit("lux");
        reveal_strlit("you-get");
        reveal_strlit("youget");
        reveal_strlit("youtube-dl");
        reveal_strlit("youtubedl");
        assert(is_ascii("lux"));
        assert(is_ascii("you-get"));
        assert(is_ascii("youget"));
        assert(is_ascii("youtube-dl"));
        assert(is_ascii("youtubedl"));
    }
    let norm = lower_trim(engine.as_bytes());
    if bytes_eq(norm.as_slice(), lit_bytes("lux")) {
        Ok(EngineKind::Lux)
    } else if bytes_eq(norm.as_slice(), lit_bytes("you-get")) || bytes_eq(
        norm.as_slice(),
        lit_bytes("youget"),
    ) {
        Ok(EngineKind::Youget)
    } else if bytes_eq(norm.as_slice(), lit_bytes("youtube-dl")) || bytes_eq(
        norm.as_slice(),
        lit_bytes("youtubedl"),
    ) {
        Ok(EngineKind::Youtubedl)
    } else {
        Err(DownError::EngineNotFound)
    }
}

/// The command under which an engine is invoked.
pub open spec fn spec_program(e: EngineKind) -> Seq<char> {
    match e {
        EngineKind::Lux => "lux"@,
        EngineKind::Youget => "you-get"@,
        EngineKind::Youtubedl => "youtube-dl"@,
    }
}

/// The directory and file name a download is written to: the attached
/// save target when one is present, else the working directory and a
/// name joining title and extension.
pub open spec fn spec_save_target(info: DownloadInfo) -> (Seq<char>, Seq<char>) {
    match info.save_option {
        Some(s) => (s.output_dir@, s.file_name@),
        None => ("./"@, info.title@ + "."@ + info.ext@),
    }
}

/// The argument list of one download invocation of the given engine.
pub open spec fn spec_download_args(
    e: EngineKind,
    url: Seq<char>,
    id: Seq<char>,
    output_dir: Seq<char>,
    output_name: Seq<char>,
    cookie: Option<Seq<char>>,
) -> Seq<Seq<char>> {
    match e {
        EngineKind::Lux => crate::lux::lux_download_args(url, id, output_dir, output_name, cookie),
        EngineKind::Youget => crate::youget::youget_download_args(
            url,
            id,
            output_dir,
            output_name,
            cookie,
        ),
        EngineKind::Youtubedl => crate::youtubedl::youtubedl_download_args(
            url,
            id,
            output_dir + "/"@ + output_name,
            cookie,
        ),
    }
}

/// The plan for one engine invocation: the command, its arguments, and
/// which output channel carries progress.
pub struct DownloadPlan {
    pub program: String,
    pub args: Vec<String>,
    pub read_stderr: bool,
}

/// Turn one stream record into an invocation plan: resolve the save
/// target, pick the engine that the record names, and build its argument
/// list; the cookie file path, when one is given, is passed through the
/// engine's cookie flag. An unknown engine name is the engine-not-found
/// error, and nothing else is.
pub fn prepare_download(info: &DownloadInfo, cookie_file: Option<&str>) -> (r: Result<
    DownloadPlan,
    DownError,
>)
    ensures
        match r {
            Ok(plan) => {
                &&& engine_of_str(info.downloader@) matches Some(e) && {
                    &&& plan.program@ == spec_program(e)
                    &&& plan.read_stderr == (e is Lux)
                    &&& {
                        let target = spec_save_target(*info);
                        match cookie_file {
                            Some(c) => plan.args.deep_view() == spec_download_args(
                                e,
                                info.url@,
                                info.stream_id@,
                                target.0,
                                target.1,
                                Some(c@),
                            ),
                            None => plan.args.deep_view() == spec_download_args(
                                e,
                                info.url@,
                                info.stream_id@,
                                target.0,
                                target.1,
                                None,
                            ),
                        }
                    }
                }
            },
            Err(e) => e == DownError::EngineNotFound && engine_of_str(info.downloader@) is None,
        },
{
    let engine = get_engine(str_of(&info.downloader))?;
    let (output_dir, output_name) = match &info.save_option {
        Some(s) => (s.output_dir.clone(), s.file_name.clone()),
        None => {
            let name = info.title.clone().concat(".").concat(str_of(&info.ext));
            ("./".to_owned(), name)
        },
    };
    let r = match engine {
        EngineKind::Lux => {
            let e = crate::lux::Lux {};
            DownloadPlan {
                program: "lux".to_owned(),
                args: e.download_args(
                    str_of(&info.url),
                    str_of(&info.stream_id),
                    output_dir.as_str(),
                    output_name.as_str(),
                    cookie_file,
                ),
                read_stderr: e.is_stderr_output(),
            }
        },
        EngineKind::Youget => {
            let e = crate::youget::Youget {};
            DownloadPlan {
                program: "you-get".to_owned(),
                args: e.download_args(
                    str_of(&info.url),
                    str_of(&info.stream_id),
                    output_dir.as_str(),
                    output_name.as_str(),
                    cookie_file,
                ),
                read_stderr: e.is_stderr_output(),
            }
        },
        EngineKind::Youtubedl => {
            let e = crate::youtubedl::Youtubedl {};
            DownloadPlan {
                program: "youtube-dl".to_owned(),
                args: e.download_args(
                    str_of(&info.url),
                    str_of(&info.stream_id),
                    output_dir.as_str(),
                    output_name.as_str(),
                    cookie_file,
                ),
                read_stderr: e.is_stderr_output(),
            }
        },
    };
    Ok(r)
}

/// The save target a presentation layer attaches before queueing: the
/// chosen directory, and a file name joining title and quality label.
pub fn make_save_option(info: &DownloadInfo, output_dir: &str) -> (r: SaveOption)
    ensures
        r.output_dir@ == output_dir@,
        r.file_name@ == info.title@ + "["@ + info.stream_name@ + "]"@,
{
    let name = info.title.clone().concat("[").concat(str_of(&info.stream_name)).concat("]");
    SaveOption { output_dir: output_dir.to_owned(), file_name: name }
}

/// The line under which a stream is offered for selection: its
/// extension, its quality label, and its size rendered for display.
pub fn stream_label(info: &DownloadInfo) -> (r: String)
    ensures
        r@ == info.ext@ + " - "@ + info.stream_name@ + " (size: "@ + crate::utils::spec_size_to_string(
            info.stream_size as nat,
        ) + ")"@,
{
    let size = crate::utils::size_to_string(info.stream_size);
    info.ext.clone().concat(" - ").concat(str_of(&info.stream_name)).concat(" (size: ").concat(
        size.as_str(),
    ).concat(")")
}

/// A string viewed as a slice.
fn str_of(s: &String) -> (r: &str)
    ensures
        r@ == s@,
{
    s.as_str()
}

/// A probe result viewed as a mapping: no two entries share a stream
/// identifier.
pub open spec fn unique_ids(s: Seq<DownloadInfo>) -> bool {
    forall|i: int, j: int| 0 <= i < j < s.len() ==> s[i].stream_id@ != s[j].stream_id@
}

/// The position of the entry with the given stream identifier, or the
/// length when no entry carries it.
pub open spec fn info_ix(s: Seq<DownloadInfo>, id: Seq<char>) -> int
    decreases s.len(),
{
    if s.len() == 0 {
        0
    } else if s[0].stream_id@ == id {
        0
    } else {
        1 + info_ix(s.drop_first(), id)
    }
}

/// `info_ix` is in range, points at the identifier when it occurs, and
/// nothing before it carries it.
pub proof fn lemma_info_ix(s: Seq<DownloadInfo>, id: Seq<char>)
    ensures
        0 <= info_ix(s, id) <= s.len(),
        info_ix(s, id) < s.len() ==> s[info_ix(s, id)].stream_id@ == id,
        forall|k: int| 0 <= k < info_ix(s, id) ==> s[k].stream_id@ != id,
    decreases s.len(),
{
    if s.len() > 0 && s[0].stream_id@ != id {
        let rest = s.drop_first();
        lemma_info_ix(rest, id);
        let f = info_ix(s, id);
        if f < s.len() {
            assert(s[f] == rest[f - 1]);
        }
        assert(forall|k: int| 1 <= k < f ==> s[k] == rest[k - 1]);
    }
}

/// Entering an entry into a probe result read as a mapping: an entry
/// with the same stream identifier is replaced in place, anything else
/// is appended.
pub open spec fn spec_upsert(s: Seq<DownloadInfo>, info: DownloadInfo) -> Seq<DownloadInfo> {
    let ix = info_ix(s, info.stream_id@);
    if ix < s.len() {
        s.update(ix, info)
    } else {
        s.push(info)
    }
}

/// Enter an entry into a probe result, replacing any entry with the same
/// stream identifier, so that the result stays a mapping.
pub fn upsert(entries: &mut Vec<DownloadInfo>, info: DownloadInfo)
    requires
        unique_ids(old(entries)@),
    ensures
        final(entries)@ == spec_upsert(old(entries)@, info),
        unique_ids(final(entries)@),
{
    proof {
        lemma_info_ix(old(entries)@, info.stream_id@);
    }
    let ghost orig = entries@;
    let mut i: usize = 0;
    while i < entries.len()
        invariant
            0 <= i <= entries@.len(),
            entries@ == orig,
            orig == old(entries)@,
            unique_ids(orig),
            forall|k: int| 0 <= k < i ==> entries@[k].stream_id@ != info.stream_id@,
        decreases entries@.len() - i,
    {
        if crate::text::bytes_eq(
            entries[i].stream_id.as_str().as_bytes(),
            info.stream_id.as_str().as_bytes(),
        ) {
            proof {
                lemma_utf8_eq(entries@[i as int].stream_id@, info.stream_id@);
                lemma_info_ix_found(orig, info.stream_id@, i as int);
            }
            entries.set(i, info);
            proof {
                assert(entries@ =~= spec_upsert(orig, info));
                assert forall|a: int, b: int|
                    0 <= a < b < entries@.len() implies entries@[a].stream_id@
                    != entries@[b].stream_id@ by {
                    if a != i as int && b != i as int {
                        assert(entries@[a] == orig[a] && entries@[b] == orig[b]);
                    } else if a == i as int {
                        assert(entries@[b] == orig[b]);
                        assert(orig[i as int].stream_id@ == info.stream_id@);
                    } else {
                        assert(entries@[a] == orig[a]);
                        assert(orig[i as int].stream_id@ == info.stream_id@);
                    }
                }
            }
            return ;
        }
        proof {
            lemma_utf8_eq(entries@[i as int].stream_id@, info.stream_id@);
        }
        i = i + 1;
    }
    proof {
        lemma_info_ix(orig, info.stream_id@);
        assert(info_ix(orig, info.stream_id@) == orig.len()) by {
            if info_ix(orig, info.stream_id@) < orig.len() {
                assert(orig[info_ix(orig, info.stream_id@)].stream_id@ == info.stream_id@);
            }
        }
    }
    entries.push(info);
    proof {
        assert(entries@ =~= spec_upsert(orig, info));
    }
}

/// `info_ix` equals any index carrying the identifier with none before.
pub proof fn lemma_info_ix_found(s: Seq<DownloadInfo>, id: Seq<char>, i: int)
    requires
        0 <= i < s.len(),
        s[i].stream_id@ == id,
        forall|k: int| 0 <= k < i ==> s[k].stream_id@ != id,
    ensures
        info_ix(s, id) == i,
{
    lemma_info_ix(s, id);
    let f = info_ix(s, id);
    if f < i {
        assert(s[f].stream_id@ == id);
    }
    if f > i {
        assert(s[i].stream_id@ != id);
    }
}

/// Two texts are equal exactly when their UTF-8 encodings are.
pub proof fn lemma_utf8_eq(a: Seq<char>, b: Seq<char>)
    ensures
        (vstd::utf8::encode_utf8(a) == vstd::utf8::encode_utf8(b)) <==> (a == b),
{
    if vstd::utf8::encode_utf8(a) == vstd::utf8::encode_utf8(b) {
        vstd::utf8::encode_utf8_decode_utf8(a);
        vstd::utf8::encode_utf8_decode_utf8(b);
    }
}

/// The structural shape every probe entry shares: it names the URL it
/// was probed from and the engine that produced it, and carries neither
/// a save target nor cookies yet.
pub open spec fn entry_shape(info: DownloadInfo, url: Seq<char>, engine_label: Seq<char>) -> bool {
    &&& info.url@ == url
    &&& info.downloader@ == engine_label
    &&& info.save_option is None
    &&& info.cookies is None
}

/// A 64-bit byte count clamped to the machine word.
pub fn size_to_usize(n: u64) -> (r: usize)
    ensures
        r as nat == crate::text::min_nat(n as nat, usize::MAX as nat),
{
    if n > usize::MAX as u64 {
        usize::MAX
    } else {
        n as usize
    }
}

/// Entering a well-shaped entry into a well-shaped result keeps every
/// entry well shaped.
pub proof fn lemma_upsert_shape(
    s: Seq<DownloadInfo>,
    info: DownloadInfo,
    url: Seq<char>,
    label: Seq<char>,
)
    requires
        forall|i: int| 0 <= i < s.len() ==> entry_shape(#[trigger] s[i], url, label),
        entry_shape(info, url, label),
    ensures
        forall|i: int|
            0 <= i < spec_upsert(s, info).len() ==> entry_shape(
                #[trigger] spec_upsert(s, info)[i],
                url,
                label,
            ),
{
    lemma_info_ix(s, info.stream_id@);
}

/// The display label under which an engine marks its records.
pub open spec fn spec_engine_label(e: EngineKind) -> Seq<char> {
    match e {
        EngineKind::Lux => "Lux"@,
        EngineKind::Youget => "Youget"@,
        EngineKind::Youtubedl => "Youtube-dl"@,
    }
}

/// Normalize one probe listing: look the engine up by name and hand the
/// listing to its prober. An unknown engine name is the engine-not-found
/// error, surfaced before anything else; each prober accepts exactly
/// what its own acceptance spec says and yields at most the
/// malformed-output error; on acceptance the records are fixed by the
/// listing, as each prober's record spec states, and every record names
/// the probed URL and the engine.
pub fn get_stream_info(engine: &str, url: &str, output: &[u8]) -> (r: Result<
    Vec<DownloadInfo>,
    DownError,
>)
    ensures
        engine_of_str(engine@) is None <==> r == Err::<Vec<DownloadInfo>, DownError>(
            DownError::EngineNotFound,
        ),
        r matches Err(e) ==> e == DownError::EngineNotFound || e
            == DownError::MalformedProbeOutput,
        r matches Ok(v) ==> (engine_of_str(engine@) matches Some(e) && (forall|i: int|
            0 <= i < v@.len() ==> entry_shape(#[trigger] v@[i], url@, spec_engine_label(e)))),
        engine_of_str(engine@) == Some(EngineKind::Lux) ==> {
            &&& (r is Ok <==> crate::lux::lux_accepts(output@))
            &&& (r matches Ok(v) ==> unique_ids(v@) && crate::lux::lux_records_match(
                v@,
                output@,
                url@,
            ))
        },
        engine_of_str(engine@) == Some(EngineKind::Youget) ==> {
            &&& (r is Ok <==> vstd::utf8::valid_utf8(output@))
            &&& (r matches Ok(v) ==> crate::youget::youget_records_match(v@, output@, url@))
        },
        engine_of_str(engine@) == Some(EngineKind::Youtubedl) ==> {
            &&& (r is Ok <==> crate::youtubedl::ytdl_accepts(output@))
            &&& (r matches Ok(v) ==> unique_ids(v@) && crate::youtubedl::ytdl_records_match(
                v@,
                output@,
                url@,
            ))
        },
{
    let e = get_engine(engine)?;
    match e {
        EngineKind::Lux => {
            let engine = crate::lux::Lux {};
            engine.get_stream_info(url, output)
        },
        EngineKind::Youget => {
            let engine = crate::youget::Youget {};
            engine.get_stream_info(url, output)
        },
        EngineKind::Youtubedl => {
            let engine = crate::youtubedl::Youtubedl {};
            engine.get_stream_info(url, output)
        },
    }
}

} // verus!
