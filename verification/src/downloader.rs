//! What the yt-dlp downloads run: output paths, format selection, command
//! lines, section bounds, and the reading of yt-dlp's progress lines.
use vstd::prelude::*;
use vstd::string::StringExecFns;
use crate::text::{
    chars_of, contains_chars, copy_range, decimal, decimal2, find_char, index_of_char,
    push_decimal, push_decimal2, starts_with, starts_with_chars, string_of, trim, trim_chars,
    trim_start, is_whitespace, contains_seq, is_digit, lemma_decimal_reads_back,
    lemma_middle_equal, lemma_split_unique,
};

verus! {

broadcast use vstd::string::group_string_axioms;

/// The values of a sequence of strings.
pub open spec fn views(v: Seq<String>) -> Seq<Seq<char>> {
    v.map_values(|s: String| s@)
}

/// A `String` holding `x`.
pub fn owned(x: &str) -> (r: String)
    ensures
        r@ == x@,
{
    String::from_str(x)
}

/// A `String` holding `n` in base ten.
pub fn decimal_string(n: u64) -> (r: String)
    ensures
        r@ == decimal(n as nat),
{
    let mut v: Vec<char> = Vec::new();
    push_decimal(&mut v, n);
    assert(v@ =~= decimal(n as nat));
    string_of(&v)
}

/// The downloads that yt-dlp performs for the app.
pub struct Downloader;

// ───────────────────────── section times ─────────────────────────

/// `HH:MM:SS` for the whole seconds of `ms` milliseconds, each field at least
/// two digits, as yt-dlp's `--download-sections` takes it.
pub open spec fn ytdlp_time(ms: nat) -> Seq<char> {
    let total = ms / 1000;
    decimal2(total / 3600) + seq![':'] + decimal2((total % 3600) / 60) + seq![':'] + decimal2(
        total % 60,
    )
}

/// Converts milliseconds to `HH:MM:SS` for yt-dlp `--download-sections`.
pub fn ms_to_ytdlp_time(ms: u64) -> (r: String)
    ensures
        r@ == ytdlp_time(ms as nat),
{
    let total_secs = ms / 1000;
    let hours = total_secs / 3600;
    let minutes = (total_secs % 3600) / 60;
    let seconds = total_secs % 60;
    let mut v: Vec<char> = Vec::new();
    push_decimal2(&mut v, hours);
    v.push(':');
    push_decimal2(&mut v, minutes);
    v.push(':');
    push_decimal2(&mut v, seconds);
    assert(v@ =~= ytdlp_time(ms as nat));
    string_of(&v)
}

// ───────────────────────── progress lines ─────────────────────────

/// `"[download]"`.
pub open spec fn download_tag() -> Seq<char> {
    seq!['[', 'd', 'o', 'w', 'n', 'l', 'o', 'a', 'd', ']']
}

/// The text before the first `'%'` of `s`, or all of `s`.
pub open spec fn before_percent(s: Seq<char>) -> Seq<char> {
    match index_of_char(s, '%') {
        Some(k) => s.take(k),
        None => s,
    }
}

/// The percentage text of a yt-dlp progress line such as
/// `"[download]  42.3% of ~50.00MiB at ..."`: what lies between the
/// `"[download]"` tag and the first `'%'`, trimmed.
pub open spec fn download_percent_spec(line: Seq<char>) -> Option<Seq<char>> {
    if starts_with(line, download_tag()) {
        Some(trim(before_percent(trim_start(line.skip(10)))))
    } else {
        None
    }
}

fn trim_start_from(s: &Vec<char>, from: usize) -> (lo: usize)
    requires
        from <= s.len(),
    ensures
        from <= lo <= s.len(),
        trim_start(s@.skip(from as int)) == s@.skip(lo as int),
{
    let mut lo = from;
    while lo < s.len() && is_whitespace(s[lo])
        invariant
            from <= lo <= s.len(),
            trim_start(s@.skip(from as int)) == trim_start(s@.skip(lo as int)),
        decreases s.len() - lo,
    {
        assert(s@.skip(lo as int).drop_first() =~= s@.skip(lo + 1));
        lo = lo + 1;
    }
    lo
}

fn download_percent_chars(v: &Vec<char>) -> (r: Option<Vec<char>>)
    ensures
        r matches Some(t) ==> download_percent_spec(v@) == Some(t@),
        r is None ==> download_percent_spec(v@) is None,
{
    let tag = vec!['[', 'd', 'o', 'w', 'n', 'l', 'o', 'a', 'd', ']'];
    assert(tag@ =~= download_tag());
    if !starts_with_chars(v, &tag) {
        return None;
    }
    let lo = trim_start_from(v, 10);
    let rest = copy_range(v, lo, v.len());
    assert(rest@ =~= v@.skip(lo as int));
    assert(rest@.skip(0) =~= rest@);
    let pct = match find_char(&rest, 0, '%') {
        Some(k) => copy_range(&rest, 0, k),
        None => copy_range(&rest, 0, rest.len()),
    };
    assert(pct@ =~= before_percent(rest@));
    Some(trim_chars(&pct))
}

impl Downloader {
    /// The percentage text of a yt-dlp progress line, ready to be read as a
    /// number: `"[download]  42.3% of ~50.00MiB"` gives `"42.3"`; lines
    /// without the `"[download]"` tag give `None`.
    pub fn download_percent_text(line: &str) -> (r: Option<String>)
        ensures
            r matches Some(t) ==> download_percent_spec(line@) == Some(t@),
            r is None ==> download_percent_spec(line@) is None,
    {
        let v = chars_of(line);
        match download_percent_chars(&v) {
            Some(t) => Some(string_of(&t)),
            None => None,
        }
    }
}

// ───────────────────────── captions ─────────────────────────

/// `dir/id` followed by `suffix`.
pub open spec fn file_in(dir: Seq<char>, id: Seq<char>, suffix: Seq<char>) -> Seq<char> {
    dir + seq!['/'] + id + suffix
}

fn file_in_exec(dir: &str, id: &str, suffix: &str) -> (r: String)
    ensures
        r@ == file_in(dir@, id@, suffix@),
{
    let mut r = owned(dir);
    r.append("/");
    r.append(id);
    r.append(suffix);
    proof {
        reveal_strlit("/");
    }
    assert(r@ =~= file_in(dir@, id@, suffix@));
    r
}

/// What a line that yt-dlp writes while fetching captions reports.
pub enum CaptionProgress {
    /// The subtitles are being downloaded.
    DownloadingCaptions,
    /// The subtitles are being converted to VTT.
    ConvertingCaptions,
    /// A download percentage, still as text.
    Percent(String),
    /// Nothing to report.
    Nothing,
}

/// The mathematical value of a [`CaptionProgress`].
pub enum CaptionProgressModel {
    DownloadingCaptions,
    ConvertingCaptions,
    Percent(Seq<char>),
    Nothing,
}

impl View for CaptionProgress {
    type V = CaptionProgressModel;

    open spec fn view(&self) -> CaptionProgressModel {
        match self {
            CaptionProgress::DownloadingCaptions => CaptionProgressModel::DownloadingCaptions,
            CaptionProgress::ConvertingCaptions => CaptionProgressModel::ConvertingCaptions,
            CaptionProgress::Percent(t) => CaptionProgressModel::Percent(t@),
            CaptionProgress::Nothing => CaptionProgressModel::Nothing,
        }
    }
}

/// What a caption-fetch line reports: a line (trimmed) that mentions
/// downloading subtitles, then one that mentions converting, then a
/// `"[download]"` percentage line.
pub open spec fn caption_progress_spec(line: Seq<char>) -> CaptionProgressModel {
    let t = trim(line);
    if contains_seq(t, "Downloading subtitles"@) || contains_seq(t, "Downloading video subtitles"@) {
        CaptionProgressModel::DownloadingCaptions
    } else if contains_seq(t, "Converting"@) || contains_seq(t, "SubtitlesConvertor"@) {
        CaptionProgressModel::ConvertingCaptions
    } else {
        match download_percent_spec(line) {
            Some(p) => CaptionProgressModel::Percent(p),
            None => CaptionProgressModel::Nothing,
        }
    }
}

/// The output template of a caption fetch: `dir/id.%(ext)s`.
pub open spec fn caption_template(dir: Seq<char>, id: Seq<char>) -> Seq<char> {
    file_in(dir, id, ".%(ext)s"@)
}

/// The yt-dlp arguments that fetch English captions (automatic or written),
/// converted to VTT, without the video.
pub open spec fn caption_args(dir: Seq<char>, id: Seq<char>, url: Seq<char>) -> Seq<Seq<char>> {
    seq![
        "--skip-download"@,
        "--write-auto-subs"@,
        "--write-subs"@,
        "--sub-langs"@,
        "en"@,
        "--convert-subs"@,
        "vtt"@,
        "-o"@,
        caption_template(dir, id),
        "--newline"@,
        "--no-playlist"@,
        url,
    ]
}

impl Downloader {
    /// The yt-dlp arguments that fetch a video's captions into `output_dir`.
    pub fn caption_fetch_args(output_dir: &str, video_id: &str, url: &str) -> (r: Vec<String>)
        ensures
            views(r@) == caption_args(output_dir@, video_id@, url@),
    {
        let mut r: Vec<String> = Vec::new();
        r.push(owned("--skip-download"));
        r.push(owned("--write-auto-subs"));
        r.push(owned("--write-subs"));
        r.push(owned("--sub-langs"));
        r.push(owned("en"));
        r.push(owned("--convert-subs"));
        r.push(owned("vtt"));
        r.push(owned("-o"));
        r.push(file_in_exec(output_dir, video_id, ".%(ext)s"));
        r.push(owned("--newline"));
        r.push(owned("--no-playlist"));
        r.push(owned(url));
        assert(views(r@) =~= caption_args(output_dir@, video_id@, url@));
        r
    }

    /// Where the fetched English captions land: `dir/id.en.vtt`.
    pub fn caption_vtt_path(output_dir: &str, video_id: &str) -> (r: String)
        ensures
            r@ == file_in(output_dir@, video_id@, ".en.vtt"@),
    {
        file_in_exec(output_dir, video_id, ".en.vtt")
    }

    /// What a line of yt-dlp's output during a caption fetch reports.
    pub fn caption_progress(line: &str) -> (r: CaptionProgress)
        ensures
            r@ == caption_progress_spec(line@),
    {
        let v = chars_of(line);
        let t = trim_chars(&v);
        let a = chars_of("Downloading subtitles");
        let b = chars_of("Downloading video subtitles");
        let c = chars_of("Converting");
        let d = chars_of("SubtitlesConvertor");
        if contains_chars(&t, &a) || contains_chars(&t, &b) {
            CaptionProgress::DownloadingCaptions
        } else if contains_chars(&t, &c) || contains_chars(&t, &d) {
            CaptionProgress::ConvertingCaptions
        } else {
            match download_percent_chars(&v) {
                Some(p) => CaptionProgress::Percent(string_of(&p)),
                None => CaptionProgress::Nothing,
            }
        }
    }

    /// The message and percentage that a caption-fetch line of a fixed kind
    /// reports: 25% while downloading, 60% while converting. A percentage
    /// line is scaled by the caller, and other lines report nothing.
    pub fn caption_stage_report(p: &CaptionProgress) -> (r: Option<(String, u8)>)
        ensures
            p@ is DownloadingCaptions ==> (r matches Some((m, pct)) && m@ == "Downloading captions..."@
                && pct == 25),
            p@ is ConvertingCaptions ==> (r matches Some((m, pct)) && m@
                == "Converting captions to VTT..."@ && pct == 60),
            !(p@ is DownloadingCaptions) && !(p@ is ConvertingCaptions) ==> r is None,
    {
        match p {
            CaptionProgress::DownloadingCaptions => Some((owned("Downloading captions..."), 25)),
            CaptionProgress::ConvertingCaptions => Some((owned("Converting captions to VTT..."), 60)),
            _ => None,
        }
    }

    /// The captions a fetch produced: the VTT path when yt-dlp succeeded and
    /// the file exists, and nothing otherwise (the video has no captions).
    pub fn caption_outcome(exit_ok: bool, vtt_exists: bool, vtt_path: String) -> (r: Option<
        String,
    >)
        ensures
            r == (if exit_ok && vtt_exists {
                Some(vtt_path)
            } else {
                None
            }),
    {
        if !exit_ok {
            return None;
        }
        if vtt_exists {
            Some(vtt_path)
        } else {
            None
        }
    }
}

// ───────────────────────── sections ─────────────────────────

/// The largest video height a section download asks for at a resolution.
pub open spec fn section_height(resolution: Seq<char>) -> nat {
    if resolution == "best"@ {
        2160
    } else if resolution == "1080p"@ {
        1080
    } else if resolution == "720p"@ {
        720
    } else {
        480
    }
}

/// The yt-dlp format selection for height at most `h`: H.264 video with AAC
/// audio, else any video with audio, else the best single file.
pub open spec fn height_format(h: Seq<char>) -> Seq<char> {
    "bestvideo[height<="@ + h + "][vcodec^=avc1]+bestaudio[acodec^=mp4a]/bestvideo[height<="@ + h
        + "]+bestaudio/best[height<="@ + h + "]"@
}

/// The section bounds: the range widened by the padding on both sides, the
/// start not going below zero.
pub open spec fn section_range(start_ms: nat, end_ms: nat, pad_seconds: nat) -> Seq<char> {
    let pad_ms = pad_seconds * 1000;
    let from: nat = if start_ms >= pad_ms {
        (start_ms - pad_ms) as nat
    } else {
        0
    };
    seq!['*'] + ytdlp_time(from) + seq!['-'] + ytdlp_time(end_ms + pad_ms)
}

/// The name of a section download: `id_section_start_end` followed by `suffix`.
pub open spec fn section_file(
    dir: Seq<char>,
    id: Seq<char>,
    start_ms: nat,
    end_ms: nat,
    suffix: Seq<char>,
) -> Seq<char> {
    file_in(dir, id + "_section_"@ + decimal(start_ms) + seq!['_'] + decimal(end_ms), suffix)
}

/// The yt-dlp arguments of a section download.
pub open spec fn section_args(
    dir: Seq<char>,
    id: Seq<char>,
    url: Seq<char>,
    start_ms: nat,
    end_ms: nat,
    pad_seconds: nat,
    resolution: Seq<char>,
) -> Seq<Seq<char>> {
    seq![
        "-f"@,
        height_format(decimal(section_height(resolution))),
        "--download-sections"@,
        section_range(start_ms, end_ms, pad_seconds),
        "-o"@,
        section_file(dir, id, start_ms, end_ms, ".%(ext)s"@),
        "--merge-output-format"@,
        "mp4"@,
        "--newline"@,
        "--no-playlist"@,
        url,
    ]
}

/// A planned section download: the yt-dlp arguments and where the MP4 lands.
pub struct SectionPlan {
    pub args: Vec<String>,
    pub output_path: String,
}

fn height_format_exec(h: u64) -> (r: String)
    ensures
        r@ == height_format(decimal(h as nat)),
{
    let hs = decimal_string(h);
    let mut r = owned("bestvideo[height<=");
    r.append(hs.as_str());
    r.append("][vcodec^=avc1]+bestaudio[acodec^=mp4a]/bestvideo[height<=");
    r.append(hs.as_str());
    r.append("]+bestaudio/best[height<=");
    r.append(hs.as_str());
    r.append("]");
    assert(r@ =~= height_format(decimal(h as nat)));
    r
}

fn section_file_exec(dir: &str, id: &str, start_ms: u64, end_ms: u64, suffix: &str) -> (r: String)
    ensures
        r@ == section_file(dir@, id@, start_ms as nat, end_ms as nat, suffix@),
{
    let mut name = owned(id);
    name.append("_section_");
    name.append(decimal_string(start_ms).as_str());
    name.append("_");
    name.append(decimal_string(end_ms).as_str());
    proof {
        reveal_strlit("_");
    }
    assert(name@ =~= id@ + "_section_"@ + decimal(start_ms as nat) + seq!['_'] + decimal(
        end_ms as nat,
    ));
    file_in_exec(dir, name.as_str(), suffix)
}

impl Downloader {
    /// The largest video height a section download at `resolution` asks for:
    /// 2160 for `"best"`, 1080 for `"1080p"`, 720 for `"720p"`, 480 otherwise.
    pub fn section_max_height(resolution: &str) -> (h: u64)
        ensures
            h == section_height(resolution@),
    {
        let r = chars_of(resolution);
        let best = chars_of("best");
        let p1080 = chars_of("1080p");
        let p720 = chars_of("720p");
        if crate::text::chars_eq(&r, &best) {
            2160
        } else if crate::text::chars_eq(&r, &p1080) {
            1080
        } else if crate::text::chars_eq(&r, &p720) {
            720
        } else {
            480
        }
    }

    /// Plans the download of the part of a video from `start_ms` to `end_ms`,
    /// widened by `pad_seconds` on both sides, at `resolution`.
    pub fn section_plan(
        output_dir: &str,
        video_id: &str,
        url: &str,
        start_ms: u64,
        end_ms: u64,
        pad_seconds: u64,
        resolution: &str,
    ) -> (r: SectionPlan)
        requires
            pad_seconds * 1000 <= u64::MAX,
            end_ms + pad_seconds * 1000 <= u64::MAX,
        ensures
            views(r.args@) == section_args(
                output_dir@,
                video_id@,
                url@,
                start_ms as nat,
                end_ms as nat,
                pad_seconds as nat,
                resolution@,
            ),
            r.output_path@ == section_file(
                output_dir@,
                video_id@,
                start_ms as nat,
                end_ms as nat,
                ".mp4"@,
            ),
    {
        let pad_ms = pad_seconds * 1000;
        let from = if start_ms >= pad_ms {
            start_ms - pad_ms
        } else {
            0
        };
        let section_start = ms_to_ytdlp_time(from);
        let section_end = ms_to_ytdlp_time(end_ms + pad_ms);
        let mut sections = owned("*");
        sections.append(section_start.as_str());
        sections.append("-");
        sections.append(section_end.as_str());
        proof {
            reveal_strlit("*");
            reveal_strlit("-");
        }
        assert(sections@ =~= section_range(start_ms as nat, end_ms as nat, pad_seconds as nat));
        let max_height = Self::section_max_height(resolution);
        let mut args: Vec<String> = Vec::new();
        args.push(owned("-f"));
        args.push(height_format_exec(max_height));
        args.push(owned("--download-sections"));
        args.push(sections);
        args.push(owned("-o"));
        args.push(section_file_exec(output_dir, video_id, start_ms, end_ms, ".%(ext)s"));
        args.push(owned("--merge-output-format"));
        args.push(owned("mp4"));
        args.push(owned("--newline"));
        args.push(owned("--no-playlist"));
        args.push(owned(url));
        assert(views(args@) =~= section_args(
            output_dir@,
            video_id@,
            url@,
            start_ms as nat,
            end_ms as nat,
            pad_seconds as nat,
            resolution@,
        ));
        let output_path = section_file_exec(output_dir, video_id, start_ms, end_ms, ".mp4");
        SectionPlan { args, output_path }
    }
}

/// The resolution of the section downloaded to preview a transcript selection.
pub const PREVIEW_RESOLUTION: &'static str = "480p";

impl Downloader {
    /// Plans the preview download of a transcript selection from `start_ms`
    /// to `end_ms`: the section padded by 10 s on both sides, at 480p.
    pub fn preview_section_plan(
        output_dir: &str,
        video_id: &str,
        url: &str,
        start_ms: u64,
        end_ms: u64,
    ) -> (r: SectionPlan)
        requires
            end_ms + 10_000 <= u64::MAX,
        ensures
            views(r.args@) == section_args(
                output_dir@,
                video_id@,
                url@,
                start_ms as nat,
                end_ms as nat,
                10,
                "480p"@,
            ),
            r.output_path@ == section_file(
                output_dir@,
                video_id@,
                start_ms as nat,
                end_ms as nat,
                ".mp4"@,
            ),
    {
        Self::section_plan(output_dir, video_id, url, start_ms, end_ms, 10, PREVIEW_RESOLUTION)
    }

    /// The result of a section download: the MP4's path when yt-dlp
    /// succeeded, and otherwise an error.
    pub fn section_outcome(success: bool, output_path: String) -> (r: Result<String, String>)
        ensures
            success ==> r == Ok::<String, String>(output_path),
            !success ==> (r matches Err(e) && e@ == "yt-dlp section download failed"@),
    {
        if success {
            Ok(output_path)
        } else {
            Err(owned("yt-dlp section download failed"))
        }
    }
}

/// Section downloads are keyed by their time range: two sections of one
/// video, in one folder and with one extension, land in the same file only
/// when their start and end times are equal.
pub proof fn lemma_section_file_keyed(
    dir: Seq<char>,
    id: Seq<char>,
    s1: nat,
    e1: nat,
    s2: nat,
    e2: nat,
    suffix: Seq<char>,
)
    ensures
        section_file(dir, id, s1, e1, suffix) == section_file(dir, id, s2, e2, suffix) ==> s1
            == s2 && e1 == e2,
{
    if section_file(dir, id, s1, e1, suffix) == section_file(dir, id, s2, e2, suffix) {
        let p = dir + seq!['/'] + id + "_section_"@;
        let m1 = decimal(s1) + seq!['_'] + decimal(e1);
        let m2 = decimal(s2) + seq!['_'] + decimal(e2);
        assert(section_file(dir, id, s1, e1, suffix) =~= p + m1 + suffix);
        assert(section_file(dir, id, s2, e2, suffix) =~= p + m2 + suffix);
        lemma_middle_equal(p, m1, m2, suffix);
        lemma_decimal_reads_back(s1);
        lemma_decimal_reads_back(s2);
        lemma_decimal_reads_back(e1);
        lemma_decimal_reads_back(e2);
        assert(('_' as u32) == 0x5F);
        assert forall|j: int| 0 <= j < decimal(s1).len() implies decimal(s1)[j] != '_' by {
            assert(is_digit(decimal(s1)[j]));
        }
        assert forall|j: int| 0 <= j < decimal(s2).len() implies decimal(s2)[j] != '_' by {
            assert(is_digit(decimal(s2)[j]));
        }
        lemma_split_unique(decimal(s1), decimal(e1), decimal(s2), decimal(e2), '_');
    }
}

// ───────────────────────── whole videos ─────────────────────────

/// The yt-dlp format selection of a whole-video download at a resolution:
/// up to 2160 lines for `"4k"`, 1080 for `"1080p"`, and 720 otherwise.
pub open spec fn video_format(resolution: Seq<char>) -> Seq<char> {
    if resolution == "4k"@ {
        "bestvideo[height<=2160][vcodec^=avc1]+bestaudio[acodec^=mp4a]/bestvideo[height<=2160]+bestaudio/best[height<=2160]"@
    } else if resolution == "1080p"@ {
        "bestvideo[height<=1080][vcodec^=avc1]+bestaudio[acodec^=mp4a]/bestvideo[height<=1080]+bestaudio/best[height<=1080]"@
    } else {
        "bestvideo[height<=720][vcodec^=avc1]+bestaudio[acodec^=mp4a]/best[height<=720]"@
    }
}

/// The yt-dlp arguments of a whole-video download.
pub open spec fn video_args(
    dir: Seq<char>,
    id: Seq<char>,
    resolution: Seq<char>,
    url: Seq<char>,
) -> Seq<Seq<char>> {
    seq![
        "-f"@,
        video_format(resolution),
        "-o"@,
        file_in(dir, id, ".%(ext)s"@),
        "--merge-output-format"@,
        "mp4"@,
        "--newline"@,
        "--no-playlist"@,
        url,
    ]
}

/// A planned whole-video download: the yt-dlp arguments and where the MP4 lands.
pub struct VideoPlan {
    pub args: Vec<String>,
    pub output_path: String,
}

impl Downloader {
    /// The yt-dlp format selection for a whole video at `resolution`.
    pub fn video_format_flag(resolution: &str) -> (r: String)
        ensures
            r@ == video_format(resolution@),
    {
        let r = chars_of(resolution);
        let k4 = chars_of("4k");
        let p1080 = chars_of("1080p");
        if crate::text::chars_eq(&r, &k4) {
            owned(
                "bestvideo[height<=2160][vcodec^=avc1]+bestaudio[acodec^=mp4a]/bestvideo[height<=2160]+bestaudio/best[height<=2160]",
            )
        } else if crate::text::chars_eq(&r, &p1080) {
            owned(
                "bestvideo[height<=1080][vcodec^=avc1]+bestaudio[acodec^=mp4a]/bestvideo[height<=1080]+bestaudio/best[height<=1080]",
            )
        } else {
            owned("bestvideo[height<=720][vcodec^=avc1]+bestaudio[acodec^=mp4a]/best[height<=720]")
        }
    }

    /// The result of a whole-video download: the MP4's path when yt-dlp
    /// succeeded, and otherwise an error.
    pub fn video_outcome(success: bool, output_path: String) -> (r: Result<String, String>)
        ensures
            success ==> r == Ok::<String, String>(output_path),
            !success ==> (r matches Err(e) && e@ == "yt-dlp exited with error"@),
    {
        if success {
            Ok(output_path)
        } else {
            Err(owned("yt-dlp exited with error"))
        }
    }

    /// Plans the download of a whole video at `resolution` into `output_dir`.
    pub fn video_plan(output_dir: &str, video_id: &str, resolution: &str, url: &str) -> (r:
        VideoPlan)
        ensures
            views(r.args@) == video_args(output_dir@, video_id@, resolution@, url@),
            r.output_path@ == file_in(output_dir@, video_id@, ".mp4"@),
    {
        let mut args: Vec<String> = Vec::new();
        args.push(owned("-f"));
        args.push(Self::video_format_flag(resolution));
        args.push(owned("-o"));
        args.push(file_in_exec(output_dir, video_id, ".%(ext)s"));
        args.push(owned("--merge-output-format"));
        args.push(owned("mp4"));
        args.push(owned("--newline"));
        args.push(owned("--no-playlist"));
        args.push(owned(url));
        assert(views(args@) =~= video_args(output_dir@, video_id@, resolution@, url@));
        VideoPlan { args, output_path: file_in_exec(output_dir, video_id, ".mp4") }
    }
}

} // verus!
