//! What the clip export and the preview render run: ffmpeg command lines,
//! output names, and the reading of ffmpeg's progress lines.
use vstd::prelude::*;
use vstd::string::StringExecFns;
use crate::downloader::{
    decimal_string, owned, views, ytdlp_time,
};
use crate::text::{
    chars_of, copy_range, decimal, find_char, find_seq, index_of_char, index_of_seq,
    is_white_space, is_whitespace, string_of, trim_start, decimal2, all_digits, parse_u64_spec,
    lemma_decimal2_reads_back, lemma_parse_digits, lemma_index_of_char_is,
    lemma_index_of_char_none, lemma_middle_equal, lemma_split_unique,
};

verus! {

broadcast use vstd::string::group_string_axioms;

// ───────────────────────── export ─────────────────────────

/// The ffmpeg arguments of a clip export: a frame-accurate cut of the
/// section from `start` to `end` (seconds, as text), re-encoded with libx264
/// (ultrafast preset, CRF 18) and AAC audio at 192 kb/s.
pub open spec fn export_args(
    section: Seq<char>,
    start: Seq<char>,
    end: Seq<char>,
    out: Seq<char>,
) -> Seq<Seq<char>> {
    seq![
        "-i"@,
        section,
        "-ss"@,
        start,
        "-to"@,
        end,
        "-c:v"@,
        "libx264"@,
        "-preset"@,
        "ultrafast"@,
        "-crf"@,
        "18"@,
        "-c:a"@,
        "aac"@,
        "-b:a"@,
        "192k"@,
        "-y"@,
        out,
    ]
}

/// The ffmpeg arguments of a preview render: `duration` seconds from
/// `start`, re-encoded with libx264 (ultrafast preset, CRF 23) and AAC audio
/// at 128 kb/s.
pub open spec fn preview_args(
    section: Seq<char>,
    start: Seq<char>,
    duration: Seq<char>,
    out: Seq<char>,
) -> Seq<Seq<char>> {
    seq![
        "-i"@,
        section,
        "-ss"@,
        start,
        "-t"@,
        duration,
        "-c:v"@,
        "libx264"@,
        "-preset"@,
        "ultrafast"@,
        "-crf"@,
        "23"@,
        "-c:a"@,
        "aac"@,
        "-b:a"@,
        "128k"@,
        "-y"@,
        out,
    ]
}

/// Where an export goes.
pub enum ExportTarget {
    /// The path the user chose.
    Chosen(String),
    /// No path was chosen: a file of this name in the exports cache.
    Generated(String),
}

/// The name of a generated export: `clip_<seconds>.mp4`.
pub open spec fn clip_name(now_secs: nat) -> Seq<char> {
    "clip_"@ + decimal(now_secs) + ".mp4"@
}

/// The ffmpeg arguments of a clip export.
pub fn export_ffmpeg_args(section_path: &str, start: &str, end: &str, final_path: &str) -> (r:
    Vec<String>)
    ensures
        views(r@) == export_args(section_path@, start@, end@, final_path@),
{
    let mut r: Vec<String> = Vec::new();
    r.push(owned("-i"));
    r.push(owned(section_path));
    r.push(owned("-ss"));
    r.push(owned(start));
    r.push(owned("-to"));
    r.push(owned(end));
    r.push(owned("-c:v"));
    r.push(owned("libx264"));
    r.push(owned("-preset"));
    r.push(owned("ultrafast"));
    r.push(owned("-crf"));
    r.push(owned("18"));
    r.push(owned("-c:a"));
    r.push(owned("aac"));
    r.push(owned("-b:a"));
    r.push(owned("192k"));
    r.push(owned("-y"));
    r.push(owned(final_path));
    assert(views(r@) =~= export_args(section_path@, start@, end@, final_path@));
    r
}

/// Where an export goes: the chosen path, or when none was chosen (the path
/// is empty) a `clip_<now_secs>.mp4` in the exports cache.
pub fn export_target(output_path: String, now_secs: u64) -> (r: ExportTarget)
    ensures
        output_path@.len() > 0 ==> r == ExportTarget::Chosen(output_path),
        output_path@.len() == 0 ==> (r matches ExportTarget::Generated(n) && n@ == clip_name(
            now_secs as nat,
        )),
{
    if output_path.as_str().is_empty() {
        let mut n = owned("clip_");
        n.append(decimal_string(now_secs).as_str());
        n.append(".mp4");
        ExportTarget::Generated(n)
    } else {
        ExportTarget::Chosen(output_path)
    }
}

/// The result of a clip export: the exported file's path when ffmpeg
/// succeeded, and otherwise an error.
pub fn export_outcome(success: bool, final_path: String) -> (r: Result<String, String>)
    ensures
        success ==> r == Ok::<String, String>(final_path),
        !success ==> (r matches Err(e) && e@ == "ffmpeg export failed"@),
{
    if success {
        Ok(final_path)
    } else {
        Err(owned("ffmpeg export failed"))
    }
}

// ───────────────────────── preview ─────────────────────────

/// The section path without a final `".mp4"`.
pub open spec fn preview_stem_spec(section: Seq<char>) -> Seq<char> {
    let ext = ".mp4"@;
    if section.len() >= ext.len() && section.skip(section.len() - ext.len()) == ext {
        section.take(section.len() - ext.len())
    } else {
        section
    }
}

/// The preview file of a section between two markers (seconds, as text):
/// `stem_preview_start_end.mp4`, so that a render is found again for the same markers.
pub open spec fn preview_file(stem: Seq<char>, start: Seq<char>, end: Seq<char>) -> Seq<char> {
    stem + "_preview_"@ + start + "_"@ + end + ".mp4"@
}

/// Whether a preview cut may be served: it may when ffmpeg succeeded, and
/// otherwise the preview fails with an error.
pub fn preview_cut_outcome(success: bool) -> (r: Result<(), String>)
    ensures
        success ==> r is Ok,
        !success ==> (r matches Err(e) && e@ == "ffmpeg preview cut failed"@),
{
    if success {
        Ok(())
    } else {
        Err(owned("ffmpeg preview cut failed"))
    }
}

/// The path of the preview of `section_path` between `start` and `end`.
pub fn preview_path(section_path: &str, start: &str, end: &str) -> (r: String)
    ensures
        r@ == preview_file(preview_stem_spec(section_path@), start@, end@),
{
    let v = chars_of(section_path);
    let ext = chars_of(".mp4");
    let stem = if v.len() >= 4 && crate::text::chars_eq(&copy_range(&v, v.len() - 4, v.len()), &ext) {
        copy_range(&v, 0, v.len() - 4)
    } else {
        copy_range(&v, 0, v.len())
    };
    proof {
        reveal_strlit(".mp4");
        assert(v@.subrange(v@.len() - 4, v@.len() as int) =~= v@.skip(v@.len() - 4));
        assert(v@.subrange(0, v@.len() - 4) =~= v@.take(v@.len() - 4));
        assert(v@.subrange(0, v@.len() as int) =~= v@);
    }
    assert(stem@ == preview_stem_spec(section_path@));
    let mut r = string_of(&stem);
    r.append("_preview_");
    r.append(start);
    r.append("_");
    r.append(end);
    r.append(".mp4");
    r
}

/// Previews are cached by their markers: for marker texts without `'_'`
/// (as formatted numbers are), two previews of one section share a file
/// only when both markers are the same.
pub proof fn lemma_preview_file_keyed(
    stem: Seq<char>,
    a: Seq<char>,
    b: Seq<char>,
    c: Seq<char>,
    d: Seq<char>,
)
    requires
        forall|j: int| 0 <= j < a.len() ==> a[j] != '_',
        forall|j: int| 0 <= j < c.len() ==> c[j] != '_',
    ensures
        preview_file(stem, a, b) == preview_file(stem, c, d) ==> a == c && b == d,
{
    if preview_file(stem, a, b) == preview_file(stem, c, d) {
        reveal_strlit("_");
        let p = stem + "_preview_"@;
        let m1 = a + seq!['_'] + b;
        let m2 = c + seq!['_'] + d;
        assert("_"@ =~= seq!['_']);
        assert(preview_file(stem, a, b) =~= p + m1 + ".mp4"@);
        assert(preview_file(stem, c, d) =~= p + m2 + ".mp4"@);
        lemma_middle_equal(p, m1, m2, ".mp4"@);
        lemma_split_unique(a, b, c, d, '_');
    }
}

/// The ffmpeg arguments of a preview render.
pub fn preview_ffmpeg_args(section_path: &str, start: &str, duration: &str, out: &str) -> (r: Vec<
    String,
>)
    ensures
        views(r@) == preview_args(section_path@, start@, duration@, out@),
{
    let mut r: Vec<String> = Vec::new();
    r.push(owned("-i"));
    r.push(owned(section_path));
    r.push(owned("-ss"));
    r.push(owned(start));
    r.push(owned("-t"));
    r.push(owned(duration));
    r.push(owned("-c:v"));
    r.push(owned("libx264"));
    r.push(owned("-preset"));
    r.push(owned("ultrafast"));
    r.push(owned("-crf"));
    r.push(owned("23"));
    r.push(owned("-c:a"));
    r.push(owned("aac"));
    r.push(owned("-b:a"));
    r.push(owned("128k"));
    r.push(owned("-y"));
    r.push(owned(out));
    assert(views(r@) =~= preview_args(section_path@, start@, duration@, out@));
    r
}

// ───────────────────────── ffmpeg progress ─────────────────────────

/// Index of the first whitespace character of `s`.
pub open spec fn index_of_white(s: Seq<char>) -> Option<int>
    decreases s.len(),
{
    if s.len() == 0 {
        None
    } else if is_white_space(s[0]) {
        Some(0)
    } else {
        match index_of_white(s.drop_first()) {
            Some(k) => Some(k + 1),
            None => None,
        }
    }
}

/// The first whitespace-separated word of `s`, as `split_whitespace().next()` gives it.
pub open spec fn first_word(s: Seq<char>) -> Option<Seq<char>> {
    let t = trim_start(s);
    if t.len() == 0 {
        None
    } else {
        match index_of_white(t) {
            Some(k) => Some(t.take(k)),
            None => Some(t),
        }
    }
}

/// The time text of an ffmpeg progress line
/// `"frame= 123 ... time=00:00:05.12 bitrate=..."`: the word after the first `"time="`.
pub open spec fn ffmpeg_time_spec(line: Seq<char>) -> Option<Seq<char>> {
    match index_of_seq(line, "time="@) {
        None => None,
        Some(k) => first_word(line.skip(k + 5)),
    }
}

/// The three fields of `"HH:MM:SS.mm"`, when the text has exactly two colons.
pub open spec fn clock_fields_spec(s: Seq<char>) -> Option<(Seq<char>, Seq<char>, Seq<char>)> {
    match index_of_char(s, ':') {
        None => None,
        Some(i) => {
            let r = s.skip(i + 1);
            match index_of_char(r, ':') {
                None => None,
                Some(j) => {
                    let r2 = r.skip(j + 1);
                    if index_of_char(r2, ':') is None {
                        Some((s.take(i), r.take(j), r2))
                    } else {
                        None
                    }
                },
            }
        },
    }
}

fn first_word_from(s: &Vec<char>, from: usize) -> (r: Option<Vec<char>>)
    requires
        from <= s.len(),
    ensures
        r matches Some(w) ==> first_word(s@.skip(from as int)) == Some(w@),
        r is None ==> first_word(s@.skip(from as int)) is None,
{
    let mut lo = from;
    while lo < s.len() && is_whitespace(s[lo])
        invariant
            from <= lo <= s.len(),
            trim_start(s@.skip(from as int)) == trim_start(s@.skip(lo as int)),
        decreases s.len() - lo,
    {
        assert(s@.skip(lo as int).drop_first() =~= s@.skip(lo + 1));
        lo = lo + 1;
    }
    let ghost t = s@.skip(lo as int);
    assert(trim_start(t) == t);
    if lo == s.len() {
        return None;
    }
    let mut hi = lo;
    while hi < s.len() && !is_whitespace(s[hi])
        invariant
            lo <= hi <= s.len(),
            t == s@.skip(lo as int),
            index_of_white(t) == (match index_of_white(s@.skip(hi as int)) {
                Some(k) => Some(k + (hi - lo)),
                None => None,
            }),
        decreases s.len() - hi,
    {
        assert(s@.skip(hi as int).drop_first() =~= s@.skip(hi + 1));
        hi = hi + 1;
    }
    if hi < s.len() {
        assert(index_of_white(s@.skip(hi as int)) == Some(0int));
        assert(t.take(hi - lo) =~= s@.subrange(lo as int, hi as int));
    } else {
        assert(s@.skip(hi as int).len() == 0);
        assert(t =~= s@.subrange(lo as int, hi as int));
    }
    Some(copy_range(s, lo, hi))
}

/// The time text of an ffmpeg progress line: the word after `"time="`.
pub fn ffmpeg_time_text(line: &str) -> (r: Option<String>)
    ensures
        r matches Some(t) ==> ffmpeg_time_spec(line@) == Some(t@),
        r is None ==> ffmpeg_time_spec(line@) is None,
{
    let v = chars_of(line);
    let key = chars_of("time=");
    proof {
        reveal_strlit("time=");
    }
    assert(v@.skip(0) =~= v@);
    match find_seq(&v, 0, &key) {
        None => None,
        Some(k) => match first_word_from(&v, k + 5) {
            Some(w) => Some(string_of(&w)),
            None => None,
        },
    }
}

/// The three fields of a clock text `"HH:MM:SS.mm"`, or `None` unless it has
/// exactly three `':'`-separated fields.
pub fn clock_fields(s: &str) -> (r: Option<(String, String, String)>)
    ensures
        r matches Some((a, b, c)) ==> clock_fields_spec(s@) == Some((a@, b@, c@)),
        r is None ==> clock_fields_spec(s@) is None,
{
    let v = chars_of(s);
    assert(v@.skip(0) =~= v@);
    let i = match find_char(&v, 0, ':') {
        None => {
            return None;
        },
        Some(i) => i,
    };
    let j = match find_char(&v, i + 1, ':') {
        None => {
            return None;
        },
        Some(j) => j,
    };
    let ghost r = v@.skip(i + 1);
    assert(r.take(j - (i + 1)) =~= v@.subrange(i + 1, j as int));
    assert(r.skip(j - (i + 1) + 1) =~= v@.skip(j + 1));
    if find_char(&v, j + 1, ':').is_some() {
        return None;
    }
    assert(v@.take(i as int) =~= v@.subrange(0, i as int));
    assert(v@.skip(j + 1) =~= v@.subrange(j + 1, v@.len() as int));
    let a = string_of(&copy_range(&v, 0, i));
    let b = string_of(&copy_range(&v, i + 1, j));
    let c = string_of(&copy_range(&v, j + 1, v.len()));
    Some((a, b, c))
}


proof fn lemma_digits_no_colon(a: Seq<char>)
    requires
        all_digits(a),
    ensures
        forall|j: int| 0 <= j < a.len() ==> a[j] != ':',
{
    assert((':' as u32) == 0x3A);
    assert forall|j: int| 0 <= j < a.len() implies a[j] != ':' by {
        assert(crate::text::is_digit(a[j]));
    }
}

/// The `HH:MM:SS` text of a section bound splits into three clock fields
/// that read back as the whole seconds of the milliseconds it was made from:
/// hours, minutes below 60 and seconds below 60.
pub proof fn lemma_section_time_reads_back(ms: nat)
    requires
        ms <= u64::MAX,
    ensures
        clock_fields_spec(ytdlp_time(ms)) matches Some((h, m, s)) && parse_u64_spec(h) matches Some(
            hv,
        ) && parse_u64_spec(m) matches Some(mv) && parse_u64_spec(s) matches Some(sv) && hv * 3600
            + mv * 60 + sv == ms / 1000 && mv < 60 && sv < 60,
{
    let total = ms / 1000;
    let (hn, mn, sn) = (total / 3600, (total % 3600) / 60, total % 60);
    let a = decimal2(hn);
    let b = decimal2(mn);
    let c = decimal2(sn);
    lemma_decimal2_reads_back(hn);
    lemma_decimal2_reads_back(mn);
    lemma_decimal2_reads_back(sn);
    lemma_digits_no_colon(a);
    lemma_digits_no_colon(b);
    lemma_digits_no_colon(c);
    let t = ytdlp_time(ms);
    assert(t =~= a + seq![':'] + b + seq![':'] + c);
    lemma_index_of_char_is(t, ':', a.len() as int);
    let r = t.skip(a.len() as int + 1);
    assert(r =~= b + seq![':'] + c);
    lemma_index_of_char_is(r, ':', b.len() as int);
    let r2 = r.skip(b.len() as int + 1);
    assert(r2 =~= c);
    lemma_index_of_char_none(r2, ':');
    assert(t.take(a.len() as int) =~= a);
    assert(r.take(b.len() as int) =~= b);
    assert(clock_fields_spec(t) == Some((a, b, c)));
    assert(hn <= total);
    lemma_parse_digits(a);
    lemma_parse_digits(b);
    lemma_parse_digits(c);
    assert(total == hn * 3600 + mn * 60 + sn);
}

} // verus!
