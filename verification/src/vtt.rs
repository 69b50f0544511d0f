//! WebVTT caption parsing: cue timestamps, tag stripping, HTML entity
//! decoding and the line-by-line cue reader.
use vstd::prelude::*;
use vstd::string::StrSliceExecFns;
use crate::text::{
    chars_eq, chars_of, contains_chars, contains_seq, copy_range, find_char, find_seq,
    index_of_char, index_of_seq, is_ascii_digit, is_digit, lines, parse_u64, parse_u64_spec,
    push_all, split_lines, starts_with, starts_with_chars, string_of, trim, trim_chars, all_digits,
    digits_value, lemma_index_of_char_is, lemma_parse_digits, lemma_trim_unchanged, free_of,
    lemma_lines_free, lemma_trim_free, all_white, lemma_trim_padded, lemma_trim_twice,
};

verus! {

broadcast use vstd::string::group_string_axioms;

// ───────────────────────── segments ─────────────────────────

/// One caption cue: its time range in milliseconds and its text.
#[derive(Debug, Clone)]
pub struct TranscriptSegment {
    pub start_ms: u64,
    pub end_ms: u64,
    pub text: String,
}

/// The mathematical value of a [`TranscriptSegment`].
pub struct SegmentModel {
    pub start_ms: int,
    pub end_ms: int,
    pub text: Seq<char>,
}

impl View for TranscriptSegment {
    type V = SegmentModel;

    open spec fn view(&self) -> SegmentModel {
        SegmentModel { start_ms: self.start_ms as int, end_ms: self.end_ms as int, text: self.text@ }
    }
}

/// The values of a sequence of segments.
pub open spec fn models(v: Seq<TranscriptSegment>) -> Seq<SegmentModel> {
    v.map_values(|s: TranscriptSegment| s@)
}

/// A segment that lasts at least 300 ms and whose times fit in a `u64`, as
/// every segment that the cue reader produces does.
pub open spec fn seg_wf(m: SegmentModel) -> bool {
    0 <= m.start_ms && m.start_ms + 300 <= m.end_ms <= u64::MAX
}

/// Whether every segment of `s` is well formed.
pub open spec fn all_wf(s: Seq<SegmentModel>) -> bool {
    forall|i: int| 0 <= i < s.len() ==> seg_wf(#[trigger] s[i])
}

/// A copy of `s`.
pub fn copy_segment(s: &TranscriptSegment) -> (r: TranscriptSegment)
    ensures
        r@ == s@,
{
    TranscriptSegment { start_ms: s.start_ms, end_ms: s.end_ms, text: s.text.clone() }
}

/// `segs` with the cue `[start, end)` holding `text` appended, unless the cue is
/// shorter than 300 ms (an artifact of automatic captions) or its text is empty.
pub open spec fn push_segment_spec(
    segs: Seq<SegmentModel>,
    start: int,
    end: int,
    text: Seq<char>,
) -> Seq<SegmentModel> {
    if end - start < 300 || text.len() == 0 {
        segs
    } else {
        segs.push(SegmentModel { start_ms: start, end_ms: end, text })
    }
}

/// Appends a cue, skipping cues under 300 ms and cues without text.
pub fn push_segment(segments: &mut Vec<TranscriptSegment>, start: u64, end: u64, text: String)
    ensures
        models(final(segments)@) == push_segment_spec(models(old(segments)@), start as int, end as int, text@),
        all_wf(models(old(segments)@)) ==> all_wf(models(final(segments)@)),
{
    if end < start || end - start < 300 {
        return;
    }
    if text.as_str().is_empty() {
        return;
    }
    segments.push(TranscriptSegment { start_ms: start, end_ms: end, text });
    assert(models(final(segments)@) =~= models(old(segments)@).push(
        SegmentModel { start_ms: start as int, end_ms: end as int, text: text@ },
    ));
}

// ───────────────────────── cue timestamps ─────────────────────────

/// The number of leading ASCII digits of `s`.
pub open spec fn digit_prefix_len(s: Seq<char>) -> nat
    decreases s.len(),
{
    if s.len() > 0 && is_digit(s[0]) {
        1 + digit_prefix_len(s.drop_first())
    } else {
        0
    }
}

/// The leading ASCII digits of `s`.
pub open spec fn take_digits_spec(s: Seq<char>) -> Seq<char> {
    s.take(digit_prefix_len(s) as int)
}

/// The end of the run of ASCII digits that starts at `from`.
fn digit_run_end(s: &Vec<char>, from: usize) -> (end: usize)
    requires
        from <= s.len(),
    ensures
        from <= end <= s.len(),
        end - from == digit_prefix_len(s@.skip(from as int)),
{
    let mut i = from;
    while i < s.len() && is_ascii_digit(s[i])
        invariant
            from <= i <= s.len(),
            digit_prefix_len(s@.skip(from as int)) == (i - from) + digit_prefix_len(
                s@.skip(i as int),
            ),
        decreases s.len() - i,
    {
        assert(s@.skip(i as int).drop_first() =~= s@.skip(i + 1));
        i = i + 1;
    }
    i
}

/// The leading ASCII digits of `s`: `"360 align:start"` gives `"360"`.
pub fn take_digits(s: &str) -> (r: &str)
    ensures
        r@ == take_digits_spec(s@),
{
    let v = chars_of(s);
    assert(v@.skip(0) =~= v@);
    let n = digit_run_end(&v, 0);
    s.substring_char(0, n)
}

/// The hours and the rest of a trimmed cue time: with two colons the hours
/// come before the first one; with one colon there are no hours.
pub open spec fn vtt_hours(s: Seq<char>) -> Option<(int, Seq<char>)> {
    match index_of_char(s, ':') {
        None => None,
        Some(i) => {
            if index_of_char(s.skip(i + 1), ':') is Some {
                match parse_u64_spec(s.take(i)) {
                    Some(h) => Some((h as int, s.skip(i + 1))),
                    None => None,
                }
            } else {
                Some((0, s))
            }
        },
    }
}

/// The minutes before the next colon, and what follows that colon.
pub open spec fn vtt_minutes(rest: Seq<char>) -> Option<(int, Seq<char>)> {
    match index_of_char(rest, ':') {
        None => None,
        Some(i) => match parse_u64_spec(rest.take(i)) {
            Some(m) => Some((m as int, rest.skip(i + 1))),
            None => None,
        },
    }
}

/// Seconds and milliseconds around the separator at index `i`; the
/// milliseconds are the digits that follow it.
pub open spec fn vtt_seconds_at(rest: Seq<char>, i: int) -> Option<(int, int)> {
    match parse_u64_spec(rest.take(i)) {
        None => None,
        Some(sec) => match parse_u64_spec(take_digits_spec(rest.skip(i + 1))) {
            None => None,
            Some(ms) => Some((sec as int, ms as int)),
        },
    }
}

/// Seconds and milliseconds, split at the first `'.'`, or else at the first `','`.
pub open spec fn vtt_seconds(rest: Seq<char>) -> Option<(int, int)> {
    match index_of_char(rest, '.') {
        Some(i) => vtt_seconds_at(rest, i),
        None => match index_of_char(rest, ',') {
            Some(i) => vtt_seconds_at(rest, i),
            None => None,
        },
    }
}

/// The milliseconds that a cue time `[HH:]MM:SS.mmm` (or with `','` for
/// `'.'`) denotes, before any bound on the result.
pub open spec fn vtt_time_ms(s0: Seq<char>) -> Option<int> {
    let s = trim(s0);
    match vtt_hours(s) {
        None => None,
        Some((h, rest)) => match vtt_minutes(rest) {
            None => None,
            Some((m, rest2)) => match vtt_seconds(rest2) {
                None => None,
                Some((sec, ms)) => Some(h * 3_600_000 + m * 60_000 + sec * 1000 + ms),
            },
        },
    }
}

/// Whether the value of a cue time fits in a `u64`.
pub open spec fn vtt_time_fits(s: Seq<char>) -> bool {
    vtt_time_ms(s) matches Some(v) ==> v <= u64::MAX
}

fn parse_range_u64(s: &Vec<char>, lo: usize, hi: usize) -> (r: Option<u64>)
    requires
        lo <= hi <= s.len(),
    ensures
        r == parse_u64_spec(s@.subrange(lo as int, hi as int)),
{
    let part = copy_range(s, lo, hi);
    parse_u64(&part)
}

fn seconds_at(rest: &Vec<char>, i: usize) -> (r: Option<(u64, u64)>)
    requires
        i < rest.len(),
    ensures
        r matches Some((a, b)) ==> vtt_seconds_at(rest@, i as int) == Some((a as int, b as int)),
        r is None ==> vtt_seconds_at(rest@, i as int) is None,
{
    let sec = parse_range_u64(rest, 0, i);
    assert(rest@.subrange(0, i as int) =~= rest@.take(i as int));
    match sec {
        None => None,
        Some(sec) => {
            let end = digit_run_end(rest, i + 1);
            let ms = parse_range_u64(rest, i + 1, end);
            assert(rest@.subrange(i + 1, end as int) =~= take_digits_spec(rest@.skip(i + 1)));
            match ms {
                None => None,
                Some(ms) => Some((sec, ms)),
            }
        },
    }
}

fn vtt_time_fields(s0: &Vec<char>) -> (r: Option<(u64, u64, u64, u64)>)
    ensures
        r matches Some((h, m, sec, ms)) ==> vtt_time_ms(s0@) == Some(
            h * 3_600_000 + m * 60_000 + sec * 1000 + ms,
        ),
        r is None ==> vtt_time_ms(s0@) is None,
{
    let s = trim_chars(s0);
    assert(s@.skip(0) =~= s@);
    let i1 = match find_char(&s, 0, ':') {
        None => {
            return None;
        },
        Some(i) => i,
    };
    // hours
    let has_second = find_char(&s, i1 + 1, ':');
    let h: u64;
    let rest: Vec<char>;
    if has_second.is_some() {
        let hv = parse_range_u64(&s, 0, i1);
        assert(s@.subrange(0, i1 as int) =~= s@.take(i1 as int));
        match hv {
            None => {
                return None;
            },
            Some(v) => {
                h = v;
            },
        }
        rest = copy_range(&s, i1 + 1, s.len());
        assert(rest@ =~= s@.skip(i1 + 1));
    } else {
        h = 0;
        rest = copy_range(&s, 0, s.len());
        assert(rest@ =~= s@);
    }
    assert(vtt_hours(s@) == Some((h as int, rest@)));
    // minutes
    assert(rest@.skip(0) =~= rest@);
    let i2 = match find_char(&rest, 0, ':') {
        None => {
            return None;
        },
        Some(i) => i,
    };
    let mv = parse_range_u64(&rest, 0, i2);
    assert(rest@.subrange(0, i2 as int) =~= rest@.take(i2 as int));
    let m = match mv {
        None => {
            return None;
        },
        Some(v) => v,
    };
    let rest2 = copy_range(&rest, i2 + 1, rest.len());
    assert(rest2@ =~= rest@.skip(i2 + 1));
    assert(vtt_minutes(rest@) == Some((m as int, rest2@)));
    // seconds and milliseconds
    assert(rest2@.skip(0) =~= rest2@);
    let sm = match find_char(&rest2, 0, '.') {
        Some(i3) => seconds_at(&rest2, i3),
        None => match find_char(&rest2, 0, ',') {
            Some(i3) => seconds_at(&rest2, i3),
            None => None,
        },
    };
    match sm {
        None => None,
        Some((sec, ms)) => {
            assert(vtt_seconds(rest2@) == Some((sec as int, ms as int)));
            Some((h, m, sec, ms))
        },
    }
}

fn vtt_time_chars(s0: &Vec<char>) -> (r: Option<u64>)
    requires
        vtt_time_fits(s0@),
    ensures
        r == (match vtt_time_ms(s0@) {
            Some(v) => Some(v as u64),
            None => None::<u64>,
        }),
{
    match vtt_time_fields(s0) {
        None => None,
        Some((h, m, sec, ms)) => {
            let ghost v = h * 3_600_000 + m * 60_000 + sec * 1000 + ms;
            assert(h * 3_600_000 <= v) by (nonlinear_arith)
                requires
                    v == h * 3_600_000 + m * 60_000 + sec * 1000 + ms,
                    m >= 0,
                    sec >= 0,
                    ms >= 0,
            ;
            assert(m * 60_000 + sec * 1000 + ms <= v) by (nonlinear_arith)
                requires
                    v == h * 3_600_000 + m * 60_000 + sec * 1000 + ms,
                    h >= 0,
            ;
            assert(m * 60_000 <= v);
            assert(sec * 1000 <= v);
            Some(h * 3_600_000 + m * 60_000 + sec * 1000 + ms)
        },
    }
}

/// Whether the cue time `s0` either does not parse or has a value within `u64`.
fn vtt_time_fits_exec(s0: &Vec<char>) -> (b: bool)
    ensures
        b == vtt_time_fits(s0@),
{
    match vtt_time_fields(s0) {
        None => true,
        Some((h, m, sec, ms)) => {
            assert(h * 3_600_000 + m * 60_000 + sec * 1000 + ms < 0x1_0000_0000_0000_0000_0000_0000)
                by (nonlinear_arith)
                requires
                    h <= u64::MAX,
                    m <= u64::MAX,
                    sec <= u64::MAX,
                    ms <= u64::MAX,
            ;
            let total: u128 = (h as u128) * 3_600_000 + (m as u128) * 60_000 + (sec as u128) * 1000
                + (ms as u128);
            total <= (u64::MAX as u128)
        },
    }
}

/// Parses a cue time `"00:00:00.000"`, `"00:00:00,000"` or `"00:00.000"`
/// into milliseconds; text after the millisecond digits is ignored.
pub fn parse_vtt_time(s: &str) -> (r: Option<u64>)
    requires
        vtt_time_fits(s@),
    ensures
        r == (match vtt_time_ms(s@) {
            Some(v) => Some(v as u64),
            None => None::<u64>,
        }),
{
    let v = chars_of(s);
    vtt_time_chars(&v)
}

/// The `-->` that separates the two times of a cue.
pub open spec fn arrow() -> Seq<char> {
    seq!['-', '-', '>']
}

/// The text before the first `-->` and the text between it and the next one
/// (or the end), as the first two pieces of `str::split("-->")`.
pub open spec fn timestamp_parts(l: Seq<char>) -> Option<(Seq<char>, Seq<char>)> {
    match index_of_seq(l, arrow()) {
        None => None,
        Some(k) => {
            let rest = l.skip(k + 3);
            let second = match index_of_seq(rest, arrow()) {
                Some(j) => rest.take(j),
                None => rest,
            };
            Some((l.take(k), second))
        },
    }
}

/// The start and end time of a cue timing line, when both parse.
pub open spec fn timestamp_line_spec(l: Seq<char>) -> Option<(int, int)> {
    match timestamp_parts(l) {
        None => None,
        Some((a, b)) => match vtt_time_ms(trim(a)) {
            None => None,
            Some(x) => match vtt_time_ms(trim(b)) {
                None => None,
                Some(y) => Some((x, y)),
            },
        },
    }
}

/// Whether the times that parsing a cue timing line computes fit in a `u64`
/// (the second one is computed only when the first one parses).
pub open spec fn timestamp_line_fits(l: Seq<char>) -> bool {
    match timestamp_parts(l) {
        None => true,
        Some((a, b)) => match vtt_time_ms(trim(a)) {
            None => true,
            Some(x) => x <= u64::MAX && vtt_time_fits(trim(b)),
        },
    }
}

fn arrow_chars() -> (r: Vec<char>)
    ensures
        r@ == arrow(),
{
    let r = vec!['-', '-', '>'];
    assert(r@ =~= arrow());
    r
}

fn timestamp_parts_chars(l: &Vec<char>) -> (r: Option<(Vec<char>, Vec<char>)>)
    ensures
        r matches Some((a, b)) ==> timestamp_parts(l@) == Some((a@, b@)),
        r is None ==> timestamp_parts(l@) is None,
{
    let arr = arrow_chars();
    assert(l@.skip(0) =~= l@);
    let k = match find_seq(l, 0, &arr) {
        None => {
            return None;
        },
        Some(k) => k,
    };
    let rest = copy_range(l, k + 3, l.len());
    assert(rest@ =~= l@.skip(k + 3));
    assert(rest@.skip(0) =~= rest@);
    let second = match find_seq(&rest, 0, &arr) {
        Some(j) => copy_range(&rest, 0, j),
        None => copy_range(&rest, 0, rest.len()),
    };
    let first = copy_range(l, 0, k);
    assert(first@ =~= l@.take(k as int));
    assert(second@ =~= (match index_of_seq(rest@, arrow()) {
        Some(j) => rest@.take(j),
        None => rest@,
    }));
    Some((first, second))
}

fn timestamp_chars(l: &Vec<char>) -> (r: Option<(u64, u64)>)
    requires
        timestamp_line_fits(l@),
    ensures
        r == (match timestamp_line_spec(l@) {
            Some((x, y)) => Some((x as u64, y as u64)),
            None => None::<(u64, u64)>,
        }),
{
    let (first, second) = match timestamp_parts_chars(l) {
        None => {
            return None;
        },
        Some(p) => p,
    };
    let a = trim_chars(&first);
    match vtt_time_chars(&a) {
        None => None,
        Some(x) => {
            let b = trim_chars(&second);
            match vtt_time_chars(&b) {
                None => None,
                Some(y) => Some((x, y)),
            }
        },
    }
}

fn timestamp_line_fits_exec(l: &Vec<char>) -> (b: bool)
    ensures
        b == timestamp_line_fits(l@),
{
    let (first, second) = match timestamp_parts_chars(l) {
        None => {
            return true;
        },
        Some(p) => p,
    };
    let a = trim_chars(&first);
    if !vtt_time_fits_exec(&a) {
        return false;
    }
    match vtt_time_fields(&a) {
        None => true,
        Some(_) => {
            let b = trim_chars(&second);
            vtt_time_fits_exec(&b)
        },
    }
}

/// Parses a cue timing line `"00:00:01.000 --> 00:00:04.000 align:start"`
/// into its start and end in milliseconds.
pub fn parse_timestamp_line(line: &str) -> (r: Option<(u64, u64)>)
    requires
        timestamp_line_fits(line@),
    ensures
        r == (match timestamp_line_spec(line@) {
            Some((x, y)) => Some((x as u64, y as u64)),
            None => None::<(u64, u64)>,
        }),
{
    let v = chars_of(line);
    timestamp_chars(&v)
}

// ───────────────────────── caption text ─────────────────────────

/// `s` without anything between `'<'` and the next `'>'` (both included);
/// `in_tag` says whether the text starts inside a tag.
pub open spec fn strip_tag_chars(s: Seq<char>, in_tag: bool) -> Seq<char>
    decreases s.len(),
{
    if s.len() == 0 {
        seq![]
    } else if s[0] == '<' {
        strip_tag_chars(s.drop_first(), true)
    } else if s[0] == '>' {
        strip_tag_chars(s.drop_first(), false)
    } else if !in_tag {
        seq![s[0]] + strip_tag_chars(s.drop_first(), in_tag)
    } else {
        strip_tag_chars(s.drop_first(), in_tag)
    }
}

/// The character that a recognised HTML entity (from `'&'` through `';'`) stands for.
pub open spec fn entity_char(e: Seq<char>) -> Option<char> {
    if e == seq!['&', 'a', 'm', 'p', ';'] {
        Some('&')
    } else if e == seq!['&', 'l', 't', ';'] {
        Some('<')
    } else if e == seq!['&', 'g', 't', ';'] {
        Some('>')
    } else if e == seq!['&', 'n', 'b', 's', 'p', ';'] {
        Some(' ')
    } else if e == seq!['&', 'q', 'u', 'o', 't', ';'] {
        Some('"')
    } else if e == seq!['&', '#', '3', '9', ';'] || e == seq!['&', 'a', 'p', 'o', 's', ';'] {
        Some('\'')
    } else {
        None
    }
}

/// The character that the entity at the start of `s` stands for, and the
/// entity's length: an `'&'` is read up to the first `';'` after it.
pub open spec fn entity_at(s: Seq<char>) -> Option<(char, int)> {
    if s.len() > 0 && s[0] == '&' {
        match index_of_char(s, ';') {
            Some(e) => match entity_char(s.take(e + 1)) {
                Some(c) => Some((c, e + 1)),
                None => None,
            },
            None => None,
        }
    } else {
        None
    }
}

/// `s` with each `&amp;`, `&lt;`, `&gt;`, `&nbsp;`, `&quot;`, `&#39;` and
/// `&apos;` replaced by its character, scanning from the left; an `'&'` that
/// does not start such an entity is left alone.
pub open spec fn decode_entities(s: Seq<char>) -> Seq<char>
    decreases s.len(),
{
    if s.len() == 0 {
        seq![]
    } else {
        match entity_at(s) {
            Some((c, n)) => {
                if 0 < n <= s.len() {
                    seq![c] + decode_entities(s.skip(n))
                } else {
                    seq![s[0]] + decode_entities(s.drop_first())
                }
            },
            None => seq![s[0]] + decode_entities(s.drop_first()),
        }
    }
}

/// The caption text of a cue line: tags removed, whitespace trimmed, entities decoded.
pub open spec fn strip_tags_spec(s: Seq<char>) -> Seq<char> {
    decode_entities(trim(strip_tag_chars(s, false)))
}

fn entity_replacement(e: &Vec<char>) -> (r: Option<char>)
    ensures
        r == entity_char(e@),
{
    let amp = vec!['&', 'a', 'm', 'p', ';'];
    let lt = vec!['&', 'l', 't', ';'];
    let gt = vec!['&', 'g', 't', ';'];
    let nbsp = vec!['&', 'n', 'b', 's', 'p', ';'];
    let quot = vec!['&', 'q', 'u', 'o', 't', ';'];
    let n39 = vec!['&', '#', '3', '9', ';'];
    let apos = vec!['&', 'a', 'p', 'o', 's', ';'];
    assert(amp@ =~= seq!['&', 'a', 'm', 'p', ';']);
    assert(lt@ =~= seq!['&', 'l', 't', ';']);
    assert(gt@ =~= seq!['&', 'g', 't', ';']);
    assert(nbsp@ =~= seq!['&', 'n', 'b', 's', 'p', ';']);
    assert(quot@ =~= seq!['&', 'q', 'u', 'o', 't', ';']);
    assert(n39@ =~= seq!['&', '#', '3', '9', ';']);
    assert(apos@ =~= seq!['&', 'a', 'p', 'o', 's', ';']);
    if chars_eq(e, &amp) {
        Some('&')
    } else if chars_eq(e, &lt) {
        Some('<')
    } else if chars_eq(e, &gt) {
        Some('>')
    } else if chars_eq(e, &nbsp) {
        Some(' ')
    } else if chars_eq(e, &quot) {
        Some('"')
    } else if chars_eq(e, &n39) || chars_eq(e, &apos) {
        Some('\'')
    } else {
        None
    }
}

fn decode_entity_chars(s: &Vec<char>) -> (out: Vec<char>)
    ensures
        out@ == decode_entities(s@),
{
    let mut out: Vec<char> = Vec::new();
    let mut i: usize = 0;
    assert(s@.skip(0) =~= s@);
    while i < s.len()
        invariant
            i <= s.len(),
            decode_entities(s@) == out@ + decode_entities(s@.skip(i as int)),
        decreases s.len() - i,
    {
        let ghost t = s@.skip(i as int);
        assert(t.drop_first() =~= s@.skip(i + 1));
        if s[i] == '&' {
            match find_char(s, i, ';') {
                Some(end) => {
                    let entity = copy_range(s, i, end + 1);
                    assert(entity@ =~= t.take(end - i + 1));
                    match entity_replacement(&entity) {
                        Some(ch) => {
                            let ghost old_out = out@;
                            out.push(ch);
                            assert(t.skip(end - i + 1) =~= s@.skip(end + 1));
                            assert(decode_entities(t) == seq![ch] + decode_entities(
                                s@.skip(end + 1),
                            ));
                            assert(decode_entities(s@) =~= out@ + decode_entities(
                                s@.skip(end + 1),
                            ));
                            i = end + 1;
                            continue ;
                        },
                        None => {},
                    }
                },
                None => {},
            }
        }
        let ghost old_out = out@;
        out.push(s[i]);
        assert(decode_entities(t) == seq![s@[i as int]] + decode_entities(s@.skip(i + 1)));
        assert(decode_entities(s@) =~= out@ + decode_entities(s@.skip(i + 1)));
        i = i + 1;
    }
    assert(decode_entities(s@.skip(i as int)) =~= Seq::<char>::empty());
    assert(decode_entities(s@) =~= out@);
    out
}

/// Decodes the HTML entities `&amp;` `&lt;` `&gt;` `&nbsp;` `&quot;` `&#39;`
/// `&apos;`, leaving any other `'&'` as it is.
pub fn decode_html_entities(s: &str) -> (r: String)
    ensures
        r@ == decode_entities(s@),
{
    let v = chars_of(s);
    let out = decode_entity_chars(&v);
    string_of(&out)
}

fn strip_tag_chars_exec(s: &Vec<char>) -> (out: Vec<char>)
    ensures
        out@ == strip_tag_chars(s@, false),
{
    let mut out: Vec<char> = Vec::new();
    let mut in_tag = false;
    let mut i: usize = 0;
    assert(s@.skip(0) =~= s@);
    while i < s.len()
        invariant
            i <= s.len(),
            strip_tag_chars(s@, false) == out@ + strip_tag_chars(s@.skip(i as int), in_tag),
        decreases s.len() - i,
    {
        let ghost t = s@.skip(i as int);
        assert(t.drop_first() =~= s@.skip(i + 1));
        let ch = s[i];
        if ch == '<' {
            in_tag = true;
        } else if ch == '>' {
            in_tag = false;
        } else if !in_tag {
            out.push(ch);
        }
        assert(strip_tag_chars(s@, false) =~= out@ + strip_tag_chars(s@.skip(i + 1), in_tag));
        i = i + 1;
    }
    assert(strip_tag_chars(s@.skip(i as int), in_tag) =~= Seq::<char>::empty());
    assert(strip_tag_chars(s@, false) =~= out@);
    out
}

fn strip_tags_chars(s: &Vec<char>) -> (out: Vec<char>)
    ensures
        out@ == strip_tags_spec(s@),
{
    let raw = strip_tag_chars_exec(s);
    let trimmed = trim_chars(&raw);
    decode_entity_chars(&trimmed)
}

/// Strips HTML/XML tags and inline timestamps like `<00:00:01.040>` from
/// caption text, trims it and decodes its HTML entities.
pub fn strip_tags(s: &str) -> (r: String)
    ensures
        r@ == strip_tags_spec(s@),
{
    let v = chars_of(s);
    let out = strip_tags_chars(&v);
    string_of(&out)
}


// ───────────────────────── the cue reader ─────────────────────────

/// `parts` joined with single spaces.
pub open spec fn join_spaces(parts: Seq<Seq<char>>) -> Seq<char>
    decreases parts.len(),
{
    if parts.len() == 0 {
        seq![]
    } else if parts.len() == 1 {
        parts[0]
    } else {
        join_spaces(parts.drop_last()) + seq![' '] + parts.last()
    }
}

/// The state of the cue reader between two lines.
pub struct VttState {
    /// The cues completed so far.
    pub segments: Seq<SegmentModel>,
    /// Start of the current cue.
    pub start: int,
    /// End of the current cue.
    pub end: int,
    /// The text lines of the current cue.
    pub text: Seq<Seq<char>>,
    /// Whether a timing line has opened a cue that no blank line has closed.
    pub in_cue: bool,
}

/// The reader before the first line.
pub open spec fn vtt_initial() -> VttState {
    VttState { segments: seq![], start: 0, end: 0, text: seq![], in_cue: false }
}

/// Completes the current cue, if one is open and has text.
pub open spec fn vtt_flush(st: VttState) -> VttState {
    if st.in_cue && st.text.len() > 0 {
        VttState {
            segments: push_segment_spec(st.segments, st.start, st.end, join_spaces(st.text)),
            start: st.start,
            end: st.end,
            text: seq![],
            in_cue: st.in_cue,
        }
    } else {
        st
    }
}

/// `"WEBVTT"`.
pub open spec fn webvtt() -> Seq<char> {
    seq!['W', 'E', 'B', 'V', 'T', 'T']
}

/// `"Kind:"`.
pub open spec fn kind_prefix() -> Seq<char> {
    seq!['K', 'i', 'n', 'd', ':']
}

/// `"Language:"`.
pub open spec fn language_prefix() -> Seq<char> {
    seq!['L', 'a', 'n', 'g', 'u', 'a', 'g', 'e', ':']
}

/// `"NOTE"`.
pub open spec fn note_prefix() -> Seq<char> {
    seq!['N', 'O', 'T', 'E']
}

/// Header, metadata and comment lines, which the reader passes over.
pub open spec fn is_skipped_line(l: Seq<char>) -> bool {
    l == webvtt() || starts_with(l, kind_prefix()) || starts_with(l, language_prefix())
        || starts_with(l, note_prefix())
}

/// The reader after one more line: a blank line closes the cue, a timing
/// line opens a new one (closing the current one), and while a cue is open
/// each other line adds its caption text when that is not empty.
pub open spec fn vtt_step(st: VttState, raw: Seq<char>) -> VttState {
    let l = trim(raw);
    if l.len() == 0 {
        let f = vtt_flush(st);
        VttState { segments: f.segments, start: f.start, end: f.end, text: f.text, in_cue: false }
    } else if is_skipped_line(l) {
        st
    } else if contains_seq(l, arrow()) {
        match timestamp_line_spec(l) {
            None => st,
            Some((a, b)) => {
                let f = vtt_flush(st);
                VttState { segments: f.segments, start: a, end: b, text: f.text, in_cue: true }
            },
        }
    } else if st.in_cue {
        let c = strip_tags_spec(l);
        if c.len() > 0 {
            VttState {
                segments: st.segments,
                start: st.start,
                end: st.end,
                text: st.text.push(c),
                in_cue: st.in_cue,
            }
        } else {
            st
        }
    } else {
        st
    }
}

/// The reader after the lines `ls`.
pub open spec fn vtt_run(ls: Seq<Seq<char>>) -> VttState
    decreases ls.len(),
{
    if ls.len() == 0 {
        vtt_initial()
    } else {
        vtt_step(vtt_run(ls.drop_last()), ls.last())
    }
}

/// The cues of a WebVTT document, in document order.
pub open spec fn parse_vtt_spec(content: Seq<char>) -> Seq<SegmentModel> {
    vtt_flush(vtt_run(lines(content))).segments
}

/// Whether the times of a line, if the reader takes it as a timing line, fit in a `u64`.
pub open spec fn line_times_fit(raw: Seq<char>) -> bool {
    let l = trim(raw);
    (l.len() > 0 && !is_skipped_line(l) && contains_seq(l, arrow())) ==> timestamp_line_fits(l)
}

/// Whether every cue time that reading `content` computes fits in a `u64`.
pub open spec fn vtt_times_fit(content: Seq<char>) -> bool {
    forall|i: int| 0 <= i < lines(content).len() ==> line_times_fit(#[trigger] lines(content)[i])
}

fn join_space_chars(parts: &Vec<Vec<char>>) -> (out: Vec<char>)
    ensures
        out@ == join_spaces(parts@.map_values(|v: Vec<char>| v@)),
{
    let ghost ps = parts@.map_values(|v: Vec<char>| v@);
    let mut out: Vec<char> = Vec::new();
    let mut i: usize = 0;
    while i < parts.len()
        invariant
            i <= parts.len(),
            ps == parts@.map_values(|v: Vec<char>| v@),
            out@ == join_spaces(ps.take(i as int)),
        decreases parts.len() - i,
    {
        let ghost before = ps.take(i as int);
        assert(ps.take(i + 1).drop_last() =~= before);
        if i > 0 {
            out.push(' ');
        }
        push_all(&mut out, &parts[i]);
        proof {
            if i == 0 {
                assert(before =~= Seq::<Seq<char>>::empty());
                assert(out@ =~= ps.take(1)[0]);
            } else {
                assert(out@ =~= join_spaces(before) + seq![' '] + ps[i as int]);
            }
        }
        i = i + 1;
    }
    assert(ps.take(i as int) =~= ps);
    out
}

struct VttReader {
    segments: Vec<TranscriptSegment>,
    start: u64,
    end: u64,
    text: Vec<Vec<char>>,
    in_cue: bool,
}

impl VttReader {
    spec fn model(&self) -> VttState {
        VttState {
            segments: models(self.segments@),
            start: self.start as int,
            end: self.end as int,
            text: self.text@.map_values(|v: Vec<char>| v@),
            in_cue: self.in_cue,
        }
    }

    fn flush(&mut self)
        requires
            all_wf(old(self).model().segments),
        ensures
            final(self).model() == vtt_flush(old(self).model()),
            all_wf(final(self).model().segments),
    {
        if self.in_cue && self.text.len() > 0 {
            let joined = join_space_chars(&self.text);
            let text = string_of(&joined);
            push_segment(&mut self.segments, self.start, self.end, text);
            self.text = Vec::new();
            assert(self.text@.map_values(|v: Vec<char>| v@) =~= Seq::<Seq<char>>::empty());
        }
    }

    fn take_line(&mut self, raw: &Vec<char>)
        requires
            line_times_fit(raw@),
            all_wf(old(self).model().segments),
        ensures
            final(self).model() == vtt_step(old(self).model(), raw@),
            all_wf(final(self).model().segments),
    {
        let l = trim_chars(raw);
        if l.len() == 0 {
            self.flush();
            self.in_cue = false;
            return;
        }
        if is_skipped_exec(&l) {
            return;
        }
        let arr = arrow_chars();
        if contains_chars(&l, &arr) {
            match timestamp_chars(&l) {
                None => {},
                Some((a, b)) => {
                    self.flush();
                    self.start = a;
                    self.end = b;
                    self.in_cue = true;
                },
            }
        } else if self.in_cue {
            let cleaned = strip_tags_chars(&l);
            if cleaned.len() > 0 {
                let ghost old_text = self.text@;
                self.text.push(cleaned);
                assert(self.text@.map_values(|v: Vec<char>| v@) =~= old_text.map_values(
                    |v: Vec<char>| v@,
                ).push(cleaned@));
            }
        }
    }
}

/// Reads the cues of a WebVTT document: header and `NOTE` lines are passed
/// over, caption text is stripped of tags and entities, the text lines of a
/// cue are joined with spaces, and cues under 300 ms or without text are
/// dropped.
pub fn parse_vtt(content: &str) -> (r: Result<Vec<TranscriptSegment>, String>)
    requires
        vtt_times_fit(content@),
    ensures
        r matches Ok(v) && models(v@) == parse_vtt_spec(content@) && all_wf(models(v@))
            && cue_texts_clean(models(v@)),
{
    proof {
        lemma_cue_texts_clean(content@);
    }
    let chars = chars_of(content);
    let ls = split_lines(&chars);
    let ghost lv = ls@.map_values(|l: Vec<char>| l@);
    let mut reader = VttReader {
        segments: Vec::new(),
        start: 0,
        end: 0,
        text: Vec::new(),
        in_cue: false,
    };
    assert(reader.model().segments =~= Seq::<SegmentModel>::empty());
    assert(reader.model().text =~= Seq::<Seq<char>>::empty());
    assert(lv.take(0) =~= Seq::<Seq<char>>::empty());
    let mut i: usize = 0;
    while i < ls.len()
        invariant
            i <= ls.len(),
            lv == ls@.map_values(|l: Vec<char>| l@),
            lv == lines(content@),
            vtt_times_fit(content@),
            reader.model() == vtt_run(lv.take(i as int)),
            all_wf(reader.model().segments),
        decreases ls.len() - i,
    {
        assert(lv.take(i + 1).drop_last() =~= lv.take(i as int));
        assert(lv[i as int] == ls[i as int]@);
        assert(line_times_fit(lines(content@)[i as int]));
        reader.take_line(&ls[i]);
        i = i + 1;
    }
    assert(lv.take(i as int) =~= lv);
    reader.flush();
    Ok(reader.segments)
}


// ───────────────────────── cue texts ─────────────────────────

/// Whether every cue of `segs` has text, on one line.
pub open spec fn cue_texts_clean(segs: Seq<SegmentModel>) -> bool {
    forall|k: int|
        #![trigger segs[k]]
        0 <= k < segs.len() ==> segs[k].text.len() > 0 && free_of(segs[k].text, '\n')
}

proof fn lemma_strip_free(s: Seq<char>, in_tag: bool)
    requires
        free_of(s, '\n'),
    ensures
        free_of(strip_tag_chars(s, in_tag), '\n'),
    decreases s.len(),
{
    if s.len() > 0 {
        let t = s.drop_first();
        assert forall|i: int| 0 <= i < t.len() implies t[i] != '\n' by {
            assert(t[i] == s[i + 1]);
        }
        lemma_strip_free(t, true);
        lemma_strip_free(t, false);
        lemma_strip_free(t, in_tag);
        if s[0] != '<' && s[0] != '>' && !in_tag {
            let r = strip_tag_chars(t, in_tag);
            assert forall|i: int| 0 <= i < (seq![s[0]] + r).len() implies (seq![s[0]] + r)[i]
                != '\n' by {
                if i > 0 {
                    assert((seq![s[0]] + r)[i] == r[i - 1]);
                }
            }
        }
    }
}

proof fn lemma_decode_free(s: Seq<char>)
    requires
        free_of(s, '\n'),
    ensures
        free_of(decode_entities(s), '\n'),
    decreases s.len(),
{
    if s.len() > 0 {
        let t = s.drop_first();
        assert forall|i: int| 0 <= i < t.len() implies t[i] != '\n' by {
            assert(t[i] == s[i + 1]);
        }
        lemma_decode_free(t);
        match entity_at(s) {
            Some((c, n)) => {
                if 0 < n <= s.len() {
                    let u = s.skip(n);
                    assert forall|i: int| 0 <= i < u.len() implies u[i] != '\n' by {
                        assert(u[i] == s[i + n]);
                    }
                    lemma_decode_free(u);
                    assert(c != '\n');
                    let r = decode_entities(u);
                    assert forall|i: int| 0 <= i < (seq![c] + r).len() implies (seq![c] + r)[i]
                        != '\n' by {
                        if i > 0 {
                            assert((seq![c] + r)[i] == r[i - 1]);
                        }
                    }
                } else {
                    let r = decode_entities(t);
                    assert forall|i: int| 0 <= i < (seq![s[0]] + r).len() implies (seq![s[0]]
                        + r)[i] != '\n' by {
                        if i > 0 {
                            assert((seq![s[0]] + r)[i] == r[i - 1]);
                        }
                    }
                }
            },
            None => {
                let r = decode_entities(t);
                assert forall|i: int| 0 <= i < (seq![s[0]] + r).len() implies (seq![s[0]] + r)[i]
                    != '\n' by {
                    if i > 0 {
                        assert((seq![s[0]] + r)[i] == r[i - 1]);
                    }
                }
            },
        }
    }
}

proof fn lemma_join_free(parts: Seq<Seq<char>>)
    requires
        forall|k: int| 0 <= k < parts.len() ==> free_of(#[trigger] parts[k], '\n'),
    ensures
        free_of(join_spaces(parts), '\n'),
    decreases parts.len(),
{
    if parts.len() > 1 {
        let q = parts.drop_last();
        assert forall|k: int| 0 <= k < q.len() implies free_of(#[trigger] q[k], '\n') by {
            assert(q[k] == parts[k]);
        }
        lemma_join_free(q);
        let a = join_spaces(q);
        let b = parts.last();
        assert(free_of(b, '\n'));
        let r = a + seq![' '] + b;
        assert forall|i: int| 0 <= i < r.len() implies r[i] != '\n' by {
            if i < a.len() {
                assert(r[i] == a[i]);
            } else if i > a.len() {
                assert(r[i] == b[i - a.len() - 1]);
            }
        }
    } else if parts.len() == 1 {
        assert(free_of(parts[0], '\n'));
    }
}

/// What the reader keeps of its cues: each completed cue has text on one
/// line, and so has each text line of the open cue.
pub open spec fn reader_clean(st: VttState) -> bool {
    &&& cue_texts_clean(st.segments)
    &&& forall|k: int| 0 <= k < st.text.len() ==> free_of(#[trigger] st.text[k], '\n')
}

proof fn lemma_flush_clean(st: VttState)
    requires
        reader_clean(st),
    ensures
        reader_clean(vtt_flush(st)),
{
    if st.in_cue && st.text.len() > 0 {
        lemma_join_free(st.text);
        let f = vtt_flush(st);
        assert forall|k: int| #![trigger f.segments[k]] 0 <= k < f.segments.len() implies f.segments[k].text.len()
            > 0 && free_of(f.segments[k].text, '\n') by {
            if k < st.segments.len() {
                assert(f.segments[k] == st.segments[k]);
            }
        }
    }
}

proof fn lemma_run_clean(ls: Seq<Seq<char>>)
    requires
        forall|i: int| 0 <= i < ls.len() ==> free_of(#[trigger] ls[i], '\n'),
    ensures
        reader_clean(vtt_run(ls)),
    decreases ls.len(),
{
    if ls.len() > 0 {
        let q = ls.drop_last();
        assert forall|i: int| 0 <= i < q.len() implies free_of(#[trigger] q[i], '\n') by {
            assert(q[i] == ls[i]);
        }
        lemma_run_clean(q);
        let st = vtt_run(q);
        lemma_flush_clean(st);
        let raw = ls.last();
        assert(free_of(raw, '\n'));
        let l = trim(raw);
        lemma_trim_free(raw, '\n');
        if l.len() > 0 && !is_skipped_line(l) && !contains_seq(l, arrow()) && st.in_cue {
            lemma_strip_free(l, false);
            lemma_trim_free(strip_tag_chars(l, false), '\n');
            lemma_decode_free(trim(strip_tag_chars(l, false)));
            let c = strip_tags_spec(l);
            if c.len() > 0 {
                let t2 = st.text.push(c);
                assert forall|k: int| 0 <= k < t2.len() implies free_of(#[trigger] t2[k], '\n') by {
                    if k < st.text.len() {
                        assert(t2[k] == st.text[k]);
                    }
                }
            }
        }
    }
}

/// Every cue that the reader gives has text, and no line break in it.
pub proof fn lemma_cue_texts_clean(content: Seq<char>)
    ensures
        cue_texts_clean(parse_vtt_spec(content)),
{
    lemma_lines_free(content);
    lemma_run_clean(lines(content));
    lemma_flush_clean(vtt_run(lines(content)));
}

// ───────────────────────── documents of cues ─────────────────────────

/// The lines `ls`, each followed by a line feed.
pub open spec fn unlines(ls: Seq<Seq<char>>) -> Seq<char>
    decreases ls.len(),
{
    if ls.len() == 0 {
        seq![]
    } else {
        ls[0] + seq!['\n'] + unlines(ls.drop_first())
    }
}

/// Cutting a text made of lines at its line feeds gives the lines back.
pub proof fn lemma_lines_unlines(ls: Seq<Seq<char>>)
    requires
        forall|i: int| 0 <= i < ls.len() ==> free_of(#[trigger] ls[i], '\n'),
    ensures
        lines(unlines(ls)) == ls,
    decreases ls.len(),
{
    if ls.len() > 0 {
        let l0 = ls[0];
        let rest = ls.drop_first();
        assert forall|i: int| 0 <= i < rest.len() implies free_of(#[trigger] rest[i], '\n') by {
            assert(rest[i] == ls[i + 1]);
        }
        lemma_lines_unlines(rest);
        let s = unlines(ls);
        assert(s == l0 + seq!['\n'] + unlines(rest));
        assert forall|j: int| 0 <= j < l0.len() implies s[j] != '\n' by {
            assert(s[j] == l0[j]);
        }
        assert(s[l0.len() as int] == '\n');
        lemma_index_of_char_is(s, '\n', l0.len() as int);
        assert(s.take(l0.len() as int) =~= l0);
        assert(s.skip(l0.len() as int + 1) =~= unlines(rest));
        assert(lines(s) =~= seq![l0] + rest);
        assert(seq![l0] + rest =~= ls);
    }
}

/// The lines of one cue of a document: an identifier line, a timing line
/// and the text lines, then a blank line.
pub struct CueBlock {
    pub id: Seq<char>,
    pub timing: Seq<char>,
    pub texts: Seq<Seq<char>>,
}

/// The lines that the cue `c` takes.
pub open spec fn block_lines(c: CueBlock) -> Seq<Seq<char>> {
    seq![c.id, c.timing] + c.texts + seq![Seq::<char>::empty()]
}

/// The lines that the cues `cs` take, one after the other.
pub open spec fn blocks_lines(cs: Seq<CueBlock>) -> Seq<Seq<char>>
    decreases cs.len(),
{
    if cs.len() == 0 {
        seq![]
    } else {
        blocks_lines(cs.drop_last()) + block_lines(cs.last())
    }
}

/// A WebVTT document: the `WEBVTT` header, a blank line, then the cues `cs`.
pub open spec fn cue_document(cs: Seq<CueBlock>) -> Seq<char> {
    unlines(seq![webvtt(), Seq::<char>::empty()] + blocks_lines(cs))
}

/// A line of plain text: on one line, not blank, neither a header nor a
/// comment line, and without `"-->"`.
pub open spec fn plain_line(l: Seq<char>) -> bool {
    &&& free_of(l, '\n')
    &&& trim(l).len() > 0
    &&& !is_skipped_line(trim(l))
    &&& !contains_seq(trim(l), arrow())
}

/// The caption text of a text line.
pub open spec fn cue_line_text(l: Seq<char>) -> Seq<char> {
    strip_tags_spec(trim(l))
}

/// A well-formed cue: a plain identifier line, a timing line that reads as
/// two times, and plain text lines that each have caption text.
pub open spec fn good_block(c: CueBlock) -> bool {
    &&& plain_line(c.id)
    &&& free_of(c.timing, '\n')
    &&& trim(c.timing).len() > 0
    &&& !is_skipped_line(trim(c.timing))
    &&& timestamp_line_spec(trim(c.timing)) is Some
    &&& forall|k: int|
        0 <= k < c.texts.len() ==> plain_line(#[trigger] c.texts[k]) && cue_line_text(
            c.texts[k],
        ).len() > 0
}

/// The segment that a cue gives, if any: its two times and its text lines'
/// caption texts joined with spaces, when it lasts at least 300 ms and has
/// text.
pub open spec fn cue_segments(cs: Seq<CueBlock>) -> Seq<SegmentModel>
    decreases cs.len(),
{
    if cs.len() == 0 {
        seq![]
    } else {
        let prev = cue_segments(cs.drop_last());
        let c = cs.last();
        match timestamp_line_spec(trim(c.timing)) {
            Some((a, b)) => {
                let t = join_spaces(c.texts.map_values(|l: Seq<char>| cue_line_text(l)));
                if b - a >= 300 && t.len() > 0 {
                    prev.push(SegmentModel { start_ms: a, end_ms: b, text: t })
                } else {
                    prev
                }
            },
            None => prev,
        }
    }
}

/// The reader after the lines `ls`, starting from `st`.
pub open spec fn run_from(st: VttState, ls: Seq<Seq<char>>) -> VttState
    decreases ls.len(),
{
    if ls.len() == 0 {
        st
    } else {
        vtt_step(run_from(st, ls.drop_last()), ls.last())
    }
}

proof fn lemma_run_from_initial(ls: Seq<Seq<char>>)
    ensures
        vtt_run(ls) == run_from(vtt_initial(), ls),
    decreases ls.len(),
{
    if ls.len() > 0 {
        lemma_run_from_initial(ls.drop_last());
    }
}

proof fn lemma_run_from_concat(st: VttState, a: Seq<Seq<char>>, b: Seq<Seq<char>>)
    ensures
        run_from(st, a + b) == run_from(run_from(st, a), b),
    decreases b.len(),
{
    if b.len() == 0 {
        assert(a + b =~= a);
    } else {
        assert((a + b).drop_last() =~= a + b.drop_last());
        assert((a + b).last() == b.last());
        lemma_run_from_concat(st, a, b.drop_last());
    }
}

proof fn lemma_cue_texts(st: VttState, texts: Seq<Seq<char>>)
    requires
        st.in_cue,
        forall|k: int|
            0 <= k < texts.len() ==> plain_line(#[trigger] texts[k]) && cue_line_text(
                texts[k],
            ).len() > 0,
    ensures
        run_from(st, texts) == (VttState {
            segments: st.segments,
            start: st.start,
            end: st.end,
            text: st.text + texts.map_values(|l: Seq<char>| cue_line_text(l)),
            in_cue: true,
        }),
    decreases texts.len(),
{
    let f = |l: Seq<char>| cue_line_text(l);
    if texts.len() == 0 {
        assert(st.text + texts.map_values(f) =~= st.text);
    } else {
        let q = texts.drop_last();
        assert forall|k: int| 0 <= k < q.len() implies plain_line(#[trigger] q[k])
            && cue_line_text(q[k]).len() > 0 by {
            assert(q[k] == texts[k]);
        }
        lemma_cue_texts(st, q);
        let l = texts.last();
        assert(plain_line(texts[texts.len() - 1]));
        assert(cue_line_text(texts[texts.len() - 1]).len() > 0);
        assert(st.text + texts.map_values(f) =~= (st.text + q.map_values(f)).push(
            cue_line_text(l),
        ));
    }
}

proof fn lemma_cue_block(st: VttState, c: CueBlock)
    requires
        st.text.len() == 0,
        !st.in_cue,
        good_block(c),
    ensures
        ({
            let r = run_from(st, block_lines(c));
            &&& r.text.len() == 0
            &&& !r.in_cue
            &&& r.segments == (match timestamp_line_spec(trim(c.timing)) {
                Some((a, b)) => {
                    let t = join_spaces(c.texts.map_values(|l: Seq<char>| cue_line_text(l)));
                    if b - a >= 300 && t.len() > 0 {
                        st.segments.push(SegmentModel { start_ms: a, end_ms: b, text: t })
                    } else {
                        st.segments
                    }
                },
                None => st.segments,
            })
        }),
{
    let f = |l: Seq<char>| cue_line_text(l);
    let (a, b) = timestamp_line_spec(trim(c.timing)).unwrap();
    assert(timestamp_parts(trim(c.timing)) is Some);
    assert(contains_seq(trim(c.timing), arrow()));
    let e = run_from(st, Seq::<Seq<char>>::empty());
    assert(e == st);
    let s1 = run_from(st, seq![c.id]);
    assert(seq![c.id].drop_last() =~= Seq::<Seq<char>>::empty());
    assert(s1 == vtt_step(e, c.id));
    assert(plain_line(c.id));
    assert(s1 == st);
    let s2 = run_from(st, seq![c.id, c.timing]);
    assert(seq![c.id, c.timing].drop_last() =~= seq![c.id]);
    assert(s2 == vtt_step(s1, c.timing));
    assert(vtt_flush(st) == st);
    assert(s2 == VttState { segments: st.segments, start: a, end: b, text: st.text, in_cue: true });
    lemma_run_from_concat(st, seq![c.id, c.timing], c.texts);
    lemma_cue_texts(s2, c.texts);
    let s3 = run_from(st, seq![c.id, c.timing] + c.texts);
    assert(s3.text =~= c.texts.map_values(f));
    lemma_run_from_concat(st, seq![c.id, c.timing] + c.texts, seq![Seq::<char>::empty()]);
    assert(seq![Seq::<char>::empty()].drop_last() =~= Seq::<Seq<char>>::empty());
    assert(trim(Seq::<char>::empty()) =~= Seq::<char>::empty());
    let e3 = run_from(s3, Seq::<Seq<char>>::empty());
    assert(e3 == s3);
    let r = run_from(s3, seq![Seq::<char>::empty()]);
    assert(r == vtt_step(e3, Seq::<char>::empty()));
    assert(block_lines(c) == seq![c.id, c.timing] + c.texts + seq![Seq::<char>::empty()]);
    let t = join_spaces(c.texts.map_values(f));
    if c.texts.len() == 0 {
        assert(c.texts.map_values(f) =~= Seq::<Seq<char>>::empty());
        assert(t == Seq::<char>::empty());
    }
}

proof fn lemma_cue_blocks(st: VttState, cs: Seq<CueBlock>)
    requires
        st.text.len() == 0,
        !st.in_cue,
        st.segments == Seq::<SegmentModel>::empty(),
        forall|k: int| 0 <= k < cs.len() ==> good_block(#[trigger] cs[k]),
    ensures
        run_from(st, blocks_lines(cs)).segments == cue_segments(cs),
        run_from(st, blocks_lines(cs)).text.len() == 0,
        !run_from(st, blocks_lines(cs)).in_cue,
    decreases cs.len(),
{
    if cs.len() > 0 {
        let q = cs.drop_last();
        assert forall|k: int| 0 <= k < q.len() implies good_block(#[trigger] q[k]) by {
            assert(q[k] == cs[k]);
        }
        lemma_cue_blocks(st, q);
        lemma_run_from_concat(st, blocks_lines(q), block_lines(cs.last()));
        assert(good_block(cs[cs.len() - 1]));
        lemma_cue_block(run_from(st, blocks_lines(q)), cs.last());
    }
}

proof fn lemma_blocks_free(cs: Seq<CueBlock>)
    requires
        forall|k: int| 0 <= k < cs.len() ==> good_block(#[trigger] cs[k]),
    ensures
        forall|i: int| 0 <= i < blocks_lines(cs).len() ==> free_of(#[trigger] blocks_lines(cs)[i], '\n'),
    decreases cs.len(),
{
    if cs.len() > 0 {
        let q = cs.drop_last();
        assert forall|k: int| 0 <= k < q.len() implies good_block(#[trigger] q[k]) by {
            assert(q[k] == cs[k]);
        }
        lemma_blocks_free(q);
        let c = cs.last();
        assert(good_block(cs[cs.len() - 1]));
        let bl = block_lines(c);
        assert forall|i: int| 0 <= i < bl.len() implies free_of(#[trigger] bl[i], '\n') by {
            if i == 0 {
                assert(bl[i] == c.id);
            } else if i == 1 {
                assert(bl[i] == c.timing);
            } else if i < 2 + c.texts.len() {
                assert(bl[i] == c.texts[i - 2]);
                assert(plain_line(c.texts[i - 2]));
            } else {
                assert(bl[i] == Seq::<char>::empty());
            }
        }
        let all = blocks_lines(cs);
        assert forall|i: int| 0 <= i < all.len() implies free_of(#[trigger] all[i], '\n') by {
            if i < blocks_lines(q).len() {
                assert(all[i] == blocks_lines(q)[i]);
            } else {
                assert(all[i] == bl[i - blocks_lines(q).len()]);
            }
        }
    }
}

/// A blank line closes the open cue: in a document whose cues each are an
/// identifier line, a timing line and text lines, followed by a blank line,
/// the reader gives exactly one segment per cue that lasts at least 300 ms,
/// in document order, with that cue's two times and its text lines' caption
/// texts joined with spaces; no identifier line ends up in any text.
pub proof fn lemma_cues_read_back(cs: Seq<CueBlock>)
    requires
        forall|k: int| 0 <= k < cs.len() ==> good_block(#[trigger] cs[k]),
    ensures
        parse_vtt_spec(cue_document(cs)) == cue_segments(cs),
{
    let header = seq![webvtt(), Seq::<char>::empty()];
    let ls = header + blocks_lines(cs);
    lemma_blocks_free(cs);
    assert forall|i: int| 0 <= i < ls.len() implies free_of(#[trigger] ls[i], '\n') by {
        if i >= 2 {
            assert(ls[i] == blocks_lines(cs)[i - 2]);
        }
    }
    lemma_lines_unlines(ls);
    lemma_run_from_initial(ls);
    lemma_run_from_concat(vtt_initial(), header, blocks_lines(cs));
    lemma_trim_unchanged(webvtt());
    assert(header.drop_last() =~= seq![webvtt()]);
    assert(seq![webvtt()].drop_last() =~= Seq::<Seq<char>>::empty());
    assert(trim(Seq::<char>::empty()) =~= Seq::<char>::empty());
    let h0 = run_from(vtt_initial(), Seq::<Seq<char>>::empty());
    assert(h0 == vtt_initial());
    let h1 = run_from(vtt_initial(), seq![webvtt()]);
    assert(h1 == vtt_step(h0, webvtt()));
    assert(is_skipped_line(trim(webvtt())));
    assert(h1 == vtt_initial());
    let h = run_from(vtt_initial(), header);
    assert(h == vtt_step(h1, Seq::<char>::empty()));
    assert(vtt_flush(h1) == h1);
    assert(h.segments =~= Seq::<SegmentModel>::empty());
    assert(h.text =~= Seq::<Seq<char>>::empty());
    lemma_cue_blocks(h, cs);
}

fn is_skipped_exec(l: &Vec<char>) -> (b: bool)
    ensures
        b == is_skipped_line(l@),
{
    let w = vec!['W', 'E', 'B', 'V', 'T', 'T'];
    let kind = vec!['K', 'i', 'n', 'd', ':'];
    let lang = vec!['L', 'a', 'n', 'g', 'u', 'a', 'g', 'e', ':'];
    let note = vec!['N', 'O', 'T', 'E'];
    assert(w@ =~= webvtt());
    assert(kind@ =~= kind_prefix());
    assert(lang@ =~= language_prefix());
    assert(note@ =~= note_prefix());
    chars_eq(l, &w) || starts_with_chars(l, &kind) || starts_with_chars(l, &lang)
        || starts_with_chars(l, &note)
}

/// Whether every cue time in `content` that the reader computes fits in a
/// `u64`; where one does not, adding up its milliseconds overflows.
pub fn vtt_times_in_range(content: &str) -> (b: bool)
    ensures
        b == vtt_times_fit(content@),
{
    let chars = chars_of(content);
    let ls = split_lines(&chars);
    let ghost lv = ls@.map_values(|l: Vec<char>| l@);
    let mut i: usize = 0;
    while i < ls.len()
        invariant
            i <= ls.len(),
            lv == ls@.map_values(|l: Vec<char>| l@),
            lv == lines(content@),
            forall|j: int| 0 <= j < i ==> line_times_fit(#[trigger] lv[j]),
        decreases ls.len() - i,
    {
        assert(lv[i as int] == ls[i as int]@);
        let l = trim_chars(&ls[i]);
        if l.len() > 0 && !is_skipped_exec(&l) && contains_chars(&l, &arrow_chars()) {
            if !timestamp_line_fits_exec(&l) {
                assert(!line_times_fit(lv[i as int]));
                return false;
            }
        }
        i = i + 1;
    }
    true
}


proof fn lemma_digit_prefix_all(f: Seq<char>)
    requires
        all_digits(f),
    ensures
        digit_prefix_len(f) == f.len(),
        take_digits_spec(f) == f,
    decreases f.len(),
{
    if f.len() > 0 {
        assert(is_digit(f[0]));
        assert(all_digits(f.drop_first())) by {
            assert forall|i: int| 0 <= i < f.drop_first().len() implies is_digit(
                #[trigger] f.drop_first()[i],
            ) by {
                assert(f.drop_first()[i] == f[i + 1]);
            }
        }
        lemma_digit_prefix_all(f.drop_first());
    }
    assert(f.take(f.len() as int) =~= f);
}

proof fn lemma_digits_avoid(a: Seq<char>, c: char)
    requires
        all_digits(a),
        !is_digit(c),
    ensures
        forall|j: int| 0 <= j < a.len() ==> a[j] != c,
{
    assert forall|j: int| 0 <= j < a.len() implies a[j] != c by {
        assert(is_digit(a[j]));
    }
}

/// A cue time written `HH:MM:SS.mmm` (or `HH:MM:SS,mmm`) with ASCII digit
/// fields, with any whitespace before and after it, reads back as
/// hours × 3 600 000 + minutes × 60 000 + seconds × 1000 + milliseconds.
pub proof fn lemma_cue_time_reads_back(
    lead: Seq<char>,
    h: Seq<char>,
    m: Seq<char>,
    sec: Seq<char>,
    sep: char,
    f: Seq<char>,
    trail: Seq<char>,
)
    requires
        all_white(lead),
        all_white(trail),
        h.len() > 0 && all_digits(h) && digits_value(h) <= u64::MAX,
        m.len() > 0 && all_digits(m) && digits_value(m) <= u64::MAX,
        sec.len() > 0 && all_digits(sec) && digits_value(sec) <= u64::MAX,
        f.len() > 0 && all_digits(f) && digits_value(f) <= u64::MAX,
        sep == '.' || sep == ',',
    ensures
        vtt_time_ms(lead + (h + seq![':'] + m + seq![':'] + sec + seq![sep] + f) + trail) == Some(
            digits_value(h) * 3_600_000 + digits_value(m) * 60_000 + digits_value(sec) * 1000
                + digits_value(f),
        ),
{
    let t = h + seq![':'] + m + seq![':'] + sec + seq![sep] + f;
    assert((':' as u32) == 0x3A && ('.' as u32) == 0x2E && (',' as u32) == 0x2C);
    assert(!is_digit(':') && !is_digit('.') && !is_digit(','));
    assert(is_digit(h[0]) && is_digit(f.last()));
    assert(t[0] == h[0]);
    assert(t.last() == f.last());
    lemma_trim_unchanged(t);
    lemma_digits_avoid(h, ':');
    lemma_digits_avoid(m, ':');
    lemma_digits_avoid(sec, ':');
    lemma_digits_avoid(sec, '.');
    lemma_digits_avoid(sec, ',');
    lemma_digits_avoid(f, '.');
    lemma_index_of_char_is(t, ':', h.len() as int);
    let after = t.skip(h.len() as int + 1);
    assert(after =~= m + seq![':'] + sec + seq![sep] + f);
    lemma_index_of_char_is(after, ':', m.len() as int);
    assert(t.take(h.len() as int) =~= h);
    lemma_parse_digits(h);
    assert((digits_value(h) as u64) as int == digits_value(h));
    assert(index_of_char(t, ':') == Some(h.len() as int));
    assert(index_of_char(after, ':') is Some);
    assert(vtt_hours(t) == Some((digits_value(h), after)));
    let rest2 = after.skip(m.len() as int + 1);
    assert(rest2 =~= sec + seq![sep] + f);
    assert(after.take(m.len() as int) =~= m);
    lemma_parse_digits(m);
    assert((digits_value(m) as u64) as int == digits_value(m));
    assert(vtt_minutes(after) == Some((digits_value(m), rest2)));
    if sep == '.' {
        lemma_index_of_char_is(rest2, '.', sec.len() as int);
    } else {
        assert forall|j: int| 0 <= j < rest2.len() implies rest2[j] != '.' by {
            if j < sec.len() {
                assert(rest2[j] == sec[j]);
            } else if j > sec.len() {
                assert(rest2[j] == f[j - sec.len() - 1]);
            }
        }
        crate::text::lemma_index_of_char_none(rest2, '.');
        lemma_index_of_char_is(rest2, ',', sec.len() as int);
    }
    assert(rest2.take(sec.len() as int) =~= sec);
    assert(rest2.skip(sec.len() as int + 1) =~= f);
    lemma_digit_prefix_all(f);
    lemma_parse_digits(sec);
    lemma_parse_digits(f);
    assert((digits_value(sec) as u64) as int == digits_value(sec));
    assert((digits_value(f) as u64) as int == digits_value(f));
    assert(vtt_seconds_at(rest2, sec.len() as int) == Some((digits_value(sec), digits_value(f))));
    assert(vtt_seconds(rest2) == Some((digits_value(sec), digits_value(f))));
    lemma_trim_padded(lead, t, trail);
}

/// A timing line gives a start and an end exactly when the first two pieces
/// of the line cut at `"-->"` both read as cue times (as `parse_vtt_time`
/// reads them, whitespace around them ignored), and then it gives those two
/// times; a line without `"-->"` gives nothing.
pub proof fn lemma_timestamp_line_split(l: Seq<char>)
    ensures
        timestamp_line_spec(l) == (match timestamp_parts(l) {
            None => None,
            Some((a, b)) => match (vtt_time_ms(a), vtt_time_ms(b)) {
                (Some(x), Some(y)) => Some((x, y)),
                _ => None,
            },
        }),
        !contains_seq(l, arrow()) ==> timestamp_line_spec(l) is None,
{
    match timestamp_parts(l) {
        None => {},
        Some((a, b)) => {
            lemma_trim_twice(a);
            lemma_trim_twice(b);
            assert(vtt_time_ms(trim(a)) == vtt_time_ms(a));
            assert(vtt_time_ms(trim(b)) == vtt_time_ms(b));
        },
    }
}
} // verus!
