use better_clipper::merge::{find_overlap_suffix, merge_segments, overlap_byte_offset, overlap_length};
use better_clipper::transcript::build_transcript;
use better_clipper::vtt::{
    decode_html_entities, parse_timestamp_line, parse_vtt, parse_vtt_time, push_segment,
    strip_tags, take_digits, vtt_times_in_range, TranscriptSegment,
};

fn seg(start_ms: u64, end_ms: u64, text: &str) -> TranscriptSegment {
    TranscriptSegment { start_ms, end_ms, text: text.to_string() }
}

fn triples(v: &[TranscriptSegment]) -> Vec<(u64, u64, String)> {
    v.iter().map(|s| (s.start_ms, s.end_ms, s.text.clone())).collect()
}

const YOUTUBE_VTT: &str = "WEBVTT\nKind: captions\nLanguage: en\n\n\
00:00:00.000 --> 00:00:02.500 align:start position:0%\n\
Hello<00:00:00.500><c> world</c>\n\n\
00:00:02.500 --> 00:00:02.510\n\
Hello world\n\n\
00:00:02.510 --> 00:00:05.000\n\
world &amp; more\n";

#[test]
fn vtt_time_with_hours() {
    assert_eq!(parse_vtt_time("00:01:02.500"), Some(62_500));
    assert_eq!(parse_vtt_time("1:02:03.004 align:start"), Some(3_723_004));
}

#[test]
fn vtt_time_without_hours() {
    assert_eq!(parse_vtt_time("01:02.500"), Some(62_500));
}

#[test]
fn vtt_time_with_comma() {
    assert_eq!(parse_vtt_time("00:00:01,040"), Some(1_040));
}

#[test]
fn vtt_time_trimmed() {
    assert_eq!(parse_vtt_time("  00:00:01.000 "), Some(1_000));
}

#[test]
fn vtt_time_plus_sign_is_a_number() {
    assert_eq!(parse_vtt_time("+1:00.000"), Some(60_000));
}

#[test]
fn vtt_time_rejects_malformed() {
    assert_eq!(parse_vtt_time("abc"), None);
    assert_eq!(parse_vtt_time("00:00"), None);
    assert_eq!(parse_vtt_time("00:00:01"), None);
    assert_eq!(parse_vtt_time("00:0x:01.000"), None);
    assert_eq!(parse_vtt_time("00:00:01.abc"), None);
}

#[test]
fn cue_time_reads_back_scenario() {
    assert_eq!(parse_vtt_time("12:34:56.789"), Some(12 * 3_600_000 + 34 * 60_000 + 56 * 1000 + 789));
}

#[test]
fn cue_time_reads_back_with_comma() {
    assert_eq!(parse_vtt_time("01:02:03,004"), Some(3_723_004));
}

#[test]
fn timestamp_line_parses_both_ends() {
    assert_eq!(
        parse_timestamp_line("00:00:01.000 --> 00:00:04.000 align:start position:0%"),
        Some((1_000, 4_000))
    );
}

#[test]
fn timestamp_line_rejects_malformed() {
    assert_eq!(parse_timestamp_line("no arrow here"), None);
    assert_eq!(parse_timestamp_line("a --> b"), None);
    assert_eq!(parse_timestamp_line("00:00:01.000 -->"), None);
}

#[test]
fn take_digits_prefix() {
    assert_eq!(take_digits("360 align:start"), "360");
    assert_eq!(take_digits("abc"), "");
    assert_eq!(take_digits(""), "");
    assert_eq!(take_digits("0042"), "0042");
}

#[test]
fn entities_decoded() {
    assert_eq!(
        decode_html_entities("a &lt;b&gt; &quot;c&quot; &#39;d&apos; e&nbsp;f &amp; g"),
        "a <b> \"c\" 'd' e f & g"
    );
}

#[test]
fn unknown_entities_kept() {
    assert_eq!(decode_html_entities("&unknown; &amp"), "&unknown; &amp");
    assert_eq!(decode_html_entities("&amp;amp;"), "&amp;");
    assert_eq!(decode_html_entities("&&amp;"), "&&");
}

#[test]
fn tags_stripped_and_entities_decoded() {
    assert_eq!(
        strip_tags("<c.colorE5E5E5>Hello</c> &amp; <00:00:01.040>bye "),
        "Hello & bye"
    );
    assert_eq!(strip_tags("  <i></i>  "), "");
}

#[test]
fn push_segment_skips_short_and_empty() {
    let mut v = Vec::new();
    push_segment(&mut v, 0, 299, "short".to_string());
    push_segment(&mut v, 500, 100, "backwards".to_string());
    push_segment(&mut v, 0, 1_000, String::new());
    assert!(v.is_empty());
    push_segment(&mut v, 0, 300, "kept".to_string());
    assert_eq!(triples(&v), vec![(0, 300, "kept".to_string())]);
}

#[test]
fn parse_vtt_reads_cues() {
    let segs = parse_vtt(YOUTUBE_VTT).unwrap();
    assert_eq!(
        triples(&segs),
        vec![
            (0, 2_500, "Hello world".to_string()),
            (2_510, 5_000, "world & more".to_string()),
        ]
    );
}

#[test]
fn parse_vtt_skips_notes_and_joins_lines() {
    let vtt = "WEBVTT\n\nNOTE a comment\n\n00:01.000 --> 00:03.000\nfirst line\nsecond line\n00:04.000 --> 00:06.000\nnext cue\n";
    let segs = parse_vtt(vtt).unwrap();
    assert_eq!(
        triples(&segs),
        vec![
            (1_000, 3_000, "first line second line".to_string()),
            (4_000, 6_000, "next cue".to_string()),
        ]
    );
}

#[test]
fn parse_vtt_crlf_lines() {
    let vtt = "WEBVTT\r\n\r\n00:00:01.000 --> 00:00:02.000\r\nhi there\r\n\r\n";
    let segs = parse_vtt(vtt).unwrap();
    assert_eq!(triples(&segs), vec![(1_000, 2_000, "hi there".to_string())]);
}

#[test]
fn parse_vtt_empty_document() {
    assert!(parse_vtt("").unwrap().is_empty());
    assert!(parse_vtt("WEBVTT\n").unwrap().is_empty());
}

#[test]
fn times_in_range_check() {
    assert!(vtt_times_in_range(YOUTUBE_VTT));
    assert!(vtt_times_in_range("99999999999999999999:00:00.000 --> 00:00:01.000\nx\n"));
    assert!(!vtt_times_in_range("5124095576030431:00:00.000 --> 00:00:01.000\nx\n"));
    assert!(!vtt_times_in_range("00:00:00.000 --> 5124095576030431:00:00.000\nx\n"));
    assert!(vtt_times_in_range("NOTE 5124095576030431:00:00.000 --> 1:00:00.000\n"));
}

#[test]
fn overlap_in_lowercase() {
    assert_eq!(find_overlap_suffix("Hello World", "WORLD peace"), Some(5));
    assert_eq!(find_overlap_suffix("abc", "xyz"), None);
}

#[test]
fn overlap_offset_is_in_bytes() {
    assert_eq!(find_overlap_suffix("café", "ÉCLAIR"), Some(2));
    assert_eq!(overlap_byte_offset("naïve", 3), 4);
    assert_eq!(overlap_byte_offset("ab", 10), 2);
}

#[test]
fn overlap_length_longest() {
    assert_eq!(overlap_length("abcab", "abx"), Some(2));
    assert_eq!(overlap_length("aaa", "aaa"), Some(3));
    assert_eq!(overlap_length("", "a"), None);
}

#[test]
fn merge_joins_overlapping_fragments() {
    let mut v = parse_vtt(YOUTUBE_VTT).unwrap();
    merge_segments(&mut v);
    assert_eq!(triples(&v), vec![(0, 5_000, "Hello world & more".to_string())]);
}

#[test]
fn merge_replaces_ghost() {
    let mut v = vec![seg(0, 1_000, "a"), seg(100, 2_000, "a b")];
    merge_segments(&mut v);
    assert_eq!(triples(&v), vec![(100, 2_000, "a b".to_string())]);
}

#[test]
fn merge_drops_contained() {
    let mut v = vec![seg(0, 5_000, "abc"), seg(1_000, 2_000, "x")];
    merge_segments(&mut v);
    assert_eq!(triples(&v), vec![(0, 5_000, "abc".to_string())]);
}

#[test]
fn merge_keeps_distant_apart() {
    let mut v = vec![seg(3_000, 4_000, "b"), seg(0, 1_000, "a")];
    merge_segments(&mut v);
    assert_eq!(
        triples(&v),
        vec![(0, 1_000, "a".to_string()), (3_000, 4_000, "b".to_string())]
    );
}

#[test]
fn merge_long_segment_is_cut_at_the_next_start() {
    let mut v = vec![seg(0, 15_000, "a"), seg(14_000, 20_000, "b")];
    merge_segments(&mut v);
    assert_eq!(
        triples(&v),
        vec![(0, 14_000, "a".to_string()), (14_000, 20_000, "b".to_string())]
    );
}

#[test]
fn merge_cuts_only_the_final_overlap() {
    let mut v = vec![seg(0, 15_000, "a"), seg(14_900, 16_000, "b"), seg(15_050, 17_000, "c")];
    merge_segments(&mut v);
    assert_eq!(
        triples(&v),
        vec![(0, 15_000, "a".to_string()), (15_050, 17_000, "c".to_string())]
    );
}

#[test]
fn merge_skips_contained_text() {
    let mut v = vec![seg(0, 1_000, "hello world"), seg(900, 2_000, "world")];
    merge_segments(&mut v);
    assert_eq!(triples(&v), vec![(0, 1_000, "hello world".to_string())]);
}

#[test]
fn merge_appends_without_overlap() {
    let mut v = vec![seg(0, 1_000, " one "), seg(1_200, 2_000, "two")];
    merge_segments(&mut v);
    assert_eq!(triples(&v), vec![(0, 2_000, "one two".to_string())]);
}

#[test]
fn merge_empty() {
    let mut v: Vec<TranscriptSegment> = Vec::new();
    merge_segments(&mut v);
    assert!(v.is_empty());
}

#[test]
fn merge_sorted_law() {
    let mut v = vec![
        seg(9_000, 9_400, "i"),
        seg(0, 400, "a"),
        seg(30_000, 31_000, "z"),
        seg(4_000, 4_500, "e"),
        seg(4_000, 4_400, "f"),
    ];
    let n = v.len();
    merge_segments(&mut v);
    assert!(v.len() <= n);
    for w in v.windows(2) {
        assert!(w[0].start_ms <= w[1].start_ms);
    }
    for s in &v {
        assert!(s.end_ms >= s.start_ms + 300);
    }
    for w in v.windows(2) {
        assert!(w[0].end_ms <= w[1].start_ms);
    }
}

#[test]
fn merge_non_overlapping_law() {
    let mut v = vec![
        seg(0, 15_000, "a"),
        seg(14_000, 20_000, "b"),
        seg(20_400, 21_000, "c"),
        seg(22_000, 23_000, "d"),
        seg(22_900, 24_000, "e"),
    ];
    merge_segments(&mut v);
    assert_eq!(
        triples(&v),
        vec![
            (0, 14_000, "a".to_string()),
            (14_000, 21_000, "b c".to_string()),
            (22_000, 24_000, "d e".to_string()),
        ]
    );
    for i in 0..v.len() {
        for j in i + 1..v.len() {
            assert!(v[i].end_ms <= v[j].start_ms);
        }
    }
}

#[test]
fn merge_cut_keeps_start_and_text() {
    let mut v = vec![seg(0, 16_000, "a"), seg(201, 16_500, "b")];
    merge_segments(&mut v);
    assert_eq!(
        triples(&v),
        vec![(0, 201, "a".to_string()), (201, 16_500, "b".to_string())]
    );
}

#[test]
fn transcript_text_and_timepoints() {
    let d = build_transcript(YOUTUBE_VTT);
    assert_eq!(d.text, "Hello world & more");
    assert_eq!(d.segments.len(), 1);
    let tps: Vec<(usize, u64)> = d.timepoints.iter().map(|t| (t.char_idx, t.timestamp_ms)).collect();
    assert_eq!(tps, vec![(0, 0), (18, 5_000)]);
}

#[test]
fn transcript_offsets_are_bytes() {
    let vtt = "WEBVTT\n\n00:00:00.000 --> 00:00:01.000\ncafé\n\n00:00:10.000 --> 00:00:11.000\nnaïve\n";
    let d = build_transcript(vtt);
    assert_eq!(d.text, "café naïve");
    let tps: Vec<(usize, u64)> = d.timepoints.iter().map(|t| (t.char_idx, t.timestamp_ms)).collect();
    assert_eq!(tps, vec![(0, 0), (5, 1_000), (6, 10_000), (12, 11_000)]);
}

#[test]
fn timepoints_in_order_law() {
    let vtt = "WEBVTT\n\n00:00:00.000 --> 00:00:01.000\nalpha\n\n00:00:05.000 --> 00:00:06.000\nbeta\n\n00:00:20.000 --> 00:00:21.000\ngamma\n";
    let d = build_transcript(vtt);
    assert_eq!(d.timepoints.len(), 2 * d.segments.len());
    for w in d.timepoints.windows(2) {
        assert!(w[0].char_idx <= w[1].char_idx);
    }
    for (i, s) in d.segments.iter().enumerate() {
        let a = d.timepoints[2 * i].char_idx;
        let b = d.timepoints[2 * i + 1].char_idx;
        assert_eq!(&d.text[a..b], s.text.as_str());
        assert_eq!(d.timepoints[2 * i].timestamp_ms, s.start_ms);
        assert_eq!(d.timepoints[2 * i + 1].timestamp_ms, s.end_ms);
    }
    assert_eq!(d.timepoints.last().unwrap().char_idx, d.text.len());
}

#[test]
fn transcript_of_empty_document() {
    let d = build_transcript("WEBVTT\n\n");
    assert_eq!(d.text, "");
    assert!(d.segments.is_empty());
    assert!(d.timepoints.is_empty());
}

#[test]
fn ascii_overlap_is_longest_law() {
    assert_eq!(find_overlap_suffix("abab", "ABABc"), Some(4));
    assert_eq!(find_overlap_suffix("xAbA", "aBaq"), Some(3));
    assert_eq!(find_overlap_suffix("Say: HI", "hi there"), Some(2));
    assert_eq!(find_overlap_suffix("abc", "ABD"), None);
}

#[test]
fn cue_texts_are_one_line_and_not_empty_law() {
    let vtt = "WEBVTT\n\n00:00:00.000 --> 00:00:01.000\n<c>first</c>\n  second  \n\n\
00:00:02.000 --> 00:00:03.000\n<b></b>\n\n00:00:04.000 --> 00:00:05.000\r\nthird\r\n";
    let segs = parse_vtt(vtt).unwrap();
    assert_eq!(
        triples(&segs),
        vec![(0, 1_000, "first second".to_string()), (4_000, 5_000, "third".to_string())]
    );
    for s in &segs {
        assert!(!s.text.is_empty());
        assert!(!s.text.contains('\n'));
    }
}

#[test]
fn cue_time_with_surrounding_whitespace_law() {
    assert_eq!(parse_vtt_time("  01:02:03.004\t"), Some(3_723_004));
    assert_eq!(parse_vtt_time(" 10:00:00,999 "), Some(36_000_999));
}

#[test]
fn timing_line_split_law() {
    assert_eq!(
        parse_timestamp_line("00:00:01.000 --> 00:00:02.000 --> 00:00:09.000"),
        Some((1_000, 2_000))
    );
    assert_eq!(parse_timestamp_line("00:00:01.000 00:00:02.000"), None);
    assert_eq!(parse_timestamp_line("00:00:01.000 --> later"), None);
    assert_eq!(parse_timestamp_line(" 01.000 --> 00:00:02.000"), None);
}

#[test]
fn merge_short_cues_law() {
    let input = vec![
        seg(0, 100, "a"),
        seg(150, 200, "b"),
        seg(1_000, 1_000, "c"),
        seg(5_000, 5_100, "d"),
    ];
    let mut v = input.clone();
    merge_segments(&mut v);
    assert!(!v.is_empty() && v.len() <= input.len());
    for i in 0..v.len() {
        assert!(v[i].start_ms <= v[i].end_ms);
        assert!(input.iter().any(|s| s.start_ms == v[i].start_ms));
        assert!(input.iter().any(|s| s.start_ms == v[i].end_ms || s.end_ms == v[i].end_ms));
        for j in i + 1..v.len() {
            assert!(v[i].end_ms <= v[j].start_ms);
        }
    }
}
