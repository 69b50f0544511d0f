//! The searchable transcript: one continuous text built from the merged
//! segments, with a map from byte offsets in that text to timestamps.
use vstd::prelude::*;
use vstd::string::StringExecFns;
use crate::merge::{
    lemma_merge_laws, merge_segments, merge_segments_spec, seg_ordered,
};
use crate::text::{
    lemma_utf8_len_add, push_char, string_byte_len, utf8_len,
};
use crate::vtt::{
    join_spaces, models, seg_wf, parse_vtt, parse_vtt_spec, vtt_times_fit, SegmentModel, TranscriptSegment,
};

verus! {

broadcast use vstd::string::group_string_axioms;

/// A byte offset into the transcript text and the time it stands for.
#[derive(Debug, Clone, Copy)]
pub struct Timepoint {
    pub char_idx: usize,
    pub timestamp_ms: u64,
}

/// A transcript ready for search: the continuous text, the segments it was
/// built from, and the timepoints at the start and end of each segment's text.
#[derive(Debug, Clone)]
pub struct TranscriptData {
    pub text: String,
    pub segments: Vec<TranscriptSegment>,
    pub timepoints: Vec<Timepoint>,
}

/// The texts of the segments `s`.
pub open spec fn seg_texts(s: Seq<SegmentModel>) -> Seq<Seq<char>> {
    s.map_values(|m: SegmentModel| m.text)
}

/// The transcript text: the segment texts joined with single spaces.
pub open spec fn transcript_text(s: Seq<SegmentModel>) -> Seq<char> {
    join_spaces(seg_texts(s))
}

/// The transcript text that comes before segment `i`'s text.
pub open spec fn text_before(s: Seq<SegmentModel>, i: int) -> Seq<char> {
    if i == 0 {
        seq![]
    } else {
        join_spaces(seg_texts(s).take(i)) + seq![' ']
    }
}

/// The byte offset of timepoint `k`: timepoint `2i` is where segment `i`'s
/// text starts and timepoint `2i + 1` where it ends.
pub open spec fn timepoint_offset(s: Seq<SegmentModel>, k: int) -> nat {
    let i = k / 2;
    if k % 2 == 0 {
        utf8_len(text_before(s, i))
    } else {
        utf8_len(text_before(s, i) + s[i].text)
    }
}

/// The time of timepoint `k`: the start of segment `k / 2` for even `k`, its end for odd `k`.
pub open spec fn timepoint_time(s: Seq<SegmentModel>, k: int) -> int {
    if k % 2 == 0 {
        s[k / 2].start_ms
    } else {
        s[k / 2].end_ms
    }
}

/// Whether `tps` holds, for each segment of `s`, the timepoints of the start
/// and of the end of its text.
pub open spec fn timepoints_match(tps: Seq<Timepoint>, s: Seq<SegmentModel>) -> bool {
    &&& tps.len() == 2 * s.len()
    &&& forall|k: int|
        0 <= k < tps.len() ==> #[trigger] tps[k].char_idx == timepoint_offset(s, k)
            && tps[k].timestamp_ms == timepoint_time(s, k)
}

/// The segments of the transcript of a WebVTT document: its cues, merged.
pub open spec fn transcript_segments(content: Seq<char>) -> Seq<SegmentModel> {
    merge_segments_spec(parse_vtt_spec(content))
}

proof fn lemma_join_step(p: Seq<Seq<char>>, i: int)
    requires
        0 <= i < p.len(),
    ensures
        join_spaces(p.take(i + 1)) == (if i == 0 {
            seq![]
        } else {
            join_spaces(p.take(i)) + seq![' ']
        }) + p[i],
{
    if i == 0 {
        assert(p.take(1) =~= seq![p[0]]);
        assert(join_spaces(p.take(1)) =~= Seq::<char>::empty() + p[0]);
    } else {
        assert(p.take(i + 1).drop_last() =~= p.take(i));
    }
}

/// Builds the searchable transcript of a WebVTT document: its cues are read
/// and merged, their texts joined with single spaces, and each segment gets a
/// timepoint at the byte offset where its text starts (its start time) and one
/// where it ends (its end time).
pub fn build_transcript(content: &str) -> (d: TranscriptData)
    requires
        vtt_times_fit(content@),
    ensures
        models(d.segments@) == transcript_segments(content@),
        d.text@ == transcript_text(transcript_segments(content@)),
        timepoints_match(d.timepoints@, transcript_segments(content@)),
{
    let mut segments = match parse_vtt(content) {
        Ok(v) => v,
        Err(_) => Vec::new(),
    };
    proof {
        let ghost m = models(segments@);
        assert forall|k: int| 0 <= k < m.len() implies seg_ordered(#[trigger] m[k]) by {
            assert(seg_wf(m[k]));
        }
        lemma_merge_laws(m);
    }
    merge_segments(&mut segments);
    let ghost s = models(segments@);
    let ghost p = seg_texts(s);
    let mut text = String::new();
    let mut timepoints: Vec<Timepoint> = Vec::new();
    let mut i: usize = 0;
    assert(p.take(0) =~= Seq::<Seq<char>>::empty());
    while i < segments.len()
        invariant
            i <= segments.len(),
            s == models(segments@),
            p == seg_texts(s),
            text@ == join_spaces(p.take(i as int)),
            timepoints@.len() == 2 * i,
            forall|k: int|
                0 <= k < 2 * i ==> #[trigger] timepoints@[k].char_idx == timepoint_offset(s, k)
                    && timepoints@[k].timestamp_ms == timepoint_time(s, k),
        decreases segments.len() - i,
    {
        if i > 0 {
            push_char(&mut text, ' ');
        }
        assert(text@ == text_before(s, i as int));
        let start_idx = string_byte_len(&text);
        timepoints.push(Timepoint { char_idx: start_idx, timestamp_ms: segments[i].start_ms });
        text.append(segments[i].text.as_str());
        let end_idx = string_byte_len(&text);
        timepoints.push(Timepoint { char_idx: end_idx, timestamp_ms: segments[i].end_ms });
        proof {
            lemma_join_step(p, i as int);
            assert(p[i as int] == s[i as int].text);
            assert((2 * i) / 2 == i && (2 * i) % 2 == 0);
            assert((2 * i + 1) / 2 == i && (2 * i + 1) % 2 == 1);
        }
        i = i + 1;
    }
    assert(p.take(i as int) =~= p);
    assert(s.len() == segments@.len());
    assert(timepoints_match(timepoints@, s));
    TranscriptData { text, segments, timepoints }
}

proof fn lemma_join_prefix(p: Seq<Seq<char>>, i: int)
    requires
        0 <= i <= p.len(),
    ensures
        join_spaces(p).take(join_spaces(p.take(i)).len() as int) == join_spaces(p.take(i)),
        join_spaces(p.take(i)).len() <= join_spaces(p).len(),
    decreases p.len(),
{
    if i == p.len() {
        assert(p.take(i) =~= p);
    } else if p.len() == 1 {
        assert(p.take(0) =~= Seq::<Seq<char>>::empty());
    } else {
        let q = p.drop_last();
        lemma_join_prefix(q, i);
        assert(q.take(i) =~= p.take(i));
        let j = join_spaces(p.take(i));
        assert(join_spaces(p).take(j.len() as int) =~= join_spaces(q).take(j.len() as int));
    }
}

/// The timepoints run through the text in order: their byte offsets never
/// decrease, the text before segment `i`'s end timepoint is the text before
/// its start timepoint followed by segment `i`'s own text, and that is a
/// prefix of the transcript text, whose size is the last offset; the end
/// offset of a segment is its start offset plus the UTF-8 size of its text.
pub proof fn lemma_timepoints_in_order(s: Seq<SegmentModel>)
    ensures
        forall|k: int| 0 <= k < 2 * s.len() - 1 ==> #[trigger] timepoint_offset(s, k) <= timepoint_offset(s, k + 1),
        forall|i: int|
            0 <= i < s.len() ==> transcript_text(s).take(
                (text_before(s, i) + s[i].text).len() as int,
            ) == #[trigger] (text_before(s, i) + s[i].text),
        s.len() > 0 ==> timepoint_offset(s, 2 * s.len() - 1) == utf8_len(transcript_text(s)),
        forall|i: int|
            0 <= i < s.len() ==> #[trigger] timepoint_offset(s, 2 * i + 1) == timepoint_offset(
                s,
                2 * i,
            ) + utf8_len(s[i].text),
{
    assert forall|i: int| 0 <= i < s.len() implies #[trigger] timepoint_offset(s, 2 * i + 1)
        == timepoint_offset(s, 2 * i) + utf8_len(s[i].text) by {
        assert((2 * i + 1) / 2 == i && (2 * i + 1) % 2 == 1);
        assert((2 * i) / 2 == i && (2 * i) % 2 == 0);
        lemma_utf8_len_add(text_before(s, i), s[i].text);
    }
    let p = seg_texts(s);
    assert forall|k: int| 0 <= k < 2 * s.len() - 1 implies #[trigger] timepoint_offset(s, k)
        <= timepoint_offset(s, k + 1) by {
        let i = k / 2;
        lemma_utf8_len_add(text_before(s, i), s[i].text);
        if k % 2 == 1 {
            assert((k + 1) / 2 == i + 1 && (k + 1) % 2 == 0);
            lemma_join_step(p, i);
            assert(p[i] == s[i].text);
            lemma_utf8_len_add(text_before(s, i) + s[i].text, seq![' ']);
        } else {
            assert((k + 1) / 2 == i && (k + 1) % 2 == 1);
        }
    }
    assert forall|i: int| 0 <= i < s.len() implies transcript_text(s).take(
        (text_before(s, i) + s[i].text).len() as int,
    ) == #[trigger] (text_before(s, i) + s[i].text) by {
        lemma_join_step(p, i);
        assert(p[i] == s[i].text);
        lemma_join_prefix(p, i + 1);
    }
    if s.len() > 0 {
        let n = s.len() as int;
        assert((2 * n - 1) / 2 == n - 1 && (2 * n - 1) % 2 == 1);
        lemma_join_step(p, n - 1);
        assert(p[n - 1] == s[n - 1].text);
        assert(p.take(n) =~= p);
    }
}

} // verus!
