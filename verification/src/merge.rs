//! Merging of overlapping automatic-caption fragments into clean segments.
use vstd::prelude::*;
use crate::text::{
    lowercase, to_lowercase, chars_of, contains_chars, contains_seq, copy_range,
    lemma_utf8_len_prefix, push_all, string_byte_len, string_of, trim, trim_chars, utf8_len,
    char_utf8_width, is_ascii_text, ascii_lower, lemma_utf8_len_ascii, lemma_trim_ascii,
};
use crate::vtt::{
    all_wf, copy_segment, models, seg_wf, SegmentModel, TranscriptSegment,
};

verus! {

broadcast use vstd::string::group_string_axioms;

// ───────────────────────── lowercase and overlaps ─────────────────────────

/// The largest `n` with `0 < n <= len` such that the last `n` characters of
/// `a` are the first `n` characters of `b`.
pub open spec fn overlap_from(a: Seq<char>, b: Seq<char>, len: int) -> Option<int>
    decreases len,
{
    if len <= 0 {
        None
    } else if b.take(len) == a.skip(a.len() - len) {
        Some(len)
    } else {
        overlap_from(a, b, len - 1)
    }
}

/// The longest suffix of `a` that is also a prefix of `b`, by its length.
pub open spec fn overlap_len(a: Seq<char>, b: Seq<char>) -> Option<int> {
    overlap_from(a, b, if a.len() <= b.len() { a.len() as int } else { b.len() as int })
}

/// The number of characters by which the end of `a` and the start of `b`
/// overlap, compared in lowercase.
pub open spec fn overlap_chars_spec(a: Seq<char>, b: Seq<char>) -> Option<int> {
    overlap_len(lowercase(a), lowercase(b))
}

proof fn lemma_overlap_from(a: Seq<char>, b: Seq<char>, len: int)
    ensures
        overlap_from(a, b, len) matches Some(n) ==> 0 < n <= len && b.take(n) == a.skip(
            a.len() - n,
        ) && forall|k: int| n < k <= len ==> #[trigger] b.take(k) != a.skip(a.len() - k),
        overlap_from(a, b, len) is None ==> forall|k: int|
            0 < k <= len ==> #[trigger] b.take(k) != a.skip(a.len() - k),
    decreases len,
{
    if len > 0 && b.take(len) != a.skip(a.len() - len) {
        lemma_overlap_from(a, b, len - 1);
    }
}

/// `overlap_len` is the longest overlap: when it is `n`, the last `n`
/// characters of `a` are the first `n` of `b` and no longer run (up to the
/// shorter length) matches; when it is `None`, no run of one or more does.
pub proof fn lemma_overlap_len_longest(a: Seq<char>, b: Seq<char>)
    ensures
        ({
            let m = if a.len() <= b.len() { a.len() as int } else { b.len() as int };
            &&& overlap_len(a, b) matches Some(n) ==> 0 < n <= m && b.take(n) == a.skip(a.len() - n)
                && forall|k: int| n < k <= m ==> #[trigger] b.take(k) != a.skip(a.len() - k)
            &&& overlap_len(a, b) is None ==> forall|k: int|
                0 < k <= m ==> #[trigger] b.take(k) != a.skip(a.len() - k)
        }),
{
    lemma_overlap_from(a, b, if a.len() <= b.len() { a.len() as int } else { b.len() as int });
}

/// Whether the last `len` characters of `a` are the first `len` of `b`.
fn suffix_is_prefix(a: &Vec<char>, b: &Vec<char>, len: usize) -> (r: bool)
    requires
        len <= a.len(),
        len <= b.len(),
    ensures
        r == (b@.take(len as int) == a@.skip(a.len() - len)),
{
    let off = a.len() - len;
    let mut i: usize = 0;
    while i < len
        invariant
            len <= a.len(),
            len <= b.len(),
            off == a.len() - len,
            i <= len,
            forall|j: int| 0 <= j < i ==> b@[j] == a@[off + j],
        decreases len - i,
    {
        if b[i] != a[off + i] {
            assert(b@.take(len as int)[i as int] != a@.skip(off as int)[i as int]);
            return false;
        }
        i = i + 1;
    }
    assert(b@.take(len as int) =~= a@.skip(off as int));
    true
}

/// The length, in characters, of the longest suffix of `a` that is also a
/// prefix of `b` (the texts as they are, already lowercased by the caller).
pub fn overlap_length(a: &str, b: &str) -> (r: Option<usize>)
    ensures
        r matches Some(n) ==> overlap_len(a@, b@) == Some(n as int),
        r is None ==> overlap_len(a@, b@) is None,
{
    let ac = chars_of(a);
    let bc = chars_of(b);
    let mut len = if ac.len() <= bc.len() {
        ac.len()
    } else {
        bc.len()
    };
    while len > 0
        invariant
            len <= ac.len(),
            len <= bc.len(),
            ac@ == a@,
            bc@ == b@,
            overlap_len(a@, b@) == overlap_from(ac@, bc@, len as int),
        decreases len,
    {
        if suffix_is_prefix(&ac, &bc, len) {
            return Some(len);
        }
        len = len - 1;
    }
    None
}

fn overlap_lower(a: &str, b: &str) -> (r: Option<usize>)
    ensures
        r matches Some(n) ==> overlap_chars_spec(a@, b@) == Some(n as int),
        r is None ==> overlap_chars_spec(a@, b@) is None,
        is_ascii_text(a@) && is_ascii_text(b@) ==> overlap_chars_spec(a@, b@) == overlap_len(
            ascii_lower(a@),
            ascii_lower(b@),
        ),
        is_ascii_text(a@) ==> lowercase(a@) == ascii_lower(a@),
        is_ascii_text(b@) ==> lowercase(b@) == ascii_lower(b@),
{
    let al = to_lowercase(a);
    let bl = to_lowercase(b);
    overlap_length(al.as_str(), bl.as_str())
}

/// The UTF-8 size of the first `n` characters of `b` (all of `b` when it is shorter).
pub open spec fn prefix_bytes(b: Seq<char>, n: int) -> nat {
    utf8_len(b.take(if n <= b.len() { n } else { b.len() as int }))
}

/// The byte offset in `b` after its first `n` characters (the end of `b`
/// when it has fewer), where the text of `b` that follows an overlap starts.
pub fn overlap_byte_offset(b: &str, n: usize) -> (r: usize)
    ensures
        r == prefix_bytes(b@, n as int),
        r <= utf8_len(b@),
{
    let bc = chars_of(b);
    let owned = b.to_owned();
    let total = string_byte_len(&owned);
    let k = if n <= bc.len() {
        n
    } else {
        bc.len()
    };
    let mut sum: usize = 0;
    let mut i: usize = 0;
    while i < k
        invariant
            k <= bc.len(),
            bc@ == b@,
            total == utf8_len(b@),
            i <= k,
            sum == utf8_len(b@.take(i as int)),
        decreases k - i,
    {
        proof {
            assert(b@.take(i + 1).drop_last() =~= b@.take(i as int));
            lemma_utf8_len_prefix(b@, i + 1);
        }
        sum = sum + char_utf8_width(bc[i]);
        i = i + 1;
    }
    proof {
        lemma_utf8_len_prefix(b@, k as int);
    }
    sum
}

/// The byte offset in `b` after which `b` has text that `a` does not end
/// with: the end of `a` and the start of `b` are compared in lowercase for the
/// longest overlap, and the offset is the UTF-8 size of that many leading
/// characters of `b` (at most the size of `b`). For ASCII texts the offset is
/// the length of the longest overlap compared with capitals made small.
pub fn find_overlap_suffix(a: &str, b: &str) -> (r: Option<usize>)
    ensures
        r == (match overlap_chars_spec(a@, b@) {
            Some(n) => Some(prefix_bytes(b@, n) as usize),
            None => None::<usize>,
        }),
        r matches Some(o) ==> o <= utf8_len(b@),
        is_ascii_text(a@) && is_ascii_text(b@) ==> r == (match overlap_len(
            ascii_lower(a@),
            ascii_lower(b@),
        ) {
            Some(n) => Some(n as usize),
            None => None::<usize>,
        }),
{
    proof {
        if is_ascii_text(a@) && is_ascii_text(b@) {
            let la = ascii_lower(a@);
            let lb = ascii_lower(b@);
            lemma_overlap_len_longest(la, lb);
            if let Some(n) = overlap_len(la, lb) {
                assert(n <= b@.len());
                let p = b@.take(n);
                assert forall|i: int| 0 <= i < p.len() implies (#[trigger] p[i] as u32) < 0x80 by {
                    assert(p[i] == b@[i]);
                }
                lemma_utf8_len_ascii(p);
            }
        }
    }
    match overlap_lower(a, b) {
        None => None,
        Some(n) => Some(overlap_byte_offset(b, n)),
    }
}

// ───────────────────────── sorting ─────────────────────────

/// `t` with `x` placed after every element whose start is at or before
/// `x`'s start; on a list sorted by start this keeps it sorted and stable.
pub open spec fn insert_by_start(t: Seq<SegmentModel>, x: SegmentModel) -> Seq<SegmentModel>
    decreases t.len(),
{
    if t.len() == 0 || t.last().start_ms <= x.start_ms {
        t.push(x)
    } else {
        insert_by_start(t.drop_last(), x).push(t.last())
    }
}

/// `s` sorted by start, keeping the order of segments with equal starts, as
/// `slice::sort_by_key` sorts.
pub open spec fn sort_by_start(s: Seq<SegmentModel>) -> Seq<SegmentModel>
    decreases s.len(),
{
    if s.len() == 0 {
        seq![]
    } else {
        insert_by_start(sort_by_start(s.drop_last()), s.last())
    }
}

fn insert_sorted(r: &mut Vec<TranscriptSegment>, x: TranscriptSegment)
    ensures
        models(final(r)@) == insert_by_start(models(old(r)@), x@),
{
    let ghost m = models(r@);
    let mut pos = r.len();
    assert(m.take(pos as int) =~= m);
    assert(m.skip(pos as int) =~= Seq::<SegmentModel>::empty());
    while pos > 0 && r[pos - 1].start_ms > x.start_ms
        invariant
            pos <= r.len(),
            m == models(r@),
            insert_by_start(m, x@) == insert_by_start(m.take(pos as int), x@) + m.skip(pos as int),
        decreases pos,
    {
        let ghost t = m.take(pos as int);
        assert(t.drop_last() =~= m.take(pos - 1));
        assert(t.last() == m[pos - 1]);
        assert(m.skip(pos - 1) =~= seq![m[pos - 1]] + m.skip(pos as int));
        assert(insert_by_start(t, x@) + m.skip(pos as int) =~= insert_by_start(
            m.take(pos - 1),
            x@,
        ) + m.skip(pos - 1));
        pos = pos - 1;
    }
    let ghost xm = x@;
    r.insert(pos, x);
    assert(models(r@) =~= m.take(pos as int).push(xm) + m.skip(pos as int));
}

fn sort_segments(s: &Vec<TranscriptSegment>) -> (out: Vec<TranscriptSegment>)
    ensures
        models(out@) == sort_by_start(models(s@)),
{
    let mut out: Vec<TranscriptSegment> = Vec::new();
    let mut i: usize = 0;
    assert(models(s@).take(0) =~= Seq::<SegmentModel>::empty());
    assert(models(out@) =~= Seq::<SegmentModel>::empty());
    while i < s.len()
        invariant
            i <= s.len(),
            models(out@) == sort_by_start(models(s@).take(i as int)),
        decreases s.len() - i,
    {
        assert(models(s@).take(i + 1).drop_last() =~= models(s@).take(i as int));
        let x = copy_segment(&s[i]);
        insert_sorted(&mut out, x);
        i = i + 1;
    }
    assert(models(s@).take(i as int) =~= models(s@));
    out
}

// ───────────────────────── merging ─────────────────────────

/// The text that the current segment has after `next` joins it, or `None`
/// when `next` adds nothing: its trimmed text is empty or already contained;
/// otherwise only the part after the lowercase overlap is appended.
pub open spec fn merged_text(cur: Seq<char>, next: Seq<char>) -> Option<Seq<char>> {
    let nt = trim(next);
    let ct = trim(cur);
    if nt.len() == 0 {
        None
    } else if contains_seq(ct, nt) {
        None
    } else {
        match overlap_chars_spec(ct, nt) {
            Some(k) => {
                let part = trim(nt.skip(if k <= nt.len() { k } else { nt.len() as int }));
                if part.len() > 0 {
                    Some(ct + seq![' '] + part)
                } else {
                    Some(cur)
                }
            },
            None => Some(ct + seq![' '] + nt),
        }
    }
}

/// The segments completed so far and the one being extended.
pub struct MergeState {
    pub merged: Seq<SegmentModel>,
    pub current: SegmentModel,
}

/// How far the start of `next` lies after the end of `cur` (0 when it does not).
pub open spec fn merge_gap(cur: SegmentModel, next: SegmentModel) -> int {
    if next.start_ms > cur.end_ms {
        next.start_ms - cur.end_ms
    } else {
        0
    }
}

/// `cur` ending no later than `t`: cut at `t` when it reaches past it.
pub open spec fn cut_at(cur: SegmentModel, t: int) -> SegmentModel {
    if t < cur.end_ms {
        SegmentModel { start_ms: cur.start_ms, end_ms: t, text: cur.text }
    } else {
        cur
    }
}

/// One step of the merge: a longer version starting within 200 ms replaces
/// the current segment; a contained one is dropped; one within 500 ms of a
/// current segment shorter than 15 s is joined to it; any other one starts a
/// new segment, and the current one is completed.
pub open spec fn merge_step(st: MergeState, next: SegmentModel) -> MergeState {
    let cur = st.current;
    if next.start_ms <= cur.start_ms + 200 && next.end_ms > cur.end_ms {
        MergeState { merged: st.merged, current: next }
    } else if next.start_ms >= cur.start_ms && next.end_ms <= cur.end_ms {
        st
    } else if merge_gap(cur, next) <= 500 && cur.end_ms - cur.start_ms < 15_000 {
        match merged_text(cur.text, next.text) {
            None => st,
            Some(t) => MergeState {
                merged: st.merged,
                current: SegmentModel {
                    start_ms: cur.start_ms,
                    end_ms: if next.end_ms >= cur.end_ms {
                        next.end_ms
                    } else {
                        cur.end_ms
                    },
                    text: t,
                },
            },
        }
    } else {
        MergeState { merged: st.merged.push(cur), current: next }
    }
}

/// Whether the arithmetic of a merge step stays within `u64`: the start plus
/// 200 ms, and the length of the current segment where the step computes it.
pub open spec fn merge_step_safe(st: MergeState, next: SegmentModel) -> bool {
    let cur = st.current;
    &&& cur.start_ms + 200 <= u64::MAX
    &&& (next.start_ms <= cur.start_ms + 200 && next.end_ms > cur.end_ms) || (next.start_ms
        >= cur.start_ms && next.end_ms <= cur.end_ms) || merge_gap(cur, next) > 500 || cur.end_ms
        >= cur.start_ms
}

/// The merge after the segments `rest`, starting from `first`.
pub open spec fn merge_run(rest: Seq<SegmentModel>, first: SegmentModel) -> MergeState
    decreases rest.len(),
{
    if rest.len() == 0 {
        MergeState { merged: seq![], current: first }
    } else {
        merge_step(merge_run(rest.drop_last(), first), rest.last())
    }
}

/// Whether every step of the merge of `s` stays within `u64`.
pub open spec fn merge_safe(s: Seq<SegmentModel>) -> bool {
    let sorted = sort_by_start(s);
    sorted.len() > 0 ==> forall|i: int|
        0 <= i < sorted.len() - 1 ==> #[trigger] merge_step_safe(
            merge_run(sorted.skip(1).take(i), sorted[0]),
            sorted[i + 1],
        )
}

/// The segments that the merge steps give for `s`, before any is cut.
pub open spec fn merge_raw_spec(s: Seq<SegmentModel>) -> Seq<SegmentModel> {
    let sorted = sort_by_start(s);
    if sorted.len() == 0 {
        seq![]
    } else {
        let r = merge_run(sorted.skip(1), sorted[0]);
        r.merged.push(r.current)
    }
}

/// `s` with each segment that reaches past the start of the next one cut
/// at that start; the others are kept as they are.
pub open spec fn clamp_ends(s: Seq<SegmentModel>) -> Seq<SegmentModel> {
    Seq::new(
        s.len(),
        |i: int|
            if i + 1 < s.len() {
                cut_at(s[i], s[i + 1].start_ms)
            } else {
                s[i]
            },
    )
}

/// The segments that merging `s` gives: those of the merge steps, each cut
/// where it would overlap the next one.
pub open spec fn merge_segments_spec(s: Seq<SegmentModel>) -> Seq<SegmentModel> {
    clamp_ends(merge_raw_spec(s))
}

/// Joins `a`, a space and `b`.
fn join_space(a: &Vec<char>, b: &Vec<char>) -> (r: Vec<char>)
    ensures
        r@ == a@ + seq![' '] + b@,
{
    let mut r: Vec<char> = Vec::new();
    push_all(&mut r, a);
    r.push(' ');
    push_all(&mut r, b);
    r
}

/// What joining ASCII text `next` to `cur` gives, with the overlap found
/// with capitals made small: `None` when the trimmed `next` is empty or
/// already in the trimmed `cur`; otherwise the trimmed `cur`, a space, and
/// what the trimmed `next` has after its longest start that the trimmed
/// `cur` ends with (compared with capitals made small), trimmed; `cur`
/// itself when nothing is left of `next`.
pub open spec fn ascii_joined_text(cur: Seq<char>, next: Seq<char>) -> Option<Seq<char>> {
    let nt = trim(next);
    let ct = trim(cur);
    if nt.len() == 0 || contains_seq(ct, nt) {
        None
    } else {
        match overlap_len(ascii_lower(ct), ascii_lower(nt)) {
            Some(n) => if trim(nt.skip(n)).len() > 0 {
                Some(ct + seq![' '] + trim(nt.skip(n)))
            } else {
                Some(cur)
            },
            None => Some(ct + seq![' '] + nt),
        }
    }
}

/// A fragment whose trimmed text the current segment's trimmed text already
/// holds adds nothing to it: joining gives no new text.
pub proof fn lemma_join_skips_contained(cur: Seq<char>, next: Seq<char>)
    requires
        contains_seq(trim(cur), trim(next)),
    ensures
        merged_text(cur, next) is None,
{
}

/// A fragment that would be joined to the current segment (it neither
/// replaces it nor lies within its times, starts within 500 ms of its end,
/// and the current one lasts under 15 s) but whose trimmed text the current
/// segment's trimmed text already holds leaves the merge state as it was:
/// same segments, same current text, same current end.
pub proof fn lemma_contained_fragment_changes_nothing(st: MergeState, next: SegmentModel)
    requires
        !(next.start_ms <= st.current.start_ms + 200 && next.end_ms > st.current.end_ms),
        merge_gap(st.current, next) <= 500,
        st.current.end_ms - st.current.start_ms < 15_000,
        contains_seq(trim(st.current.text), trim(next.text)),
    ensures
        merge_step(st, next) == st,
{
}

/// Merging a segment and a later fragment that starts within 500 ms of its
/// end, when the segment lasts under 15 s, the fragment does not replace it
/// and its trimmed text is already in the segment's trimmed text, gives the
/// segment alone, unchanged.
pub proof fn lemma_merge_drops_repeated_fragment(a: SegmentModel, b: SegmentModel)
    requires
        a.start_ms <= b.start_ms,
        !(b.start_ms <= a.start_ms + 200 && b.end_ms > a.end_ms),
        merge_gap(a, b) <= 500,
        0 <= a.end_ms - a.start_ms < 15_000,
        contains_seq(trim(a.text), trim(b.text)),
    ensures
        merge_segments_spec(seq![a, b]) == seq![a],
{
    let s = seq![a, b];
    assert(s.drop_last() =~= seq![a]);
    assert(seq![a].drop_last() =~= Seq::<SegmentModel>::empty());
    assert(sort_by_start(Seq::<SegmentModel>::empty()) =~= Seq::<SegmentModel>::empty());
    assert(insert_by_start(Seq::<SegmentModel>::empty(), a) =~= seq![a]);
    assert(sort_by_start(seq![a]) =~= seq![a]);
    assert(insert_by_start(seq![a], b) =~= seq![a, b]);
    assert(sort_by_start(s) =~= seq![a, b]);
    let sm = sort_by_start(s);
    assert(sm.skip(1) =~= seq![b]);
    assert(seq![b].drop_last() =~= Seq::<SegmentModel>::empty());
    let st0 = MergeState { merged: seq![], current: a };
    assert(merge_run(Seq::<SegmentModel>::empty(), a) == st0);
    lemma_contained_fragment_changes_nothing(st0, b);
    assert(merge_run(seq![b], a) == st0);
    assert(merge_raw_spec(s) =~= seq![a]);
    assert(clamp_ends(seq![a]) =~= seq![a]);
}

/// The join finds the overlap in lowercase: for texts whose lowercase form
/// is their ASCII lowercase form (as `str::to_lowercase` gives for ASCII
/// text), the joined text is the trimmed `cur`, a space, and what the
/// trimmed `next` has after its longest start that the trimmed `cur` ends
/// with, compared with capitals made small.
pub proof fn lemma_join_overlap_in_lowercase(cur: Seq<char>, next: Seq<char>)
    requires
        lowercase(trim(cur)) == ascii_lower(trim(cur)),
        lowercase(trim(next)) == ascii_lower(trim(next)),
    ensures
        merged_text(cur, next) == ascii_joined_text(cur, next),
{
    let ct = trim(cur);
    let nt = trim(next);
    lemma_overlap_len_longest(ascii_lower(ct), ascii_lower(nt));
}

fn merge_text(cur: &String, next: &String) -> (r: Option<String>)
    ensures
        r matches Some(t) ==> merged_text(cur@, next@) == Some(t@),
        r is None ==> merged_text(cur@, next@) is None,
        is_ascii_text(cur@) && is_ascii_text(next@) ==> (match r {
            Some(t) => ascii_joined_text(cur@, next@) == Some(t@),
            None => ascii_joined_text(cur@, next@) is None,
        }),
{
    let nt = trim_chars(&chars_of(next.as_str()));
    let ct = trim_chars(&chars_of(cur.as_str()));
    if nt.len() == 0 {
        return None;
    }
    if contains_chars(&ct, &nt) {
        return None;
    }
    let ct_s = string_of(&ct);
    let nt_s = string_of(&nt);
    let found = overlap_lower(ct_s.as_str(), nt_s.as_str());
    proof {
        if is_ascii_text(cur@) && is_ascii_text(next@) {
            lemma_trim_ascii(cur@);
            lemma_trim_ascii(next@);
            lemma_join_overlap_in_lowercase(cur@, next@);
        }
    }
    match found {
        Some(k) => {
            let kk = if k <= nt.len() {
                k
            } else {
                nt.len()
            };
            let part = trim_chars(&copy_range(&nt, kk, nt.len()));
            assert(nt@.subrange(kk as int, nt@.len() as int) =~= nt@.skip(kk as int));
            if part.len() > 0 {
                Some(string_of(&join_space(&ct, &part)))
            } else {
                Some(cur.clone())
            }
        },
        None => Some(string_of(&join_space(&ct, &nt))),
    }
}

/// Merges overlapping automatic-caption fragments into clean,
/// non-overlapping segments, the form that whisper.cpp produces natively: the
/// segments are sorted by start (stably), then each one replaces, is dropped
/// into, is joined to, or follows the segment being built; last, a merged
/// segment that reaches past the start of the next one (one of 15 s or more,
/// which is never extended) is cut at that start.
pub fn merge_segments(segments: &mut Vec<TranscriptSegment>)
    requires
        merge_safe(models(old(segments)@)),
    ensures
        models(final(segments)@) == merge_segments_spec(models(old(segments)@)),
        all_ordered(models(old(segments)@)) ==> non_overlapping(models(final(segments)@))
            && sorted_by_start(models(final(segments)@)),
{
    proof {
        if all_ordered(models(segments@)) {
            lemma_merge_laws(models(segments@));
        }
    }
    if segments.len() == 0 {
        assert(models(segments@) =~= Seq::<SegmentModel>::empty());
        return;
    }
    let sorted = sort_segments(segments);
    let ghost sm = models(sorted@);
    let ghost rest = sm.skip(1);
    let mut merged: Vec<TranscriptSegment> = Vec::new();
    let mut current = copy_segment(&sorted[0]);
    let mut i: usize = 1;
    assert(rest.take(0) =~= Seq::<SegmentModel>::empty());
    assert(models(merged@) =~= Seq::<SegmentModel>::empty());
    while i < sorted.len()
        invariant
            1 <= i <= sorted.len(),
            sm == models(sorted@),
            sm == sort_by_start(models(old(segments)@)),
            rest == sm.skip(1),
            merge_safe(models(old(segments)@)),
            merge_run(rest.take(i - 1), sm[0]) == (MergeState {
                merged: models(merged@),
                current: current@,
            }),
        decreases sorted.len() - i,
    {
        let ghost st = MergeState { merged: models(merged@), current: current@ };
        assert(rest.take(i as int).drop_last() =~= rest.take(i - 1));
        assert(rest.take(i as int).last() == sm[i as int]);
        assert(merge_step_safe(merge_run(rest.take(i - 1), sm[0]), sm[(i - 1) + 1]));
        let next = &sorted[i];
        if next.start_ms <= current.start_ms + 200 && next.end_ms > current.end_ms {
            current = copy_segment(next);
        } else if next.start_ms >= current.start_ms && next.end_ms <= current.end_ms {
        } else {
            let gap = if next.start_ms > current.end_ms {
                next.start_ms - current.end_ms
            } else {
                0
            };
            if gap <= 500 && current.end_ms - current.start_ms < 15_000 {
                match merge_text(&current.text, &next.text) {
                    None => {},
                    Some(t) => {
                        current.text = t;
                        if next.end_ms >= current.end_ms {
                            current.end_ms = next.end_ms;
                        }
                    },
                }
            } else {
                let ghost old_merged = models(merged@);
                let done = current;
                let ghost dm = done@;
                merged.push(done);
                assert(models(merged@) =~= old_merged.push(dm));
                current = copy_segment(next);
            }
        }
        assert(merge_step(st, sm[i as int]) == (MergeState {
            merged: models(merged@),
            current: current@,
        }));
        i = i + 1;
    }
    assert(rest.take(i - 1) =~= rest);
    let ghost old_merged = models(merged@);
    let ghost cm = current@;
    merged.push(current);
    assert(models(merged@) =~= old_merged.push(cm));
    let ghost raw = models(merged@);
    assert(raw == merge_raw_spec(models(old(segments)@)));
    let mut out: Vec<TranscriptSegment> = Vec::new();
    let mut k: usize = 0;
    assert(models(out@) =~= clamp_ends(raw).take(0));
    while k < merged.len()
        invariant
            k <= merged.len(),
            raw == models(merged@),
            models(out@) == clamp_ends(raw).take(k as int),
        decreases merged.len() - k,
    {
        let mut seg = copy_segment(&merged[k]);
        if k + 1 < merged.len() && merged[k + 1].start_ms < seg.end_ms {
            seg.end_ms = merged[k + 1].start_ms;
        }
        let ghost before = models(out@);
        let ghost sm_ = seg@;
        out.push(seg);
        assert(models(out@) =~= before.push(sm_));
        assert(clamp_ends(raw).take(k + 1) =~= clamp_ends(raw).take(k as int).push(
            clamp_ends(raw)[k as int],
        ));
        k = k + 1;
    }
    assert(clamp_ends(raw).take(k as int) =~= clamp_ends(raw));
    *segments = out;
}


// ───────────────────────── laws ─────────────────────────

/// Whether the segments of `s` come in order of start time.
pub open spec fn sorted_by_start(s: Seq<SegmentModel>) -> bool {
    forall|i: int, j: int| 0 <= i <= j < s.len() ==> s[i].start_ms <= s[j].start_ms
}

/// A segment that does not end before it starts, whose times fit in a `u64`
/// and whose start leaves room for the 200 ms window of the merge.
pub open spec fn seg_ordered(m: SegmentModel) -> bool {
    0 <= m.start_ms <= m.end_ms <= u64::MAX && m.start_ms + 200 <= u64::MAX
}

/// Whether every segment of `s` is ordered.
pub open spec fn all_ordered(s: Seq<SegmentModel>) -> bool {
    forall|i: int| 0 <= i < s.len() ==> seg_ordered(#[trigger] s[i])
}

/// Whether each segment of `s` ends no later than every later one starts.
pub open spec fn non_overlapping(s: Seq<SegmentModel>) -> bool {
    forall|i: int, j: int| 0 <= i < j < s.len() ==> s[i].end_ms <= s[j].start_ms
}

/// Whether `t` is the start of some segment of `s`.
pub open spec fn is_start_in(s: Seq<SegmentModel>, t: int) -> bool {
    exists|j: int| 0 <= j < s.len() && #[trigger] s[j].start_ms == t
}

/// Whether `t` is the end of some segment of `s`.
pub open spec fn is_end_in(s: Seq<SegmentModel>, t: int) -> bool {
    exists|j: int| 0 <= j < s.len() && #[trigger] s[j].end_ms == t
}

proof fn lemma_insert_bound(t: Seq<SegmentModel>, x: SegmentModel, b: int)
    requires
        forall|j: int| 0 <= j < t.len() ==> t[j].start_ms <= b,
        x.start_ms <= b,
    ensures
        forall|k: int|
            0 <= k < insert_by_start(t, x).len() ==> #[trigger] insert_by_start(t, x)[k].start_ms
                <= b,
    decreases t.len(),
{
    let r = insert_by_start(t, x);
    if !(t.len() == 0 || t.last().start_ms <= x.start_ms) {
        let t2 = t.drop_last();
        lemma_insert_bound(t2, x, b);
        let r2 = insert_by_start(t2, x);
        assert forall|k: int| 0 <= k < r.len() implies #[trigger] r[k].start_ms <= b by {
            if k < r2.len() {
                assert(r[k] == r2[k]);
            } else {
                assert(r[k] == t[t.len() - 1]);
            }
        }
    } else {
        assert forall|k: int| 0 <= k < r.len() implies #[trigger] r[k].start_ms <= b by {
            if k < t.len() {
                assert(r[k] == t[k]);
            }
        }
    }
}

proof fn lemma_insert(t: Seq<SegmentModel>, x: SegmentModel)
    ensures
        insert_by_start(t, x).len() == t.len() + 1,
        forall|k: int|
            0 <= k < t.len() + 1 ==> #[trigger] insert_by_start(t, x)[k] == x || t.contains(
                insert_by_start(t, x)[k],
            ),
        sorted_by_start(t) ==> sorted_by_start(insert_by_start(t, x)),
    decreases t.len(),
{
    let r = insert_by_start(t, x);
    if t.len() == 0 || t.last().start_ms <= x.start_ms {
        assert forall|k: int| 0 <= k < t.len() + 1 implies #[trigger] r[k] == x || t.contains(
            r[k],
        ) by {
            if k < t.len() {
                assert(r[k] == t[k]);
            }
        }
        if sorted_by_start(t) {
            assert forall|i: int, j: int| 0 <= i <= j < r.len() implies r[i].start_ms
                <= r[j].start_ms by {
                if j == t.len() && i < j {
                    assert(t[i].start_ms <= t.last().start_ms);
                }
            }
        }
    } else {
        let t2 = t.drop_last();
        lemma_insert(t2, x);
        let r2 = insert_by_start(t2, x);
        assert forall|k: int| 0 <= k < t.len() + 1 implies #[trigger] r[k] == x || t.contains(
            r[k],
        ) by {
            if k < r2.len() {
                assert(r[k] == r2[k]);
                if r2[k] != x {
                    assert(t2.contains(r2[k]));
                    let j = choose|j: int| 0 <= j < t2.len() && t2[j] == r2[k];
                    assert(t[j] == t2[j]);
                }
            } else {
                assert(r[k] == t[t.len() - 1]);
            }
        }
        if sorted_by_start(t) {
            assert forall|j: int| 0 <= j < t2.len() implies t2[j].start_ms
                <= t.last().start_ms by {
                assert(t[j].start_ms <= t[t.len() - 1].start_ms);
            }
            lemma_insert_bound(t2, x, t.last().start_ms);
            assert(sorted_by_start(t2));
            assert forall|i: int, j: int| 0 <= i <= j < r.len() implies r[i].start_ms
                <= r[j].start_ms by {
                if j == r2.len() && i < j {
                    assert(r2[i].start_ms <= t.last().start_ms);
                }
            }
        }
    }
}

proof fn lemma_sort(s: Seq<SegmentModel>)
    ensures
        sort_by_start(s).len() == s.len(),
        forall|k: int| 0 <= k < s.len() ==> s.contains(#[trigger] sort_by_start(s)[k]),
        sorted_by_start(sort_by_start(s)),
    decreases s.len(),
{
    if s.len() > 0 {
        let s2 = s.drop_last();
        lemma_sort(s2);
        lemma_insert(sort_by_start(s2), s.last());
        let r = sort_by_start(s);
        assert forall|k: int| 0 <= k < s.len() implies s.contains(#[trigger] r[k]) by {
            if r[k] == s.last() {
                assert(s[s.len() - 1] == r[k]);
            } else {
                assert(sort_by_start(s2).contains(r[k]));
                let j = choose|j: int| 0 <= j < s2.len() && sort_by_start(s2)[j] == r[k];
                assert(s2.contains(sort_by_start(s2)[j]));
                let j2 = choose|j2: int| 0 <= j2 < s2.len() && s2[j2] == sort_by_start(s2)[j];
                assert(s[j2] == s2[j2]);
            }
        }
    }
}

/// What holds of the merge state after `i` steps over the sorted segments `sm`.
pub open spec fn run_invariant(sm: Seq<SegmentModel>, i: int, r: MergeState) -> bool {
    &&& all_ordered(r.merged)
    &&& seg_ordered(r.current)
    &&& sorted_by_start(r.merged)
    &&& forall|k: int| 0 <= k < r.merged.len() ==> #[trigger] r.merged[k].start_ms
        <= r.current.start_ms
    &&& forall|j: int| i < j < sm.len() ==> r.current.start_ms <= #[trigger] sm[j].start_ms
    &&& r.merged.len() <= i
    &&& forall|k: int|
        0 <= k < r.merged.len() ==> is_start_in(sm, #[trigger] r.merged[k].start_ms) && is_end_in(
            sm,
            r.merged[k].end_ms,
        )
    &&& is_start_in(sm, r.current.start_ms) && is_end_in(sm, r.current.end_ms)
}

proof fn lemma_merge_run(sm: Seq<SegmentModel>, i: int)
    requires
        sorted_by_start(sm),
        all_ordered(sm),
        0 <= i < sm.len(),
    ensures
        run_invariant(sm, i, merge_run(sm.skip(1).take(i), sm[0])),
    decreases i,
{
    let rest = sm.skip(1);
    if i == 0 {
        assert(rest.take(0) =~= Seq::<SegmentModel>::empty());
        assert(seg_ordered(sm[0]));
        assert(is_start_in(sm, sm[0].start_ms));
        assert(is_end_in(sm, sm[0].end_ms));
    } else {
        lemma_merge_run(sm, i - 1);
        assert(rest.take(i).drop_last() =~= rest.take(i - 1));
        assert(rest.take(i).last() == sm[i]);
        let st = merge_run(rest.take(i - 1), sm[0]);
        let next = sm[i];
        assert(seg_ordered(next));
        let r = merge_step(st, next);
        assert(r == merge_run(rest.take(i), sm[0]));
        assert forall|j: int| i < j < sm.len() implies next.start_ms <= #[trigger] sm[j].start_ms by {
        }
        assert(st.current.start_ms <= next.start_ms);
        assert(is_start_in(sm, next.start_ms));
        assert(is_end_in(sm, next.end_ms));
        let cur = st.current;
        if !(next.start_ms <= cur.start_ms + 200 && next.end_ms > cur.end_ms) && !(next.start_ms
            >= cur.start_ms && next.end_ms <= cur.end_ms) && !(merge_gap(cur, next) <= 500
            && cur.end_ms - cur.start_ms < 15_000) {
            assert(r.merged == st.merged.push(cur));
            assert forall|a: int, b: int| 0 <= a <= b < r.merged.len() implies r.merged[a].start_ms
                <= r.merged[b].start_ms by {
                if b == st.merged.len() && a < b {
                    assert(st.merged[a].start_ms <= st.current.start_ms);
                }
            }
            assert forall|k: int| 0 <= k < r.merged.len() implies seg_ordered(#[trigger] r.merged[k]) by {
                if k < st.merged.len() {
                    assert(st.merged[k] == r.merged[k]);
                }
            }
            assert forall|k: int| 0 <= k < r.merged.len() implies #[trigger] r.merged[k].start_ms
                <= r.current.start_ms by {
                if k < st.merged.len() {
                    assert(st.merged[k] == r.merged[k]);
                }
            }
            assert forall|k: int|
                0 <= k < r.merged.len() implies is_start_in(sm, #[trigger] r.merged[k].start_ms)
                && is_end_in(sm, r.merged[k].end_ms) by {
                if k < st.merged.len() {
                    assert(st.merged[k] == r.merged[k]);
                }
            }
        }
    }
}

/// The merge laws, for any segments that do not end before they start and
/// whose times fit in a `u64` with room for the 200 ms window: the merge
/// computes within `u64`; it gives at least one segment when there was one
/// and never more segments than there were; the merged segments come in
/// order of start time and do not overlap (each ends no later than the next
/// one starts). The merge steps alone give segments that start at the start
/// and end at the end of input segments; the final cut changes only the end
/// of a segment that reaches past the next one's start, to that start, so
/// where the steps give no overlap nothing is cut.
pub proof fn lemma_merge_laws(s: Seq<SegmentModel>)
    requires
        all_ordered(s),
    ensures
        merge_safe(s),
        merge_segments_spec(s).len() == merge_raw_spec(s).len(),
        merge_segments_spec(s).len() <= s.len(),
        merge_segments_spec(s).len() == 0 <==> s.len() == 0,
        all_ordered(merge_segments_spec(s)),
        sorted_by_start(merge_segments_spec(s)),
        non_overlapping(merge_segments_spec(s)),
        forall|k: int|
            0 <= k < merge_raw_spec(s).len() ==> is_start_in(
                s,
                #[trigger] merge_raw_spec(s)[k].start_ms,
            ) && is_end_in(s, merge_raw_spec(s)[k].end_ms),
        forall|k: int|
            0 <= k < merge_segments_spec(s).len() ==> #[trigger] merge_segments_spec(s)[k].start_ms
                == merge_raw_spec(s)[k].start_ms && merge_segments_spec(s)[k].text
                == merge_raw_spec(s)[k].text && (merge_segments_spec(s)[k].end_ms
                == merge_raw_spec(s)[k].end_ms || (k + 1 < merge_raw_spec(s).len()
                && merge_segments_spec(s)[k].end_ms == merge_raw_spec(s)[k + 1].start_ms
                < merge_raw_spec(s)[k].end_ms)),
        non_overlapping(merge_raw_spec(s)) ==> merge_segments_spec(s) == merge_raw_spec(s),
{
    lemma_sort(s);
    let sm = sort_by_start(s);
    assert forall|k: int| 0 <= k < sm.len() implies seg_ordered(#[trigger] sm[k]) by {
        assert(s.contains(sm[k]));
    }
    assert forall|t: int| is_start_in(sm, t) implies is_start_in(s, t) by {
        let j = choose|j: int| 0 <= j < sm.len() && #[trigger] sm[j].start_ms == t;
        assert(s.contains(sm[j]));
    }
    assert forall|t: int| is_end_in(sm, t) implies is_end_in(s, t) by {
        let j = choose|j: int| 0 <= j < sm.len() && #[trigger] sm[j].end_ms == t;
        assert(s.contains(sm[j]));
    }
    let raw = merge_raw_spec(s);
    let out = merge_segments_spec(s);
    if sm.len() > 0 {
        assert forall|i: int| 0 <= i < sm.len() - 1 implies #[trigger] merge_step_safe(
            merge_run(sm.skip(1).take(i), sm[0]),
            sm[i + 1],
        ) by {
            lemma_merge_run(sm, i);
        }
        lemma_merge_run(sm, sm.len() - 1);
        assert(sm.skip(1).take(sm.len() - 1) =~= sm.skip(1));
        let r = merge_run(sm.skip(1), sm[0]);
        assert(raw == r.merged.push(r.current));
        assert forall|a: int, b: int| 0 <= a <= b < raw.len() implies raw[a].start_ms
            <= raw[b].start_ms by {
            if b == r.merged.len() && a < b {
                assert(r.merged[a].start_ms <= r.current.start_ms);
            }
        }
        assert forall|k: int| 0 <= k < raw.len() implies seg_ordered(#[trigger] raw[k]) by {
            if k < r.merged.len() {
                assert(r.merged[k] == raw[k]);
            }
        }
        assert forall|k: int|
            0 <= k < raw.len() implies is_start_in(s, #[trigger] raw[k].start_ms) && is_end_in(
                s,
                raw[k].end_ms,
            ) by {
            if k < r.merged.len() {
                assert(r.merged[k] == raw[k]);
                assert(is_start_in(sm, r.merged[k].start_ms));
                assert(is_end_in(sm, r.merged[k].end_ms));
            }
        }
        assert forall|k: int| 0 <= k < out.len() implies seg_ordered(#[trigger] out[k]) by {
            assert(seg_ordered(raw[k]));
            if k + 1 < raw.len() {
                assert(raw[k].start_ms <= raw[k + 1].start_ms);
            }
        }
        assert forall|a: int, b: int| 0 <= a <= b < out.len() implies out[a].start_ms
            <= out[b].start_ms by {
            assert(raw[a].start_ms <= raw[b].start_ms);
        }
        assert forall|a: int, b: int| 0 <= a < b < out.len() implies out[a].end_ms
            <= out[b].start_ms by {
            assert(raw[a + 1].start_ms <= raw[b].start_ms);
        }
        if non_overlapping(raw) {
            assert forall|k: int| 0 <= k < out.len() implies out[k] == raw[k] by {
                if k + 1 < raw.len() {
                    assert(raw[k].end_ms <= raw[k + 1].start_ms);
                }
            }
            assert(out =~= raw);
        }
    } else {
        assert(out =~= raw);
    }
}

} // verus!
