//! Cutting a run of text into context windows around each match.
//!
//! Every match yields one triple: the text just before it (preamble), the
//! matched text itself, and the text just after it (postamble). Preamble and
//! postamble are taken from the gap between neighbouring matches and are cut
//! to the context length, counted in characters.

use crate::pattern::{find_spans, regex_matches, regex_spans, spans_in_order};
use crate::text::{
    byte_len, byte_slice, first_chars, first_n_chars, is_boundary, last_chars, last_n_chars,
    lemma_boundary_in_range, lemma_slice_is_subrange, lemma_slice_join, lemma_slice_nonempty,
    lemma_slice_whole, slice_between, texts_of,
};
use regex::Regex;
use vstd::prelude::*;
use vstd::string::*;
use vstd::utf8::*;

verus! {

/// Preamble, matched text and postamble of one match.
#[derive(Debug)]
pub struct MatchTriple(pub String, pub String, pub String);

/// The three texts of a triple.
pub type TripleText = (Seq<char>, Seq<char>, Seq<char>);

impl View for MatchTriple {
    type V = TripleText;

    open spec fn view(&self) -> TripleText {
        (self.0@, self.1@, self.2@)
    }
}

/// The texts held by a list of triples.
pub open spec fn triples_of(triples: Seq<MatchTriple>) -> Seq<TripleText> {
    Seq::new(triples.len(), |i: int| triples[i]@)
}

/// Entry `j` of `segments`, or the empty text when there is no such entry.
pub open spec fn segment_or_empty(segments: Seq<Seq<char>>, j: int) -> Seq<char> {
    if 0 <= j < segments.len() {
        segments[j]
    } else {
        Seq::empty()
    }
}

/// Consecutive groups of three segments; a last group that is short is
/// filled up with empty texts.
pub open spec fn grouped(segments: Seq<Seq<char>>) -> Seq<TripleText> {
    Seq::new(
        ((segments.len() + 2) / 3) as nat,
        |k: int|
            (
                segment_or_empty(segments, 3 * k),
                segment_or_empty(segments, 3 * k + 1),
                segment_or_empty(segments, 3 * k + 2),
            ),
    )
}

/// Byte offset where the gap before match `i` begins: the end of match
/// `i - 1`, or the start of the text.
pub open spec fn gap_start(spans: Seq<(usize, usize)>, i: int) -> int {
    if i <= 0 {
        0
    } else {
        spans[i - 1].1 as int
    }
}

/// Byte offset where the gap before match `i` ends: the start of match `i`,
/// or the end of the text after the last match.
pub open spec fn gap_end(text: Seq<char>, spans: Seq<(usize, usize)>, i: int) -> int {
    if i >= spans.len() {
        byte_len(text) as int
    } else {
        spans[i].0 as int
    }
}

/// The text between match `i - 1` and match `i`. Gap `0` precedes the first
/// match and gap `spans.len()` follows the last one.
pub open spec fn gap(text: Seq<char>, spans: Seq<(usize, usize)>, i: int) -> Seq<char> {
    byte_slice(text, gap_start(spans, i), gap_end(text, spans, i))
}

/// The triple of match `i`: the tail of the gap before it, the match, and the
/// head of the gap after it. The two windows of one gap are cut independently,
/// so they share characters when the gap is no longer than the context.
pub open spec fn triple_at(
    text: Seq<char>,
    spans: Seq<(usize, usize)>,
    context: nat,
    i: int,
) -> TripleText {
    (
        last_chars(gap(text, spans, i), context),
        byte_slice(text, spans[i].0 as int, spans[i].1 as int),
        first_chars(gap(text, spans, i + 1), context),
    )
}

/// One triple per match, in match order.
pub open spec fn segmentation(
    text: Seq<char>,
    spans: Seq<(usize, usize)>,
    context: nat,
) -> Seq<TripleText> {
    Seq::new(spans.len(), |i: int| triple_at(text, spans, context, i))
}

/// Segment `j` of the flat list that the scan emits: preamble, match and
/// postamble of match `j / 3`, in that order.
pub open spec fn emitted_at(
    text: Seq<char>,
    spans: Seq<(usize, usize)>,
    context: nat,
    j: int,
) -> Seq<char> {
    let t = triple_at(text, spans, context, j / 3);
    if j % 3 == 0 {
        t.0
    } else if j % 3 == 1 {
        t.1
    } else {
        t.2
    }
}

impl MatchTriple {
    /// Builds a triple from up to three segments: the first is the preamble,
    /// the second the matched text, the third the postamble. Missing segments
    /// are empty; segments after the third are ignored.
    pub fn from_iter(segments: Vec<String>) -> (triple: MatchTriple)
        ensures
            triple@ == (
                segment_or_empty(texts_of(segments@), 0),
                segment_or_empty(texts_of(segments@), 1),
                segment_or_empty(texts_of(segments@), 2),
            ),
    {
        let preamble = if segments.len() > 0 {
            segments[0].clone()
        } else {
            String::new()
        };
        let matched = if segments.len() > 1 {
            segments[1].clone()
        } else {
            String::new()
        };
        let postamble = if segments.len() > 2 {
            segments[2].clone()
        } else {
            String::new()
        };
        MatchTriple(preamble, matched, postamble)
    }
}

/// Groups a flat list of segments into triples, three at a time.
pub fn group_segments(segments: &Vec<String>) -> (triples: Vec<MatchTriple>)
    ensures
        triples_of(triples@) == grouped(texts_of(segments@)),
{
    let mut triples: Vec<MatchTriple> = Vec::new();
    let len = segments.len();
    let mut j: usize = 0;
    while j < len
        invariant
            len == segments.len(),
            j <= len,
            j % 3 == 0 || j == len,
            triples.len() == (j + 2) / 3,
            forall|k: int|
                0 <= k < triples.len() ==> (#[trigger] triples[k])@ == grouped(
                    texts_of(segments@),
                )[k],
        decreases len - j,
    {
        let mut chunk: Vec<String> = Vec::new();
        chunk.push(segments[j].clone());
        if len - j > 1 {
            chunk.push(segments[j + 1].clone());
        }
        if len - j > 2 {
            chunk.push(segments[j + 2].clone());
        }
        let triple = MatchTriple::from_iter(chunk);
        triples.push(triple);
        j = if len - j > 2 {
            j + 3
        } else {
            len
        };
    }
    proof {
        assert(triples.len() == (len + 2) / 3);
        assert(triples_of(triples@) =~= grouped(texts_of(segments@)));
    }
    triples
}

/// Number of segments the scan has emitted once `done` matches are behind it:
/// preamble and match for each, and a postamble for all but the last.
pub open spec fn emitted_len(done: int) -> int {
    if done <= 0 {
        0
    } else {
        3 * done - 1
    }
}

/// After the scan, grouping what was emitted gives one triple per match.
/// The postamble of the last match is either the last segment or, when no
/// text follows the match, absent and therefore empty.
proof fn lemma_grouped_is_segmentation(
    text: Seq<char>,
    spans: Seq<(usize, usize)>,
    context: nat,
    segments: Seq<Seq<char>>,
)
    requires
        segments.len() == emitted_len(spans.len() as int) || (spans.len() > 0 && segments.len()
            == 3 * spans.len()),
        segments.len() == emitted_len(spans.len() as int) ==> gap(
            text,
            spans,
            spans.len() as int,
        ).len() == 0,
        forall|j: int|
            0 <= j < segments.len() ==> #[trigger] segments[j] == emitted_at(
                text,
                spans,
                context,
                j,
            ),
    ensures
        grouped(segments) =~= segmentation(text, spans, context),
{
    let n = spans.len() as int;
    assert(grouped(segments).len() == n);
    assert forall|k: int| 0 <= k < n implies grouped(segments)[k] == segmentation(
        text,
        spans,
        context,
    )[k] by {
        let t = triple_at(text, spans, context, k);
        assert((3 * k) / 3 == k && (3 * k) % 3 == 0);
        assert((3 * k + 1) / 3 == k && (3 * k + 1) % 3 == 1);
        assert((3 * k + 2) / 3 == k && (3 * k + 2) % 3 == 2);
        assert(segments[3 * k] == emitted_at(text, spans, context, 3 * k));
        assert(segments[3 * k + 1] == emitted_at(text, spans, context, 3 * k + 1));
        if 3 * k + 2 < segments.len() {
            assert(segments[3 * k + 2] == emitted_at(text, spans, context, 3 * k + 2));
        } else {
            assert(k == n - 1);
            assert(t.2 =~= Seq::<char>::empty());
        }
    }
}

/// Cuts `s` into one triple per span.
///
/// `spans` are the byte spans of the matches, in order. The scan keeps a
/// cursor at the end of the previous match. For each match it emits the head
/// of the gap since the previous match (that match's postamble; nothing for
/// the first match), then the tail of the same gap (this match's preamble),
/// then the match in full. After the last match it emits the head of the
/// remaining text, if any remains. The emitted segments are then grouped in
/// threes. Without spans the result is empty.
pub fn segment_spans(s: &str, spans: &Vec<(usize, usize)>, context_len: usize) -> (triples: Vec<
    MatchTriple,
>)
    requires
        spans_in_order(s@, spans@),
    ensures
        triples_of(triples@) == segmentation(s@, spans@, context_len as nat),
{
    broadcast use {encode_utf8_valid_utf8, is_char_boundary_start_end_of_seq};

    let ghost text = s@;
    let ghost context = context_len as nat;
    let mut segments: Vec<String> = Vec::new();
    let mut start: usize = 0;
    let mut seen_match = false;
    let mut i: usize = 0;
    assert(is_boundary(text, 0));
    while i < spans.len()
        invariant
            text == s@,
            context == context_len as nat,
            spans_in_order(text, spans@),
            i <= spans.len(),
            seen_match == (i > 0),
            start == gap_start(spans@, i as int),
            is_boundary(text, start as int),
            segments.len() == emitted_len(i as int),
            forall|j: int|
                0 <= j < segments.len() ==> (#[trigger] segments[j])@ == emitted_at(
                    text,
                    spans@,
                    context,
                    j,
                ),
        decreases spans.len() - i,
    {
        let (match_start, match_end) = spans[i];
        let ghost before = segments@;
        assert(spans@[i as int].0 <= spans@[i as int].1);
        assert(start <= match_start) by {
            if i > 0 {
                assert(spans@[i - 1].1 <= spans@[i as int].0);
            }
        }
        let between = slice_between(s, start, match_start);
        assert(between@ == gap(text, spans@, i as int));
        if seen_match {
            segments.push(first_n_chars(between, context_len).to_owned());
            assert((3 * i - 1) / 3 == i - 1 && (3 * i - 1) % 3 == 2);
        }
        segments.push(last_n_chars(between, context_len).to_owned());
        segments.push(slice_between(s, match_start, match_end).to_owned());
        proof {
            assert((3 * i) / 3 == i && (3 * i) % 3 == 0);
            assert((3 * i + 1) / 3 == i && (3 * i + 1) % 3 == 1);
            assert forall|j: int| 0 <= j < segments.len() implies (#[trigger] segments[j])@
                == emitted_at(text, spans@, context, j) by {
                if j < before.len() {
                    assert(segments[j] == before[j]);
                }
            }
        }
        seen_match = true;
        start = match_end;
        i = i + 1;
    }
    let total = s.as_bytes().len();
    assert(total == byte_len(text) && is_boundary(text, total as int)) by {
        is_char_boundary_start_end_of_seq(encode_utf8(text));
    }
    if seen_match && start < total {
        let n = spans.len();
        let rest = slice_between(s, start, total);
        let ghost before = segments@;
        assert(rest@ == gap(text, spans@, n as int));
        segments.push(first_n_chars(rest, context_len).to_owned());
        proof {
            assert((3 * n - 1) / 3 == n - 1 && (3 * n - 1) % 3 == 2);
            assert forall|j: int| 0 <= j < segments.len() implies (#[trigger] segments[j])@
                == emitted_at(text, spans@, context, j) by {
                if j < before.len() {
                    assert(segments[j] == before[j]);
                }
            }
        }
    } else {
        proof {
            if seen_match {
                assert(gap(text, spans@, spans.len() as int) =~= Seq::<char>::empty());
            } else {
                assert(spans.len() == 0);
            }
        }
    }
    let triples = group_segments(&segments);
    proof {
        let flat = texts_of(segments@);
        if spans.len() == 0 {
            assert(flat.len() == 0);
            assert(grouped(flat) =~= segmentation(text, spans@, context));
        } else {
            lemma_grouped_is_segmentation(text, spans@, context, flat);
        }
    }
    triples
}

/// Cuts `s` into one triple per match of `re`, with at most `context_len`
/// characters of context on either side of each match. The matches can be
/// cut out one after the other, and there is a triple exactly when `re`
/// matches `s`.
pub fn segment_on_regex(s: &str, re: &Regex, context_len: usize) -> (triples: Vec<MatchTriple>)
    ensures
        triples_of(triples@) == segmentation(s@, regex_spans(*re, s@), context_len as nat),
        spans_in_order(s@, regex_spans(*re, s@)),
        triples.len() > 0 <==> regex_matches(*re, s@),
{
    let spans = find_spans(re, s);
    let triples = segment_spans(s, &spans, context_len);
    assert(triples_of(triples@).len() == spans.len());
    triples
}

/// No preamble and no postamble is longer than the context length, counted
/// in characters.
pub proof fn lemma_context_is_bounded(
    text: Seq<char>,
    spans: Seq<(usize, usize)>,
    context: nat,
    i: int,
)
    requires
        0 <= i < spans.len(),
    ensures
        segmentation(text, spans, context)[i].0.len() <= context,
        segmentation(text, spans, context)[i].2.len() <= context,
{
}

/// The matched text of a triple is the whole match, whatever the context
/// length, and it is not empty when the match spans at least one byte.
pub proof fn lemma_matched_is_whole(
    text: Seq<char>,
    spans: Seq<(usize, usize)>,
    context: nat,
    i: int,
)
    requires
        spans_in_order(text, spans),
        0 <= i < spans.len(),
    ensures
        segmentation(text, spans, context)[i].1 == byte_slice(
            text,
            spans[i].0 as int,
            spans[i].1 as int,
        ),
        spans[i].0 < spans[i].1 ==> segmentation(text, spans, context)[i].1.len() > 0,
{
    if spans[i].0 < spans[i].1 {
        lemma_slice_nonempty(text, spans[i].0 as int, spans[i].1 as int);
    }
}

/// The postamble of one triple and the preamble of the next are cut from the
/// same gap; when the gap is no longer than the context, both are the whole
/// gap.
pub proof fn lemma_neighbours_share_gap(
    text: Seq<char>,
    spans: Seq<(usize, usize)>,
    context: nat,
    i: int,
)
    requires
        0 <= i,
        i + 1 < spans.len(),
    ensures
        segmentation(text, spans, context)[i].2 == first_chars(gap(text, spans, i + 1), context),
        segmentation(text, spans, context)[i + 1].0 == last_chars(
            gap(text, spans, i + 1),
            context,
        ),
        gap(text, spans, i + 1).len() <= context ==> segmentation(text, spans, context)[i].2
            == segmentation(text, spans, context)[i + 1].0,
{
}

/// Segmenting the same run with the same pattern and the same context length
/// again gives the same triples in the same order.
pub proof fn lemma_segmentation_repeats(
    text: Seq<char>,
    re: Regex,
    context: nat,
    first: Seq<MatchTriple>,
    second: Seq<MatchTriple>,
)
    requires
        triples_of(first) == segmentation(text, regex_spans(re, text), context),
        triples_of(second) == segmentation(text, regex_spans(re, text), context),
    ensures
        first.len() == second.len(),
        forall|i: int| 0 <= i < first.len() ==> (#[trigger] first[i])@ == second[i]@,
{
    assert(triples_of(first).len() == first.len());
    assert(triples_of(second).len() == second.len());
    assert forall|i: int| 0 <= i < first.len() implies (#[trigger] first[i])@ == second[i]@ by {
        assert(triples_of(first)[i] == first[i]@);
        assert(triples_of(second)[i] == second[i]@);
    }
}

/// The first `count` triples laid end to end: the preamble of the first,
/// then for each triple its matched text and its postamble.
pub open spec fn stitched(triples: Seq<TripleText>, count: int) -> Seq<char>
    decreases count,
{
    if count <= 0 {
        Seq::empty()
    } else if count == 1 {
        triples[0].0 + triples[0].1 + triples[0].2
    } else {
        stitched(triples, count - 1) + triples[count - 1].1 + triples[count - 1].2
    }
}

proof fn lemma_gap_is_bounded(text: Seq<char>, spans: Seq<(usize, usize)>, i: int)
    requires
        spans_in_order(text, spans),
        0 <= i <= spans.len(),
    ensures
        is_boundary(text, gap_start(spans, i)),
        is_boundary(text, gap_end(text, spans, i)),
        gap_start(spans, i) <= gap_end(text, spans, i),
        gap(text, spans, i).len() <= text.len(),
{
    broadcast use {encode_utf8_valid_utf8, is_char_boundary_start_end_of_seq};

    assert(is_boundary(text, 0));
    assert(is_boundary(text, byte_len(text) as int));
    if i > 0 {
        assert(is_boundary(text, spans[i - 1].1 as int));
        lemma_boundary_in_range(text, spans[i - 1].1 as int);
    }
    if i < spans.len() {
        assert(is_boundary(text, spans[i].0 as int));
        if i > 0 {
            assert(spans[i - 1].1 <= spans[i].0);
        }
    }
    lemma_slice_is_subrange(text, gap_start(spans, i), gap_end(text, spans, i));
}

proof fn lemma_stitched_prefix(text: Seq<char>, spans: Seq<(usize, usize)>, context: nat, k: int)
    requires
        spans_in_order(text, spans),
        text.len() <= context,
        1 <= k <= spans.len(),
    ensures
        stitched(segmentation(text, spans, context), k) == byte_slice(
            text,
            0,
            gap_end(text, spans, k),
        ),
    decreases k,
{
    let triples = segmentation(text, spans, context);
    let start = spans[k - 1].0 as int;
    let end = spans[k - 1].1 as int;
    lemma_gap_is_bounded(text, spans, k - 1);
    lemma_gap_is_bounded(text, spans, k);
    assert(is_boundary(text, start) && is_boundary(text, end) && start <= end);
    assert(is_boundary(text, 0)) by {
        lemma_gap_is_bounded(text, spans, 0);
    }
    lemma_boundary_in_range(text, start);
    assert(triples[k - 1].1 == byte_slice(text, start, end));
    assert(triples[k - 1].2 == gap(text, spans, k));
    lemma_slice_join(text, 0, start, end);
    lemma_slice_join(text, 0, end, gap_end(text, spans, k));
    if k == 1 {
        assert(triples[0].0 == gap(text, spans, 0));
    } else {
        lemma_stitched_prefix(text, spans, context, k - 1);
    }
}

/// With a context at least as long as the text nothing is cut away: laid end
/// to end, the triples give the text back.
pub proof fn lemma_triples_tile_text(text: Seq<char>, spans: Seq<(usize, usize)>, context: nat)
    requires
        spans_in_order(text, spans),
        spans.len() > 0,
        text.len() <= context,
    ensures
        stitched(segmentation(text, spans, context), spans.len() as int) == text,
{
    lemma_stitched_prefix(text, spans, context, spans.len() as int);
    lemma_slice_whole(text);
}

} // verus!
