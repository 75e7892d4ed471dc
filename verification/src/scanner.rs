//! The per-file scanner: splits a file's bytes into lines, matches the
//! pattern against each line, and builds the file's record batch.

use vstd::prelude::*;

use crate::highlighter::{
    no_esc, sgr_code, spec_highlight, spec_match_count, strip_ansi, lemma_strip_highlight,
    TextHighlighter,
};
use crate::result::{
    cap_usize, rec_of, recs_of, spec_batch_totals, Record, ResultMessage, Totals,
};

verus! {

/// The index of the first newline byte at or after `start`, or the length
/// of the content where none remains.
pub open spec fn next_nl(c: Seq<u8>, start: int) -> int
    decreases c.len() - start,
{
    if start < 0 || start >= c.len() {
        c.len() as int
    } else if c[start] == 10 {
        start
    } else {
        next_nl(c, start + 1)
    }
}

/// `next_nl` lies between `start` and the length, points at a newline when
/// it is inside the content, and no newline lies before it.
pub proof fn lemma_next_nl(c: Seq<u8>, start: int)
    requires
        0 <= start <= c.len(),
    ensures
        start <= next_nl(c, start) <= c.len(),
        next_nl(c, start) < c.len() ==> c[next_nl(c, start)] == 10,
        forall|k: int| start <= k < next_nl(c, start) ==> c[k] != 10,
    decreases c.len() - start,
{
    if start < c.len() && c[start] != 10 {
        lemma_next_nl(c, start + 1);
    }
}

/// The lines of the content from `start` on: maximal newline-free runs,
/// with a trailing empty element from a terminal newline discarded.
pub open spec fn split_from(c: Seq<u8>, start: int) -> Seq<Seq<u8>>
    decreases c.len() - start,
    when 0 <= start
    via split_from_dec
{
    if start >= c.len() {
        seq![]
    } else {
        let j = next_nl(c, start);
        seq![c.subrange(start, j)] + (if j < c.len() {
            split_from(c, j + 1)
        } else {
            seq![]
        })
    }
}

#[via_fn]
proof fn split_from_dec(c: Seq<u8>, start: int) {
    if 0 <= start && start < c.len() {
        lemma_next_nl(c, start);
    }
}

/// The lines of a file's content, split on the newline byte; a trailing
/// newline produces no empty final line.
pub open spec fn spec_split_lines(c: Seq<u8>) -> Seq<Seq<u8>> {
    split_from(c, 0)
}

/// The number of lines of the content from `start` on.
pub open spec fn count_lines_from(c: Seq<u8>, start: int) -> int
    decreases c.len() - start,
    when 0 <= start
    via count_lines_from_dec
{
    if start >= c.len() {
        0
    } else {
        let j = next_nl(c, start);
        1 + (if j < c.len() {
            count_lines_from(c, j + 1)
        } else {
            0
        })
    }
}

#[via_fn]
proof fn count_lines_from_dec(c: Seq<u8>, start: int) {
    if 0 <= start && start < c.len() {
        lemma_next_nl(c, start);
    }
}

/// The total number of pattern matches over the lines from `start` on.
pub open spec fn match_total_from(c: Seq<u8>, start: int, pattern: Seq<char>) -> int
    decreases c.len() - start,
    when 0 <= start
    via match_total_from_dec
{
    if start >= c.len() {
        0
    } else {
        let j = next_nl(c, start);
        spec_match_count(pattern, c.subrange(start, j)) + (if j < c.len() {
            match_total_from(c, j + 1, pattern)
        } else {
            0
        })
    }
}

#[via_fn]
proof fn match_total_from_dec(c: Seq<u8>, start: int, pattern: Seq<char>) {
    if 0 <= start && start < c.len() {
        lemma_next_nl(c, start);
    }
}

/// The `Line` records a scan of the content from `start` on emits: one per
/// line the pattern matches in, carrying the line's index and its
/// highlighted text.
pub open spec fn scan_from(c: Seq<u8>, start: int, idx: int, pattern: Seq<char>, code: Seq<u8>) -> Seq<Record>
    decreases c.len() - start,
    when 0 <= start
    via scan_from_dec
{
    if start >= c.len() {
        seq![]
    } else {
        let j = next_nl(c, start);
        let line = c.subrange(start, j);
        (if spec_match_count(pattern, line) > 0 {
            seq![Record::Line { index: idx, content: spec_highlight(pattern, line, code) }]
        } else {
            seq![]
        }) + (if j < c.len() {
            scan_from(c, j + 1, idx + 1, pattern, code)
        } else {
            seq![]
        })
    }
}

#[via_fn]
proof fn scan_from_dec(c: Seq<u8>, start: int, idx: int, pattern: Seq<char>, code: Seq<u8>) {
    if 0 <= start && start < c.len() {
        lemma_next_nl(c, start);
    }
}

/// There are at least one and at most `c.len() - start` lines from any
/// in-content position, and none from the end.
pub proof fn lemma_count_lines_bounds(c: Seq<u8>, start: int)
    requires
        0 <= start <= c.len(),
    ensures
        start < c.len() ==> 1 <= count_lines_from(c, start) <= c.len() - start,
        start == c.len() ==> count_lines_from(c, start) == 0,
    decreases c.len() - start,
{
    if start < c.len() {
        let j = next_nl(c, start);
        lemma_next_nl(c, start);
        if j < c.len() {
            lemma_count_lines_bounds(c, j + 1);
        }
    }
}

/// Match totals are never negative.
pub proof fn lemma_match_total_nonneg(c: Seq<u8>, start: int, pattern: Seq<char>)
    requires
        0 <= start <= c.len(),
    ensures
        match_total_from(c, start, pattern) >= 0,
    decreases c.len() - start,
{
    if start < c.len() {
        let j = next_nl(c, start);
        lemma_next_nl(c, start);
        if j < c.len() {
            lemma_match_total_nonneg(c, j + 1, pattern);
        }
    }
}

/// The line count is the length of the split.
pub proof fn lemma_count_is_split_len(c: Seq<u8>, start: int)
    requires
        0 <= start <= c.len(),
    ensures
        count_lines_from(c, start) == split_from(c, start).len(),
    decreases c.len() - start,
{
    if start < c.len() {
        let j = next_nl(c, start);
        lemma_next_nl(c, start);
        if j < c.len() {
            lemma_count_is_split_len(c, j + 1);
        }
    }
}

/// No split line holds a newline byte: each line is a maximal run of
/// bytes between newlines.
pub proof fn lemma_split_lines_hold_no_newline(c: Seq<u8>, start: int)
    requires
        0 <= start <= c.len(),
    ensures
        forall|i: int, k: int|
            0 <= i < split_from(c, start).len() && 0 <= k < split_from(c, start)[i].len()
                ==> #[trigger] split_from(c, start)[i][k] != 10,
    decreases c.len() - start,
{
    if start < c.len() {
        let j = next_nl(c, start);
        lemma_next_nl(c, start);
        let here = seq![c.subrange(start, j)];
        let tail: Seq<Seq<u8>> = if j < c.len() {
            split_from(c, j + 1)
        } else {
            seq![]
        };
        if j < c.len() {
            lemma_split_lines_hold_no_newline(c, j + 1);
        }
        let whole = split_from(c, start);
        assert(whole == here + tail);
        assert(forall|i: int|
            1 <= i < whole.len() ==> #[trigger] whole[i] == tail[i - 1]);
        assert(whole[0] == c.subrange(start, j));
        assert(forall|k: int| 0 <= k < j - start ==> c.subrange(start, j)[k] == c[start + k]);
    }
}

/// Scans the whole content of one file, already in memory.
///
/// Returns the `Line` records for every line the pattern matches in, the
/// number of lines the content holds, and the total number of pattern
/// matches (saturating at the largest `usize`).
pub fn process_content(hl: &TextHighlighter, content: &[u8]) -> (r: (Vec<ResultMessage>, usize, usize))
    ensures
        recs_of(r.0@) == scan_from(content@, 0, 0, hl.pattern(), hl.code()),
        r.1 == count_lines_from(content@, 0),
        r.1 == spec_split_lines(content@).len(),
        r.2 == cap_usize(match_total_from(content@, 0, hl.pattern())),
{
    proof {
        lemma_count_is_split_len(content@, 0);
    }
    let ghost c = content@;
    let ghost pattern = hl.pattern();
    let ghost code = hl.code();
    let n = content.len();
    let mut msgs: Vec<ResultMessage> = Vec::new();
    let mut lines: usize = 0;
    let mut matched: usize = 0;
    let ghost mut mtotal: int = 0;
    let mut start: usize = 0;
    while start < n
        invariant
            n == c.len(),
            c == content@,
            pattern == hl.pattern(),
            code == hl.code(),
            start <= n,
            lines as int + count_lines_from(c, start as int) == count_lines_from(c, 0),
            mtotal + match_total_from(c, start as int, pattern) == match_total_from(c, 0, pattern),
            mtotal >= 0,
            matched as int == cap_usize(mtotal),
            recs_of(msgs@) + scan_from(c, start as int, lines as int, pattern, code) == scan_from(
                c,
                0,
                0,
                pattern,
                code,
            ),
        decreases n - start,
    {
        let ghost start0 = start as int;
        let mut j = start;
        while j < n && content[j] != 10
            invariant
                n == c.len(),
                c == content@,
                start <= j <= n,
                next_nl(c, start as int) == next_nl(c, j as int),
            decreases n - j,
        {
            j = j + 1;
        }
        proof {
            lemma_next_nl(c, start0);
            assert(next_nl(c, j as int) == j as int);
        }
        let line: &[u8] = &content[start..j];
        let cnt = hl.count_matches(line);
        proof {
            lemma_count_lines_bounds(c, 0);
            lemma_count_lines_bounds(c, start0);
            lemma_match_total_nonneg(c, start0, pattern);
            if j < n {
                lemma_count_lines_bounds(c, j as int + 1);
                lemma_match_total_nonneg(c, j as int + 1, pattern);
            }
        }
        let ghost msgs0 = msgs@;
        if cnt > 0 {
            let hlv = hl.highlight(line);
            msgs.push(ResultMessage::Line { index: lines, content: hlv });
            proof {
                assert(recs_of(msgs@) =~= recs_of(msgs0).push(
                    Record::Line {
                        index: lines as int,
                        content: spec_highlight(pattern, c.subrange(start0, j as int), code),
                    },
                ));
            }
        }
        matched = matched.saturating_add(cnt);
        proof {
            mtotal = mtotal + cnt as int;
            let here = scan_from(c, start0, lines as int, pattern, code);
            let tail = if j < n {
                scan_from(c, j as int + 1, lines as int + 1, pattern, code)
            } else {
                Seq::<Record>::empty()
            };
            if cnt > 0 {
                assert(here =~= seq![
                    Record::Line {
                        index: lines as int,
                        content: spec_highlight(pattern, c.subrange(start0, j as int), code),
                    },
                ] + tail);
            } else {
                assert(here =~= tail);
            }
            assert(recs_of(msgs@) + tail =~= recs_of(msgs0) + here);
        }
        lines = lines + 1;
        if j < n {
            start = j + 1;
        } else {
            start = n;
            proof {
                assert(count_lines_from(c, n as int) == 0);
                assert(match_total_from(c, n as int, pattern) == 0);
                assert(scan_from(c, n as int, lines as int, pattern, code) =~= Seq::<
                    Record,
                >::empty());
            }
        }
    }
    proof {
        assert(count_lines_from(c, n as int) == 0);
        assert(match_total_from(c, n as int, pattern) == 0);
        assert(scan_from(c, n as int, lines as int, pattern, code) =~= Seq::<Record>::empty());
        assert(recs_of(msgs@) =~= recs_of(msgs@) + Seq::<Record>::empty());
    }
    (msgs, lines, matched)
}

/// The batch a whole-content scan of one file produces: a header, the
/// matched lines, the per-file statistics where asked for, and a final done
/// record.
pub open spec fn spec_content_batch(
    path: Seq<char>,
    c: Seq<u8>,
    pattern: Seq<char>,
    code: Seq<u8>,
    show_stats: bool,
) -> Seq<Record> {
    seq![Record::Header(path)] + scan_from(c, 0, 0, pattern, code) + (if show_stats {
        seq![
            Record::Stats {
                lines: count_lines_from(c, 0),
                matched: cap_usize(match_total_from(c, 0, pattern)),
                skipped: 0,
            },
        ]
    } else {
        seq![]
    }) + seq![Record::Done]
}

/// Scans one file whose whole content is in memory, as the bulk-read and
/// memory-map strategies provide it, and builds its record batch.
pub fn process_file_content(
    path: &String,
    hl: &TextHighlighter,
    content: &[u8],
    show_stats: bool,
) -> (r: Vec<ResultMessage>)
    ensures
        recs_of(r@) == spec_content_batch(path@, content@, hl.pattern(), hl.code(), show_stats),
{
    let mut msgs: Vec<ResultMessage> = Vec::new();
    msgs.push(ResultMessage::Header(path.clone()));
    let (mut body, lines, matched) = process_content(hl, content);
    msgs.append(&mut body);
    if show_stats {
        msgs.push(ResultMessage::SearchStats { lines, matched, skipped: 0 });
    }
    msgs.push(ResultMessage::Done);
    proof {
        assert(recs_of(msgs@) =~= spec_content_batch(
            path@,
            content@,
            hl.pattern(),
            hl.code(),
            show_stats,
        ));
    }
    msgs
}

/// One line handed over by a streaming reader: either the line's bytes, or
/// a read failure in its place.
pub enum LineEvent {
    Read(Vec<u8>),
    Failed,
}

/// The `Line` records a streaming scan emits from event `k` on. Line
/// indices advance over failed reads too.
pub open spec fn ev_scan(evs: Seq<LineEvent>, k: int, pattern: Seq<char>, code: Seq<u8>) -> Seq<
    Record,
>
    decreases evs.len() - k,
{
    if k < 0 || k >= evs.len() {
        seq![]
    } else {
        (match evs[k] {
            LineEvent::Read(v) => {
                if spec_match_count(pattern, v@) > 0 {
                    seq![Record::Line { index: k, content: spec_highlight(pattern, v@, code) }]
                } else {
                    seq![]
                }
            },
            LineEvent::Failed => seq![],
        }) + ev_scan(evs, k + 1, pattern, code)
    }
}

/// The number of successfully read lines from event `k` on.
pub open spec fn ev_lines(evs: Seq<LineEvent>, k: int) -> int
    decreases evs.len() - k,
{
    if k < 0 || k >= evs.len() {
        0
    } else {
        (if evs[k] is Read {
            1int
        } else {
            0int
        }) + ev_lines(evs, k + 1)
    }
}

/// The number of failed line reads from event `k` on.
pub open spec fn ev_skipped(evs: Seq<LineEvent>, k: int) -> int
    decreases evs.len() - k,
{
    if k < 0 || k >= evs.len() {
        0
    } else {
        (if evs[k] is Failed {
            1int
        } else {
            0int
        }) + ev_skipped(evs, k + 1)
    }
}

/// The total number of pattern matches over the lines read from event `k`
/// on.
pub open spec fn ev_match_total(evs: Seq<LineEvent>, k: int, pattern: Seq<char>) -> int
    decreases evs.len() - k,
{
    if k < 0 || k >= evs.len() {
        0
    } else {
        (match evs[k] {
            LineEvent::Read(v) => spec_match_count(pattern, v@),
            LineEvent::Failed => 0,
        }) + ev_match_total(evs, k + 1, pattern)
    }
}

/// Read and failed lines together account for every event: in streaming
/// mode, lines plus skipped is the number of physical lines of the file.
pub proof fn lemma_lines_plus_skipped(evs: Seq<LineEvent>, k: int)
    requires
        0 <= k <= evs.len(),
    ensures
        ev_lines(evs, k) + ev_skipped(evs, k) == evs.len() - k,
        0 <= ev_lines(evs, k),
        0 <= ev_skipped(evs, k),
    decreases evs.len() - k,
{
    if k < evs.len() {
        lemma_lines_plus_skipped(evs, k + 1);
    }
}

/// Streaming match totals are never negative.
proof fn lemma_ev_match_total_nonneg(evs: Seq<LineEvent>, k: int, pattern: Seq<char>)
    requires
        0 <= k <= evs.len(),
    ensures
        ev_match_total(evs, k, pattern) >= 0,
    decreases evs.len() - k,
{
    if k < evs.len() {
        lemma_ev_match_total_nonneg(evs, k + 1, pattern);
    }
}

/// Scans the lines a streaming reader handed over, one event per physical
/// line of the file.
///
/// Returns the `Line` records for every line the pattern matches in, the
/// number of lines read, the total number of pattern matches (saturating at
/// the largest `usize`), and the number of lines skipped over read
/// failures. Lines read and skipped always add up to the number of events.
pub fn process_events(hl: &TextHighlighter, events: &Vec<LineEvent>) -> (r: (
    Vec<ResultMessage>,
    usize,
    usize,
    usize,
))
    ensures
        recs_of(r.0@) == ev_scan(events@, 0, hl.pattern(), hl.code()),
        r.1 == ev_lines(events@, 0),
        r.2 == cap_usize(ev_match_total(events@, 0, hl.pattern())),
        r.3 == ev_skipped(events@, 0),
        r.1 + r.3 == events@.len(),
{
    let ghost evs = events@;
    let ghost pattern = hl.pattern();
    let ghost code = hl.code();
    let n = events.len();
    let mut msgs: Vec<ResultMessage> = Vec::new();
    let mut lines: usize = 0;
    let mut skipped: usize = 0;
    let mut matched: usize = 0;
    let ghost mut mtotal: int = 0;
    let mut k: usize = 0;
    while k < n
        invariant
            n == evs.len(),
            evs == events@,
            pattern == hl.pattern(),
            code == hl.code(),
            k <= n,
            lines as int + skipped as int == k as int,
            lines as int + ev_lines(evs, k as int) == ev_lines(evs, 0),
            skipped as int + ev_skipped(evs, k as int) == ev_skipped(evs, 0),
            mtotal + ev_match_total(evs, k as int, pattern) == ev_match_total(evs, 0, pattern),
            mtotal >= 0,
            matched as int == cap_usize(mtotal),
            recs_of(msgs@) + ev_scan(evs, k as int, pattern, code) == ev_scan(evs, 0, pattern, code),
        decreases n - k,
    {
        let ghost msgs0 = msgs@;
        let ghost here = ev_scan(evs, k as int, pattern, code);
        let ghost tail = ev_scan(evs, k as int + 1, pattern, code);
        match &events[k] {
            LineEvent::Read(v) => {
                let cnt = hl.count_matches(v.as_slice());
                if cnt > 0 {
                    let hlv = hl.highlight(v.as_slice());
                    msgs.push(ResultMessage::Line { index: k, content: hlv });
                    proof {
                        assert(recs_of(msgs@) =~= recs_of(msgs0).push(
                            Record::Line {
                                index: k as int,
                                content: spec_highlight(pattern, v@, code),
                            },
                        ));
                        assert(here =~= seq![
                            Record::Line {
                                index: k as int,
                                content: spec_highlight(pattern, v@, code),
                            },
                        ] + tail);
                    }
                } else {
                    proof {
                        assert(here =~= tail);
                    }
                }
                matched = matched.saturating_add(cnt);
                proof {
                    lemma_ev_match_total_nonneg(evs, k as int + 1, pattern);
                    mtotal = mtotal + cnt as int;
                }
                lines = lines + 1;
            },
            LineEvent::Failed => {
                proof {
                    assert(here =~= tail);
                }
                skipped = skipped + 1;
            },
        }
        proof {
            assert(recs_of(msgs@) + tail =~= recs_of(msgs0) + here);
        }
        k = k + 1;
    }
    proof {
        assert(ev_scan(evs, n as int, pattern, code) =~= Seq::<Record>::empty());
        assert(recs_of(msgs@) =~= recs_of(msgs@) + Seq::<Record>::empty());
        lemma_lines_plus_skipped(evs, 0);
    }
    (msgs, lines, matched, skipped)
}

/// The batch a streaming scan of one file produces.
pub open spec fn spec_events_batch(
    path: Seq<char>,
    evs: Seq<LineEvent>,
    pattern: Seq<char>,
    code: Seq<u8>,
    show_stats: bool,
) -> Seq<Record> {
    seq![Record::Header(path)] + ev_scan(evs, 0, pattern, code) + (if show_stats {
        seq![
            Record::Stats {
                lines: ev_lines(evs, 0),
                matched: cap_usize(ev_match_total(evs, 0, pattern)),
                skipped: ev_skipped(evs, 0),
            },
        ]
    } else {
        seq![]
    }) + seq![Record::Done]
}

/// Scans one file read line by line, as the streaming strategy provides it,
/// and builds its record batch.
pub fn process_file_events(
    path: &String,
    hl: &TextHighlighter,
    events: &Vec<LineEvent>,
    show_stats: bool,
) -> (r: Vec<ResultMessage>)
    ensures
        recs_of(r@) == spec_events_batch(path@, events@, hl.pattern(), hl.code(), show_stats),
{
    let mut msgs: Vec<ResultMessage> = Vec::new();
    msgs.push(ResultMessage::Header(path.clone()));
    let (mut body, lines, matched, skipped) = process_events(hl, events);
    msgs.append(&mut body);
    if show_stats {
        msgs.push(ResultMessage::SearchStats { lines, matched, skipped });
    }
    msgs.push(ResultMessage::Done);
    proof {
        assert(recs_of(msgs@) =~= spec_events_batch(
            path@,
            events@,
            hl.pattern(),
            hl.code(),
            show_stats,
        ));
    }
    msgs
}

/// The batch of a file that could not be read at all: its header, the
/// failure, and the closing done record; no lines and no statistics.
pub open spec fn spec_error_batch(path: Seq<char>, message: Seq<char>) -> Seq<Record> {
    seq![Record::Header(path), Record::Error(message), Record::Done]
}

/// Builds the batch of a file that could not be opened, read or decoded.
pub fn error_batch(path: &String, message: String) -> (r: Vec<ResultMessage>)
    ensures
        recs_of(r@) == spec_error_batch(path@, message@),
{
    let mut msgs: Vec<ResultMessage> = Vec::new();
    msgs.push(ResultMessage::Header(path.clone()));
    msgs.push(ResultMessage::Error(message));
    msgs.push(ResultMessage::Done);
    proof {
        assert(recs_of(msgs@) =~= spec_error_batch(path@, message@));
    }
    msgs
}

/// The number of `Header` records in a record sequence.
pub open spec fn count_header(recs: Seq<Record>) -> int
    decreases recs.len(),
{
    if recs.len() == 0 {
        0
    } else {
        (if recs[0] is Header {
            1int
        } else {
            0int
        }) + count_header(recs.drop_first())
    }
}

/// The number of `Done` records in a record sequence.
pub open spec fn count_done(recs: Seq<Record>) -> int
    decreases recs.len(),
{
    if recs.len() == 0 {
        0
    } else {
        (if recs[0] is Done {
            1int
        } else {
            0int
        }) + count_done(recs.drop_first())
    }
}

/// Header and done counts distribute over concatenation.
proof fn lemma_counts_concat(a: Seq<Record>, b: Seq<Record>)
    ensures
        count_header(a + b) == count_header(a) + count_header(b),
        count_done(a + b) == count_done(a) + count_done(b),
    decreases a.len(),
{
    if a.len() == 0 {
        assert(a + b =~= b);
    } else {
        assert((a + b).drop_first() =~= a.drop_first() + b);
        lemma_counts_concat(a.drop_first(), b);
    }
}

/// A sequence of `Line` records holds no header and no done record.
proof fn lemma_counts_zero_for_lines(recs: Seq<Record>)
    requires
        all_lines(recs),
    ensures
        count_header(recs) == 0,
        count_done(recs) == 0,
    decreases recs.len(),
{
    if recs.len() > 0 {
        assert(all_lines(recs.drop_first())) by {
            assert(forall|i: int|
                0 <= i < recs.drop_first().len() ==> #[trigger] recs.drop_first()[i] == recs[i
                    + 1]);
        }
        lemma_counts_zero_for_lines(recs.drop_first());
    }
}

/// Every batch a scan produces holds exactly one `Header`, which comes
/// first, and exactly one `Done`, which comes last — whether the file was
/// scanned whole, streamed line by line, or failed to open.
pub proof fn lemma_one_header_one_done(
    path: Seq<char>,
    c: Seq<u8>,
    evs: Seq<LineEvent>,
    message: Seq<char>,
    pattern: Seq<char>,
    code: Seq<u8>,
    show_stats: bool,
)
    ensures
        count_header(spec_content_batch(path, c, pattern, code, show_stats)) == 1,
        count_done(spec_content_batch(path, c, pattern, code, show_stats)) == 1,
        spec_content_batch(path, c, pattern, code, show_stats).first() == Record::Header(path),
        spec_content_batch(path, c, pattern, code, show_stats).last() == Record::Done,
        count_header(spec_events_batch(path, evs, pattern, code, show_stats)) == 1,
        count_done(spec_events_batch(path, evs, pattern, code, show_stats)) == 1,
        spec_events_batch(path, evs, pattern, code, show_stats).first() == Record::Header(path),
        spec_events_batch(path, evs, pattern, code, show_stats).last() == Record::Done,
        count_header(spec_error_batch(path, message)) == 1,
        count_done(spec_error_batch(path, message)) == 1,
        spec_error_batch(path, message).first() == Record::Header(path),
        spec_error_batch(path, message).last() == Record::Done,
{
    let head = seq![Record::Header(path)];
    let fin = seq![Record::Done];
    let cstats: Seq<Record> = if show_stats {
        seq![
            Record::Stats {
                lines: count_lines_from(c, 0),
                matched: cap_usize(match_total_from(c, 0, pattern)),
                skipped: 0,
            },
        ]
    } else {
        seq![]
    };
    let estats: Seq<Record> = if show_stats {
        seq![
            Record::Stats {
                lines: ev_lines(evs, 0),
                matched: cap_usize(ev_match_total(evs, 0, pattern)),
                skipped: ev_skipped(evs, 0),
            },
        ]
    } else {
        seq![]
    };
    let cmid = scan_from(c, 0, 0, pattern, code);
    let emid = ev_scan(evs, 0, pattern, code);
    lemma_scan_all_lines(c, 0, 0, pattern, code);
    lemma_counts_zero_for_lines(cmid);
    lemma_ev_scan_all_lines(evs, 0, pattern, code);
    lemma_counts_zero_for_lines(emid);
    lemma_counts_concat(head, cmid);
    lemma_counts_concat(head + cmid, cstats);
    lemma_counts_concat(head + cmid + cstats, fin);
    lemma_counts_concat(head, emid);
    lemma_counts_concat(head + emid, estats);
    lemma_counts_concat(head + emid + estats, fin);
    reveal_with_fuel(count_header, 4);
    reveal_with_fuel(count_done, 4);
    assert(count_header(cstats) == 0 && count_done(cstats) == 0);
    assert(count_header(estats) == 0 && count_done(estats) == 0);
    assert(spec_error_batch(path, message).drop_first() =~= seq![
        Record::Error(message),
        Record::Done,
    ]);
    assert(spec_error_batch(path, message).drop_first().drop_first() =~= seq![Record::Done]);
    assert(seq![Record::Done].drop_first() =~= Seq::<Record>::empty());
}

/// A record sequence of `Line` records only.
pub open spec fn all_lines(recs: Seq<Record>) -> bool {
    forall|i: int| 0 <= i < recs.len() ==> #[trigger] recs[i] is Line
}

/// A whole-content scan emits `Line` records only (as a quantified fact).
proof fn lemma_scan_all_lines(c: Seq<u8>, start: int, idx: int, pattern: Seq<char>, code: Seq<u8>)
    requires
        0 <= start,
    ensures
        all_lines(scan_from(c, start, idx, pattern, code)),
    decreases c.len() - start,
{
    if start < c.len() {
        let j = next_nl(c, start);
        lemma_next_nl(c, start);
        let line = c.subrange(start, j);
        let here: Seq<Record> = if spec_match_count(pattern, line) > 0 {
            seq![Record::Line { index: idx, content: spec_highlight(pattern, line, code) }]
        } else {
            seq![]
        };
        let tail: Seq<Record> = if j < c.len() {
            scan_from(c, j + 1, idx + 1, pattern, code)
        } else {
            seq![]
        };
        if j < c.len() {
            lemma_scan_all_lines(c, j + 1, idx + 1, pattern, code);
        }
        assert(scan_from(c, start, idx, pattern, code) == here + tail);
        assert(forall|i: int|
            0 <= i < (here + tail).len() ==> #[trigger] (here + tail)[i] is Line) by {
            assert(forall|i: int|
                here.len() <= i < (here + tail).len() ==> (here + tail)[i] == tail[i - here.len()]);
        }
    }
}

/// A streaming scan emits `Line` records only (as a quantified fact).
proof fn lemma_ev_scan_all_lines(evs: Seq<LineEvent>, k: int, pattern: Seq<char>, code: Seq<u8>)
    requires
        0 <= k,
    ensures
        all_lines(ev_scan(evs, k, pattern, code)),
    decreases evs.len() - k,
{
    if k < evs.len() {
        let here: Seq<Record> = match evs[k] {
            LineEvent::Read(v) => {
                if spec_match_count(pattern, v@) > 0 {
                    seq![Record::Line { index: k, content: spec_highlight(pattern, v@, code) }]
                } else {
                    seq![]
                }
            },
            LineEvent::Failed => seq![],
        };
        let tail = ev_scan(evs, k + 1, pattern, code);
        lemma_ev_scan_all_lines(evs, k + 1, pattern, code);
        assert(ev_scan(evs, k, pattern, code) == here + tail);
        assert(forall|i: int|
            0 <= i < (here + tail).len() ==> #[trigger] (here + tail)[i] is Line) by {
            assert(forall|i: int|
                here.len() <= i < (here + tail).len() ==> (here + tail)[i] == tail[i - here.len()]);
        }
    }
}

/// `Line` records do not change the run totals: the sink's fold walks
/// straight through them.
proof fn lemma_fold_skips_lines(t: Totals, a: Seq<Record>, b: Seq<Record>)
    requires
        all_lines(a),
    ensures
        spec_batch_totals(t, a + b) == spec_batch_totals(t, b),
    decreases a.len(),
{
    if a.len() == 0 {
        assert(a + b =~= b);
    } else {
        assert((a + b)[0] == a[0]);
        assert((a + b).drop_first() =~= a.drop_first() + b);
        assert(all_lines(a.drop_first())) by {
            assert(forall|i: int|
                0 <= i < a.drop_first().len() ==> #[trigger] a.drop_first()[i] == a[i + 1]);
        }
        lemma_fold_skips_lines(t, a.drop_first(), b);
    }
}

/// The sink's fold of one wrapped batch: one header, matched lines only, an
/// optional statistics record, one done record.
proof fn lemma_fold_batch_core(
    t: Totals,
    path: Seq<char>,
    mid: Seq<Record>,
    stats: Seq<Record>,
    l: int,
    m: int,
    sk: int,
)
    requires
        all_lines(mid),
        stats.len() <= 1,
        stats.len() == 1 ==> stats[0] == (Record::Stats { lines: l, matched: m, skipped: sk }),
    ensures
        spec_batch_totals(t, seq![Record::Header(path)] + mid + stats + seq![Record::Done]) == (
        Totals {
            files: cap_usize(t.files + 1),
            lines: if stats.len() == 1 {
                cap_usize(t.lines + l)
            } else {
                t.lines
            },
            matched: if stats.len() == 1 {
                cap_usize(t.matched + m)
            } else {
                t.matched
            },
            skipped: if stats.len() == 1 {
                cap_usize(t.skipped + sk)
            } else {
                t.skipped
            },
            errors: t.errors,
        }),
{
    let fin = seq![Record::Done];
    let batch = seq![Record::Header(path)] + mid + stats + fin;
    assert(batch[0] == Record::Header(path));
    assert(batch.drop_first() =~= mid + (stats + fin));
    lemma_fold_skips_lines(t, mid, stats + fin);
    if stats.len() == 1 {
        assert((stats + fin)[0] == stats[0]);
        assert((stats + fin).drop_first() =~= fin);
        let t2 = Totals {
            files: t.files,
            lines: cap_usize(t.lines + l),
            matched: cap_usize(t.matched + m),
            skipped: cap_usize(t.skipped + sk),
            errors: t.errors,
        };
        assert(spec_batch_totals(t2, fin) == Totals {
            files: cap_usize(t2.files + 1),
            lines: t2.lines,
            matched: t2.matched,
            skipped: t2.skipped,
            errors: t2.errors,
        });
    } else {
        assert(stats + fin =~= fin);
    }
}

/// Consuming one file's batch counts exactly one file in the run totals —
/// the sink's files-processed counter equals the number of done records it
/// consumed — and adds exactly that file's statistics, whether the file was
/// scanned whole, streamed, or failed to open (a failure adds one error
/// instead).
pub proof fn lemma_sink_accumulates_batch(
    t: Totals,
    path: Seq<char>,
    c: Seq<u8>,
    evs: Seq<LineEvent>,
    message: Seq<char>,
    pattern: Seq<char>,
    code: Seq<u8>,
    show_stats: bool,
)
    ensures
        ({
            let u = spec_batch_totals(t, spec_content_batch(path, c, pattern, code, show_stats));
            &&& u.files == cap_usize(t.files + 1)
            &&& u.errors == t.errors
            &&& show_stats ==> u.lines == cap_usize(t.lines + count_lines_from(c, 0)) && u.matched
                == cap_usize(t.matched + cap_usize(match_total_from(c, 0, pattern))) && u.skipped
                == cap_usize(t.skipped + 0)
            &&& !show_stats ==> u.lines == t.lines && u.matched == t.matched && u.skipped
                == t.skipped
        }),
        ({
            let u = spec_batch_totals(t, spec_events_batch(path, evs, pattern, code, show_stats));
            &&& u.files == cap_usize(t.files + 1)
            &&& u.errors == t.errors
            &&& show_stats ==> u.lines == cap_usize(t.lines + ev_lines(evs, 0)) && u.matched
                == cap_usize(t.matched + cap_usize(ev_match_total(evs, 0, pattern))) && u.skipped
                == cap_usize(t.skipped + ev_skipped(evs, 0))
            &&& !show_stats ==> u.lines == t.lines && u.matched == t.matched && u.skipped
                == t.skipped
        }),
        spec_batch_totals(t, spec_error_batch(path, message)) == (Totals {
            files: cap_usize(t.files + 1),
            lines: t.lines,
            matched: t.matched,
            skipped: t.skipped,
            errors: cap_usize(t.errors + 1),
        }),
{
    let cmid = scan_from(c, 0, 0, pattern, code);
    let cstats: Seq<Record> = if show_stats {
        seq![
            Record::Stats {
                lines: count_lines_from(c, 0),
                matched: cap_usize(match_total_from(c, 0, pattern)),
                skipped: 0,
            },
        ]
    } else {
        seq![]
    };
    lemma_scan_all_lines(c, 0, 0, pattern, code);
    lemma_fold_batch_core(
        t,
        path,
        cmid,
        cstats,
        count_lines_from(c, 0),
        cap_usize(match_total_from(c, 0, pattern)),
        0,
    );
    let emid = ev_scan(evs, 0, pattern, code);
    let estats: Seq<Record> = if show_stats {
        seq![
            Record::Stats {
                lines: ev_lines(evs, 0),
                matched: cap_usize(ev_match_total(evs, 0, pattern)),
                skipped: ev_skipped(evs, 0),
            },
        ]
    } else {
        seq![]
    };
    lemma_ev_scan_all_lines(evs, 0, pattern, code);
    lemma_fold_batch_core(
        t,
        path,
        emid,
        estats,
        ev_lines(evs, 0),
        cap_usize(ev_match_total(evs, 0, pattern)),
        ev_skipped(evs, 0),
    );
    let eb = spec_error_batch(path, message);
    let e1 = seq![Record::Error(message), Record::Done];
    let e2 = seq![Record::Done];
    let t1 = Totals {
        files: t.files,
        lines: t.lines,
        matched: t.matched,
        skipped: t.skipped,
        errors: cap_usize(t.errors + 1),
    };
    assert(eb[0] == Record::Header(path));
    assert(eb.drop_first() =~= e1);
    assert(spec_batch_totals(t, eb) == spec_batch_totals(t, e1));
    assert(e1[0] == Record::Error(message));
    assert(e1.drop_first() =~= e2);
    assert(spec_batch_totals(t, e1) == spec_batch_totals(t1, e2));
    assert(e2[0] == Record::Done);
}

/// The `Line` records of a whole-content scan carry strictly ascending
/// line indices, all at least the starting index: within one file's batch
/// the matched lines come in file order.
pub proof fn lemma_scan_indices_ascend(
    c: Seq<u8>,
    start: int,
    idx: int,
    pattern: Seq<char>,
    code: Seq<u8>,
)
    requires
        0 <= start,
    ensures
        forall|i: int|
            0 <= i < scan_from(c, start, idx, pattern, code).len() ==> (#[trigger] scan_from(
                c,
                start,
                idx,
                pattern,
                code,
            )[i])->Line_index >= idx,
        forall|i: int, j: int|
            0 <= i < j < scan_from(c, start, idx, pattern, code).len() ==> scan_from(
                c,
                start,
                idx,
                pattern,
                code,
            )[i]->Line_index < scan_from(c, start, idx, pattern, code)[j]->Line_index,
    decreases c.len() - start,
{
    if start < c.len() {
        let j = next_nl(c, start);
        lemma_next_nl(c, start);
        let line = c.subrange(start, j);
        let here: Seq<Record> = if spec_match_count(pattern, line) > 0 {
            seq![Record::Line { index: idx, content: spec_highlight(pattern, line, code) }]
        } else {
            seq![]
        };
        let tail: Seq<Record> = if j < c.len() {
            scan_from(c, j + 1, idx + 1, pattern, code)
        } else {
            seq![]
        };
        if j < c.len() {
            lemma_scan_indices_ascend(c, j + 1, idx + 1, pattern, code);
        }
        let whole = scan_from(c, start, idx, pattern, code);
        assert(whole == here + tail);
        assert(forall|i: int|
            here.len() <= i < whole.len() ==> #[trigger] whole[i] == tail[i - here.len()]);
        assert(forall|i: int| 0 <= i < here.len() ==> #[trigger] whole[i] == here[i]);
    }
}

/// The sum, over the `Line` records of a sequence, of the pattern's match
/// count in each record's content with its escape sequences stripped.
pub open spec fn emitted_match_sum(recs: Seq<Record>, pattern: Seq<char>) -> int
    decreases recs.len(),
{
    if recs.len() == 0 {
        0
    } else {
        (match recs[0] {
            Record::Line { content, .. } => spec_match_count(pattern, strip_ansi(content)),
            _ => 0,
        }) + emitted_match_sum(recs.drop_first(), pattern)
    }
}

/// Emitted match sums distribute over concatenation.
proof fn lemma_emitted_sum_concat(a: Seq<Record>, b: Seq<Record>, pattern: Seq<char>)
    ensures
        emitted_match_sum(a + b, pattern) == emitted_match_sum(a, pattern) + emitted_match_sum(
            b,
            pattern,
        ),
    decreases a.len(),
{
    if a.len() == 0 {
        assert(a + b =~= b);
    } else {
        assert((a + b).drop_first() =~= a.drop_first() + b);
        lemma_emitted_sum_concat(a.drop_first(), b, pattern);
    }
}

/// The matched total of a whole-content scan equals the sum, over the
/// emitted `Line` records, of the pattern's match count in the unhighlighted
/// original line — for content without escape bytes of its own and an
/// all-digit SGR parameter.
pub proof fn lemma_matched_is_emitted_sum(
    c: Seq<u8>,
    start: int,
    idx: int,
    pattern: Seq<char>,
    code: Seq<u8>,
)
    requires
        0 <= start <= c.len(),
        no_esc(c),
        sgr_code(code),
    ensures
        emitted_match_sum(scan_from(c, start, idx, pattern, code), pattern) == match_total_from(
            c,
            start,
            pattern,
        ),
    decreases c.len() - start,
{
    if start < c.len() {
        let j = next_nl(c, start);
        lemma_next_nl(c, start);
        let line = c.subrange(start, j);
        assert(no_esc(line)) by {
            assert(forall|i: int| 0 <= i < line.len() ==> #[trigger] line[i] == c[start + i]);
        }
        lemma_strip_highlight(pattern, line, code);
        let here: Seq<Record> = if spec_match_count(pattern, line) > 0 {
            seq![Record::Line { index: idx, content: spec_highlight(pattern, line, code) }]
        } else {
            seq![]
        };
        let tail: Seq<Record> = if j < c.len() {
            scan_from(c, j + 1, idx + 1, pattern, code)
        } else {
            seq![]
        };
        if j < c.len() {
            lemma_matched_is_emitted_sum(c, j + 1, idx + 1, pattern, code);
        }
        lemma_emitted_sum_concat(here, tail, pattern);
        assert(scan_from(c, start, idx, pattern, code) == here + tail);
        if spec_match_count(pattern, line) > 0 {
            assert(here.drop_first() =~= Seq::<Record>::empty());
            assert(emitted_match_sum(here, pattern) == spec_match_count(pattern, line)) by {
                reveal_with_fuel(emitted_match_sum, 2);
                assert(here.drop_first() =~= Seq::<Record>::empty());
                assert(strip_ansi(spec_highlight(pattern, line, code)) == line);
            }
        }
    }
}

/// An empty file's batch is its header, the zero statistics where asked
/// for, and the done record — nothing else.
pub proof fn lemma_empty_file_batch(path: Seq<char>, pattern: Seq<char>, code: Seq<u8>)
    ensures
        spec_content_batch(path, seq![], pattern, code, true) == seq![
            Record::Header(path),
            Record::Stats { lines: 0, matched: 0, skipped: 0 },
            Record::Done,
        ],
        spec_content_batch(path, seq![], pattern, code, false) == seq![
            Record::Header(path),
            Record::Done,
        ],
{
    let e: Seq<u8> = seq![];
    assert(scan_from(e, 0, 0, pattern, code) =~= Seq::<Record>::empty());
    assert(spec_content_batch(path, e, pattern, code, true) =~= seq![
        Record::Header(path),
        Record::Stats { lines: 0, matched: 0, skipped: 0 },
        Record::Done,
    ]);
    assert(spec_content_batch(path, e, pattern, code, false) =~= seq![
        Record::Header(path),
        Record::Done,
    ]);
}

/// A newline does not appear while scanning up to one that is appended at
/// the end.
proof fn lemma_next_nl_push(c: Seq<u8>, s: int)
    requires
        0 <= s <= c.len(),
    ensures
        next_nl(c.push(10), s) == next_nl(c, s),
    decreases c.len() - s,
{
    if s == c.len() {
        assert(c.push(10)[s] == 10);
    } else {
        assert(c.push(10)[s] == c[s]);
        if c[s] != 10 {
            lemma_next_nl_push(c, s + 1);
        }
    }
}

/// Appending a closing newline to content whose last line lacks one leaves
/// the split unchanged from any line start.
proof fn lemma_split_push(c: Seq<u8>, s: int)
    requires
        0 <= s < c.len(),
        c.last() != 10,
    ensures
        split_from(c.push(10), s) == split_from(c, s),
    decreases c.len() - s,
{
    let d = c.push(10);
    let j = next_nl(c, s);
    lemma_next_nl(c, s);
    lemma_next_nl_push(c, s);
    if j == c.len() {
        assert(d.subrange(s, j) =~= c.subrange(s, j));
        assert(split_from(d, j + 1) =~= Seq::<Seq<u8>>::empty());
        assert(split_from(d, s) =~= split_from(c, s));
    } else {
        assert(j + 1 < c.len()) by {
            assert(c[j] == 10);
        }
        lemma_split_push(c, j + 1);
        assert(d.subrange(s, j) =~= c.subrange(s, j));
        assert(split_from(d, s) =~= split_from(c, s));
    }
}

/// A last line without a trailing newline is counted once as a line: adding
/// the missing newline changes neither the lines nor their number.
pub proof fn lemma_last_line_counted_once(c: Seq<u8>)
    requires
        c.len() > 0,
        c.last() != 10,
    ensures
        spec_split_lines(c.push(10)) == spec_split_lines(c),
        count_lines_from(c.push(10), 0) == count_lines_from(c, 0),
{
    lemma_split_push(c, 0);
    lemma_count_is_split_len(c, 0);
    lemma_count_is_split_len(c.push(10), 0);
}

/// Scanning is deterministic: two scans given the same path, content,
/// pattern, colour and statistics flag produce the same batch, record for
/// record. The matches the regex engine reports are a pure function of the
/// pattern and the line, so nothing else can influence the output.
pub proof fn lemma_scan_deterministic(
    path1: Seq<char>,
    c1: Seq<u8>,
    pattern1: Seq<char>,
    code1: Seq<u8>,
    st1: bool,
    path2: Seq<char>,
    c2: Seq<u8>,
    pattern2: Seq<char>,
    code2: Seq<u8>,
    st2: bool,
)
    requires
        path1 == path2,
        c1 == c2,
        pattern1 == pattern2,
        code1 == code2,
        st1 == st2,
    ensures
        spec_content_batch(path1, c1, pattern1, code1, st1) == spec_content_batch(
            path2,
            c2,
            pattern2,
            code2,
            st2,
        ),
{
}

/// Scans a single line: the match count and the highlighted line where the
/// pattern matches, nothing otherwise.
pub fn scan_line(hl: &TextHighlighter, line: &[u8]) -> (r: Option<(usize, Vec<u8>)>)
    ensures
        r is Some <==> spec_match_count(hl.pattern(), line@) > 0,
        r matches Some((cnt, v)) ==> cnt == spec_match_count(hl.pattern(), line@) && v@
            == spec_highlight(hl.pattern(), line@, hl.code()),
{
    let cnt = hl.count_matches(line);
    if cnt > 0 {
        Some((cnt, hl.highlight(line)))
    } else {
        None
    }
}

} // verus!

