//! The per-file record stream: the messages a scan of one file produces,
//! their mathematical model, and the sink that renders them.

use vstd::prelude::*;
use vstd::utf8::encode_utf8;

use std::io::Write;

verus! {

/// The record batch one file's scan produces.
pub type FileMatchResult = Vec<ResultMessage>;

/// One record in a file's batch. A batch is one `Header`, zero or more
/// `Line`s in ascending line order (or one `Error` and no lines), an
/// optional `SearchStats`, and one final `Done`.
#[derive(Debug, PartialEq)]
pub enum ResultMessage {
    /// Opens a file's batch; carries the file's path.
    Header(String),
    /// One matched line: its zero-based index and its highlighted text.
    Line { index: usize, content: Vec<u8> },
    /// Per-file statistics: lines read, pattern occurrences, lines skipped.
    SearchStats { lines: usize, matched: usize, skipped: usize },
    /// A file-level failure, in place of any lines.
    Error(String),
    /// Closes a file's batch.
    Done,
}

/// The mathematical model of one record.
pub enum Record {
    Header(Seq<char>),
    Line { index: int, content: Seq<u8> },
    Stats { lines: int, matched: int, skipped: int },
    Error(Seq<char>),
    Done,
}

/// The model of a record.
pub open spec fn rec_of(m: ResultMessage) -> Record {
    match m {
        ResultMessage::Header(p) => Record::Header(p@),
        ResultMessage::Line { index, content } => Record::Line {
            index: index as int,
            content: content@,
        },
        ResultMessage::SearchStats { lines, matched, skipped } => Record::Stats {
            lines: lines as int,
            matched: matched as int,
            skipped: skipped as int,
        },
        ResultMessage::Error(e) => Record::Error(e@),
        ResultMessage::Done => Record::Done,
    }
}

/// The model of a record sequence.
pub open spec fn recs_of(ms: Seq<ResultMessage>) -> Seq<Record> {
    ms.map_values(|m: ResultMessage| rec_of(m))
}

/// An integer capped at the largest `usize` value, as saturating counters
/// report it.
pub open spec fn cap_usize(n: int) -> int {
    if n > usize::MAX {
        usize::MAX as int
    } else {
        n
    }
}

/// The decimal digits of a non-negative integer, as ASCII bytes.
pub open spec fn spec_dec(n: int) -> Seq<u8>
    recommends
        n >= 0,
    decreases n,
{
    if n < 10 {
        seq![(48 + if 0 <= n { n } else { 0 }) as u8]
    } else {
        spec_dec(n / 10) + seq![(48 + n % 10) as u8]
    }
}

/// Writes a number in decimal.
pub fn format_u64(n: u64) -> (r: Vec<u8>)
    ensures
        r@ == spec_dec(n as int),
    decreases n,
{
    if n < 10 {
        let mut v: Vec<u8> = Vec::new();
        v.push(48 + n as u8);
        proof {
            assert(v@ =~= spec_dec(n as int));
        }
        v
    } else {
        let mut v = format_u64(n / 10);
        v.push(48 + (n % 10) as u8);
        proof {
            assert(v@ =~= spec_dec(n as int));
        }
        v
    }
}

/// Writes a number in decimal.
pub fn format_usize(n: usize) -> (r: Vec<u8>)
    ensures
        r@ == spec_dec(n as int),
{
    format_u64(n as u64)
}

/// A digit string right-aligned to width three with spaces.
pub open spec fn spec_pad3(s: Seq<u8>) -> Seq<u8> {
    if s.len() >= 3 {
        s
    } else if s.len() == 2 {
        seq![32u8] + s
    } else if s.len() == 1 {
        seq![32u8, 32u8] + s
    } else {
        seq![32u8, 32u8, 32u8]
    }
}

/// A digit string left-padded to width three with zeros.
pub open spec fn spec_pad3_zero(s: Seq<u8>) -> Seq<u8> {
    if s.len() >= 3 {
        s
    } else if s.len() == 2 {
        seq![48u8] + s
    } else if s.len() == 1 {
        seq![48u8, 48u8] + s
    } else {
        seq![48u8, 48u8, 48u8]
    }
}

/// Right-aligns a digit string to width three with the given fill byte.
fn pad3_with(d: Vec<u8>, fill: u8) -> (r: Vec<u8>)
    ensures
        fill == 32 ==> r@ == spec_pad3(d@),
        fill == 48 ==> r@ == spec_pad3_zero(d@),
{
    if d.len() >= 3 {
        d
    } else {
        let mut v: Vec<u8> = Vec::new();
        v.push(fill);
        if d.len() <= 1 {
            v.push(fill);
        }
        if d.len() == 0 {
            v.push(fill);
        }
        v.extend_from_slice(d.as_slice());
        proof {
            if d@.len() == 2 {
                assert(v@ =~= seq![fill] + d@);
            } else if d@.len() == 1 {
                assert(v@ =~= seq![fill, fill] + d@);
            } else {
                assert(v@ =~= seq![fill, fill, fill]);
            }
        }
        v
    }
}

/// The one-based line number a zero-based index is shown as, capped at the
/// largest `usize`.
pub open spec fn spec_shown_index(index: int) -> int {
    cap_usize(index + 1)
}

/// A rendered header line: `--- <path> ---` in a dim wrapper.
pub open spec fn spec_header_line(path: Seq<char>) -> Seq<u8> {
    encode_utf8("\x1b[1;38;5;245m--- "@) + encode_utf8(path) + encode_utf8("\x1b[0m ---"@)
}

/// Renders a file's header line.
pub fn render_header(path: &String) -> (r: Vec<u8>)
    ensures
        r@ == spec_header_line(path@),
{
    let mut v: Vec<u8> = Vec::new();
    v.extend_from_slice("\x1b[1;38;5;245m--- ".as_bytes());
    v.extend_from_slice(path.as_str().as_bytes());
    v.extend_from_slice("\x1b[0m ---".as_bytes());
    proof {
        assert(v@ =~= spec_header_line(path@));
    }
    v
}

/// A rendered match line: two spaces, the width-3 one-based line number and
/// a colon in a dim wrapper, two spaces, then the highlighted content.
pub open spec fn spec_match_line(index: int, content: Seq<u8>) -> Seq<u8> {
    encode_utf8("  \x1b[1;38;5;245m"@) + spec_pad3(spec_dec(spec_shown_index(index))) + encode_utf8(
        ":\x1b[0m  "@,
    ) + content
}

/// Renders one matched line for the formatted output.
pub fn render_match_line(index: usize, content: &Vec<u8>) -> (r: Vec<u8>)
    ensures
        r@ == spec_match_line(index as int, content@),
{
    let shown: usize = index.saturating_add(1);
    let mut v: Vec<u8> = Vec::new();
    v.extend_from_slice("  \x1b[1;38;5;245m".as_bytes());
    let num = pad3_with(format_usize(shown), 32);
    v.extend_from_slice(num.as_slice());
    v.extend_from_slice(":\x1b[0m  ".as_bytes());
    v.extend_from_slice(content.as_slice());
    proof {
        assert(v@ =~= spec_match_line(index as int, content@));
    }
    v
}

/// A rendered per-file statistics line.
pub open spec fn spec_stats_line(lines: int, matched: int, skipped: int) -> Seq<u8> {
    encode_utf8("  \x1b[2;38;5;245mlines: "@) + spec_dec(lines) + encode_utf8(", matches: "@)
        + spec_dec(matched) + encode_utf8(", skipped: "@) + spec_dec(skipped) + encode_utf8(
        "\x1b[0m"@,
    )
}

/// Renders one file's statistics line.
pub fn render_stats_line(lines: usize, matched: usize, skipped: usize) -> (r: Vec<u8>)
    ensures
        r@ == spec_stats_line(lines as int, matched as int, skipped as int),
{
    let mut v: Vec<u8> = Vec::new();
    v.extend_from_slice("  \x1b[2;38;5;245mlines: ".as_bytes());
    let a = format_usize(lines);
    v.extend_from_slice(a.as_slice());
    v.extend_from_slice(", matches: ".as_bytes());
    let b = format_usize(matched);
    v.extend_from_slice(b.as_slice());
    v.extend_from_slice(", skipped: ".as_bytes());
    let c = format_usize(skipped);
    v.extend_from_slice(c.as_slice());
    v.extend_from_slice("\x1b[0m".as_bytes());
    proof {
        assert(v@ =~= spec_stats_line(lines as int, matched as int, skipped as int));
    }
    v
}

/// Elapsed wall time shown as seconds with three decimals.
pub open spec fn spec_elapsed(millis: int) -> Seq<u8> {
    spec_dec(millis / 1000) + encode_utf8("."@) + spec_pad3_zero(spec_dec(millis % 1000))
}

/// A rendered end-of-run summary line.
pub open spec fn spec_summary_line(
    files: int,
    lines: int,
    matched: int,
    skipped: int,
    errors: int,
    millis: int,
) -> Seq<u8> {
    encode_utf8("\x1b[1;38;5;245mresult: files:"@) + spec_dec(files) + encode_utf8("; lines:"@)
        + spec_dec(lines) + encode_utf8("; matches:"@) + spec_dec(matched) + encode_utf8(
        "; skipped:"@,
    ) + spec_dec(skipped) + encode_utf8("; errors:"@) + spec_dec(errors) + encode_utf8("; time:"@)
        + spec_elapsed(millis) + encode_utf8("s;\x1b[0m"@)
}

/// Renders the end-of-run summary line.
pub fn render_summary_line(
    files: usize,
    lines: usize,
    matched: usize,
    skipped: usize,
    errors: usize,
    elapsed_millis: u64,
) -> (r: Vec<u8>)
    ensures
        r@ == spec_summary_line(
            files as int,
            lines as int,
            matched as int,
            skipped as int,
            errors as int,
            elapsed_millis as int,
        ),
{
    let mut v: Vec<u8> = Vec::new();
    v.extend_from_slice("\x1b[1;38;5;245mresult: files:".as_bytes());
    let a = format_usize(files);
    v.extend_from_slice(a.as_slice());
    v.extend_from_slice("; lines:".as_bytes());
    let b = format_usize(lines);
    v.extend_from_slice(b.as_slice());
    v.extend_from_slice("; matches:".as_bytes());
    let c = format_usize(matched);
    v.extend_from_slice(c.as_slice());
    v.extend_from_slice("; skipped:".as_bytes());
    let d = format_usize(skipped);
    v.extend_from_slice(d.as_slice());
    v.extend_from_slice("; errors:".as_bytes());
    let e = format_usize(errors);
    v.extend_from_slice(e.as_slice());
    v.extend_from_slice("; time:".as_bytes());
    let secs = format_u64(elapsed_millis / 1000);
    v.extend_from_slice(secs.as_slice());
    v.extend_from_slice(".".as_bytes());
    let frac = pad3_with(format_u64(elapsed_millis % 1000), 48);
    v.extend_from_slice(frac.as_slice());
    v.extend_from_slice("s;\x1b[0m".as_bytes());
    proof {
        assert(v@ =~= spec_summary_line(
            files as int,
            lines as int,
            matched as int,
            skipped as int,
            errors as int,
            elapsed_millis as int,
        ));
    }
    v
}

/// A rendered error line for the standard error stream.
pub open spec fn spec_error_line(message: Seq<char>) -> Seq<u8> {
    encode_utf8("Error: "@) + encode_utf8(message)
}

/// Renders one error line.
pub fn render_error_line(message: &String) -> (r: Vec<u8>)
    ensures
        r@ == spec_error_line(message@),
{
    let mut v: Vec<u8> = Vec::new();
    v.extend_from_slice("Error: ".as_bytes());
    v.extend_from_slice(message.as_str().as_bytes());
    proof {
        assert(v@ =~= spec_error_line(message@));
    }
    v
}

/// A rendered raw match line: `<path>:<line number>: <content>`.
pub open spec fn spec_xtreme_match_line(path: Seq<char>, index: int, content: Seq<u8>) -> Seq<u8> {
    encode_utf8(path) + encode_utf8(":"@) + spec_dec(spec_shown_index(index)) + encode_utf8(": "@)
        + content
}

/// Renders one matched line for the raw output mode.
pub fn render_xtreme_match_line(path: &String, index: usize, content: &Vec<u8>) -> (r: Vec<u8>)
    ensures
        r@ == spec_xtreme_match_line(path@, index as int, content@),
{
    let shown: usize = index.saturating_add(1);
    let mut v: Vec<u8> = Vec::new();
    v.extend_from_slice(path.as_str().as_bytes());
    v.extend_from_slice(":".as_bytes());
    let num = format_usize(shown);
    v.extend_from_slice(num.as_slice());
    v.extend_from_slice(": ".as_bytes());
    v.extend_from_slice(content.as_slice());
    proof {
        assert(v@ =~= spec_xtreme_match_line(path@, index as int, content@));
    }
    v
}

/// A rendered raw error line, kept on standard output in raw mode.
pub open spec fn spec_xtreme_error_line(message: Seq<char>) -> Seq<u8> {
    encode_utf8("# Error: "@) + encode_utf8(message)
}

/// Renders one error line for the raw output mode.
pub fn render_xtreme_error_line(message: &String) -> (r: Vec<u8>)
    ensures
        r@ == spec_xtreme_error_line(message@),
{
    let mut v: Vec<u8> = Vec::new();
    v.extend_from_slice("# Error: ".as_bytes());
    v.extend_from_slice(message.as_str().as_bytes());
    proof {
        assert(v@ =~= spec_xtreme_error_line(message@));
    }
    v
}

/// A rendered raw-mode summary line.
pub open spec fn spec_xtreme_summary_line(
    files: int,
    lines: int,
    matched: int,
    skipped: int,
    millis: int,
) -> Seq<u8> {
    encode_utf8("# Summary: files:"@) + spec_dec(files) + encode_utf8(", lines:"@) + spec_dec(
        lines,
    ) + encode_utf8(", matches:"@) + spec_dec(matched) + encode_utf8(", skipped:"@) + spec_dec(
        skipped,
    ) + encode_utf8(", time:"@) + spec_dec(millis) + encode_utf8("ms"@)
}

/// Renders the raw-mode summary line.
pub fn render_xtreme_summary_line(
    files: usize,
    lines: usize,
    matched: usize,
    skipped: usize,
    elapsed_millis: u64,
) -> (r: Vec<u8>)
    ensures
        r@ == spec_xtreme_summary_line(
            files as int,
            lines as int,
            matched as int,
            skipped as int,
            elapsed_millis as int,
        ),
{
    let mut v: Vec<u8> = Vec::new();
    v.extend_from_slice("# Summary: files:".as_bytes());
    let a = format_usize(files);
    v.extend_from_slice(a.as_slice());
    v.extend_from_slice(", lines:".as_bytes());
    let b = format_usize(lines);
    v.extend_from_slice(b.as_slice());
    v.extend_from_slice(", matches:".as_bytes());
    let c = format_usize(matched);
    v.extend_from_slice(c.as_slice());
    v.extend_from_slice(", skipped:".as_bytes());
    let d = format_usize(skipped);
    v.extend_from_slice(d.as_slice());
    v.extend_from_slice(", time:".as_bytes());
    let e = format_u64(elapsed_millis);
    v.extend_from_slice(e.as_slice());
    v.extend_from_slice("ms".as_bytes());
    proof {
        assert(v@ =~= spec_xtreme_summary_line(
            files as int,
            lines as int,
            matched as int,
            skipped as int,
            elapsed_millis as int,
        ));
    }
    v
}

/// Relies on `std::io::Write::write_all` on the standard output stream: the
/// given bytes are written, followed by one newline.
#[verifier::external_body]
pub(crate) fn write_stdout(line: &[u8]) {
    let _ = std::io::stdout().write_all(line);
    let _ = std::io::stdout().write_all(b"\n");
}

/// Relies on `std::io::Write::write_all` on the standard error stream: the
/// given bytes are written, followed by one newline.
#[verifier::external_body]
fn write_stderr(line: &[u8]) {
    let _ = std::io::stderr().write_all(line);
    let _ = std::io::stderr().write_all(b"\n");
}

/// The run totals the sink accumulates over every batch it consumes. Each
/// counter saturates at the largest `usize`.
pub struct RunTotals {
    pub files: usize,
    pub lines: usize,
    pub matched: usize,
    pub skipped: usize,
    pub errors: usize,
}

/// The mathematical model of the run totals.
pub struct Totals {
    pub files: int,
    pub lines: int,
    pub matched: int,
    pub skipped: int,
    pub errors: int,
}

impl View for RunTotals {
    type V = Totals;

    open spec fn view(&self) -> Totals {
        Totals {
            files: self.files as int,
            lines: self.lines as int,
            matched: self.matched as int,
            skipped: self.skipped as int,
            errors: self.errors as int,
        }
    }
}

/// All-zero run totals.
pub open spec fn spec_zero_totals() -> Totals {
    Totals { files: 0, lines: 0, matched: 0, skipped: 0, errors: 0 }
}

impl RunTotals {
    /// Fresh run totals, all zero.
    pub fn new() -> (t: RunTotals)
        ensures
            t@ == spec_zero_totals(),
    {
        RunTotals { files: 0, lines: 0, matched: 0, skipped: 0, errors: 0 }
    }
}

/// How one batch updates the run totals: statistics records accumulate,
/// an error record counts one error, and the closing `Done` record counts
/// the file and ends the batch — records after it are not consumed.
pub open spec fn spec_batch_totals(t: Totals, recs: Seq<Record>) -> Totals
    decreases recs.len(),
{
    if recs.len() == 0 {
        t
    } else {
        match recs[0] {
            Record::Done => Totals {
                files: cap_usize(t.files + 1),
                lines: t.lines,
                matched: t.matched,
                skipped: t.skipped,
                errors: t.errors,
            },
            Record::Stats { lines, matched, skipped } => spec_batch_totals(
                Totals {
                    files: t.files,
                    lines: cap_usize(t.lines + lines),
                    matched: cap_usize(t.matched + matched),
                    skipped: cap_usize(t.skipped + skipped),
                    errors: t.errors,
                },
                recs.drop_first(),
            ),
            Record::Error(_) => spec_batch_totals(
                Totals {
                    files: t.files,
                    lines: t.lines,
                    matched: t.matched,
                    skipped: t.skipped,
                    errors: cap_usize(t.errors + 1),
                },
                recs.drop_first(),
            ),
            _ => spec_batch_totals(t, recs.drop_first()),
        }
    }
}

/// Consumes one batch for the formatted output: renders its records to the
/// standard streams and accumulates the run totals. Statistics always
/// accumulate; they are shown only when asked for.
pub fn print_batch(batch: &Vec<ResultMessage>, show_stats: bool, totals: &mut RunTotals)
    ensures
        final (totals)@ == spec_batch_totals(old(totals)@, recs_of(batch@)),
{
    let ghost orig = totals@;
    let ghost full = recs_of(batch@);
    proof {
        assert(full.skip(0) =~= full);
    }
    let n = batch.len();
    let mut k: usize = 0;
    let mut finished: bool = false;
    while k < n
        invariant
            n == batch@.len(),
            k <= n,
            full == recs_of(batch@),
            !finished ==> spec_batch_totals(orig, full) == spec_batch_totals(
                totals@,
                full.skip(k as int),
            ),
            finished ==> spec_batch_totals(orig, full) == totals@,
        decreases n - k,
    {
        if !finished {
            proof {
                assert(full.skip(k as int)[0] == full[k as int]);
                assert(full.skip(k as int).drop_first() =~= full.skip(k as int + 1));
            }
            match &batch[k] {
                ResultMessage::Header(p) => {
                    let line = render_header(p);
                    write_stdout(line.as_slice());
                },
                ResultMessage::Line { index, content } => {
                    let line = render_match_line(*index, content);
                    write_stdout(line.as_slice());
                },
                ResultMessage::SearchStats { lines, matched, skipped } => {
                    if show_stats {
                        let line = render_stats_line(*lines, *matched, *skipped);
                        write_stdout(line.as_slice());
                    }
                    totals.lines = totals.lines.saturating_add(*lines);
                    totals.matched = totals.matched.saturating_add(*matched);
                    totals.skipped = totals.skipped.saturating_add(*skipped);
                },
                ResultMessage::Error(e) => {
                    let line = render_error_line(e);
                    write_stderr(line.as_slice());
                    totals.errors = totals.errors.saturating_add(1);
                },
                ResultMessage::Done => {
                    totals.files = totals.files.saturating_add(1);
                    finished = true;
                },
            }
        }
        k = k + 1;
    }
    proof {
        if !finished {
            assert(full.skip(n as int) =~= Seq::<Record>::empty());
        }
    }
}

/// Consumes one batch for the raw output mode: headers are skipped, matched
/// lines are written raw, errors go to standard output behind a `#`, and
/// the run totals accumulate exactly as in the formatted mode.
pub fn print_batch_xtreme(batch: &Vec<ResultMessage>, totals: &mut RunTotals)
    ensures
        final (totals)@ == spec_batch_totals(old(totals)@, recs_of(batch@)),
{
    let ghost orig = totals@;
    let ghost full = recs_of(batch@);
    proof {
        assert(full.skip(0) =~= full);
    }
    let n = batch.len();
    let mut k: usize = 0;
    let mut finished: bool = false;
    while k < n
        invariant
            n == batch@.len(),
            k <= n,
            full == recs_of(batch@),
            !finished ==> spec_batch_totals(orig, full) == spec_batch_totals(
                totals@,
                full.skip(k as int),
            ),
            finished ==> spec_batch_totals(orig, full) == totals@,
        decreases n - k,
    {
        if !finished {
            proof {
                assert(full.skip(k as int)[0] == full[k as int]);
                assert(full.skip(k as int).drop_first() =~= full.skip(k as int + 1));
            }
            match &batch[k] {
                ResultMessage::Header(_) => {},
                ResultMessage::Line { index: _, content } => {
                    write_stdout(content.as_slice());
                },
                ResultMessage::SearchStats { lines, matched, skipped } => {
                    totals.lines = totals.lines.saturating_add(*lines);
                    totals.matched = totals.matched.saturating_add(*matched);
                    totals.skipped = totals.skipped.saturating_add(*skipped);
                },
                ResultMessage::Error(e) => {
                    let line = render_xtreme_error_line(e);
                    write_stdout(line.as_slice());
                    totals.errors = totals.errors.saturating_add(1);
                },
                ResultMessage::Done => {
                    totals.files = totals.files.saturating_add(1);
                    finished = true;
                },
            }
        }
        k = k + 1;
    }
    proof {
        if !finished {
            assert(full.skip(n as int) =~= Seq::<Record>::empty());
        }
    }
}

/// The models of a sequence of batches.
pub open spec fn batches_of(rs: Seq<FileMatchResult>) -> Seq<Seq<Record>> {
    rs.map_values(|b: FileMatchResult| recs_of(b@))
}

/// The run totals left after consuming a sequence of batches, starting from
/// the given totals.
pub open spec fn spec_fold_batches(t: Totals, bs: Seq<Seq<Record>>) -> Totals
    decreases bs.len(),
{
    if bs.len() == 0 {
        t
    } else {
        spec_fold_batches(spec_batch_totals(t, bs[0]), bs.drop_first())
    }
}

/// The run totals of a whole run.
pub open spec fn spec_run_totals(bs: Seq<Seq<Record>>) -> Totals {
    spec_fold_batches(spec_zero_totals(), bs)
}

/// The sink for the formatted output: renders every batch, accumulates the
/// run totals, and — when statistics are on and at least one file was
/// processed — prints the end-of-run summary line. Returns the totals.
pub fn print_result(results: &Vec<FileMatchResult>, show_stats: bool, elapsed_millis: u64) -> (t:
    RunTotals)
    ensures
        t@ == spec_run_totals(batches_of(results@)),
{
    let ghost bs = batches_of(results@);
    proof {
        assert(bs.skip(0) =~= bs);
    }
    let mut totals = RunTotals::new();
    let n = results.len();
    let mut k: usize = 0;
    while k < n
        invariant
            n == results@.len(),
            k <= n,
            bs == batches_of(results@),
            spec_fold_batches(totals@, bs.skip(k as int)) == spec_run_totals(bs),
        decreases n - k,
    {
        proof {
            assert(bs.skip(k as int)[0] == bs[k as int]);
            assert(bs.skip(k as int).drop_first() =~= bs.skip(k as int + 1));
        }
        print_batch(&results[k], show_stats, &mut totals);
        k = k + 1;
    }
    proof {
        assert(bs.skip(n as int) =~= Seq::<Seq<Record>>::empty());
    }
    if show_stats && totals.files > 0 {
        let line = render_summary_line(
            totals.files,
            totals.lines,
            totals.matched,
            totals.skipped,
            totals.errors,
            elapsed_millis,
        );
        write_stdout(line.as_slice());
    }
    totals
}

/// The sink for the raw output mode: every batch in raw form, the same
/// totals, the same end-of-run summary line. Returns the totals.
pub fn print_result_xtreme(
    results: &Vec<FileMatchResult>,
    show_stats: bool,
    elapsed_millis: u64,
) -> (t: RunTotals)
    ensures
        t@ == spec_run_totals(batches_of(results@)),
{
    let ghost bs = batches_of(results@);
    proof {
        assert(bs.skip(0) =~= bs);
    }
    let mut totals = RunTotals::new();
    let n = results.len();
    let mut k: usize = 0;
    while k < n
        invariant
            n == results@.len(),
            k <= n,
            bs == batches_of(results@),
            spec_fold_batches(totals@, bs.skip(k as int)) == spec_run_totals(bs),
        decreases n - k,
    {
        proof {
            assert(bs.skip(k as int)[0] == bs[k as int]);
            assert(bs.skip(k as int).drop_first() =~= bs.skip(k as int + 1));
        }
        print_batch_xtreme(&results[k], &mut totals);
        k = k + 1;
    }
    proof {
        assert(bs.skip(n as int) =~= Seq::<Seq<Record>>::empty());
    }
    if show_stats && totals.files > 0 {
        let line = render_summary_line(
            totals.files,
            totals.lines,
            totals.matched,
            totals.skipped,
            totals.errors,
            elapsed_millis,
        );
        write_stdout(line.as_slice());
    }
    totals
}

/// Prints the raw-mode end-of-run summary: a blank line, then one line of
/// totals with the elapsed time in milliseconds.
pub fn print_xtreme_stats(
    files_processed: usize,
    lines: usize,
    matches: usize,
    skipped: usize,
    elapsed_millis: u64,
) {
    let empty: Vec<u8> = Vec::new();
    write_stdout(empty.as_slice());
    let line = render_xtreme_summary_line(files_processed, lines, matches, skipped, elapsed_millis);
    write_stdout(line.as_slice());
}

} // verus!


