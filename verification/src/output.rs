//! The plain sink: the earlier output mode, which renders batches exactly
//! as the formatted sink does but closes the run with a tab-separated
//! summary and reports no elapsed time.

use vstd::prelude::*;
use vstd::utf8::encode_utf8;

pub use crate::result::FileMatchResult;
pub use crate::result::ResultMessage as OutputMessage;

use crate::result::{
    batches_of, format_usize, print_batch, spec_dec, spec_fold_batches, spec_run_totals,
    write_stdout, Record, RunTotals,
};

verus! {

/// The plain summary line: tab-separated totals in a dim wrapper, with no
/// timing.
pub open spec fn spec_plain_summary_line(
    files: int,
    lines: int,
    matched: int,
    skipped: int,
    errors: int,
) -> Seq<u8> {
    encode_utf8("\x1b[1;38;5;245mSummary: files: "@) + spec_dec(files) + encode_utf8("\tlines: "@)
        + spec_dec(lines) + encode_utf8("\tmatches: "@) + spec_dec(matched) + encode_utf8(
        "\tskipped: "@,
    ) + spec_dec(skipped) + encode_utf8("\terrors: "@) + spec_dec(errors) + encode_utf8(
        "\x1b[0m"@,
    )
}

/// Renders the plain summary line.
pub fn render_plain_summary_line(
    files: usize,
    lines: usize,
    matched: usize,
    skipped: usize,
    errors: usize,
) -> (r: Vec<u8>)
    ensures
        r@ == spec_plain_summary_line(
            files as int,
            lines as int,
            matched as int,
            skipped as int,
            errors as int,
        ),
{
    let mut v: Vec<u8> = Vec::new();
    v.extend_from_slice("\x1b[1;38;5;245mSummary: files: ".as_bytes());
    let a = format_usize(files);
    v.extend_from_slice(a.as_slice());
    v.extend_from_slice("\tlines: ".as_bytes());
    let b = format_usize(lines);
    v.extend_from_slice(b.as_slice());
    v.extend_from_slice("\tmatches: ".as_bytes());
    let c = format_usize(matched);
    v.extend_from_slice(c.as_slice());
    v.extend_from_slice("\tskipped: ".as_bytes());
    let d = format_usize(skipped);
    v.extend_from_slice(d.as_slice());
    v.extend_from_slice("\terrors: ".as_bytes());
    let e = format_usize(errors);
    v.extend_from_slice(e.as_slice());
    v.extend_from_slice("\x1b[0m".as_bytes());
    proof {
        assert(v@ =~= spec_plain_summary_line(
            files as int,
            lines as int,
            matched as int,
            skipped as int,
            errors as int,
        ));
    }
    v
}

/// The plain sink: renders every batch as the formatted sink does,
/// accumulates the run totals, and — when statistics are on and at least
/// one file was processed — prints the tab-separated summary. Returns the
/// totals.
pub fn print_output(results: &Vec<FileMatchResult>, show_stats: bool) -> (t: RunTotals)
    ensures
        t@ == spec_run_totals(batches_of(results@)),
{
    let ghost bs = batches_of(results@);
    proof {
        assert(bs.skip(0) =~= bs);
    }
    let mut totals = RunTotals::new();
    let n = results.len();
    let mut k: usize = 0;
    while k < n
        invariant
            n == results@.len(),
            k <= n,
            bs == batches_of(results@),
            spec_fold_batches(totals@, bs.skip(k as int)) == spec_run_totals(bs),
        decreases n - k,
    {
        proof {
            assert(bs.skip(k as int)[0] == bs[k as int]);
            assert(bs.skip(k as int).drop_first() =~= bs.skip(k as int + 1));
        }
        print_batch(&results[k], show_stats, &mut totals);
        k = k + 1;
    }
    proof {
        assert(bs.skip(n as int) =~= Seq::<Seq<Record>>::empty());
    }
    if show_stats && totals.files > 0 {
        let line = render_plain_summary_line(
            totals.files,
            totals.lines,
            totals.matched,
            totals.skipped,
            totals.errors,
        );
        write_stdout(line.as_slice());
    }
    totals
}

} // verus!
