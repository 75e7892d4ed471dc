//! The highlighter: compiles the user pattern once and wraps every
//! non-overlapping match of it in ANSI escape sequences.
//!
//! The regex engine is trusted only to report where the matches lie; the
//! escape-sequence assembly around those positions is verified, and
//! stripping the escape sequences provably recovers the scanned line.

use vstd::prelude::*;

use crate::colors::{spec_color_code_bytes, Color};

verus! {

/// Whether the regex engine accepts a pattern. Compilation is a pure
/// function of the pattern text.
pub uninterp spec fn pattern_valid(pattern: Seq<char>) -> bool;

/// The non-overlapping matches that the regex engine finds for a pattern in
/// a haystack, as half-open byte ranges, leftmost first. The matches are a
/// pure function of pattern and haystack.
pub uninterp spec fn match_ranges(pattern: Seq<char>, hay: Seq<u8>) -> Seq<(usize, usize)>;

/// Well-formed match ranges: each is a non-empty-ordered pair within the
/// haystack, and from `pos` on they are non-overlapping and ascending.
pub open spec fn ranges_wf(rs: Seq<(usize, usize)>, pos: int, len: int) -> bool
    decreases rs.len(),
{
    rs.len() == 0 || {
        &&& pos <= rs[0].0
        &&& rs[0].0 <= rs[0].1
        &&& rs[0].1 <= len
        &&& ranges_wf(rs.drop_first(), rs[0].1 as int, len)
    }
}

/// Keeps the longest well-formed prefix structure of a range sequence,
/// dropping any range that would fall out of order or out of bounds. On a
/// well-formed sequence this is the identity.
pub open spec fn clip_ranges(rs: Seq<(usize, usize)>, pos: int, len: int) -> Seq<(usize, usize)>
    decreases rs.len(),
{
    if rs.len() == 0 {
        rs
    } else if pos <= rs[0].0 && rs[0].0 <= rs[0].1 && rs[0].1 <= len {
        seq![rs[0]] + clip_ranges(rs.drop_first(), rs[0].1 as int, len)
    } else {
        clip_ranges(rs.drop_first(), pos, len)
    }
}

/// The match ranges of a pattern in a haystack, well-formed by
/// construction.
pub open spec fn spec_match_ranges(pattern: Seq<char>, hay: Seq<u8>) -> Seq<(usize, usize)> {
    clip_ranges(match_ranges(pattern, hay), 0, hay.len() as int)
}

/// The number of non-overlapping matches of a pattern in a haystack.
pub open spec fn spec_match_count(pattern: Seq<char>, hay: Seq<u8>) -> int {
    spec_match_ranges(pattern, hay).len() as int
}

/// The bytes that open a highlight: ESC `[` code `m`.
pub open spec fn spec_sgr_open(code: Seq<u8>) -> Seq<u8> {
    seq![27u8, 91u8] + code + seq![109u8]
}

/// The bytes that close a highlight: ESC `[0m`.
pub open spec fn spec_sgr_close() -> Seq<u8> {
    seq![27u8, 91u8, 48u8, 109u8]
}

/// An SGR parameter spliced between ESC `[` and `m`: ASCII digits only.
pub open spec fn sgr_code(code: Seq<u8>) -> bool {
    forall|i: int| 0 <= i < code.len() ==> 48 <= #[trigger] code[i] <= 57
}

/// A byte sequence without the escape byte.
pub open spec fn no_esc(s: Seq<u8>) -> bool {
    forall|i: int| 0 <= i < s.len() ==> #[trigger] s[i] != 27
}

/// The line from byte `pos` on, with every given match range wrapped in the
/// opening and closing escape sequences and all other bytes copied verbatim.
pub open spec fn spec_hl_from(line: Seq<u8>, rs: Seq<(usize, usize)>, pos: int, code: Seq<u8>) -> Seq<u8>
    decreases rs.len(),
{
    if rs.len() == 0 {
        line.subrange(pos, line.len() as int)
    } else {
        line.subrange(pos, rs[0].0 as int) + spec_sgr_open(code) + line.subrange(
            rs[0].0 as int,
            rs[0].1 as int,
        ) + spec_sgr_close() + spec_hl_from(line, rs.drop_first(), rs[0].1 as int, code)
    }
}

/// A line with every non-overlapping match of the pattern wrapped in the
/// escape sequences carrying the given SGR parameter.
pub open spec fn spec_highlight(pattern: Seq<char>, line: Seq<u8>, code: Seq<u8>) -> Seq<u8> {
    spec_hl_from(line, spec_match_ranges(pattern, line), 0, code)
}

/// One pass that removes ANSI escape sequences: outside an escape, an ESC
/// byte enters one and every other byte is kept; inside an escape, bytes are
/// dropped up to and including the terminating `m`.
pub open spec fn spec_strip(s: Seq<u8>, in_escape: bool) -> Seq<u8>
    decreases s.len(),
{
    if s.len() == 0 {
        seq![]
    } else if in_escape {
        spec_strip(s.drop_first(), s[0] != 109)
    } else if s[0] == 27 {
        spec_strip(s.drop_first(), true)
    } else {
        seq![s[0]] + spec_strip(s.drop_first(), false)
    }
}

/// A byte sequence with all ANSI escape sequences removed.
pub open spec fn strip_ansi(s: Seq<u8>) -> Seq<u8> {
    spec_strip(s, false)
}

/// Clipping always yields well-formed ranges.
proof fn lemma_clip_wf(rs: Seq<(usize, usize)>, pos: int, len: int)
    ensures
        ranges_wf(clip_ranges(rs, pos, len), pos, len),
    decreases rs.len(),
{
    if rs.len() != 0 {
        if pos <= rs[0].0 && rs[0].0 <= rs[0].1 && rs[0].1 <= len {
            lemma_clip_wf(rs.drop_first(), rs[0].1 as int, len);
            let c = seq![rs[0]] + clip_ranges(rs.drop_first(), rs[0].1 as int, len);
            assert(c.drop_first() =~= clip_ranges(rs.drop_first(), rs[0].1 as int, len));
        } else {
            lemma_clip_wf(rs.drop_first(), pos, len);
        }
    }
}

/// Clipping a well-formed range sequence changes nothing.
proof fn lemma_clip_id(rs: Seq<(usize, usize)>, pos: int, len: int)
    requires
        ranges_wf(rs, pos, len),
    ensures
        clip_ranges(rs, pos, len) == rs,
    decreases rs.len(),
{
    if rs.len() != 0 {
        lemma_clip_id(rs.drop_first(), rs[0].1 as int, len);
        assert(clip_ranges(rs, pos, len) =~= rs);
    }
}

/// Stripping leaves a sequence without escape bytes unchanged.
proof fn lemma_strip_clean(s: Seq<u8>)
    requires
        no_esc(s),
    ensures
        spec_strip(s, false) == s,
    decreases s.len(),
{
    if s.len() != 0 {
        assert(no_esc(s.drop_first())) by {
            assert(forall|i: int|
                0 <= i < s.drop_first().len() ==> #[trigger] s.drop_first()[i] == s[i + 1]);
        }
        lemma_strip_clean(s.drop_first());
        assert(seq![s[0]] + s.drop_first() =~= s);
    }
}

/// Stripping walks through an escape-free prefix byte by byte.
proof fn lemma_strip_concat_clean(a: Seq<u8>, b: Seq<u8>)
    requires
        no_esc(a),
    ensures
        spec_strip(a + b, false) == a + spec_strip(b, false),
    decreases a.len(),
{
    if a.len() == 0 {
        assert(a + b =~= b);
        assert(a + spec_strip(b, false) =~= spec_strip(b, false));
    } else {
        assert(no_esc(a.drop_first())) by {
            assert(forall|i: int|
                0 <= i < a.drop_first().len() ==> #[trigger] a.drop_first()[i] == a[i + 1]);
        }
        assert((a + b).drop_first() =~= a.drop_first() + b);
        lemma_strip_concat_clean(a.drop_first(), b);
        assert(seq![a[0]] + (a.drop_first() + spec_strip(b, false)) =~= a + spec_strip(b, false));
    }
}

/// Inside an escape, stripping drops everything up to and including the
/// terminating `m`.
proof fn lemma_strip_in_escape(u: Seq<u8>, rest: Seq<u8>)
    requires
        forall|i: int| 0 <= i < u.len() ==> #[trigger] u[i] != 109,
    ensures
        spec_strip(u + seq![109u8] + rest, true) == spec_strip(rest, false),
    decreases u.len(),
{
    let s = u + seq![109u8] + rest;
    if u.len() == 0 {
        assert(s[0] == 109);
        assert(s.drop_first() =~= rest);
    } else {
        assert(s[0] == u[0]);
        assert(s.drop_first() =~= u.drop_first() + seq![109u8] + rest);
        assert(forall|i: int|
            0 <= i < u.drop_first().len() ==> #[trigger] u.drop_first()[i] == u[i + 1]);
        lemma_strip_in_escape(u.drop_first(), rest);
    }
}

/// Stripping removes a whole escape sequence whose parameter bytes hold no
/// `m`.
proof fn lemma_strip_escape(code: Seq<u8>, rest: Seq<u8>)
    requires
        sgr_code(code),
    ensures
        spec_strip(spec_sgr_open(code) + rest, false) == spec_strip(rest, false),
{
    let u = seq![91u8] + code;
    let s = spec_sgr_open(code) + rest;
    assert(forall|i: int| 0 <= i < u.len() ==> #[trigger] u[i] != 109);
    assert(s[0] == 27);
    assert(s.drop_first() =~= u + seq![109u8] + rest);
    lemma_strip_in_escape(u, rest);
}

/// Stripping removes the closing escape sequence.
proof fn lemma_strip_close(rest: Seq<u8>)
    ensures
        spec_strip(spec_sgr_close() + rest, false) == spec_strip(rest, false),
{
    assert(spec_sgr_close() + rest =~= spec_sgr_open(seq![48u8]) + rest);
    lemma_strip_escape(seq![48u8], rest);
}

/// Stripping the escape sequences out of a highlighted tail recovers the
/// plain tail.
proof fn lemma_strip_hl_from(line: Seq<u8>, rs: Seq<(usize, usize)>, pos: int, code: Seq<u8>)
    requires
        ranges_wf(rs, pos, line.len() as int),
        0 <= pos <= line.len(),
        no_esc(line),
        sgr_code(code),
    ensures
        spec_strip(spec_hl_from(line, rs, pos, code), false) == line.subrange(
            pos,
            line.len() as int,
        ),
    decreases rs.len(),
{
    let len = line.len() as int;
    if rs.len() == 0 {
        assert(no_esc(line.subrange(pos, len)));
        lemma_strip_clean(line.subrange(pos, len));
    } else {
        let a = rs[0].0 as int;
        let b = rs[0].1 as int;
        let seg = line.subrange(pos, a);
        let mid = line.subrange(a, b);
        let tail = spec_hl_from(line, rs.drop_first(), b, code);
        let whole = spec_hl_from(line, rs, pos, code);
        assert(whole =~= seg + (spec_sgr_open(code) + (mid + (spec_sgr_close() + tail))));
        assert(no_esc(seg));
        assert(no_esc(mid));
        lemma_strip_concat_clean(seg, spec_sgr_open(code) + (mid + (spec_sgr_close() + tail)));
        lemma_strip_escape(code, mid + (spec_sgr_close() + tail));
        lemma_strip_concat_clean(mid, spec_sgr_close() + tail);
        lemma_strip_close(tail);
        lemma_strip_hl_from(line, rs.drop_first(), b, code);
        assert(spec_strip(whole, false) == seg + (mid + line.subrange(b, len)));
        assert(seg + (mid + line.subrange(b, len)) =~= line.subrange(pos, len));
    }
}

/// Stripping all ANSI escape sequences out of a highlighted line yields the
/// original line, for any line that holds no escape byte of its own and any
/// all-digit SGR parameter.
pub proof fn lemma_strip_highlight(pattern: Seq<char>, line: Seq<u8>, code: Seq<u8>)
    requires
        no_esc(line),
        sgr_code(code),
    ensures
        strip_ansi(spec_highlight(pattern, line, code)) == line,
{
    let len = line.len() as int;
    lemma_clip_wf(match_ranges(pattern, line), 0, len);
    lemma_strip_hl_from(line, spec_match_ranges(pattern, line), 0, code);
    assert(line.subrange(0, len) =~= line);
}

#[verifier::external_type_specification]
#[verifier::external_body]
pub struct ExRegex(regex::bytes::Regex);

/// A compiled pattern together with the text it was compiled from.
struct Pattern {
    re: regex::bytes::Regex,
    text: Ghost<Seq<char>>,
}

/// Relies on `regex::bytes::Regex::new`: compiling succeeds or fails as a
/// pure function of the pattern text.
#[verifier::external_body]
fn regex_new(pattern: &str) -> (r: Option<regex::bytes::Regex>)
    ensures
        r is Some <==> pattern_valid(pattern@),
{
    regex::bytes::Regex::new(pattern).ok()
}

impl Pattern {
    /// Compiles a pattern. This is the one place a `Pattern` is built, so a
    /// `Pattern`'s regex is always the one compiled from its `text`; the
    /// contract of `find_ranges` rests on that coupling.
    fn compile(pattern: &str) -> (r: Option<Pattern>)
        ensures
            r is Some <==> pattern_valid(pattern@),
            r matches Some(p) ==> p.text@ == pattern@,
    {
        match regex_new(pattern) {
            Option::None => None,
            Option::Some(re) => Some(Pattern { re, text: Ghost(pattern@) }),
        }
    }

    /// Relies on `regex::bytes::Regex::find_iter`: it yields the successive
    /// non-overlapping matches, leftmost first, as in-bounds byte ranges,
    /// and is a pure function of the pattern and the haystack.
    #[verifier::external_body]
    fn find_ranges(&self, hay: &[u8]) -> (r: Vec<(usize, usize)>)
        ensures
            r@ == match_ranges(self.text@, hay@),
            ranges_wf(r@, 0, hay@.len() as int),
    {
        self.re.find_iter(hay).map(|m| (m.start(), m.end())).collect()
    }
}

/// An immutable highlighter: one compiled pattern and the SGR parameter of
/// the chosen colour.
pub struct TextHighlighter {
    pat: Pattern,
    code: Vec<u8>,
}

impl TextHighlighter {
    /// The pattern this highlighter was built from.
    pub closed spec fn pattern(self) -> Seq<char> {
        self.pat.text@
    }

    /// The SGR parameter bytes this highlighter wraps matches in.
    pub closed spec fn code(self) -> Seq<u8> {
        self.code@
    }

    /// A highlighter built by `new`: a non-empty pattern and an all-digit
    /// SGR parameter.
    pub open spec fn wf(self) -> bool {
        sgr_code(self.code()) && self.pattern().len() > 0
    }

    /// Compiles a pattern for the given colour. Returns `None` exactly for
    /// the empty pattern and for patterns the regex engine rejects; the run
    /// treats both as a fatal configuration error.
    pub fn new(pattern: &str, color: &Color) -> (r: Option<TextHighlighter>)
        ensures
            r is Some <==> pattern@.len() > 0 && pattern_valid(pattern@),
            r matches Some(h) ==> h.wf() && h.pattern() == pattern@ && h.code()
                == spec_color_code_bytes(*color),
    {
        if pattern.is_empty() {
            return None;
        }
        match Pattern::compile(pattern) {
            Option::None => None,
            Option::Some(pat) => {
                let code = color.to_code_bytes();
                proof {
                    lemma_color_code_digits(*color);
                }
                Some(TextHighlighter { pat, code })
            },
        }
    }

    /// Counts the non-overlapping matches of the pattern in one line.
    pub fn count_matches(&self, line: &[u8]) -> (r: usize)
        ensures
            r == spec_match_count(self.pattern(), line@),
    {
        let ranges = self.pat.find_ranges(line);
        proof {
            lemma_clip_id(ranges@, 0, line@.len() as int);
        }
        ranges.len()
    }

    /// Whether the pattern matches anywhere in one line.
    pub fn is_match(&self, line: &[u8]) -> (r: bool)
        ensures
            r == (spec_match_count(self.pattern(), line@) > 0),
    {
        self.count_matches(line) > 0
    }

    /// Returns the line with every non-overlapping match wrapped in the
    /// colour's escape sequences. Stripping those sequences out of the
    /// result recovers the line, whenever the line holds no escape byte
    /// itself.
    pub fn highlight(&self, line: &[u8]) -> (r: Vec<u8>)
        ensures
            r@ == spec_highlight(self.pattern(), line@, self.code()),
            no_esc(line@) && sgr_code(self.code()) ==> strip_ansi(r@) == line@,
    {
        let ranges = self.pat.find_ranges(line);
        proof {
            lemma_clip_id(ranges@, 0, line@.len() as int);
        }
        let ghost total = spec_hl_from(line@, ranges@, 0, self.code@);
        proof {
            assert(ranges@.skip(0) =~= ranges@);
        }
        let n = ranges.len();
        let mut out: Vec<u8> = Vec::new();
        let mut pos: usize = 0;
        let mut k: usize = 0;
        while k < n
            invariant
                n == ranges@.len(),
                k <= n,
                pos <= line@.len(),
                ranges_wf(ranges@.skip(k as int), pos as int, line@.len() as int),
                out@ + spec_hl_from(line@, ranges@.skip(k as int), pos as int, self.code@)
                    == total,
                total == spec_hl_from(line@, ranges@, 0, self.code@),
                line@.len() == line.len(),
            decreases n - k,
        {
            let ghost rest = ranges@.skip(k as int);
            proof {
                assert(rest[0] == ranges@[k as int]);
                assert(rest.drop_first() =~= ranges@.skip(k as int + 1));
            }
            let rg = ranges[k];
            let a = rg.0;
            let b = rg.1;
            let ghost out0 = out@;
            out.extend_from_slice(&line[pos..a]);
            out.push(27);
            out.push(91);
            out.extend_from_slice(self.code.as_slice());
            out.push(109);
            out.extend_from_slice(&line[a..b]);
            out.push(27);
            out.push(91);
            out.push(48);
            out.push(109);
            proof {
                assert(out@ =~= out0 + (line@.subrange(pos as int, a as int) + spec_sgr_open(
                    self.code@,
                ) + line@.subrange(a as int, b as int) + spec_sgr_close()));
                assert(out@ + spec_hl_from(line@, ranges@.skip(k as int + 1), b as int, self.code@)
                    =~= out0 + spec_hl_from(line@, rest, pos as int, self.code@));
            }
            pos = b;
            k = k + 1;
        }
        let ghost out1 = out@;
        out.extend_from_slice(&line[pos..line.len()]);
        proof {
            assert(ranges@.skip(n as int) =~= Seq::<(usize, usize)>::empty());
            assert(out@ =~= out1 + line@.subrange(pos as int, line@.len() as int));
            assert(out@ =~= total);
            if no_esc(line@) && sgr_code(self.code()) {
                lemma_clip_wf(match_ranges(self.pattern(), line@), 0, line@.len() as int);
                lemma_strip_hl_from(line@, ranges@, 0, self.code@);
                assert(line@.subrange(0, line@.len() as int) =~= line@);
            }
        }
        out
    }
}

/// Every colour's SGR parameter is ASCII digits.
proof fn lemma_color_code_digits(c: Color)
    ensures
        sgr_code(spec_color_code_bytes(c)),
{
}

} // verus!
