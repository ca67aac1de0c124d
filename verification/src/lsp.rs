//! What the language server computes before it answers: the line and column
//! ranges of the errors it reports, and the byte offset a hover position
//! names.
use vstd::prelude::*;
use line_numbers::LinePositions;
use vstd::utf8::encode_utf8;
use crate::syntax::syntax::{errors_within, stray_token, Error, ErrorKind, Generator};
use crate::syntax::lexer::token_at;
use crate::unicode::{byte_length, lemma_encode_len};

verus! {

#[verifier::external_type_specification]
#[verifier::external_body]
pub struct ExLinePositions(LinePositions);

/// The bytes of the text a line table was made from.
pub uninterp spec fn table_bytes(lp: LinePositions) -> Seq<u8>;

/// The number of `\n` bytes before byte offset `k`.
pub open spec fn newlines_before(b: Seq<u8>, k: int) -> int
    decreases k,
{
    if k <= 0 {
        0
    } else if b[k - 1] == 10 {
        newlines_before(b, k - 1) + 1
    } else {
        newlines_before(b, k - 1)
    }
}

/// The byte offset where the line holding byte offset `k` starts: after the
/// last `\n` before `k`, or 0.
pub open spec fn line_start(b: Seq<u8>, k: int) -> int
    decreases k,
{
    if k <= 0 {
        0
    } else if b[k - 1] == 10 {
        k
    } else {
        line_start(b, k - 1)
    }
}

pub proof fn lemma_line_start(b: Seq<u8>, k: int)
    requires
        0 <= k,
    ensures
        0 <= line_start(b, k) <= k,
    decreases k,
{
    if k > 0 {
        lemma_line_start(b, k - 1);
    }
}

/// line_numbers' `LinePositions::from`: the start and end of each line of the
/// text, split at `\n`.
#[verifier::external_body]
fn line_positions(text: &str) -> (lp: LinePositions)
    ensures
        table_bytes(lp) == encode_utf8(text@),
{
    LinePositions::from(text)
}

/// line_numbers' `LinePositions::from_offset`: the line (counted from 0, as a
/// `u32`) and the column in bytes of a byte offset. Its source panics on an
/// offset past the end of the text; a `\n` belongs to the line it ends.
#[verifier::external_body]
fn from_offset(lp: &LinePositions, offset: usize) -> (r: (u32, usize))
    requires
        offset <= table_bytes(*lp).len(),
    ensures
        r.0 == newlines_before(table_bytes(*lp), offset as int) as u32,
        r.1 == offset - line_start(table_bytes(*lp), offset as int),
{
    let (line, column) = lp.from_offset(offset);
    (line.0, column)
}

/// A range of the text by line and column, both counted from 0; columns count
/// bytes.
#[derive(Debug, Clone, Copy, PartialEq, Eq, Structural)]
pub struct TextRange {
    pub start_line: u32,
    pub start_character: u32,
    pub end_line: u32,
    pub end_character: u32,
}

/// A reported error: its kind and where it is.
#[derive(Debug, Clone, Copy, PartialEq, Eq, Structural)]
pub struct Report {
    pub kind: ErrorKind,
    pub range: TextRange,
}

/// The line and column of byte offset `k`, as the server reports them (the
/// column cut to 32 bits).
pub open spec fn line_and_column(b: Seq<u8>, k: int) -> (u32, u32) {
    (newlines_before(b, k) as u32, (k - line_start(b, k)) as u32)
}

/// The report of an error found in a text with these bytes.
pub open spec fn report_of(b: Seq<u8>, e: Error) -> Report {
    let (sl, sc) = line_and_column(b, e.start as int);
    let (el, ec) = line_and_column(b, e.end as int);
    Report {
        kind: e.kind,
        range: TextRange { start_line: sl, start_character: sc, end_line: el, end_character: ec },
    }
}

/// The reports of the errors found in `text`, in order. Every error must lie
/// within the text.
pub fn error_reports(text: &str, errors: &Vec<Error>) -> (r: Vec<Report>)
    requires
        errors_within(errors@, byte_length(text@)),
    ensures
        r@.len() == errors@.len(),
        forall|i: int| 0 <= i < r@.len() ==> #[trigger] r@[i] == report_of(encode_utf8(text@), errors@[i]),
{
    proof {
        lemma_encode_len(text@);
    }
    let numbers = line_positions(text);
    let mut res: Vec<Report> = Vec::new();
    let mut i: usize = 0;
    while i < errors.len()
        invariant
            i <= errors@.len(),
            table_bytes(numbers) == encode_utf8(text@),
            forall|j: int|
                0 <= j < errors@.len() ==> #[trigger] errors@[j].start <= encode_utf8(text@).len()
                    && errors@[j].end <= encode_utf8(text@).len(),
            res@.len() == i,
            forall|j: int| 0 <= j < i ==> #[trigger] res@[j] == report_of(encode_utf8(text@), errors@[j]),
        decreases errors@.len() - i,
    {
        let e = errors[i];
        let start = from_offset(&numbers, e.start);
        let end = from_offset(&numbers, e.end);
        res.push(
            Report {
                kind: e.kind,
                range: TextRange {
                    start_line: start.0,
                    start_character: start.1 as u32,
                    end_line: end.0,
                    end_character: end.1 as u32,
                },
            },
        );
        i = i + 1;
    }
    res
}

/// The range of a hovered node, from its start and end byte offsets in the
/// text: `None` when a column does not fit in 32 bits.
pub fn hover_range(text: &str, start: usize, end: usize) -> (r: Option<TextRange>)
    requires
        start <= byte_length(text@),
        end <= byte_length(text@),
    ensures
        ({
            let b = encode_utf8(text@);
            let sc = start - line_start(b, start as int);
            let ec = end - line_start(b, end as int);
            &&& r is Some <==> sc <= u32::MAX && ec <= u32::MAX
            &&& r matches Some(range) ==> range == (TextRange {
                start_line: newlines_before(b, start as int) as u32,
                start_character: sc as u32,
                end_line: newlines_before(b, end as int) as u32,
                end_character: ec as u32,
            })
        }),
{
    proof {
        lemma_encode_len(text@);
    }
    let numbers = line_positions(text);
    let s = from_offset(&numbers, start);
    let e = from_offset(&numbers, end);
    if s.1 > 4294967295usize || e.1 > 4294967295usize {
        return None;
    }
    Some(TextRange { start_line: s.0, start_character: s.1 as u32, end_line: e.0, end_character: e.1 as u32 })
}

/// Runs the syntax tree generator over a document (which must not be empty:
/// rowan builds no tree from nothing) and gives the errors it found, each with
/// its report. Every error lies within the text, so each can be reported. A
/// document that opens with a token no statement can begin with (an operator,
/// a number, a string, a closing bracket, ...) gets, as its first error, an
/// unexpected-token error over that token.
pub fn document_reports(text: &str) -> (r: (Vec<Error>, Vec<Report>))
    requires
        text@.len() > 0,
    ensures
        errors_within(r.0@, byte_length(text@)),
        r.1@.len() == r.0@.len(),
        forall|i: int| 0 <= i < r.1@.len() ==> #[trigger] r.1@[i] == report_of(encode_utf8(text@), r.0@[i]),
        stray_token(token_at(text@, 0).kind) ==> r.0@.len() > 0 && r.0@[0] == (Error {
            start: token_at(text@, 0).start,
            end: token_at(text@, 0).end,
            kind: ErrorKind::UnexpectedToken,
        }),
{
    let mut parser = Generator::new(text);
    let _tree = parser.process_all();
    let errors = parser.errors().clone();
    let reports = error_reports(text, &errors);
    (errors, reports)
}

/// The sum of the first `n` line lengths, one more for each line break.
pub open spec fn lines_before(lengths: Seq<usize>, n: int) -> int
    decreases n,
{
    if n <= 0 {
        0
    } else {
        lines_before(lengths, n - 1) + lengths[n - 1] + 1
    }
}

/// The offset that a hover position names in a text whose lines have these
/// byte lengths: the lengths of the lines before it, one more each for the
/// line break, and the character; for a line past the last one, the lengths
/// of all lines, one more each. None when the offset does not fit in 32 bits.
pub open spec fn spec_hover_offset(lengths: Seq<usize>, line: u32, character: u32) -> Option<u32> {
    let o = if line < lengths.len() {
        lines_before(lengths, line as int) + character
    } else {
        lines_before(lengths, lengths.len() as int)
    };
    if o <= u32::MAX {
        Some(o as u32)
    } else {
        None
    }
}

pub proof fn lemma_lines_before_mono(lengths: Seq<usize>, i: int, j: int)
    requires
        0 <= i <= j <= lengths.len(),
    ensures
        lines_before(lengths, i) <= lines_before(lengths, j),
    decreases j - i,
{
    if i < j {
        lemma_lines_before_mono(lengths, i, j - 1);
    }
}

/// The byte offset that a hover position names.
pub fn hover_offset(line_lengths: &Vec<usize>, line: u32, character: u32) -> (r: Option<u32>)
    ensures
        r == spec_hover_offset(line_lengths@, line, character),
{
    let n = line_lengths.len();
    let stop: usize = if (line as usize) < n { line as usize } else { n };
    let mut offset: u64 = 0;
    let mut i: usize = 0;
    while i < stop
        invariant
            stop <= line_lengths@.len(),
            stop == (if line < line_lengths@.len() { line as int } else { line_lengths@.len() as int }),
            i <= stop,
            offset == lines_before(line_lengths@, i as int),
            offset <= u32::MAX,
        decreases stop - i,
    {
        let len = line_lengths[i];
        if len as u64 >= u32::MAX as u64 - offset {
            proof {
                lemma_lines_before_mono(line_lengths@, i + 1, stop as int);
            }
            return None;
        }
        offset = offset + len as u64 + 1;
        i = i + 1;
    }
    if stop < n {
        if offset + character as u64 > u32::MAX as u64 {
            return None;
        }
        Some((offset + character as u64) as u32)
    } else {
        Some(offset as u32)
    }
}

} // verus!
