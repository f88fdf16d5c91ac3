//! The mathematical model of the comment stripper: a single-pass state
//! machine over bytes, driven by a language's delimiter tables.

use vstd::prelude::*;

verus! {

/// The newline byte, which ends a line comment and survives block comments.
pub const NEWLINE: u8 = 10;

/// The backslash byte, which escapes the next byte inside a string literal.
pub const BACKSLASH: u8 = 92;

/// The space byte.
pub const SPACE: u8 = 32;

/// The tab byte.
pub const TAB: u8 = 9;

/// A language's delimiters as byte sequences.
pub struct Syntax {
    pub line_comments: Seq<Seq<u8>>,
    pub multi_line_comments: Seq<(Seq<u8>, Seq<u8>)>,
    pub quotes: Seq<(Seq<u8>, Seq<u8>)>,
    pub allows_nested: bool,
}

/// The three mutually exclusive states of the scanner.
pub enum Mode {
    /// Scanning ordinary source text.
    Code,
    /// Inside a literal that the given end delimiter closes.
    InString(Seq<u8>),
    /// Inside block comments; the pending end delimiters, innermost last.
    InBlockComment(Seq<Seq<u8>>),
}

/// A snapshot of the scanner: how far it has read, what it has written so
/// far, and the state it is in.
pub struct Scan {
    pub cursor: int,
    pub output: Seq<u8>,
    pub mode: Mode,
}

impl Scan {
    /// The cursor lies within `input`, and the delimiters that the state
    /// waits for are non-empty.
    pub open spec fn valid(self, input: Seq<u8>) -> bool {
        &&& 0 <= self.cursor <= input.len()
        &&& match self.mode {
            Mode::Code => true,
            Mode::InString(end) => end.len() > 0,
            Mode::InBlockComment(pending) => pending.len() > 0 && forall|i: int|
                0 <= i < pending.len() ==> (#[trigger] pending[i]).len() > 0,
        }
    }
}

/// The start delimiters of a list of pairs.
pub open spec fn starts(pairs: Seq<(Seq<u8>, Seq<u8>)>) -> Seq<Seq<u8>> {
    Seq::new(pairs.len(), |i: int| pairs[i].0)
}

/// Every marker is non-empty and begins with a byte other than a newline.
pub open spec fn markers_well_formed(markers: Seq<Seq<u8>>) -> bool {
    forall|i: int|
        0 <= i < markers.len() ==> (#[trigger] markers[i]).len() > 0 && markers[i][0] != NEWLINE
}

/// Both delimiters of every pair are non-empty.
pub open spec fn pairs_well_formed(pairs: Seq<(Seq<u8>, Seq<u8>)>) -> bool {
    forall|i: int|
        0 <= i < pairs.len() ==> (#[trigger] pairs[i]).0.len() > 0 && pairs[i].1.len() > 0
}

impl Syntax {
    /// Every delimiter is non-empty, and no line-comment marker begins with
    /// a newline: the line that such a marker comments out would never end.
    pub open spec fn well_formed(self) -> bool {
        &&& markers_well_formed(self.line_comments)
        &&& pairs_well_formed(self.multi_line_comments)
        &&& pairs_well_formed(self.quotes)
    }
}

/// `delim` occurs in `input` at offset `at`.
pub open spec fn matches_at(input: Seq<u8>, at: int, delim: Seq<u8>) -> bool {
    &&& 0 <= at
    &&& at + delim.len() <= input.len()
    &&& input.subrange(at, at + delim.len()) == delim
}

/// The index of the first delimiter at or after index `k` of `delims` that
/// occurs in `input` at offset `at`.
pub open spec fn first_match_from(delims: Seq<Seq<u8>>, input: Seq<u8>, at: int, k: int) -> Option<int>
    decreases delims.len() - k,
{
    if k < 0 || k >= delims.len() {
        None
    } else if matches_at(input, at, delims[k]) {
        Some(k)
    } else {
        first_match_from(delims, input, at, k + 1)
    }
}

/// The index of the first listed delimiter that occurs in `input` at `at`.
pub open spec fn first_match(delims: Seq<Seq<u8>>, input: Seq<u8>, at: int) -> Option<int> {
    first_match_from(delims, input, at, 0)
}

/// The offset of the first newline at or after `from`, or the length of the
/// input where none is left.
pub open spec fn line_end(input: Seq<u8>, from: int) -> int
    decreases input.len() - from,
{
    if from < 0 || from >= input.len() {
        input.len() as int
    } else if input[from] == NEWLINE {
        from
    } else {
        line_end(input, from + 1)
    }
}

pub open spec fn is_blank(b: u8) -> bool {
    b == SPACE || b == TAB
}

/// `output` without the spaces and tabs at its end.
pub open spec fn trim_trailing_blanks(output: Seq<u8>) -> Seq<u8>
    decreases output.len(),
{
    if output.len() > 0 && is_blank(output.last()) {
        trim_trailing_blanks(output.drop_last())
    } else {
        output
    }
}

/// One step inside a string literal: the end delimiter closes it, a
/// backslash carries the next byte along, anything else is copied.
pub open spec fn step_in_string(input: Seq<u8>, s: Scan, end: Seq<u8>) -> Scan {
    if matches_at(input, s.cursor, end) {
        Scan { cursor: s.cursor + end.len(), output: s.output + end, mode: Mode::Code }
    } else if input[s.cursor] == BACKSLASH && s.cursor + 1 < input.len() {
        Scan {
            cursor: s.cursor + 2,
            output: s.output + input.subrange(s.cursor, s.cursor + 2),
            mode: s.mode,
        }
    } else {
        Scan { cursor: s.cursor + 1, output: s.output.push(input[s.cursor]), mode: s.mode }
    }
}

/// One step inside a block comment: the innermost end delimiter closes one
/// level, a start delimiter opens another where nesting is allowed, a
/// newline is kept, anything else is dropped.
pub open spec fn step_in_comment(syn: Syntax, input: Seq<u8>, s: Scan, pending: Seq<Seq<u8>>) -> Scan {
    let opened = first_match(starts(syn.multi_line_comments), input, s.cursor);
    if matches_at(input, s.cursor, pending.last()) {
        let rest = pending.drop_last();
        Scan {
            cursor: s.cursor + pending.last().len(),
            output: s.output,
            mode: if rest.len() == 0 {
                Mode::Code
            } else {
                Mode::InBlockComment(rest)
            },
        }
    } else if syn.allows_nested && opened is Some {
        let pair = syn.multi_line_comments[opened->0];
        Scan {
            cursor: s.cursor + pair.0.len(),
            output: s.output,
            mode: Mode::InBlockComment(pending.push(pair.1)),
        }
    } else {
        Scan {
            cursor: s.cursor + 1,
            output: if input[s.cursor] == NEWLINE {
                s.output.push(NEWLINE)
            } else {
                s.output
            },
            mode: s.mode,
        }
    }
}

/// One step in code: a line comment wins over a block comment, which wins
/// over a literal; within one kind the first listed delimiter wins.
pub open spec fn step_in_code(syn: Syntax, input: Seq<u8>, s: Scan) -> Scan {
    let line = first_match(syn.line_comments, input, s.cursor);
    let block = first_match(starts(syn.multi_line_comments), input, s.cursor);
    let quote = first_match(starts(syn.quotes), input, s.cursor);
    if line is Some {
        Scan {
            cursor: line_end(input, s.cursor),
            output: trim_trailing_blanks(s.output),
            mode: Mode::Code,
        }
    } else if block is Some {
        let pair = syn.multi_line_comments[block->0];
        Scan {
            cursor: s.cursor + pair.0.len(),
            output: s.output,
            mode: Mode::InBlockComment(seq![pair.1]),
        }
    } else if quote is Some {
        let pair = syn.quotes[quote->0];
        Scan {
            cursor: s.cursor + pair.0.len(),
            output: s.output + pair.0,
            mode: Mode::InString(pair.1),
        }
    } else {
        Scan { cursor: s.cursor + 1, output: s.output.push(input[s.cursor]), mode: Mode::Code }
    }
}

/// One step of the scanner from a snapshot whose cursor is inside the input.
pub open spec fn step(syn: Syntax, input: Seq<u8>, s: Scan) -> Scan {
    match s.mode {
        Mode::InString(end) => step_in_string(input, s, end),
        Mode::InBlockComment(pending) => step_in_comment(syn, input, s, pending),
        Mode::Code => step_in_code(syn, input, s),
    }
}

/// What the scanner has written when it stops, started from `s`. It stops at
/// the end of the input: every step of a well-formed syntax moves the cursor
/// forward and keeps it within the input.
pub open spec fn run(syn: Syntax, input: Seq<u8>, s: Scan) -> Seq<u8>
    decreases input.len() - s.cursor,
{
    if 0 <= s.cursor < step(syn, input, s).cursor <= input.len() {
        run(syn, input, step(syn, input, s))
    } else {
        s.output
    }
}

/// The snapshot the scanner starts from.
pub open spec fn start() -> Scan {
    Scan { cursor: 0, output: Seq::empty(), mode: Mode::Code }
}

/// `input` with its comments removed according to `syn`.
pub open spec fn strip(input: Seq<u8>, syn: Syntax) -> Seq<u8> {
    run(syn, input, start())
}

/// What `first_match_from` finds is the first delimiter from index `k` on
/// that occurs at `at`; it finds nothing only where none of them occurs.
pub proof fn lemma_first_match_from(delims: Seq<Seq<u8>>, input: Seq<u8>, at: int, k: int)
    requires
        0 <= k,
    ensures
        match first_match_from(delims, input, at, k) {
            Some(i) => k <= i < delims.len() && matches_at(input, at, delims[i]) && forall|j: int|
                k <= j < i ==> !matches_at(input, at, #[trigger] delims[j]),
            None => forall|j: int|
                k <= j < delims.len() ==> !matches_at(input, at, #[trigger] delims[j]),
        },
    decreases delims.len() - k,
{
    if k < delims.len() && !matches_at(input, at, delims[k]) {
        lemma_first_match_from(delims, input, at, k + 1);
    }
}

/// The end of a line lies between the offset it is sought from and the end
/// of the input, and no newline lies before it.
pub proof fn lemma_line_end(input: Seq<u8>, from: int)
    requires
        0 <= from <= input.len(),
    ensures
        from <= line_end(input, from) <= input.len(),
        line_end(input, from) < input.len() ==> input[line_end(input, from)] == NEWLINE,
        forall|j: int| from <= j < line_end(input, from) ==> input[j] != NEWLINE,
    decreases input.len() - from,
{
    if from < input.len() && input[from] != NEWLINE {
        lemma_line_end(input, from + 1);
    }
}

/// A step from a valid snapshot inside the input moves the cursor forward,
/// keeps it within the input, and leaves a valid snapshot.
pub proof fn lemma_step_advances(syn: Syntax, input: Seq<u8>, s: Scan)
    requires
        syn.well_formed(),
        s.valid(input),
        s.cursor < input.len(),
    ensures
        s.cursor < step(syn, input, s).cursor <= input.len(),
        step(syn, input, s).valid(input),
        run(syn, input, s) == run(syn, input, step(syn, input, s)),
{
    let block_starts = starts(syn.multi_line_comments);
    let quote_starts = starts(syn.quotes);
    lemma_first_match_from(syn.line_comments, input, s.cursor, 0);
    lemma_first_match_from(block_starts, input, s.cursor, 0);
    lemma_first_match_from(quote_starts, input, s.cursor, 0);
    match s.mode {
        Mode::InString(end) => {},
        Mode::InBlockComment(pending) => {
            let opened = first_match(block_starts, input, s.cursor);
            if !matches_at(input, s.cursor, pending.last()) && syn.allows_nested && opened is Some {
                let pair = syn.multi_line_comments[opened->0];
                assert(block_starts[opened->0] == pair.0);
            }
        },
        Mode::Code => {
            let line = first_match(syn.line_comments, input, s.cursor);
            let block = first_match(block_starts, input, s.cursor);
            let quote = first_match(quote_starts, input, s.cursor);
            if line is Some {
                let marker = syn.line_comments[line->0];
                assert(input.subrange(s.cursor, s.cursor + marker.len())[0] == marker[0]);
                lemma_line_end(input, s.cursor + 1);
            } else if block is Some {
                assert(block_starts[block->0] == syn.multi_line_comments[block->0].0);
            } else if quote is Some {
                assert(quote_starts[quote->0] == syn.quotes[quote->0].0);
            }
        },
    }
}

} // verus!
