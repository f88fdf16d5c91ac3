//! What holds of the comment stripper on every input.

use super::model::{
    first_match, is_blank, lemma_first_match_from, lemma_line_end, lemma_step_advances, line_end,
    matches_at, run, start, starts, step, strip, trim_trailing_blanks, Mode, Scan, Syntax, BACKSLASH,
    NEWLINE,
};
use vstd::prelude::*;

verus! {

/// Stripping an empty input gives an empty output, whatever the syntax.
pub proof fn lemma_strip_empty(syn: Syntax)
    ensures
        strip(Seq::<u8>::empty(), syn) == Seq::<u8>::empty(),
{
}

/// From any snapshot on, the scanner writes at most one byte for each byte
/// that it reads.
pub proof fn lemma_run_never_longer(syn: Syntax, input: Seq<u8>, s: Scan)
    requires
        0 <= s.cursor <= input.len(),
    ensures
        run(syn, input, s).len() <= s.output.len() + (input.len() - s.cursor),
    decreases input.len() - s.cursor,
{
    let next = step(syn, input, s);
    if s.cursor < next.cursor <= input.len() {
        lemma_trimmed(s.output);
        lemma_first_match_from(starts(syn.multi_line_comments), input, s.cursor, 0);
        lemma_first_match_from(starts(syn.quotes), input, s.cursor, 0);
        assert(next.output.len() <= s.output.len() + (next.cursor - s.cursor)) by {
            if s.mode is Code && first_match(syn.line_comments, input, s.cursor) is None
                && first_match(starts(syn.multi_line_comments), input, s.cursor) is None
                && first_match(starts(syn.quotes), input, s.cursor) is Some {
                let quote = first_match(starts(syn.quotes), input, s.cursor)->0;
                assert(starts(syn.quotes)[quote] == syn.quotes[quote].0);
            }
        }
        lemma_run_never_longer(syn, input, next);
    }
}

/// Stripping never makes an input longer.
pub proof fn lemma_strip_never_longer(input: Seq<u8>, syn: Syntax)
    ensures
        strip(input, syn).len() <= input.len(),
{
    lemma_run_never_longer(syn, input, start());
}

/// No delimiter of the list occurs anywhere in `input`.
pub open spec fn free_of(input: Seq<u8>, delims: Seq<Seq<u8>>) -> bool {
    forall|at: int, i: int|
        0 <= i < delims.len() ==> !#[trigger] matches_at(input, at, delims[i])
}

/// `input` holds no comment and no literal: no line-comment marker, no start
/// of a block comment and no start of a literal occurs in it.
pub open spec fn is_plain(input: Seq<u8>, syn: Syntax) -> bool {
    &&& free_of(input, syn.line_comments)
    &&& free_of(input, starts(syn.multi_line_comments))
    &&& free_of(input, starts(syn.quotes))
}

/// No delimiter of any kind starts at `at`: what stands there is code.
pub open spec fn is_code_at(input: Seq<u8>, syn: Syntax, at: int) -> bool {
    &&& first_match(syn.line_comments, input, at) is None
    &&& first_match(starts(syn.multi_line_comments), input, at) is None
    &&& first_match(starts(syn.quotes), input, at) is None
}

/// In code the scanner copies every byte up to the earliest place where a
/// delimiter of any kind starts, and is still in code there.
pub proof fn lemma_code_copied(syn: Syntax, input: Seq<u8>, s: Scan, upto: int)
    requires
        s.mode is Code,
        0 <= s.cursor <= upto <= input.len(),
        forall|at: int| s.cursor <= at < upto ==> is_code_at(input, syn, at),
    ensures
        run(syn, input, s) == run(
            syn,
            input,
            Scan {
                cursor: upto,
                output: s.output + input.subrange(s.cursor, upto),
                mode: Mode::Code,
            },
        ),
    decreases upto - s.cursor,
{
    if s.cursor < upto {
        assert(is_code_at(input, syn, s.cursor));
        let next = step(syn, input, s);
        lemma_code_copied(syn, input, next, upto);
        assert(next.output + input.subrange(next.cursor, upto) =~= s.output + input.subrange(
            s.cursor,
            upto,
        ));
    } else {
        assert(s.output + input.subrange(s.cursor, upto) =~= s.output);
    }
}

/// Input that holds no comment and no literal comes back unchanged.
pub proof fn lemma_strip_plain(input: Seq<u8>, syn: Syntax)
    requires
        is_plain(input, syn),
    ensures
        strip(input, syn) == input,
{
    assert forall|at: int| 0 <= at < input.len() implies is_code_at(input, syn, at) by {
        lemma_first_match_from(syn.line_comments, input, at, 0);
        lemma_first_match_from(starts(syn.multi_line_comments), input, at, 0);
        lemma_first_match_from(starts(syn.quotes), input, at, 0);
    }
    lemma_code_copied(syn, input, start(), input.len() as int);
    assert(Seq::<u8>::empty() + input.subrange(0, input.len() as int) =~= input);
}

/// Stripping twice gives what stripping once gives, where the first pass
/// leaves no comment and no literal behind.
pub proof fn lemma_strip_idempotent(input: Seq<u8>, syn: Syntax)
    requires
        is_plain(strip(input, syn), syn),
    ensures
        strip(strip(input, syn), syn) == strip(input, syn),
{
    lemma_strip_plain(strip(input, syn), syn);
}

/// Where the literal that the scanner is inside at `from` ends: behind its
/// end delimiter, or with the input where it never closes. A backslash
/// takes the byte after it along.
pub open spec fn literal_end(input: Seq<u8>, from: int, end: Seq<u8>) -> int
    decreases input.len() - from,
{
    if from < 0 || from >= input.len() {
        input.len() as int
    } else if matches_at(input, from, end) {
        from + end.len()
    } else if input[from] == BACKSLASH && from + 1 < input.len() {
        literal_end(input, from + 2, end)
    } else {
        literal_end(input, from + 1, end)
    }
}

/// Inside a literal the scanner copies every byte up to and including the
/// end delimiter, whatever the bytes look like, and is back in code then.
pub proof fn lemma_literal_body_kept(
    syn: Syntax,
    input: Seq<u8>,
    from: int,
    output: Seq<u8>,
    end: Seq<u8>,
)
    requires
        0 <= from <= input.len(),
        end.len() > 0,
    ensures
        from <= literal_end(input, from, end) <= input.len(),
        run(syn, input, Scan { cursor: from, output, mode: Mode::InString(end) }) == run(
            syn,
            input,
            Scan {
                cursor: literal_end(input, from, end),
                output: output + input.subrange(from, literal_end(input, from, end)),
                mode: Mode::Code,
            },
        ),
    decreases input.len() - from,
{
    let s = Scan { cursor: from, output, mode: Mode::InString(end) };
    let close = literal_end(input, from, end);
    if from >= input.len() {
        assert(output + input.subrange(from, close) =~= output);
    } else if matches_at(input, from, end) {
        assert(output + input.subrange(from, close) =~= output + end);
    } else {
        let next = step(syn, input, s);
        lemma_literal_body_kept(syn, input, next.cursor, next.output, end);
        assert(next.output + input.subrange(next.cursor, close) =~= output + input.subrange(
            from,
            close,
        ));
    }
}

/// A literal that begins in code is kept verbatim, from its start delimiter
/// to its end delimiter: comment markers inside it have no effect.
pub proof fn lemma_literal_kept(syn: Syntax, input: Seq<u8>, s: Scan)
    requires
        syn.well_formed(),
        s.mode is Code,
        0 <= s.cursor < input.len(),
        first_match(syn.line_comments, input, s.cursor) is None,
        first_match(starts(syn.multi_line_comments), input, s.cursor) is None,
        first_match(starts(syn.quotes), input, s.cursor) is Some,
    ensures
        ({
            let pair = syn.quotes[first_match(starts(syn.quotes), input, s.cursor)->0];
            let close = literal_end(input, s.cursor + pair.0.len(), pair.1);
            &&& s.cursor + pair.0.len() <= close <= input.len()
            &&& run(syn, input, s) == run(
                syn,
                input,
                Scan {
                    cursor: close,
                    output: s.output + input.subrange(s.cursor, close),
                    mode: Mode::Code,
                },
            )
        }),
{
    let quote = first_match(starts(syn.quotes), input, s.cursor)->0;
    lemma_first_match_from(starts(syn.quotes), input, s.cursor, 0);
    let pair = syn.quotes[quote];
    assert(starts(syn.quotes)[quote] == pair.0);
    let inside = step(syn, input, s);
    lemma_literal_body_kept(syn, input, inside.cursor, inside.output, pair.1);
    let close = literal_end(input, inside.cursor, pair.1);
    assert(inside.output + input.subrange(inside.cursor, close) =~= s.output + input.subrange(
        s.cursor,
        close,
    ));
}

/// The number of newline bytes among `bytes`.
pub open spec fn count_newlines(bytes: Seq<u8>) -> nat
    decreases bytes.len(),
{
    if bytes.len() == 0 {
        0
    } else {
        count_newlines(bytes.drop_last()) + if bytes.last() == NEWLINE {
            1nat
        } else {
            0nat
        }
    }
}

/// `n` newline bytes.
pub open spec fn newlines(n: nat) -> Seq<u8> {
    Seq::new(n, |i: int| NEWLINE)
}

/// No byte of the delimiter is a newline.
pub open spec fn newline_free(delim: Seq<u8>) -> bool {
    forall|i: int| 0 <= i < delim.len() ==> delim[i] != NEWLINE
}

/// No block-comment delimiter of the syntax holds a newline.
pub open spec fn block_delimiters_newline_free(syn: Syntax) -> bool {
    forall|i: int|
        0 <= i < syn.multi_line_comments.len() ==> newline_free(
            (#[trigger] syn.multi_line_comments[i]).0,
        ) && newline_free(syn.multi_line_comments[i].1)
}

/// None of the end delimiters holds a newline.
pub open spec fn all_newline_free(pending: Seq<Seq<u8>>) -> bool {
    forall|i: int| 0 <= i < pending.len() ==> newline_free(#[trigger] pending[i])
}

/// The snapshot at which the scanner leaves the block comment that `s` is
/// inside, or at which the input ends.
pub open spec fn comment_close(syn: Syntax, input: Seq<u8>, s: Scan) -> Scan
    decreases input.len() - s.cursor,
{
    if s.mode is InBlockComment && 0 <= s.cursor < step(syn, input, s).cursor <= input.len() {
        comment_close(syn, input, step(syn, input, s))
    } else {
        s
    }
}

proof fn lemma_count_concat(a: Seq<u8>, b: Seq<u8>)
    ensures
        count_newlines(a + b) == count_newlines(a) + count_newlines(b),
    decreases b.len(),
{
    if b.len() == 0 {
        assert(a + b =~= a);
    } else {
        assert((a + b).drop_last() =~= a + b.drop_last());
        lemma_count_concat(a, b.drop_last());
    }
}

proof fn lemma_count_newline_free(delim: Seq<u8>)
    requires
        newline_free(delim),
    ensures
        count_newlines(delim) == 0,
    decreases delim.len(),
{
    if delim.len() > 0 {
        lemma_count_newline_free(delim.drop_last());
    }
}

/// A block comment leaves its newlines in the output and nothing else: as
/// many newline bytes as lie between the place where the scanner stands and
/// the place where it leaves the comment, provided that no block-comment
/// delimiter holds a newline itself.
pub proof fn lemma_comment_leaves_newlines(syn: Syntax, input: Seq<u8>, s: Scan)
    requires
        syn.well_formed(),
        block_delimiters_newline_free(syn),
        s.valid(input),
        s.mode is InBlockComment,
        all_newline_free(s.mode->InBlockComment_0),
    ensures
        ({
            let left = comment_close(syn, input, s);
            &&& s.cursor <= left.cursor <= input.len()
            &&& left.mode is Code || left.cursor == input.len()
            &&& left.output == s.output + newlines(
                count_newlines(input.subrange(s.cursor, left.cursor)),
            )
            &&& run(syn, input, s) == run(syn, input, left)
        }),
    decreases input.len() - s.cursor,
{
    let left = comment_close(syn, input, s);
    let pending = s.mode->InBlockComment_0;
    if s.cursor < input.len() {
        lemma_step_advances(syn, input, s);
        let next = step(syn, input, s);
        let block_starts = starts(syn.multi_line_comments);
        let opened = first_match(block_starts, input, s.cursor);
        lemma_first_match_from(block_starts, input, s.cursor, 0);
        let consumed = input.subrange(s.cursor, next.cursor);
        // What one step reads and what it writes.
        assert(next.output == s.output + newlines(count_newlines(consumed))) by {
            if matches_at(input, s.cursor, pending.last()) {
                assert(consumed == pending.last());
                assert(newline_free(pending[pending.len() - 1]));
                lemma_count_newline_free(consumed);
                assert(s.output + newlines(0) =~= s.output);
            } else if syn.allows_nested && opened is Some {
                let pair = syn.multi_line_comments[opened->0];
                assert(block_starts[opened->0] == pair.0);
                assert(consumed == pair.0);
                lemma_count_newline_free(consumed);
                assert(s.output + newlines(0) =~= s.output);
            } else {
                assert(consumed =~= seq![input[s.cursor]]);
                assert(consumed.drop_last() =~= Seq::<u8>::empty());
                assert(count_newlines(consumed.drop_last()) == 0);
                assert(consumed.last() == input[s.cursor]);
                if input[s.cursor] == NEWLINE {
                    assert(count_newlines(consumed) == 1);
                    assert(s.output + newlines(1) =~= s.output.push(NEWLINE));
                } else {
                    assert(count_newlines(consumed) == 0);
                    assert(s.output + newlines(0) =~= s.output);
                }
            }
        }
        if next.mode is InBlockComment {
            assert(all_newline_free(next.mode->InBlockComment_0)) by {
                if matches_at(input, s.cursor, pending.last()) {
                } else if syn.allows_nested && opened is Some {
                    let pair = syn.multi_line_comments[opened->0];
                    assert(newline_free(pair.1));
                }
            }
            lemma_comment_leaves_newlines(syn, input, next);
        }
        assert(left == comment_close(syn, input, next));
        assert(next.cursor <= left.cursor <= input.len());
        let rest = input.subrange(next.cursor, left.cursor);
        assert(consumed + rest =~= input.subrange(s.cursor, left.cursor));
        lemma_count_concat(consumed, rest);
        assert(newlines(count_newlines(consumed)) + newlines(count_newlines(rest)) =~= newlines(
            count_newlines(consumed + rest),
        ));
        assert(left.output =~= s.output + newlines(
            count_newlines(input.subrange(s.cursor, left.cursor)),
        ));
    } else {
        assert(input.subrange(s.cursor, left.cursor) =~= Seq::<u8>::empty());
        assert(s.output + newlines(0) =~= s.output);
    }
}

proof fn lemma_count_trimmed(output: Seq<u8>)
    ensures
        count_newlines(trim_trailing_blanks(output)) == count_newlines(output),
    decreases output.len(),
{
    if output.len() > 0 && is_blank(output.last()) {
        lemma_count_trimmed(output.drop_last());
    }
}

/// One step of the scanner writes as many newlines as it reads, provided
/// that no block-comment delimiter holds a newline.
proof fn lemma_step_keeps_newlines(syn: Syntax, input: Seq<u8>, s: Scan)
    requires
        syn.well_formed(),
        block_delimiters_newline_free(syn),
        s.valid(input),
        s.cursor < input.len(),
        s.mode is InBlockComment ==> all_newline_free(s.mode->InBlockComment_0),
    ensures
        ({
            let next = step(syn, input, s);
            &&& next.mode is InBlockComment ==> all_newline_free(next.mode->InBlockComment_0)
            &&& count_newlines(next.output) == count_newlines(s.output) + count_newlines(
                input.subrange(s.cursor, next.cursor),
            )
        }),
{
    lemma_step_advances(syn, input, s);
    let next = step(syn, input, s);
    let consumed = input.subrange(s.cursor, next.cursor);
    let block_starts = starts(syn.multi_line_comments);
    let quote_starts = starts(syn.quotes);
    lemma_first_match_from(block_starts, input, s.cursor, 0);
    lemma_first_match_from(quote_starts, input, s.cursor, 0);
    let opened = first_match(block_starts, input, s.cursor);
    let one = seq![input[s.cursor]];
    assert(s.output.push(input[s.cursor]) =~= s.output + one);
    assert(one.drop_last() =~= Seq::<u8>::empty());
    assert(count_newlines(one.drop_last()) == 0);
    assert(count_newlines(one) == if input[s.cursor] == NEWLINE {
        1nat
    } else {
        0nat
    });
    match s.mode {
        Mode::InString(end) => {
            if matches_at(input, s.cursor, end) {
                assert(consumed == end);
            } else if input[s.cursor] == BACKSLASH && s.cursor + 1 < input.len() {
            } else {
                assert(consumed =~= one);
            }
            assert(next.output =~= s.output + consumed);
            lemma_count_concat(s.output, consumed);
        },
        Mode::InBlockComment(pending) => {
            if matches_at(input, s.cursor, pending.last()) {
                assert(consumed == pending[pending.len() - 1]);
                lemma_count_newline_free(consumed);
                assert forall|i: int| 0 <= i < pending.drop_last().len() implies newline_free(
                    #[trigger] pending.drop_last()[i],
                ) by {
                    assert(pending.drop_last()[i] == pending[i]);
                }
            } else if syn.allows_nested && opened is Some {
                let pair = syn.multi_line_comments[opened->0];
                assert(block_starts[opened->0] == pair.0);
                assert(consumed == pair.0);
                lemma_count_newline_free(consumed);
                assert(newline_free(pair.1));
            } else {
                assert(consumed =~= one);
                if input[s.cursor] == NEWLINE {
                    assert(s.output.push(NEWLINE) =~= s.output + one);
                    lemma_count_concat(s.output, one);
                }
            }
        },
        Mode::Code => {
            if first_match(syn.line_comments, input, s.cursor) is Some {
                lemma_line_end(input, s.cursor);
                lemma_count_trimmed(s.output);
                lemma_count_newline_free(consumed);
            } else if opened is Some {
                let pair = syn.multi_line_comments[opened->0];
                assert(block_starts[opened->0] == pair.0);
                assert(consumed == pair.0);
                lemma_count_newline_free(consumed);
                assert(next.mode->InBlockComment_0 =~= seq![pair.1]);
            } else if first_match(quote_starts, input, s.cursor) is Some {
                let pair = syn.quotes[first_match(quote_starts, input, s.cursor)->0];
                assert(quote_starts[first_match(quote_starts, input, s.cursor)->0] == pair.0);
                assert(consumed == pair.0);
                lemma_count_concat(s.output, consumed);
            } else {
                assert(consumed =~= one);
                lemma_count_concat(s.output, consumed);
            }
        },
    }
}

/// From any snapshot on, the scanner writes as many newlines as are left to
/// read, provided that no block-comment delimiter holds a newline.
pub proof fn lemma_run_keeps_newlines(syn: Syntax, input: Seq<u8>, s: Scan)
    requires
        syn.well_formed(),
        block_delimiters_newline_free(syn),
        s.valid(input),
        s.mode is InBlockComment ==> all_newline_free(s.mode->InBlockComment_0),
    ensures
        count_newlines(run(syn, input, s)) == count_newlines(s.output) + count_newlines(
            input.subrange(s.cursor, input.len() as int),
        ),
    decreases input.len() - s.cursor,
{
    if s.cursor < input.len() {
        lemma_step_advances(syn, input, s);
        lemma_step_keeps_newlines(syn, input, s);
        let next = step(syn, input, s);
        lemma_run_keeps_newlines(syn, input, next);
        let consumed = input.subrange(s.cursor, next.cursor);
        let rest = input.subrange(next.cursor, input.len() as int);
        assert(consumed + rest =~= input.subrange(s.cursor, input.len() as int));
        lemma_count_concat(consumed, rest);
    } else {
        assert(input.subrange(s.cursor, input.len() as int) =~= Seq::<u8>::empty());
    }
}

/// Stripping keeps every line in its place: the output has as many newlines
/// as the input, provided that no block-comment delimiter holds a newline.
pub proof fn lemma_strip_keeps_newlines(input: Seq<u8>, syn: Syntax)
    requires
        syn.well_formed(),
        block_delimiters_newline_free(syn),
    ensures
        count_newlines(strip(input, syn)) == count_newlines(input),
{
    lemma_run_keeps_newlines(syn, input, start());
    assert(input.subrange(0, input.len() as int) =~= input);
}

/// `part` is what is left of `whole` when some of its bytes are taken out:
/// the bytes of `part` occur in `whole`, in the same order.
pub open spec fn is_subsequence(part: Seq<u8>, whole: Seq<u8>) -> bool
    decreases whole.len(),
{
    if part.len() == 0 {
        true
    } else if whole.len() == 0 {
        false
    } else {
        ||| part.last() == whole.last() && is_subsequence(part.drop_last(), whole.drop_last())
        ||| is_subsequence(part, whole.drop_last())
    }
}

proof fn lemma_subsequence_extends(part: Seq<u8>, whole: Seq<u8>, more: Seq<u8>)
    requires
        is_subsequence(part, whole),
    ensures
        is_subsequence(part, whole + more),
    decreases more.len(),
{
    if more.len() == 0 {
        assert(whole + more =~= whole);
    } else {
        lemma_subsequence_extends(part, whole, more.drop_last());
        assert((whole + more).drop_last() =~= whole + more.drop_last());
    }
}

proof fn lemma_subsequence_appends(part: Seq<u8>, whole: Seq<u8>, more: Seq<u8>)
    requires
        is_subsequence(part, whole),
    ensures
        is_subsequence(part + more, whole + more),
    decreases more.len(),
{
    if more.len() == 0 {
        assert(whole + more =~= whole);
        assert(part + more =~= part);
    } else {
        lemma_subsequence_appends(part, whole, more.drop_last());
        assert((whole + more).drop_last() =~= whole + more.drop_last());
        assert((part + more).drop_last() =~= part + more.drop_last());
    }
}

proof fn lemma_subsequence_shortens(part: Seq<u8>, whole: Seq<u8>)
    requires
        is_subsequence(part, whole),
        part.len() > 0,
    ensures
        is_subsequence(part.drop_last(), whole),
    decreases whole.len(),
{
    if part.last() == whole.last() && is_subsequence(part.drop_last(), whole.drop_last()) {
        lemma_subsequence_extends(part.drop_last(), whole.drop_last(), seq![whole.last()]);
        assert(whole.drop_last() + seq![whole.last()] =~= whole);
    } else {
        lemma_subsequence_shortens(part, whole.drop_last());
        lemma_subsequence_extends(part.drop_last(), whole.drop_last(), seq![whole.last()]);
        assert(whole.drop_last() + seq![whole.last()] =~= whole);
    }
}

proof fn lemma_subsequence_trimmed(part: Seq<u8>, whole: Seq<u8>)
    requires
        is_subsequence(part, whole),
    ensures
        is_subsequence(trim_trailing_blanks(part), whole),
    decreases part.len(),
{
    if part.len() > 0 && is_blank(part.last()) {
        lemma_subsequence_shortens(part, whole);
        lemma_subsequence_trimmed(part.drop_last(), whole);
    }
}

/// From any snapshot on, the scanner writes bytes of the input only, in
/// their order: where what it has written is left of what it has read, the
/// same holds of all that it writes and the whole input.
pub proof fn lemma_run_is_subsequence(syn: Syntax, input: Seq<u8>, s: Scan)
    requires
        syn.well_formed(),
        s.valid(input),
        is_subsequence(s.output, input.take(s.cursor)),
    ensures
        is_subsequence(run(syn, input, s), input),
    decreases input.len() - s.cursor,
{
    if s.cursor < input.len() {
        lemma_step_advances(syn, input, s);
        let next = step(syn, input, s);
        let read = input.take(s.cursor);
        let consumed = input.subrange(s.cursor, next.cursor);
        assert(read + consumed =~= input.take(next.cursor));
        let quote_starts = starts(syn.quotes);
        lemma_first_match_from(quote_starts, input, s.cursor, 0);
        let one = seq![input[s.cursor]];
        assert(s.output.push(input[s.cursor]) =~= s.output + one);
        // A step writes what it reads, or nothing, or takes blanks away.
        if next.output == s.output {
            lemma_subsequence_extends(s.output, read, consumed);
        } else if next.output == trim_trailing_blanks(s.output) {
            lemma_subsequence_trimmed(s.output, read);
            lemma_subsequence_extends(next.output, read, consumed);
        } else {
            assert(next.output =~= s.output + consumed) by {
                match s.mode {
                    Mode::InString(end) => {
                        if matches_at(input, s.cursor, end) {
                            assert(consumed == end);
                        } else if input[s.cursor] == BACKSLASH && s.cursor + 1 < input.len() {
                        } else {
                            assert(consumed =~= one);
                        }
                    },
                    Mode::InBlockComment(pending) => {
                        assert(consumed =~= one);
                    },
                    Mode::Code => {
                        if first_match(quote_starts, input, s.cursor) is Some {
                            let quote = first_match(quote_starts, input, s.cursor)->0;
                            assert(quote_starts[quote] == syn.quotes[quote].0);
                            assert(consumed == syn.quotes[quote].0);
                        } else {
                            assert(consumed =~= one);
                        }
                    },
                }
            }
            lemma_subsequence_appends(s.output, read, consumed);
        }
        lemma_run_is_subsequence(syn, input, next);
    } else {
        assert(input.take(s.cursor) =~= input);
    }
}

/// Stripping only takes bytes out: what is left are bytes of the input, in
/// their order.
pub proof fn lemma_strip_is_subsequence(input: Seq<u8>, syn: Syntax)
    requires
        syn.well_formed(),
    ensures
        is_subsequence(strip(input, syn), input),
{
    lemma_run_is_subsequence(syn, input, start());
}

/// A block comment that begins in code is removed together with its
/// delimiters, and leaves as many newlines as it spans.
pub proof fn lemma_block_comment_removed(syn: Syntax, input: Seq<u8>, s: Scan)
    requires
        syn.well_formed(),
        block_delimiters_newline_free(syn),
        s.mode is Code,
        0 <= s.cursor < input.len(),
        first_match(syn.line_comments, input, s.cursor) is None,
        first_match(starts(syn.multi_line_comments), input, s.cursor) is Some,
    ensures
        ({
            let left = comment_close(syn, input, step(syn, input, s));
            &&& s.cursor < left.cursor <= input.len()
            &&& left.mode is Code || left.cursor == input.len()
            &&& left.output == s.output + newlines(
                count_newlines(input.subrange(s.cursor, left.cursor)),
            )
            &&& run(syn, input, s) == run(syn, input, left)
        }),
{
    let block_starts = starts(syn.multi_line_comments);
    let opened = first_match(block_starts, input, s.cursor)->0;
    lemma_first_match_from(block_starts, input, s.cursor, 0);
    let pair = syn.multi_line_comments[opened];
    assert(block_starts[opened] == pair.0);
    assert(s.valid(input));
    lemma_step_advances(syn, input, s);
    let inside = step(syn, input, s);
    assert(inside.mode->InBlockComment_0 =~= seq![pair.1]);
    lemma_comment_leaves_newlines(syn, input, inside);
    let left = comment_close(syn, input, inside);
    let opening = input.subrange(s.cursor, inside.cursor);
    let rest = input.subrange(inside.cursor, left.cursor);
    assert(opening == pair.0);
    lemma_count_newline_free(opening);
    lemma_count_concat(opening, rest);
    assert(opening + rest =~= input.subrange(s.cursor, left.cursor));
}

/// What trimming leaves is the longest beginning of the output that does
/// not end in a space or a tab.
pub proof fn lemma_trimmed(output: Seq<u8>)
    ensures
        trim_trailing_blanks(output).len() <= output.len(),
        trim_trailing_blanks(output) == output.take(trim_trailing_blanks(output).len() as int),
        trim_trailing_blanks(output).len() > 0 ==> !is_blank(trim_trailing_blanks(output).last()),
        forall|i: int|
            trim_trailing_blanks(output).len() <= i < output.len() ==> is_blank(
                #[trigger] output[i],
            ),
    decreases output.len(),
{
    if output.len() > 0 && is_blank(output.last()) {
        lemma_trimmed(output.drop_last());
        let kept = trim_trailing_blanks(output.drop_last());
        assert(output.drop_last().take(kept.len() as int) =~= output.take(kept.len() as int));
        assert forall|i: int| kept.len() <= i < output.len() implies is_blank(
            #[trigger] output[i],
        ) by {
            if i < output.len() - 1 {
                assert(output.drop_last()[i] == output[i]);
            }
        }
    } else {
        assert(output.take(output.len() as int) =~= output);
    }
}

/// A line comment is removed up to the end of its line, together with the
/// spaces and tabs that stand before it; the newline that ends the line is
/// left for the scanner to keep.
pub proof fn lemma_line_comment_removed(syn: Syntax, input: Seq<u8>, s: Scan)
    requires
        syn.well_formed(),
        s.mode is Code,
        0 <= s.cursor < input.len(),
        first_match(syn.line_comments, input, s.cursor) is Some,
    ensures
        s.cursor < line_end(input, s.cursor) <= input.len(),
        forall|at: int| s.cursor <= at < line_end(input, s.cursor) ==> input[at] != NEWLINE,
        line_end(input, s.cursor) < input.len() ==> input[line_end(input, s.cursor)] == NEWLINE,
        run(syn, input, s) == run(
            syn,
            input,
            Scan {
                cursor: line_end(input, s.cursor),
                output: trim_trailing_blanks(s.output),
                mode: Mode::Code,
            },
        ),
{
    assert(s.valid(input));
    lemma_step_advances(syn, input, s);
    lemma_line_end(input, s.cursor);
}

/// A block comment that never closes leaves only its newlines: the scanner
/// runs to the end of the input and fails on nothing.
pub proof fn lemma_unterminated_comment(syn: Syntax, input: Seq<u8>, s: Scan)
    requires
        syn.well_formed(),
        block_delimiters_newline_free(syn),
        s.valid(input),
        s.mode is InBlockComment,
        all_newline_free(s.mode->InBlockComment_0),
        comment_close(syn, input, s).mode is InBlockComment,
    ensures
        run(syn, input, s) == s.output + newlines(
            count_newlines(input.subrange(s.cursor, input.len() as int)),
        ),
{
    lemma_comment_leaves_newlines(syn, input, s);
}

} // verus!
