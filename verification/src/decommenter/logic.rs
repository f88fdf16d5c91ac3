//! The comment stripper: a verified implementation of the scanner that
//! [`super::model`] describes.

use super::laws::{is_code_at, lemma_code_copied};
use super::model::{
    first_match, first_match_from, lemma_first_match_from, lemma_step_advances, line_end,
    markers_well_formed, matches_at, pairs_well_formed, run, starts, step, strip,
    trim_trailing_blanks, Mode, Scan, BACKSLASH, NEWLINE, SPACE, TAB,
};
use super::{marker_bytes, pair_bytes, Language};
use std::sync::Arc;
use vstd::prelude::*;
use vstd::slice::slice_subrange;
use vstd::string::StringSliceAdditionalSpecFns;

verus! {

/// The first offset at which `needle` occurs in `haystack`.
pub fn find_subsequence(haystack: &[u8], needle: &[u8]) -> (found: Option<usize>)
    requires
        needle@.len() > 0,
    ensures
        match found {
            Some(at) => matches_at(haystack@, at as int, needle@) && forall|j: int|
                0 <= j < at ==> !matches_at(haystack@, j, needle@),
            None => forall|j: int| !matches_at(haystack@, j, needle@),
        },
{
    let mut at: usize = 0;
    while at < haystack.len() && needle.len() <= haystack.len() - at
        invariant
            forall|j: int| 0 <= j < at ==> !matches_at(haystack@, j, needle@),
        decreases haystack@.len() - at,
    {
        if starts_with_at(haystack, at, needle) {
            return Some(at);
        }
        at += 1;
    }
    None
}

/// Whether `delim` occurs in `contents` at offset `at`.
pub fn starts_with_at(contents: &[u8], at: usize, delim: &[u8]) -> (found: bool)
    ensures
        found == matches_at(contents@, at as int, delim@),
{
    if at > contents.len() || delim.len() > contents.len() - at {
        return false;
    }
    let mut k: usize = 0;
    while k < delim.len()
        invariant
            at + delim@.len() <= contents@.len() <= usize::MAX,
            k <= delim@.len(),
            forall|j: int| 0 <= j < k ==> contents@[at + j] == delim@[j],
        decreases delim@.len() - k,
    {
        if contents[at + k] != delim[k] {
            proof {
                let window = contents@.subrange(at as int, at + delim@.len());
                assert(window[k as int] == contents@[at + k]);
            }
            return false;
        }
        k += 1;
    }
    proof {
        assert(contents@.subrange(at as int, at + delim@.len()) =~= delim@);
    }
    true
}

/// The index of the first marker that occurs in `contents` at offset `at`.
pub fn find_marker(markers: &Vec<String>, contents: &[u8], at: usize) -> (found: Option<usize>)
    ensures
        match found {
            Some(i) => i < markers@.len() && first_match(
                marker_bytes(markers.deep_view()),
                contents@,
                at as int,
            ) == Some(i as int),
            None => first_match(marker_bytes(markers.deep_view()), contents@, at as int) is None,
        },
{
    let ghost delims = marker_bytes(markers.deep_view());
    let mut k: usize = 0;
    while k < markers.len()
        invariant
            k <= markers@.len(),
            delims == marker_bytes(markers.deep_view()),
            first_match(delims, contents@, at as int) == first_match_from(
                delims,
                contents@,
                at as int,
                k as int,
            ),
        decreases markers@.len() - k,
    {
        if starts_with_at(contents, at, markers[k].as_str().as_bytes()) {
            return Some(k);
        }
        k += 1;
    }
    None
}

/// The index of the first pair whose start delimiter occurs in `contents`
/// at offset `at`.
pub fn find_pair(pairs: &Vec<(String, String)>, contents: &[u8], at: usize) -> (found: Option<usize>)
    ensures
        match found {
            Some(i) => i < pairs@.len() && first_match(
                starts(pair_bytes(pairs.deep_view())),
                contents@,
                at as int,
            ) == Some(i as int),
            None => first_match(starts(pair_bytes(pairs.deep_view())), contents@, at as int) is None,
        },
{
    let ghost delims = starts(pair_bytes(pairs.deep_view()));
    let mut k: usize = 0;
    while k < pairs.len()
        invariant
            k <= pairs@.len(),
            delims == starts(pair_bytes(pairs.deep_view())),
            first_match(delims, contents@, at as int) == first_match_from(
                delims,
                contents@,
                at as int,
                k as int,
            ),
        decreases pairs@.len() - k,
    {
        if starts_with_at(contents, at, pairs[k].0.as_str().as_bytes()) {
            return Some(k);
        }
        k += 1;
    }
    None
}

/// The end delimiters that a stack of open block comments waits for.
spec fn pending_bytes(stack: Seq<&str>) -> Seq<Seq<u8>> {
    Seq::new(stack.len(), |i: int| stack[i].spec_bytes())
}

/// The state that the stripper's variables stand for.
spec fn mode_of(string_delimiter: Option<&str>, stack: Seq<&str>) -> Mode {
    match string_delimiter {
        Some(end) => Mode::InString(end.spec_bytes()),
        None => if stack.len() == 0 {
            Mode::Code
        } else {
            Mode::InBlockComment(pending_bytes(stack))
        },
    }
}

/// The snapshot that the stripper's variables stand for.
spec fn scan_of(
    cursor: usize,
    output: Seq<u8>,
    string_delimiter: Option<&str>,
    stack: Seq<&str>,
) -> Scan {
    Scan { cursor: cursor as int, output, mode: mode_of(string_delimiter, stack) }
}

/// The length of `output` without the spaces and tabs at its end.
fn trimmed_len(output: &Vec<u8>) -> (len: usize)
    ensures
        len <= output@.len(),
        output@.subrange(0, len as int) == trim_trailing_blanks(output@),
{
    let mut last_idx: usize = output.len();
    assert(output@.subrange(0, last_idx as int) =~= output@);
    while last_idx > 0 && (output[last_idx - 1] == SPACE || output[last_idx - 1] == TAB)
        invariant
            last_idx <= output@.len(),
            trim_trailing_blanks(output@) == trim_trailing_blanks(
                output@.subrange(0, last_idx as int),
            ),
        decreases last_idx,
    {
        proof {
            let kept = output@.subrange(0, last_idx as int);
            assert(kept.last() == output@[last_idx - 1]);
            assert(kept.drop_last() =~= output@.subrange(0, last_idx - 1));
        }
        last_idx -= 1;
    }
    proof {
        let kept = output@.subrange(0, last_idx as int);
        if last_idx > 0 {
            assert(kept.last() == output@[last_idx - 1]);
        }
    }
    last_idx
}

/// Appends `bytes` to `output`.
pub(crate) fn append(output: &mut Vec<u8>, bytes: &[u8])
    ensures
        final(output)@ == old(output)@ + bytes@,
{
    let mut k: usize = 0;
    while k < bytes.len()
        invariant
            k <= bytes@.len(),
            output@ == old(output)@ + bytes@.subrange(0, k as int),
        decreases bytes@.len() - k,
    {
        output.push(bytes[k]);
        proof {
            assert(bytes@.subrange(0, k + 1) =~= bytes@.subrange(0, k as int).push(bytes@[k as int]));
        }
        k += 1;
    }
    proof {
        assert(bytes@.subrange(0, bytes@.len() as int) =~= bytes@);
    }
}

/// One step of the scanner: reads on from `cursor` in the state that
/// `string_delimiter` and `comment_stack` stand for.
fn advance<'a>(
    contents: &[u8],
    lang: &'a Language,
    cursor: &mut usize,
    output: &mut Vec<u8>,
    comment_stack: &mut Vec<&'a str>,
    string_delimiter: &mut Option<&'a str>,
)
    requires
        lang.well_formed(),
        *old(cursor) < contents@.len(),
        *old(string_delimiter) is Some ==> old(comment_stack)@.len() == 0,
        scan_of(*old(cursor), old(output)@, *old(string_delimiter), old(comment_stack)@).valid(
            contents@,
        ),
    ensures
        scan_of(*final(cursor), final(output)@, *final(string_delimiter), final(comment_stack)@)
            == step(
            lang@,
            contents@,
            scan_of(*old(cursor), old(output)@, *old(string_delimiter), old(comment_stack)@),
        ),
        *final(string_delimiter) is Some ==> final(comment_stack)@.len() == 0,
{
    let ghost syn = lang@;
    let ghost before = scan_of(*cursor, output@, *string_delimiter, comment_stack@);
    let ghost stack_before = comment_stack@;
    proof {
        lemma_step_advances(syn, contents@, before);
    }
    let at: usize = *cursor;
    let total: usize = contents.len();

    if let Some(delim) = *string_delimiter {
        // Inside a string: highest priority.
        if starts_with_at(contents, at, delim.as_bytes()) {
            append(output, delim.as_bytes());
            *cursor = at + delim.as_bytes().len();
            *string_delimiter = None;
        } else if contents[at] == BACKSLASH && total - at > 1 {
            append(output, slice_subrange(contents, at, at + 2));
            *cursor = at + 2;
        } else {
            output.push(contents[at]);
            *cursor = at + 1;
        }
    } else if comment_stack.len() > 0 {
        // Inside a block comment.
        let end_delim: &str = comment_stack[comment_stack.len() - 1];
        assert(end_delim.spec_bytes() == pending_bytes(stack_before).last());
        let opened = if lang.allows_nested {
            find_pair(&lang.multi_line_comments, contents, at)
        } else {
            None
        };
        if starts_with_at(contents, at, end_delim.as_bytes()) {
            *cursor = at + end_delim.as_bytes().len();
            comment_stack.pop();
            proof {
                assert(pending_bytes(comment_stack@) =~= pending_bytes(stack_before).drop_last());
            }
        } else if let Some(i) = opened {
            let pair = &lang.multi_line_comments[i];
            comment_stack.push(pair.1.as_str());
            *cursor = at + pair.0.as_str().as_bytes().len();
            proof {
                assert(pending_bytes(comment_stack@) =~= pending_bytes(stack_before).push(
                    syn.multi_line_comments[i as int].1,
                ));
            }
        } else {
            // Keep the newline for the layout, drop everything else.
            if contents[at] == NEWLINE {
                output.push(NEWLINE);
            }
            *cursor = at + 1;
        }
    } else if find_marker(&lang.line_comments, contents, at).is_some() {
        // A line comment: drop the blanks before it, then the rest of the line.
        let kept = trimmed_len(output);
        output.truncate(kept);
        let remaining = slice_subrange(contents, at, total);
        let newline = [NEWLINE];
        assert(newline@ =~= seq![NEWLINE]);
        if let Some(eol_pos) = find_subsequence(remaining, newline.as_slice()) {
            proof {
                lemma_newline_found(contents@, at as int, eol_pos as int);
            }
            *cursor = at + eol_pos;
        } else {
            proof {
                lemma_newline_missing(contents@, at as int);
            }
            *cursor = total;
        }
    } else if let Some(i) = find_pair(&lang.multi_line_comments, contents, at) {
        let pair = &lang.multi_line_comments[i];
        comment_stack.push(pair.1.as_str());
        *cursor = at + pair.0.as_str().as_bytes().len();
        proof {
            assert(pending_bytes(comment_stack@) =~= seq![syn.multi_line_comments[i as int].1]);
        }
    } else if let Some(i) = find_pair(&lang.quotes, contents, at) {
        let pair = &lang.quotes[i];
        *string_delimiter = Some(pair.1.as_str());
        append(output, pair.0.as_str().as_bytes());
        *cursor = at + pair.0.as_str().as_bytes().len();
    } else {
        // No delimiter starts here: an ordinary byte.
        output.push(contents[at]);
        *cursor = at + 1;
    }

    proof {
        let after = scan_of(*cursor, output@, *string_delimiter, comment_stack@);
        assert(after.output =~= step(syn, contents@, before).output);
        assert(after == step(syn, contents@, before));
    }
}

/// No delimiter of the list occurs in `input` before the offset `upto`.
spec fn free_before(input: Seq<u8>, delims: Seq<Seq<u8>>, upto: int) -> bool {
    forall|j: int, i: int|
        0 <= j < upto && 0 <= i < delims.len() ==> !#[trigger] matches_at(input, j, delims[i])
}

/// A delimiter of the list occurs in `input` at the offset `at`.
spec fn occurs_at(input: Seq<u8>, delims: Seq<Seq<u8>>, at: int) -> bool {
    exists|i: int| 0 <= i < delims.len() && #[trigger] matches_at(input, at, delims[i])
}

/// What one more delimiter does to the least offset found so far: `found`
/// is where the delimiter of index `k` first occurs, and `least` becomes
/// the lesser of the two.
proof fn lemma_earliest_extends(
    input: Seq<u8>,
    delims: Seq<Seq<u8>>,
    k: int,
    limit: int,
    before: int,
    found: Option<int>,
    least: int,
)
    requires
        0 <= k < delims.len(),
        before <= limit,
        free_before(input, delims.take(k), before),
        before < limit ==> occurs_at(input, delims.take(k), before),
        match found {
            Some(at) => matches_at(input, at, delims[k]) && forall|j: int|
                0 <= j < at ==> !matches_at(input, j, delims[k]),
            None => forall|j: int| !matches_at(input, j, delims[k]),
        },
        least == if found is Some && found->0 < before {
            found->0
        } else {
            before
        },
    ensures
        least <= limit,
        free_before(input, delims.take(k + 1), least),
        least < limit ==> occurs_at(input, delims.take(k + 1), least),
{
    let sooner = delims.take(k);
    let later = delims.take(k + 1);
    assert forall|j: int, i: int| 0 <= j < least && 0 <= i < later.len() implies !#[trigger] matches_at(
        input,
        j,
        later[i],
    ) by {
        if i < k {
            assert(sooner[i] == later[i]);
        }
    }
    if least < limit {
        if least == before {
            let i = choose|i: int|
                0 <= i < sooner.len() && #[trigger] matches_at(input, least, sooner[i]);
            assert(later[i] == sooner[i]);
            assert(matches_at(input, least, later[i]));
        } else {
            assert(matches_at(input, least, later[k]));
        }
    }
}

/// The least of `limit` and the offsets at which a marker of the list first
/// occurs in `remaining`: no marker occurs before it, and one occurs at it
/// unless it is `limit`.
fn earliest_marker(markers: &Vec<String>, remaining: &[u8], limit: usize) -> (least: usize)
    requires
        markers_well_formed(marker_bytes(markers.deep_view())),
    ensures
        least <= limit,
        free_before(remaining@, marker_bytes(markers.deep_view()), least as int),
        least < limit ==> occurs_at(remaining@, marker_bytes(markers.deep_view()), least as int),
{
    let ghost delims = marker_bytes(markers.deep_view());
    let mut least: usize = limit;
    let mut k: usize = 0;
    while k < markers.len()
        invariant
            k <= markers@.len(),
            least <= limit,
            delims == marker_bytes(markers.deep_view()),
            markers_well_formed(delims),
            free_before(remaining@, delims.take(k as int), least as int),
            least < limit ==> occurs_at(remaining@, delims.take(k as int), least as int),
        decreases markers@.len() - k,
    {
        let marker = markers[k].as_str().as_bytes();
        assert(delims[k as int] == marker@);
        let ghost before = least;
        let found = find_subsequence(remaining, marker);
        if let Some(at) = found {
            if at < least {
                least = at;
            }
        }
        proof {
            let place = match found {
                Some(at) => Some(at as int),
                None => None,
            };
            lemma_earliest_extends(
                remaining@,
                delims,
                k as int,
                limit as int,
                before as int,
                place,
                least as int,
            );
        }
        k += 1;
    }
    assert(delims.take(k as int) =~= delims);
    least
}

/// The least of `limit` and the offsets at which a start delimiter of the
/// list first occurs in `remaining`: no start delimiter occurs before it,
/// and one occurs at it unless it is `limit`.
fn earliest_start(pairs: &Vec<(String, String)>, remaining: &[u8], limit: usize) -> (least: usize)
    requires
        pairs_well_formed(pair_bytes(pairs.deep_view())),
    ensures
        least <= limit,
        free_before(remaining@, starts(pair_bytes(pairs.deep_view())), least as int),
        least < limit ==> occurs_at(
            remaining@,
            starts(pair_bytes(pairs.deep_view())),
            least as int,
        ),
{
    let ghost delims = starts(pair_bytes(pairs.deep_view()));
    let mut least: usize = limit;
    let mut k: usize = 0;
    while k < pairs.len()
        invariant
            k <= pairs@.len(),
            least <= limit,
            delims == starts(pair_bytes(pairs.deep_view())),
            pairs_well_formed(pair_bytes(pairs.deep_view())),
            free_before(remaining@, delims.take(k as int), least as int),
            least < limit ==> occurs_at(remaining@, delims.take(k as int), least as int),
        decreases pairs@.len() - k,
    {
        let start = pairs[k].0.as_str().as_bytes();
        assert(pair_bytes(pairs.deep_view())[k as int].0 == start@);
        assert(delims[k as int] == start@);
        let ghost before = least;
        let found = find_subsequence(remaining, start);
        if let Some(at) = found {
            if at < least {
                least = at;
            }
        }
        proof {
            let place = match found {
                Some(at) => Some(at as int),
                None => None,
            };
            lemma_earliest_extends(
                remaining@,
                delims,
                k as int,
                limit as int,
                before as int,
                place,
                least as int,
            );
        }
        k += 1;
    }
    assert(delims.take(k as int) =~= delims);
    least
}

/// How far the code reaches in `remaining`: the offset of the earliest place
/// where a delimiter of any kind starts, or its length where none does.
pub fn code_length(remaining: &[u8], lang: &Language) -> (length: usize)
    requires
        lang.well_formed(),
    ensures
        length <= remaining@.len(),
        forall|at: int| 0 <= at < length ==> is_code_at(remaining@, lang@, at),
        length < remaining@.len() ==> !is_code_at(remaining@, lang@, length as int),
{
    let to_marker = earliest_marker(&lang.line_comments, remaining, remaining.len());
    let to_comment = earliest_start(&lang.multi_line_comments, remaining, to_marker);
    let length = earliest_start(&lang.quotes, remaining, to_comment);
    proof {
        let syn = lang@;
        assert forall|at: int| 0 <= at < length implies is_code_at(remaining@, syn, at) by {
            lemma_first_match_from(syn.line_comments, remaining@, at, 0);
            lemma_first_match_from(starts(syn.multi_line_comments), remaining@, at, 0);
            lemma_first_match_from(starts(syn.quotes), remaining@, at, 0);
        }
        if length < remaining@.len() {
            // The delimiter that ends the code here is found first among
            // those of its own kind.
            lemma_first_match_from(syn.line_comments, remaining@, length as int, 0);
            lemma_first_match_from(starts(syn.multi_line_comments), remaining@, length as int, 0);
            lemma_first_match_from(starts(syn.quotes), remaining@, length as int, 0);
        }
    }
    length
}

/// A delimiter occurs in what is left from `from` on where it occurs in
/// the whole, `from` bytes further on.
proof fn lemma_matches_shift(input: Seq<u8>, from: int, at: int, delim: Seq<u8>)
    requires
        0 <= from <= input.len(),
        0 <= at,
    ensures
        matches_at(input.subrange(from, input.len() as int), at, delim) == matches_at(
            input,
            from + at,
            delim,
        ),
{
    let rest = input.subrange(from, input.len() as int);
    if at + delim.len() <= rest.len() {
        assert(rest.subrange(at, at + delim.len()) =~= input.subrange(
            from + at,
            from + at + delim.len(),
        ));
    }
}

/// The first delimiter of a list that occurs at a place is the same in what
/// is left from `from` on as in the whole.
proof fn lemma_first_match_shift(delims: Seq<Seq<u8>>, input: Seq<u8>, from: int, at: int, k: int)
    requires
        0 <= from <= input.len(),
        0 <= at,
        0 <= k,
    ensures
        first_match_from(delims, input.subrange(from, input.len() as int), at, k)
            == first_match_from(delims, input, from + at, k),
    decreases delims.len() - k,
{
    if k < delims.len() {
        lemma_matches_shift(input, from, at, delims[k]);
        lemma_first_match_shift(delims, input, from, at, k + 1);
    }
}

/// Strips the comments from `contents` as the syntax of `lang` directs, a
/// delimiter at a time: the code up to the earliest delimiter is copied in
/// one piece. The result is that of [`remove_comments`].
pub fn strip_comments(contents: &[u8], lang: Arc<Language>) -> (output: Vec<u8>)
    requires
        lang.well_formed(),
    ensures
        output@ == strip(contents@, lang@),
{
    let mut output: Vec<u8> = Vec::with_capacity(contents.len());
    let mut cursor: usize = 0;
    let mut comment_stack: Vec<&str> = Vec::new();
    let mut string_delimiter: Option<&str> = None;

    while cursor < contents.len()
        invariant
            lang.well_formed(),
            cursor <= contents@.len(),
            string_delimiter is Some ==> comment_stack@.len() == 0,
            scan_of(cursor, output@, string_delimiter, comment_stack@).valid(contents@),
            run(lang@, contents@, scan_of(cursor, output@, string_delimiter, comment_stack@))
                == strip(contents@, lang@),
        decreases contents@.len() - cursor,
    {
        if string_delimiter.is_none() && comment_stack.len() == 0 {
            // In code: everything up to the next delimiter is kept.
            let remaining = slice_subrange(contents, cursor, contents.len());
            let length = code_length(remaining, &lang);
            let ghost before = scan_of(cursor, output@, string_delimiter, comment_stack@);
            proof {
                assert forall|at: int| cursor <= at < cursor + length implies is_code_at(
                    contents@,
                    lang@,
                    at,
                ) by {
                    let syn = lang@;
                    assert(is_code_at(remaining@, syn, at - cursor));
                    lemma_first_match_shift(syn.line_comments, contents@, cursor as int, at - cursor, 0);
                    lemma_first_match_shift(
                        starts(syn.multi_line_comments),
                        contents@,
                        cursor as int,
                        at - cursor,
                        0,
                    );
                    lemma_first_match_shift(starts(syn.quotes), contents@, cursor as int, at - cursor, 0);
                }
                lemma_code_copied(lang@, contents@, before, cursor + length);
                assert(remaining@.subrange(0, length as int) =~= contents@.subrange(
                    cursor as int,
                    cursor + length,
                ));
            }
            append(&mut output, slice_subrange(remaining, 0, length));
            cursor += length;
        }
        if cursor < contents.len() {
            proof {
                lemma_step_advances(
                    lang@,
                    contents@,
                    scan_of(cursor, output@, string_delimiter, comment_stack@),
                );
            }
            advance(
                contents,
                &lang,
                &mut cursor,
                &mut output,
                &mut comment_stack,
                &mut string_delimiter,
            );
        }
    }
    output
}

/// Strips the comments from `contents` as the syntax of `lang` directs:
/// literals are kept verbatim, line comments go together with the blanks
/// before them, and block comments leave only their newlines.
pub fn remove_comments(contents: &[u8], lang: Arc<Language>) -> (output: Vec<u8>)
    requires
        lang.well_formed(),
    ensures
        output@ == strip(contents@, lang@),
{
    let mut output: Vec<u8> = Vec::with_capacity(contents.len());
    let mut cursor: usize = 0;
    let mut comment_stack: Vec<&str> = Vec::new();
    let mut string_delimiter: Option<&str> = None;

    while cursor < contents.len()
        invariant
            lang.well_formed(),
            string_delimiter is Some ==> comment_stack@.len() == 0,
            scan_of(cursor, output@, string_delimiter, comment_stack@).valid(contents@),
            run(lang@, contents@, scan_of(cursor, output@, string_delimiter, comment_stack@))
                == strip(contents@, lang@),
        decreases contents@.len() - cursor,
    {
        proof {
            lemma_step_advances(
                lang@,
                contents@,
                scan_of(cursor, output@, string_delimiter, comment_stack@),
            );
        }
        advance(
            contents,
            &lang,
            &mut cursor,
            &mut output,
            &mut comment_stack,
            &mut string_delimiter,
        );
    }
    output
}

/// A newline found at `offset` in what is left from `from` on is where the
/// line ends.
proof fn lemma_newline_found(input: Seq<u8>, from: int, offset: int)
    requires
        0 <= from <= input.len(),
        matches_at(input.subrange(from, input.len() as int), offset, seq![NEWLINE]),
        forall|j: int|
            0 <= j < offset ==> !matches_at(
                input.subrange(from, input.len() as int),
                j,
                seq![NEWLINE],
            ),
    ensures
        line_end(input, from) == from + offset,
    decreases offset,
{
    let rest = input.subrange(from, input.len() as int);
    if offset == 0 {
        assert(rest.subrange(0, 1)[0] == NEWLINE);
    } else {
        if input[from] == NEWLINE {
            assert(rest.subrange(0, 1) =~= seq![NEWLINE]);
            assert(matches_at(rest, 0, seq![NEWLINE]));
        }
        let shorter = input.subrange(from + 1, input.len() as int);
        assert(shorter.subrange(offset - 1, offset) =~= rest.subrange(offset, offset + 1));
        assert forall|j: int| 0 <= j < offset - 1 implies !matches_at(
            shorter,
            j,
            seq![NEWLINE],
        ) by {
            assert(shorter.subrange(j, j + 1) =~= rest.subrange(j + 1, j + 2));
            assert(!matches_at(rest, j + 1, seq![NEWLINE]));
        }
        lemma_newline_found(input, from + 1, offset - 1);
    }
}

/// Where what is left from `from` on holds no newline, the line ends with
/// the input.
proof fn lemma_newline_missing(input: Seq<u8>, from: int)
    requires
        0 <= from <= input.len(),
        forall|j: int| !matches_at(input.subrange(from, input.len() as int), j, seq![NEWLINE]),
    ensures
        line_end(input, from) == input.len(),
    decreases input.len() - from,
{
    let rest = input.subrange(from, input.len() as int);
    if from < input.len() {
        if input[from] == NEWLINE {
            assert(rest.subrange(0, 1) =~= seq![NEWLINE]);
            assert(matches_at(rest, 0, seq![NEWLINE]));
        }
        let shorter = input.subrange(from + 1, input.len() as int);
        assert forall|j: int| !matches_at(shorter, j, seq![NEWLINE]) by {
            if 0 <= j && j + 1 <= shorter.len() {
                assert(shorter.subrange(j, j + 1) =~= rest.subrange(j + 1, j + 2));
                assert(!matches_at(rest, j + 1, seq![NEWLINE]));
            }
        }
        lemma_newline_missing(input, from + 1);
    }
}

} // verus!
