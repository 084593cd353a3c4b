//! Block quotes written with `>` at the start of a line.
//!
//! A run of `>` opens a line that is quoted; the length of the run is the depth
//! of the quote. The filter rewrites such lines into nested `[[quote]]` blocks,
//! so that what follows only has to know the bracketed form.

use crate::error::Error;
use crate::text::{chars_of, push_chars};
use either::Either;
use vstd::prelude::*;
use vstd::slice::slice_subrange;
use vstd::string::StringExecFns;

verus! {

/// `either::Either`, the sum of two types. Its two variants are read as they are
/// declared; nothing is assumed of them.
#[verifier::external_type_specification]
#[verifier::reject_recursive_types(L)]
#[verifier::reject_recursive_types(R)]
pub struct ExEither<L, R>(Either<L, R>);

/// A line that starts with quote markers.
#[derive(Debug)]
pub struct QuoteLine<'a> {
    /// How many markers the line starts with.
    pub depth: usize,
    /// The line after its markers and the spaces that follow them.
    pub contents: &'a [char],
}

/// A line that starts with no quote marker.
#[derive(Debug)]
pub struct OtherLine<'a> {
    /// The whole line.
    pub contents: &'a [char],
}

/// What the filter reads of a line: its depth, zero where it is not quoted, and
/// the text that is kept of it.
pub struct Line {
    pub depth: nat,
    pub contents: Seq<char>,
}

/// What the filter writes: the two markers, and text it copies.
pub enum Piece {
    Open,
    Close,
    Text(Seq<char>),
}

/// The marker that starts a quote.
pub const QUOTE_CHAR: char = '>';

/// The lines of a text: the pieces between its line feeds. A text with `n` line
/// feeds has `n + 1` lines, some of which may be empty.
pub open spec fn split_lines(text: Seq<char>) -> Seq<Seq<char>>
    decreases text.len(),
{
    if text.len() == 0 {
        seq![Seq::empty()]
    } else {
        let before = split_lines(text.drop_last());
        if text.last() == '\n' {
            before.push(Seq::empty())
        } else {
            before.update(before.len() - 1, before.last().push(text.last()))
        }
    }
}

/// How many times `c` stands at the start of `line` before another character.
pub open spec fn leading(line: Seq<char>, c: char) -> nat
    decreases line.len(),
{
    if line.len() > 0 && line[0] == c {
        1 + leading(line.drop_first(), c)
    } else {
        0
    }
}

/// A line as the filter reads it. The depth is the number of markers it starts
/// with; a quoted line loses its markers and the spaces after them.
pub open spec fn classify(line: Seq<char>) -> Line {
    let depth = leading(line, QUOTE_CHAR);
    if depth == 0 {
        Line { depth: 0, contents: line }
    } else {
        let rest = line.skip(depth as int);
        Line { depth, contents: rest.skip(leading(rest, ' ') as int) }
    }
}

/// Every line of a text, classified.
pub open spec fn parse(text: Seq<char>) -> Seq<Line> {
    split_lines(text).map_values(|line: Seq<char>| classify(line))
}

/// The model of a line held in the executable form.
pub open spec fn line_view(line: Either<QuoteLine<'_>, OtherLine<'_>>) -> Line {
    match line {
        Either::Left(quote) => Line { depth: quote.depth as nat, contents: quote.contents@ },
        Either::Right(other) => Line { depth: 0, contents: other.contents@ },
    }
}

/// The models of a list of lines.
pub open spec fn lines_view(lines: Seq<Either<QuoteLine<'_>, OtherLine<'_>>>) -> Seq<Line> {
    lines.map_values(|line: Either<QuoteLine<'_>, OtherLine<'_>>| line_view(line))
}

/// The line that opens a quote block.
pub const OPEN_TAG: &'static str = "[[quote]]\n";

/// The line that closes a quote block.
pub const CLOSE_TAG: &'static str = "[[/quote]]\n";

/// The text that a piece stands for.
pub open spec fn piece_text(piece: Piece) -> Seq<char> {
    match piece {
        Piece::Open => OPEN_TAG@,
        Piece::Close => CLOSE_TAG@,
        Piece::Text(text) => text,
    }
}

/// The text of a list of pieces, one after the other.
pub open spec fn flatten(pieces: Seq<Piece>) -> Seq<char>
    decreases pieces.len(),
{
    if pieces.len() == 0 {
        Seq::empty()
    } else {
        flatten(pieces.drop_last()) + piece_text(pieces.last())
    }
}

/// `count` times the same marker.
pub open spec fn markers(open: bool, count: nat) -> Seq<Piece> {
    Seq::new(
        count,
        |i: int|
            if open {
                Piece::Open
            } else {
                Piece::Close
            },
    )
}

/// The markers that lead from one depth to another: as many openings as the
/// depth grows by, or as many closings as it falls by.
pub open spec fn shift(from: nat, to: nat) -> Seq<Piece> {
    if to >= from {
        markers(true, (to - from) as nat)
    } else {
        markers(false, (from - to) as nat)
    }
}

/// The depth that is open when line `i` is reached: that of the line before it,
/// and none before the first line.
pub open spec fn depth_before(lines: Seq<Line>, i: int) -> nat {
    if 0 < i <= lines.len() {
        lines[i - 1].depth
    } else {
        0
    }
}

/// What is written for line `i`: the markers that lead to its depth, its
/// contents, and a line feed unless it is the last line and no quote is open.
pub open spec fn line_pieces(lines: Seq<Line>, i: int) -> Seq<Piece> {
    let start = shift(depth_before(lines, i), lines[i].depth).push(Piece::Text(lines[i].contents));
    if i + 1 < lines.len() || lines[i].depth != 0 {
        start.push(Piece::Text(seq!['\n']))
    } else {
        start
    }
}

/// What is written for the first `n` lines.
pub open spec fn body_pieces(lines: Seq<Line>, n: nat) -> Seq<Piece>
    decreases n,
{
    if n == 0 {
        Seq::empty()
    } else {
        body_pieces(lines, (n - 1) as nat) + line_pieces(lines, n - 1)
    }
}

/// What is written for a whole document: its lines in order, then the closings
/// of whatever is still open after the last line.
pub open spec fn pieces(lines: Seq<Line>) -> Seq<Piece> {
    body_pieces(lines, lines.len()) + shift(depth_before(lines, lines.len() as int), 0)
}

/// The filter as a function from text to text.
pub open spec fn quote_filter(text: Seq<char>) -> Seq<char> {
    flatten(pieces(parse(text)))
}

proof fn lemma_leading_run(line: Seq<char>, c: char, n: int)
    requires
        0 <= n <= line.len(),
        forall|k: int| 0 <= k < n ==> line[k] == c,
        n == line.len() || line[n] != c,
    ensures
        leading(line, c) == n,
    decreases n,
{
    if n > 0 {
        let rest = line.drop_first();
        assert forall|k: int| 0 <= k < n - 1 implies rest[k] == c by {
            assert(rest[k] == line[k + 1]);
        }
        lemma_leading_run(rest, c, n - 1);
    }
}

/// Reads one line: counts its markers, and skips them and the spaces after them.
pub fn classify_line<'a>(line: &'a [char]) -> (out: Either<QuoteLine<'a>, OtherLine<'a>>)
    ensures
        line_view(out) == classify(line@),
        out matches Either::Left(quote) ==> quote.depth > 0,
        out is Right <==> leading(line@, QUOTE_CHAR) == 0,
{
    let mut depth: usize = 0;
    while depth < line.len() && line[depth] == QUOTE_CHAR
        invariant
            depth <= line.len(),
            forall|k: int| 0 <= k < depth ==> line@[k] == QUOTE_CHAR,
        decreases line.len() - depth,
    {
        depth += 1;
    }
    proof {
        lemma_leading_run(line@, QUOTE_CHAR, depth as int);
    }
    if depth == 0 {
        return Either::Right(OtherLine { contents: line });
    }
    let ghost rest = line@.skip(depth as int);
    let mut start: usize = depth;
    while start < line.len() && line[start] == ' '
        invariant
            depth <= start <= line.len(),
            rest == line@.skip(depth as int),
            forall|k: int| 0 <= k < start - depth ==> rest[k] == ' ',
        decreases line.len() - start,
    {
        start += 1;
    }
    proof {
        lemma_leading_run(rest, ' ', start - depth);
        assert(rest.skip(start - depth) =~= line@.subrange(start as int, line@.len() as int));
    }
    Either::Left(QuoteLine { depth, contents: slice_subrange(line, start, line.len()) })
}

/// Splits a text at its line feeds and reads each line.
pub fn parse_lines<'a>(text: &'a [char]) -> (lines: Vec<Either<QuoteLine<'a>, OtherLine<'a>>>)
    ensures
        lines_view(lines@) == parse(text@),
        lines.len() > 0,
{
    let mut lines: Vec<Either<QuoteLine<'a>, OtherLine<'a>>> = Vec::new();
    let ghost mut done: Seq<Seq<char>> = Seq::empty();
    let mut start: usize = 0;
    let mut i: usize = 0;
    proof {
        assert(text@.take(0).len() == 0);
        assert(text@.subrange(0, 0) =~= Seq::<char>::empty());
        assert(split_lines(text@.take(0)) =~= done.push(text@.subrange(0, 0)));
        assert(lines_view(lines@) =~= done.map_values(|line: Seq<char>| classify(line)));
    }
    while i < text.len()
        invariant
            start <= i <= text.len(),
            split_lines(text@.take(i as int)) == done.push(text@.subrange(start as int, i as int)),
            lines_view(lines@) == done.map_values(|line: Seq<char>| classify(line)),
        decreases text.len() - i,
    {
        let ghost current = text@.subrange(start as int, i as int);
        let ghost next = text@.take(i + 1);
        assert(next.drop_last() =~= text@.take(i as int));
        if text[i] == '\n' {
            let ghost before = lines@;
            let line = classify_line(slice_subrange(text, start, i));
            lines.push(line);
            proof {
                assert(lines_view(lines@) =~= lines_view(before).push(classify(current)));
                done = done.push(current);
                assert(lines_view(lines@) =~= done.map_values(|line: Seq<char>| classify(line)));
                assert(text@.subrange(i + 1, i + 1) =~= Seq::<char>::empty());
            }
            start = i + 1;
        } else {
            proof {
                assert(current.push(text@[i as int]) =~= text@.subrange(start as int, i + 1));
                assert(split_lines(next) =~= done.push(current.push(text@[i as int])));
            }
        }
        i += 1;
    }
    let ghost before = lines@;
    let line = classify_line(slice_subrange(text, start, text.len()));
    lines.push(line);
    proof {
        let current = text@.subrange(start as int, text@.len() as int);
        assert(text@.take(text@.len() as int) =~= text@);
        assert(lines_view(lines@) =~= lines_view(before).push(classify(current)));
        assert(lines_view(lines@) =~= done.push(current).map_values(
            |line: Seq<char>| classify(line),
        ));
    }
    lines
}


proof fn lemma_flatten_push(pieces: Seq<Piece>, piece: Piece)
    ensures
        flatten(pieces.push(piece)) == flatten(pieces) + piece_text(piece),
{
    assert(pieces.push(piece).drop_last() =~= pieces);
}

proof fn lemma_flatten_concat(first: Seq<Piece>, second: Seq<Piece>)
    ensures
        flatten(first + second) == flatten(first) + flatten(second),
    decreases second.len(),
{
    if second.len() == 0 {
        assert(first + second =~= first);
        assert(flatten(first) + flatten(second) =~= flatten(first));
    } else {
        lemma_flatten_concat(first, second.drop_last());
        assert((first + second).drop_last() =~= first + second.drop_last());
        assert(flatten(first + second) =~= flatten(first) + flatten(second));
    }
}

/// Writes the same marker `count` times.
fn push_markers(buffer: &mut String, open: bool, count: usize)
    ensures
        final(buffer)@ == old(buffer)@ + flatten(markers(open, count as nat)),
{
    let mut written: usize = 0;
    assert(old(buffer)@ + flatten(markers(open, 0)) =~= old(buffer)@);
    while written < count
        invariant
            written <= count,
            buffer@ == old(buffer)@ + flatten(markers(open, written as nat)),
        decreases count - written,
    {
        let ghost before = markers(open, written as nat);
        if open {
            buffer.append(OPEN_TAG);
        } else {
            buffer.append(CLOSE_TAG);
        }
        written += 1;
        proof {
            let piece = if open {
                Piece::Open
            } else {
                Piece::Close
            };
            assert(markers(open, written as nat) =~= before.push(piece));
            lemma_flatten_push(before, piece);
            assert(buffer@ =~= old(buffer)@ + flatten(markers(open, written as nat)));
        }
    }
}

/// Writes the document that the lines stand for.
pub fn write_lines(lines: &Vec<Either<QuoteLine<'_>, OtherLine<'_>>>) -> (buffer: String)
    ensures
        buffer@ == flatten(pieces(lines_view(lines@))),
{
    let ghost model = lines_view(lines@);
    let mut buffer = String::new();
    let mut prev_depth: usize = 0;
    let mut i: usize = 0;
    while i < lines.len()
        invariant
            i <= lines.len(),
            model == lines_view(lines@),
            prev_depth == depth_before(model, i as int),
            buffer@ == flatten(body_pieces(model, i as nat)),
        decreases lines.len() - i,
    {
        let ghost start = buffer@;
        let ghost depth = model[i as int].depth;
        let ghost step = shift(prev_depth as nat, depth);
        assert(model[i as int] == line_view(lines@[i as int]));
        match &lines[i] {
            Either::Left(line) => {
                if line.depth > prev_depth {
                    push_markers(&mut buffer, true, line.depth - prev_depth);
                } else {
                    push_markers(&mut buffer, false, prev_depth - line.depth);
                }
                push_chars(&mut buffer, line.contents);
                prev_depth = line.depth;
            },
            Either::Right(line) => {
                push_markers(&mut buffer, false, prev_depth);
                push_chars(&mut buffer, line.contents);
                prev_depth = 0;
            },
        }
        proof {
            let contents = Piece::Text(model[i as int].contents);
            lemma_flatten_push(step, contents);
            assert(buffer@ =~= start + flatten(step.push(contents)));
        }
        if i < lines.len() - 1 || prev_depth != 0 {
            buffer.push('\n');
            proof {
                let contents = Piece::Text(model[i as int].contents);
                lemma_flatten_push(step.push(contents), Piece::Text(seq!['\n']));
                assert(buffer@ =~= start + flatten(line_pieces(model, i as int)));
            }
        }
        proof {
            lemma_flatten_concat(body_pieces(model, i as nat), line_pieces(model, i as int));
        }
        i += 1;
    }
    let ghost body = buffer@;
    push_markers(&mut buffer, false, prev_depth);
    proof {
        lemma_flatten_concat(
            body_pieces(model, model.len()),
            shift(depth_before(model, model.len() as int), 0),
        );
    }
    buffer
}

/// Rewrites the lines that start with `>` into nested quote blocks, in place.
///
/// Every text is accepted: a line either starts with a marker or it does not.
pub fn substitute(text: &mut String) -> (result: Result<(), Error>)
    ensures
        result is Ok,
        final(text)@ == quote_filter(old(text)@),
{
    let chars = chars_of(text.as_str());
    let lines = parse_lines(chars.as_slice());
    let mut buffer = write_lines(&lines);
    std::mem::swap(&mut buffer, text);
    Ok(())
}


/// How many opening markers a list of pieces holds.
pub open spec fn opens(pieces: Seq<Piece>) -> nat
    decreases pieces.len(),
{
    if pieces.len() == 0 {
        0
    } else if pieces.last() is Open {
        opens(pieces.drop_last()) + 1
    } else {
        opens(pieces.drop_last())
    }
}

/// How many closing markers a list of pieces holds.
pub open spec fn closes(pieces: Seq<Piece>) -> nat
    decreases pieces.len(),
{
    if pieces.len() == 0 {
        0
    } else if pieces.last() is Close {
        closes(pieces.drop_last()) + 1
    } else {
        closes(pieces.drop_last())
    }
}

/// The markers nest: there are as many closings as openings, and no closing
/// comes before the opening it belongs to.
pub open spec fn well_nested(pieces: Seq<Piece>) -> bool {
    &&& opens(pieces) == closes(pieces)
    &&& forall|n: int| 0 <= n <= pieces.len() ==> opens(#[trigger] pieces.take(n)) >= closes(pieces.take(n))
}

/// Some line of the text starts with a quote marker.
pub open spec fn has_quote_line(text: Seq<char>) -> bool {
    exists|i: int| 0 <= i < split_lines(text).len() && leading(#[trigger] split_lines(text)[i], QUOTE_CHAR) > 0
}

/// The lines joined again, with a line feed between each two.
pub open spec fn join_lines(lines: Seq<Seq<char>>) -> Seq<char>
    decreases lines.len(),
{
    if lines.len() == 0 {
        Seq::empty()
    } else if lines.len() == 1 {
        lines[0]
    } else {
        join_lines(lines.drop_last()) + seq!['\n'] + lines.last()
    }
}

// The depth that a list of pieces ends at, counted from `from`, is never lost
// from sight below: `from + opens - closes`.
spec fn stays_open(pieces: Seq<Piece>, from: int) -> bool {
    forall|n: int| 0 <= n <= pieces.len() ==> from + opens(#[trigger] pieces.take(n)) - closes(pieces.take(n)) >= 0
}

proof fn lemma_count_concat(first: Seq<Piece>, second: Seq<Piece>)
    ensures
        opens(first + second) == opens(first) + opens(second),
        closes(first + second) == closes(first) + closes(second),
    decreases second.len(),
{
    if second.len() == 0 {
        assert(first + second =~= first);
    } else {
        lemma_count_concat(first, second.drop_last());
        assert((first + second).drop_last() =~= first + second.drop_last());
    }
}

proof fn lemma_count_markers(open: bool, count: nat)
    ensures
        opens(markers(open, count)) == (if open { count } else { 0 }),
        closes(markers(open, count)) == (if open { 0 } else { count }),
    decreases count,
{
    if count > 0 {
        lemma_count_markers(open, (count - 1) as nat);
        assert(markers(open, count).drop_last() =~= markers(open, (count - 1) as nat));
    }
}

proof fn lemma_shift_stays_open(from: nat, to: nat)
    ensures
        from + opens(shift(from, to)) - closes(shift(from, to)) == to,
        stays_open(shift(from, to), from as int),
{
    let step = shift(from, to);
    let open = to >= from;
    lemma_count_markers(open, step.len());
    assert forall|n: int| 0 <= n <= step.len() implies from + opens(#[trigger] step.take(n)) - closes(
        step.take(n),
    ) >= 0 by {
        assert(step.take(n) =~= markers(open, n as nat));
        lemma_count_markers(open, n as nat);
    }
}

proof fn lemma_stays_open_concat(first: Seq<Piece>, second: Seq<Piece>, from: int)
    requires
        stays_open(first, from),
        stays_open(second, from + opens(first) - closes(first)),
    ensures
        stays_open(first + second, from),
{
    let all = first + second;
    assert forall|n: int| 0 <= n <= all.len() implies from + opens(#[trigger] all.take(n)) - closes(
        all.take(n),
    ) >= 0 by {
        if n <= first.len() {
            assert(all.take(n) =~= first.take(n));
        } else {
            let rest = second.take(n - first.len());
            assert(all.take(n) =~= first + rest);
            lemma_count_concat(first, rest);
        }
    }
}

proof fn lemma_stays_open_push_text(pieces: Seq<Piece>, text: Seq<char>, from: int)
    requires
        stays_open(pieces, from),
    ensures
        stays_open(pieces.push(Piece::Text(text)), from),
        opens(pieces.push(Piece::Text(text))) == opens(pieces),
        closes(pieces.push(Piece::Text(text))) == closes(pieces),
{
    let all = pieces.push(Piece::Text(text));
    assert(all.drop_last() =~= pieces);
    assert forall|n: int| 0 <= n <= all.len() implies from + opens(#[trigger] all.take(n)) - closes(
        all.take(n),
    ) >= 0 by {
        if n <= pieces.len() {
            assert(all.take(n) =~= pieces.take(n));
        } else {
            assert(all.take(n) =~= all);
            assert(pieces.take(pieces.len() as int) =~= pieces);
        }
    }
}

proof fn lemma_line_stays_open(lines: Seq<Line>, i: int)
    requires
        0 <= i < lines.len(),
    ensures
        depth_before(lines, i) + opens(line_pieces(lines, i)) - closes(line_pieces(lines, i))
            == lines[i].depth,
        stays_open(line_pieces(lines, i), depth_before(lines, i) as int),
{
    let from = depth_before(lines, i);
    let step = shift(from, lines[i].depth);
    lemma_shift_stays_open(from, lines[i].depth);
    lemma_stays_open_push_text(step, lines[i].contents, from as int);
    lemma_stays_open_push_text(step.push(Piece::Text(lines[i].contents)), seq!['\n'], from as int);
}

proof fn lemma_body_stays_open(lines: Seq<Line>, n: nat)
    requires
        n <= lines.len(),
    ensures
        opens(body_pieces(lines, n)) - closes(body_pieces(lines, n)) == depth_before(lines, n as int),
        stays_open(body_pieces(lines, n), 0),
    decreases n,
{
    if n == 0 {
        assert forall|k: int| 0 <= k <= 0 implies opens(#[trigger] body_pieces(lines, 0).take(k))
            - closes(body_pieces(lines, 0).take(k)) >= 0 by {
            assert(body_pieces(lines, 0).take(k) =~= Seq::<Piece>::empty());
        }
    } else {
        let before = body_pieces(lines, (n - 1) as nat);
        lemma_body_stays_open(lines, (n - 1) as nat);
        lemma_line_stays_open(lines, n - 1);
        lemma_count_concat(before, line_pieces(lines, n - 1));
        lemma_stays_open_concat(before, line_pieces(lines, n - 1), 0);
    }
}

/// The markers that the filter writes nest, whatever the text: it writes as
/// many closings as openings, and at no point of its output has it closed more
/// quotes than it has opened.
pub proof fn lemma_markers_nest(text: Seq<char>)
    ensures
        well_nested(pieces(parse(text))),
{
    let lines = parse(text);
    let body = body_pieces(lines, lines.len());
    let rest = shift(depth_before(lines, lines.len() as int), 0);
    lemma_body_stays_open(lines, lines.len());
    lemma_shift_stays_open(depth_before(lines, lines.len() as int), 0);
    lemma_count_concat(body, rest);
    lemma_stays_open_concat(body, rest, 0);
}

/// A text is the join of its lines.
pub proof fn lemma_join_split(text: Seq<char>)
    ensures
        split_lines(text).len() > 0,
        join_lines(split_lines(text)) == text,
    decreases text.len(),
{
    if text.len() == 0 {
        assert(join_lines(split_lines(text)) =~= text);
    } else {
        let before = split_lines(text.drop_last());
        lemma_join_split(text.drop_last());
        if text.last() == '\n' {
            assert(before.push(Seq::empty()).drop_last() =~= before);
            assert(join_lines(split_lines(text)) =~= text.drop_last().push('\n'));
        } else {
            let longer = before.last().push(text.last());
            let lines = before.update(before.len() - 1, longer);
            if before.len() > 1 {
                assert(lines.drop_last() =~= before.drop_last());
                assert(join_lines(lines) =~= join_lines(before).push(text.last()));
            } else {
                assert(join_lines(lines) =~= join_lines(before).push(text.last()));
            }
        }
        assert(text.drop_last().push(text.last()) =~= text);
    }
}

proof fn lemma_plain_body(source: Seq<Seq<char>>, n: nat)
    requires
        0 < n <= source.len(),
        forall|i: int| 0 <= i < source.len() ==> leading(#[trigger] source[i], QUOTE_CHAR) == 0,
    ensures
        flatten(body_pieces(source.map_values(|line: Seq<char>| classify(line)), n)) == join_lines(
            source.take(n as int),
        ) + (if n < source.len() {
            seq!['\n']
        } else {
            Seq::empty()
        }),
    decreases n,
{
    let lines = source.map_values(|line: Seq<char>| classify(line));
    let i = n - 1;
    let before = body_pieces(lines, i as nat);
    assert(lines[i] == classify(source[i]));
    assert(shift(0, 0) =~= Seq::<Piece>::empty());
    let contents = Piece::Text(source[i]);
    let feed = Piece::Text(seq!['\n']);
    lemma_flatten_push(Seq::empty(), contents);
    lemma_flatten_push(Seq::empty().push(contents), feed);
    lemma_flatten_concat(before, line_pieces(lines, i));
    assert(source.take(n as int).drop_last() =~= source.take(i));
    if i > 0 {
        lemma_plain_body(source, i as nat);
        assert(lines[i - 1] == classify(source[i - 1]));
        assert(flatten(body_pieces(lines, n)) =~= join_lines(source.take(n as int)) + (if n
            < source.len() {
            seq!['\n']
        } else {
            Seq::empty()
        }));
    } else {
        assert(flatten(body_pieces(lines, n)) =~= join_lines(source.take(n as int)) + (if n
            < source.len() {
            seq!['\n']
        } else {
            Seq::empty()
        }));
    }
}

/// A text none of whose lines starts with a quote marker comes out of the
/// filter as it went in, character for character.
pub proof fn lemma_plain_text_unchanged(text: Seq<char>)
    requires
        !has_quote_line(text),
    ensures
        quote_filter(text) == text,
{
    let source = split_lines(text);
    let lines = parse(text);
    lemma_join_split(text);
    lemma_plain_body(source, source.len());
    assert(source.take(source.len() as int) =~= source);
    assert(lines[source.len() - 1] == classify(source[source.len() - 1]));
    assert(shift(0, 0) =~= Seq::<Piece>::empty());
    lemma_flatten_concat(body_pieces(lines, lines.len()), shift(0, 0));
    assert(quote_filter(text) =~= text);
}

} // verus!
