//! The output of the block quote filter, read line by line.
//!
//! Every marker that the filter writes is a line of its own. So the markers of
//! its output can be counted in the text itself, as long as no line that the
//! filter copies is spelled like a marker.

use crate::filter::blockquote::{
    body_pieces, classify, closes, depth_before, flatten, leading, lemma_markers_nest,
    line_pieces, markers, opens, parse, pieces, quote_filter, shift, split_lines, Line, Piece,
    CLOSE_TAG, OPEN_TAG, QUOTE_CHAR,
};
use vstd::prelude::*;

verus! {

/// The line that opens a quote block, without its line feed.
pub const OPEN_LINE: &'static str = "[[quote]]";

/// The line that closes a quote block, without its line feed.
pub const CLOSE_LINE: &'static str = "[[/quote]]";

/// What a line of filtered text is: one of the two markers, or text.
pub open spec fn line_mark(line: Seq<char>) -> Piece {
    if line == OPEN_LINE@ {
        Piece::Open
    } else if line == CLOSE_LINE@ {
        Piece::Close
    } else {
        Piece::Text(line)
    }
}

/// A filtered text as a list of markers and lines of text.
pub open spec fn marks(text: Seq<char>) -> Seq<Piece> {
    split_lines(text).map_values(|line: Seq<char>| line_mark(line))
}

/// A text without a line feed.
pub open spec fn is_one_line(text: Seq<char>) -> bool {
    forall|i: int| 0 <= i < text.len() ==> #[trigger] text[i] != '\n'
}

/// A text that is not spelled like a marker.
pub open spec fn is_no_marker(text: Seq<char>) -> bool {
    text != OPEN_LINE@ && text != CLOSE_LINE@
}

/// No line that the filter copies from the text is spelled like a marker.
pub open spec fn copies_no_marker(text: Seq<char>) -> bool {
    forall|i: int| 0 <= i < parse(text).len() ==> is_no_marker(#[trigger] parse(text)[i].contents)
}

proof fn lemma_lines_exist(text: Seq<char>)
    ensures
        split_lines(text).len() > 0,
    decreases text.len(),
{
    if text.len() > 0 {
        lemma_lines_exist(text.drop_last());
    }
}

/// No line of a text holds a line feed.
pub proof fn lemma_lines_hold_no_feed(text: Seq<char>)
    ensures
        forall|i: int| 0 <= i < split_lines(text).len() ==> is_one_line(#[trigger] split_lines(text)[i]),
    decreases text.len(),
{
    if text.len() > 0 {
        lemma_lines_hold_no_feed(text.drop_last());
        lemma_lines_exist(text.drop_last());
        let before = split_lines(text.drop_last());
        assert forall|i: int| 0 <= i < split_lines(text).len() implies is_one_line(
            #[trigger] split_lines(text)[i],
        ) by {
            if i < before.len() - 1 {
                assert(split_lines(text)[i] == before[i]);
            } else if text.last() != '\n' {
                assert(is_one_line(before[i]));
            } else if i == before.len() - 1 {
                assert(split_lines(text)[i] == before[i]);
            }
        }
    }
}

proof fn lemma_split_append(text: Seq<char>, more: Seq<char>)
    requires
        is_one_line(more),
    ensures
        split_lines(text).len() > 0,
        split_lines(text + more) == split_lines(text).update(
            split_lines(text).len() - 1,
            split_lines(text).last() + more,
        ),
    decreases more.len(),
{
    lemma_lines_exist(text);
    let lines = split_lines(text);
    if more.len() == 0 {
        assert(text + more =~= text);
        assert(lines.last() + more =~= lines.last());
        assert(lines.update(lines.len() - 1, lines.last()) =~= lines);
    } else {
        let shorter = more.drop_last();
        assert(is_one_line(shorter)) by {
            assert forall|i: int| 0 <= i < shorter.len() implies #[trigger] shorter[i] != '\n' by {
                assert(shorter[i] == more[i]);
            }
        }
        lemma_split_append(text, shorter);
        assert((text + more).drop_last() =~= text + shorter);
        assert((text + more).last() == more.last());
        assert(more.last() == more[more.len() - 1]);
        assert((lines.last() + shorter).push(more.last()) =~= lines.last() + more);
        assert(split_lines(text + more) =~= lines.update(lines.len() - 1, lines.last() + more));
    }
}

proof fn lemma_split_feed(text: Seq<char>)
    ensures
        split_lines(text + seq!['\n']) == split_lines(text).push(Seq::empty()),
{
    assert((text + seq!['\n']).drop_last() =~= text);
}


/// The lines of the text that a list of pieces stands for. A marker ends the
/// line it is written on, a line feed starts a new line, and other text goes on
/// with the line.
pub open spec fn lines_of(pieces: Seq<Piece>) -> Seq<Seq<char>>
    decreases pieces.len(),
{
    if pieces.len() == 0 {
        seq![Seq::empty()]
    } else {
        let before = lines_of(pieces.drop_last());
        match pieces.last() {
            Piece::Open => before.update(before.len() - 1, before.last() + OPEN_LINE@).push(
                Seq::empty(),
            ),
            Piece::Close => before.update(before.len() - 1, before.last() + CLOSE_LINE@).push(
                Seq::empty(),
            ),
            Piece::Text(text) => if text == seq!['\n'] {
                before.push(Seq::empty())
            } else {
                before.update(before.len() - 1, before.last() + text)
            },
        }
    }
}

/// The pieces are written in order: a marker, and text that is copied, start on
/// a fresh line, and copied text is one line that is not spelled like a marker.
pub open spec fn orderly(pieces: Seq<Piece>) -> bool
    decreases pieces.len(),
{
    pieces.len() == 0 || (orderly(pieces.drop_last()) && match pieces.last() {
        Piece::Text(text) => text == seq!['\n'] || (is_one_line(text) && is_no_marker(text)
            && lines_of(pieces.drop_last()).last().len() == 0),
        _ => lines_of(pieces.drop_last()).last().len() == 0,
    })
}

/// At no point have more quotes been closed than opened.
pub open spec fn never_behind(pieces: Seq<Piece>) -> bool {
    forall|n: int| 0 <= n <= pieces.len() ==> opens(#[trigger] pieces.take(n)) >= closes(pieces.take(n))
}

proof fn lemma_marker_texts()
    ensures
        OPEN_TAG@ == OPEN_LINE@ + seq!['\n'],
        CLOSE_TAG@ == CLOSE_LINE@ + seq!['\n'],
        is_one_line(OPEN_LINE@),
        is_one_line(CLOSE_LINE@),
        OPEN_LINE@.len() == 9,
        CLOSE_LINE@.len() == 10,
{
    reveal_strlit("[[quote]]\n");
    reveal_strlit("[[/quote]]\n");
    reveal_strlit("[[quote]]");
    reveal_strlit("[[/quote]]");
    assert(OPEN_TAG@ =~= OPEN_LINE@ + seq!['\n']);
    assert(CLOSE_TAG@ =~= CLOSE_LINE@ + seq!['\n']);
}

proof fn lemma_lines_of_exist(pieces: Seq<Piece>)
    ensures
        lines_of(pieces).len() > 0,
    decreases pieces.len(),
{
    if pieces.len() > 0 {
        lemma_lines_of_exist(pieces.drop_last());
    }
}

/// The lines of the text of pieces written in order are the lines that the
/// pieces make.
pub proof fn lemma_lines_of_flatten(pieces: Seq<Piece>)
    requires
        orderly(pieces),
    ensures
        split_lines(flatten(pieces)) == lines_of(pieces),
    decreases pieces.len(),
{
    if pieces.len() > 0 {
        let rest = pieces.drop_last();
        let text = flatten(rest);
        lemma_lines_of_flatten(rest);
        lemma_marker_texts();
        match pieces.last() {
            Piece::Open => {
                lemma_split_append(text, OPEN_LINE@);
                lemma_split_feed(text + OPEN_LINE@);
                assert(text + OPEN_TAG@ =~= (text + OPEN_LINE@) + seq!['\n']);
            },
            Piece::Close => {
                lemma_split_append(text, CLOSE_LINE@);
                lemma_split_feed(text + CLOSE_LINE@);
                assert(text + CLOSE_TAG@ =~= (text + CLOSE_LINE@) + seq!['\n']);
            },
            Piece::Text(more) => {
                if more == seq!['\n'] {
                    lemma_split_feed(text);
                } else {
                    lemma_split_append(text, more);
                }
            },
        }
    }
}

proof fn lemma_count_push(pieces: Seq<Piece>, piece: Piece)
    ensures
        opens(pieces.push(piece)) == opens(pieces) + (if piece is Open {
            1int
        } else {
            0int
        }),
        closes(pieces.push(piece)) == closes(pieces) + (if piece is Close {
            1int
        } else {
            0int
        }),
{
    assert(pieces.push(piece).drop_last() =~= pieces);
}

proof fn lemma_marks_of_lines(pieces: Seq<Piece>)
    requires
        orderly(pieces),
    ensures
        ({
            let found = lines_of(pieces).map_values(|line: Seq<char>| line_mark(line));
            &&& found.len() > 0
            &&& found.last() is Text
            &&& opens(found) == opens(pieces)
            &&& closes(found) == closes(pieces)
            &&& never_behind(pieces) ==> never_behind(found)
        }),
    decreases pieces.len(),
{
    let mark = |line: Seq<char>| line_mark(line);
    let found = lines_of(pieces).map_values(mark);
    lemma_marker_texts();
    if pieces.len() == 0 {
        assert(found =~= seq![Piece::Text(Seq::empty())]);
        assert(found.drop_last() =~= Seq::<Piece>::empty());
        assert(opens(Seq::<Piece>::empty()) == 0 && closes(Seq::<Piece>::empty()) == 0);
        assert(opens(found) == 0 && closes(found) == 0);
        assert forall|n: int| 0 <= n <= found.len() implies opens(#[trigger] found.take(n))
            >= closes(found.take(n)) by {
            if n == 0 {
                assert(found.take(0) =~= Seq::<Piece>::empty());
            } else {
                assert(found.take(1) =~= found);
            }
        }
    } else {
        let rest = pieces.drop_last();
        let lines = lines_of(rest);
        let before = lines.map_values(mark);
        lemma_marks_of_lines(rest);
        lemma_lines_of_exist(rest);
        let kept = before.drop_last();
        assert(pieces =~= rest.push(pieces.last()));
        lemma_count_push(rest, pieces.last());
        assert(before =~= kept.push(before.last()));
        lemma_count_push(kept, before.last());
        // The new last marks, after the marks that are kept.
        let tail: Seq<Piece> = match pieces.last() {
            Piece::Open => seq![Piece::Open, Piece::Text(Seq::empty())],
            Piece::Close => seq![Piece::Close, Piece::Text(Seq::empty())],
            Piece::Text(text) => if text == seq!['\n'] {
                seq![before.last(), Piece::Text(Seq::empty())]
            } else {
                seq![Piece::Text(text)]
            },
        };
        assert(found =~= kept + tail) by {
            match pieces.last() {
                Piece::Open => {
                    assert(lines.last() + OPEN_LINE@ =~= OPEN_LINE@);
                },
                Piece::Close => {
                    assert(lines.last() + CLOSE_LINE@ =~= CLOSE_LINE@);
                },
                Piece::Text(text) => {
                    if text != seq!['\n'] {
                        assert(lines.last() + text =~= text);
                    }
                },
            }
        }
        let first = kept.push(tail[0]);
        lemma_count_push(kept, tail[0]);
        if tail.len() == 2 {
            assert(found =~= first.push(tail[1]));
            lemma_count_push(first, tail[1]);
        } else {
            assert(found =~= first);
        }
        if never_behind(pieces) {
            assert(never_behind(rest)) by {
                assert forall|n: int| 0 <= n <= rest.len() implies opens(#[trigger] rest.take(n))
                    >= closes(rest.take(n)) by {
                    assert(rest.take(n) =~= pieces.take(n));
                }
            }
            assert(pieces.take(pieces.len() as int) =~= pieces);
            assert(before.take(before.len() as int) =~= before);
            assert forall|n: int| 0 <= n <= found.len() implies opens(#[trigger] found.take(n))
                >= closes(found.take(n)) by {
                if n < before.len() {
                    assert(found.take(n) =~= before.take(n));
                } else if n == before.len() {
                    assert(found.take(n) =~= first);
                } else {
                    assert(found.take(n) =~= found);
                }
            }
        }
    }
}


// The last line that the pieces make is still empty.
spec fn fresh(pieces: Seq<Piece>) -> bool {
    lines_of(pieces).last().len() == 0
}

// Every line is one line of text that is not spelled like a marker.
spec fn plain(lines: Seq<Line>) -> bool {
    forall|i: int|
        0 <= i < lines.len() ==> is_one_line((#[trigger] lines[i]).contents) && is_no_marker(
            lines[i].contents,
        )
}

proof fn lemma_markers_orderly(pieces: Seq<Piece>, open: bool, count: nat)
    requires
        orderly(pieces),
        fresh(pieces),
    ensures
        orderly(pieces + markers(open, count)),
        fresh(pieces + markers(open, count)),
    decreases count,
{
    let all = pieces + markers(open, count);
    if count == 0 {
        assert(all =~= pieces);
    } else {
        let fewer = pieces + markers(open, (count - 1) as nat);
        lemma_markers_orderly(pieces, open, (count - 1) as nat);
        lemma_lines_of_exist(fewer);
        assert(all.drop_last() =~= fewer);
    }
}

proof fn lemma_line_orderly(lines: Seq<Line>, i: int, before: Seq<Piece>)
    requires
        plain(lines),
        0 <= i < lines.len(),
        orderly(before),
        fresh(before),
    ensures
        orderly(before + line_pieces(lines, i)),
        i + 1 < lines.len() || lines[i].depth != 0 ==> fresh(before + line_pieces(lines, i)),
{
    let from = depth_before(lines, i);
    let to = lines[i].depth;
    let step = shift(from, to);
    let started = before + step;
    lemma_markers_orderly(before, to >= from, step.len());
    lemma_lines_of_exist(started);
    let copied = started.push(Piece::Text(lines[i].contents));
    assert(copied.drop_last() =~= started);
    assert(orderly(copied));
    lemma_lines_of_exist(copied);
    if i + 1 < lines.len() || to != 0 {
        let ended = copied.push(Piece::Text(seq!['\n']));
        assert(ended.drop_last() =~= copied);
        assert(before + line_pieces(lines, i) =~= ended);
    } else {
        assert(before + line_pieces(lines, i) =~= copied);
    }
}

proof fn lemma_body_orderly(lines: Seq<Line>, n: nat)
    requires
        plain(lines),
        n <= lines.len(),
    ensures
        orderly(body_pieces(lines, n)),
        n < lines.len() || depth_before(lines, n as int) != 0 || n == 0 ==> fresh(
            body_pieces(lines, n),
        ),
    decreases n,
{
    if n > 0 {
        lemma_body_orderly(lines, (n - 1) as nat);
        lemma_line_orderly(lines, n - 1, body_pieces(lines, (n - 1) as nat));
    }
}

proof fn lemma_pieces_orderly(lines: Seq<Line>)
    requires
        plain(lines),
        lines.len() > 0,
    ensures
        orderly(pieces(lines)),
{
    let body = body_pieces(lines, lines.len());
    let last = depth_before(lines, lines.len() as int);
    lemma_body_orderly(lines, lines.len());
    if last == 0 {
        assert(pieces(lines) =~= body);
    } else {
        lemma_markers_orderly(body, false, last);
    }
}

/// The markers of a filtered text nest, counted in the text itself: as many of
/// its lines close a quote as open one, and up to no line have more quotes been
/// closed than opened. This holds of every text of which the filter copies no
/// line that is itself spelled like a marker.
pub proof fn lemma_marker_lines_nest(text: Seq<char>)
    requires
        copies_no_marker(text),
    ensures
        opens(marks(quote_filter(text))) == closes(marks(quote_filter(text))),
        never_behind(marks(quote_filter(text))),
{
    let source = split_lines(text);
    let lines = parse(text);
    let written = pieces(lines);
    lemma_lines_exist(text);
    lemma_lines_hold_no_feed(text);
    assert(plain(lines)) by {
        assert forall|i: int| 0 <= i < lines.len() implies is_one_line(
            (#[trigger] lines[i]).contents,
        ) && is_no_marker(lines[i].contents) by {
            assert(lines[i] == classify(source[i]));
            assert(is_one_line(source[i]));
            assert(is_no_marker(parse(text)[i].contents));
            let depth = leading(source[i], QUOTE_CHAR);
            if depth > 0 {
                let rest = source[i].skip(depth as int);
                let spaces = leading(rest, ' ');
                lemma_leading_fits(source[i], QUOTE_CHAR);
                lemma_leading_fits(rest, ' ');
                let kept = rest.skip(spaces as int);
                assert forall|j: int| 0 <= j < kept.len() implies #[trigger] kept[j] != '\n' by {
                    assert(kept[j] == source[i][j + spaces + depth]);
                }
            }
        }
    }
    lemma_pieces_orderly(lines);
    lemma_markers_nest(text);
    assert(never_behind(written));
    lemma_lines_of_flatten(written);
    lemma_marks_of_lines(written);
}

proof fn lemma_leading_fits(line: Seq<char>, c: char)
    ensures
        leading(line, c) <= line.len(),
    decreases line.len(),
{
    if line.len() > 0 && line[0] == c {
        lemma_leading_fits(line.drop_first(), c);
    }
}

} // verus!
