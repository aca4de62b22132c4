//! Text as plain lines: the model in which the buffer's edits are stated.
//!
//! A text is a sequence of lines and a line a sequence of characters. The
//! functions here say what each edit does to such a text, how a text is cut
//! into lines and put together again, and what follows from that.

use crate::cursor::Cursor;
use crate::text::{decimal, lemma_segments_len, right_aligned, segments};
use vstd::prelude::*;

verus! {

/// The column at which an edit at column `x` of `line` takes place: `x`,
/// or the end of the line where `x` lies beyond it.
pub open spec fn column(line: Seq<char>, x: int) -> int {
    if x >= line.len() {
        line.len() as int
    } else {
        x
    }
}

/// Plain lines after `c` is inserted in row `y` before column `x`.
pub open spec fn insert_char(lines: Seq<Seq<char>>, c: char, x: int, y: int) -> Seq<Seq<char>> {
    lines.update(y, lines[y].insert(column(lines[y], x), c))
}

/// Plain lines after the character in row `y`, column `x` is erased; at or
/// past the end of the row there is nothing to erase.
pub open spec fn erase_char(lines: Seq<Seq<char>>, x: int, y: int) -> Seq<Seq<char>> {
    if x >= lines[y].len() {
        lines
    } else {
        lines.update(y, lines[y].remove(x))
    }
}

/// Plain lines after row `y` is broken before column `x`: what stands
/// before the column stays in row `y`, the rest becomes a new row `y + 1`.
pub open spec fn break_line(lines: Seq<Seq<char>>, x: int, y: int) -> Seq<Seq<char>> {
    let k = column(lines[y], x);
    lines.update(y, lines[y].take(k)).insert(y + 1, lines[y].skip(k))
}

/// The lines of a text: its segments, where a newline at the very end ends
/// the last line and opens no further one. There is always at least one line.
pub open spec fn lines_of(s: Seq<char>) -> Seq<Seq<char>> {
    let segs = segments(s, '\n');
    if segs.len() > 1 && segs.last().len() == 0 {
        segs.drop_last()
    } else {
        segs
    }
}

/// The text that holds the given lines, each followed by one newline.
pub open spec fn text_of(lines: Seq<Seq<char>>) -> Seq<char>
    decreases lines.len(),
{
    if lines.len() == 0 {
        Seq::empty()
    } else {
        text_of(lines.drop_last()) + lines.last().push('\n')
    }
}


/// The lines of a buffer that numbers `n` lines from zero: the numeral of
/// each row, right-aligned to the width of the numeral of `n`; one empty
/// line where `n` is zero.
pub open spec fn numbering(n: nat) -> Seq<Seq<char>> {
    if n == 0 {
        seq![Seq::<char>::empty()]
    } else {
        Seq::new(n, |i: int| right_aligned(decimal(i as nat), decimal(n).len()))
    }
}

/// One edit of a text, at a cursor.
#[derive(Debug, Clone, Copy, PartialEq, Eq, Structural)]
pub enum Edit {
    /// Insert a character before the cursor.
    Insert(char, Cursor),
    /// Erase the character under the cursor.
    Erase(Cursor),
    /// Break the line before the cursor.
    InsertLine(Cursor),
}

impl Edit {
    /// The cursor at which the edit takes place.
    pub open spec fn cursor(self) -> Cursor {
        match self {
            Edit::Insert(_, cursor) => cursor,
            Edit::Erase(cursor) => cursor,
            Edit::InsertLine(cursor) => cursor,
        }
    }

    /// The edit can be made in `lines`: its row exists and, for an
    /// insertion, still has room for a character.
    pub open spec fn applies(self, lines: Seq<Seq<char>>) -> bool {
        &&& self.cursor().y < lines.len()
        &&& self is Insert ==> lines[self.cursor().y as int].len() < usize::MAX
    }

    /// `lines` after the edit; an edit that cannot be made changes nothing.
    pub open spec fn apply(self, lines: Seq<Seq<char>>) -> Seq<Seq<char>> {
        if !self.applies(lines) {
            lines
        } else {
            match self {
                Edit::Insert(c, cursor) => insert_char(lines, c, cursor.x as int, cursor.y as int),
                Edit::Erase(cursor) => erase_char(lines, cursor.x as int, cursor.y as int),
                Edit::InsertLine(cursor) => break_line(lines, cursor.x as int, cursor.y as int),
            }
        }
    }
}

/// `lines` after the edits of `edits`, made one after the other.
pub open spec fn apply_edits(lines: Seq<Seq<char>>, edits: Seq<Edit>) -> Seq<Seq<char>>
    decreases edits.len(),
{
    if edits.len() == 0 {
        lines
    } else {
        edits.last().apply(apply_edits(lines, edits.drop_last()))
    }
}

/// Erasing at or past the end of a row changes nothing.
pub proof fn lemma_erase_at_end(lines: Seq<Seq<char>>, x: int, y: int)
    requires
        0 <= y < lines.len(),
        x >= lines[y].len(),
    ensures
        erase_char(lines, x, y) == lines,
{
}

/// Erasing inside a row removes exactly the character under the cursor.
pub proof fn lemma_erase_inside(lines: Seq<Seq<char>>, x: int, y: int)
    requires
        0 <= y < lines.len(),
        0 <= x < lines[y].len(),
    ensures
        erase_char(lines, x, y).len() == lines.len(),
        erase_char(lines, x, y)[y].len() == lines[y].len() - 1,
        erase_char(lines, x, y)[y] == lines[y].take(x) + lines[y].skip(x + 1),
        forall|i: int| 0 <= i < lines.len() && i != y ==> erase_char(lines, x, y)[i] == lines[i],
{
    assert(lines[y].remove(x) =~= lines[y].take(x) + lines[y].skip(x + 1));
}

/// Inserting at the end of a row, or past it, appends: the character
/// becomes the last of the row and the rest stays.
pub proof fn lemma_insert_at_end(lines: Seq<Seq<char>>, c: char, x: int, y: int)
    requires
        0 <= y < lines.len(),
        x >= lines[y].len(),
    ensures
        insert_char(lines, c, x, y)[y] == lines[y].push(c),
        insert_char(lines, c, x, y)[y].last() == c,
        insert_char(lines, c, x, y).len() == lines.len(),
        forall|i: int| 0 <= i < lines.len() && i != y ==> insert_char(lines, c, x, y)[i] == lines[i],
{
    assert(lines[y].insert(lines[y].len() as int, c) =~= lines[y].push(c));
}

/// Inserting inside a row puts the character at the cursor's column and
/// moves what stood there one column on.
pub proof fn lemma_insert_inside(lines: Seq<Seq<char>>, c: char, x: int, y: int)
    requires
        0 <= y < lines.len(),
        0 <= x <= lines[y].len(),
    ensures
        insert_char(lines, c, x, y)[y].len() == lines[y].len() + 1,
        insert_char(lines, c, x, y)[y][x] == c,
        insert_char(lines, c, x, y)[y] == lines[y].take(x).push(c) + lines[y].skip(x),
        erase_char(insert_char(lines, c, x, y), x, y) == lines,
{
    let after = insert_char(lines, c, x, y);
    assert(lines[y].insert(x, c) =~= lines[y].take(x).push(c) + lines[y].skip(x));
    assert(after[y].remove(x) =~= lines[y]);
    assert(erase_char(after, x, y) =~= lines);
}

/// Breaking a row loses nothing: the two rows that come of it, put
/// together, are the row that was broken, they hold as many characters as
/// it did, and every other row is untouched.
pub proof fn lemma_break_conserves(lines: Seq<Seq<char>>, x: int, y: int)
    requires
        0 <= y < lines.len(),
        0 <= x,
    ensures
        ({
            let after = break_line(lines, x, y);
            &&& after.len() == lines.len() + 1
            &&& after[y] + after[y + 1] == lines[y]
            &&& after[y].len() + after[y + 1].len() == lines[y].len()
            &&& after[y].len() == column(lines[y], x)
            &&& forall|i: int| 0 <= i < y ==> after[i] == lines[i]
            &&& forall|i: int| y < i < lines.len() ==> after[i + 1] == lines[i]
        }),
{
    let after = break_line(lines, x, y);
    let k = column(lines[y], x);
    assert(lines[y].take(k) + lines[y].skip(k) =~= lines[y]);
}

/// No line holds a newline.
pub open spec fn newline_free(lines: Seq<Seq<char>>) -> bool {
    forall|i: int, j: int|
        0 <= i < lines.len() && 0 <= j < lines[i].len() ==> #[trigger] lines[i][j] != '\n'
}

/// Text without a newline, added behind a text, lengthens its last segment.
pub proof fn lemma_segments_append(t: Seq<char>, l: Seq<char>)
    requires
        forall|j: int| 0 <= j < l.len() ==> l[j] != '\n',
    ensures
        segments(t + l, '\n') == segments(t, '\n').update(segments(t, '\n').len() - 1, segments(t, '\n').last() + l),
    decreases l.len(),
{
    lemma_segments_len(t, '\n');
    if l.len() == 0 {
        assert(t + l =~= t);
        assert(segments(t, '\n').last() + l =~= segments(t, '\n').last());
        assert(segments(t, '\n').update(segments(t, '\n').len() - 1, segments(t, '\n').last()) =~= segments(t, '\n'));
    } else {
        let shorter = l.drop_last();
        lemma_segments_append(t, shorter);
        assert((t + l).drop_last() =~= t + shorter);
        assert((t + l).last() == l.last());
        let before = segments(t + shorter, '\n');
        assert(segments(t, '\n').last() + l =~= (segments(t, '\n').last() + shorter).push(l.last()));
        assert(before.update(before.len() - 1, before.last().push(l.last())) =~= segments(
            t, '\n',
        ).update(segments(t, '\n').len() - 1, segments(t, '\n').last() + l));
    }
}

/// The segments of a text written from lines without newlines are those
/// lines and one empty segment behind the last newline.
pub proof fn lemma_segments_of_text(lines: Seq<Seq<char>>)
    requires
        newline_free(lines),
    ensures
        segments(text_of(lines), '\n') == lines.push(Seq::<char>::empty()),
    decreases lines.len(),
{
    if lines.len() == 0 {
        assert(segments(text_of(lines), '\n') =~= lines.push(Seq::<char>::empty()));
    } else {
        let front = lines.drop_last();
        let l = lines.last();
        assert forall|i: int, j: int| 0 <= i < front.len() && 0 <= j < front[i].len() implies (
        #[trigger] front[i][j]) != '\n' by {
            assert(front[i][j] == lines[i][j]);
        }
        lemma_segments_of_text(front);
        assert forall|j: int| 0 <= j < l.len() implies l[j] != '\n' by {
            assert(l[j] == lines[lines.len() - 1][j]);
        }
        lemma_segments_append(text_of(front), l);
        let t = text_of(front) + l;
        assert(text_of(lines) =~= t.push('\n'));
        assert(t.push('\n').drop_last() =~= t);
        assert(segments(t, '\n') =~= lines) by {
            assert(Seq::<char>::empty() + l =~= l);
        }
        assert(segments(text_of(lines), '\n') =~= lines.push(Seq::<char>::empty()));
    }
}

/// Writing lines out and reading the text back gives the same lines, as
/// long as there is at least one line and no line holds a newline.
pub proof fn lemma_text_round_trip(lines: Seq<Seq<char>>)
    requires
        lines.len() >= 1,
        newline_free(lines),
    ensures
        lines_of(text_of(lines)) == lines,
{
    lemma_segments_of_text(lines);
    assert(lines.push(Seq::<char>::empty()).drop_last() =~= lines);
}

/// A text always has at least one line, and none of its lines holds a
/// newline.
pub proof fn lemma_lines_of(s: Seq<char>)
    ensures
        lines_of(s).len() >= 1,
        newline_free(lines_of(s)),
{
    lemma_segments_newline_free(s);
}

/// A text has at least one segment, and no segment between newlines holds
/// a newline.
pub proof fn lemma_segments_newline_free(s: Seq<char>)
    ensures
        segments(s, '\n').len() >= 1,
        newline_free(segments(s, '\n')),
    decreases s.len(),
{
    if s.len() > 0 {
        lemma_segments_newline_free(s.drop_last());
    }
}

/// Edits made in two runs give what they give in one.
pub proof fn lemma_apply_edits_concat(lines: Seq<Seq<char>>, first: Seq<Edit>, second: Seq<Edit>)
    ensures
        apply_edits(lines, first + second) == apply_edits(apply_edits(lines, first), second),
    decreases second.len(),
{
    if second.len() == 0 {
        assert(first + second =~= first);
    } else {
        lemma_apply_edits_concat(lines, first, second.drop_last());
        assert((first + second).drop_last() =~= first + second.drop_last());
        assert((first + second).last() == second.last());
    }
}

} // verus!
