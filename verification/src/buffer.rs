//! The piece-table text buffer.
//!
//! A buffer keeps the text it was loaded with as an immutable sequence of
//! characters and describes every line as a list of pieces: spans of that
//! sequence and strings that were typed later. Its view is the plain list of
//! its lines, and every edit is specified as an edit of that list.

pub use crate::piece::{Original, Piece};

use crate::cursor::Cursor;
use crate::lines::{
    apply_edits, break_line, column, erase_char, insert_char, lines_of, numbering, text_of, Edit,
};
use crate::piece::{
    erase_from_line, erased, insert_into_line, inserted, left_of, lemma_text_push,
    lemma_views_text, line_string, line_width, pieces_text, pieces_view, pieces_wf, right_of,
    split_line_pieces, views_text, views_wf, PieceView,
};
use crate::text::{
    chars_of, decimal, decimal_chars, lemma_segments_len, push_char, right_aligned, segments,
    string_of,
};
use vstd::prelude::*;
use vstd::string::{StrSliceExecFns, StringExecFns};

verus! {

/// The name under which a registry holds a buffer.
#[derive(Debug, Clone, Copy, Hash, PartialEq, Eq, Structural)]
pub struct BufferId(pub usize);

impl BufferId {
    /// Takes the next identifier from `counter` and advances it, so that no
    /// identifier comes out of one counter twice.
    pub fn new(counter: &mut usize) -> (r: BufferId)
        requires
            *old(counter) < usize::MAX,
        ensures
            r == BufferId(*old(counter)),
            *final(counter) == *old(counter) + 1,
    {
        let result = BufferId(*counter);
        *counter = *counter + 1;
        result
    }
}

/// The texts of the lines whose pieces are `tables`.
pub open spec fn lines_view(tables: Seq<Vec<Piece>>, data: Seq<char>) -> Seq<Seq<char>> {
    Seq::new(tables.len(), |i: int| pieces_text(tables[i]@, data))
}

/// Every line lies inside the loaded text and has a representable width.
pub open spec fn lines_wf(tables: Seq<Vec<Piece>>, data: Seq<char>) -> bool {
    forall|i: int|
        0 <= i < tables.len() ==> {
            &&& pieces_wf(#[trigger] tables[i]@, data)
            &&& pieces_text(tables[i]@, data).len() <= usize::MAX
        }
}

/// A text buffer: the loaded text and, for every line, its pieces.
#[derive(Debug, Clone)]
pub struct Buffer {
    data: Vec<char>,
    piece_tables: Vec<Vec<Piece>>,
}

impl View for Buffer {
    type V = Seq<Seq<char>>;

    /// The lines of the buffer, each as its characters.
    closed spec fn view(&self) -> Seq<Seq<char>> {
        lines_view(self.piece_tables@, self.data@)
    }
}

impl Buffer {
    /// The invariant of a buffer: it has at least one line, every piece
    /// lies inside the loaded text, and every line's width fits in `usize`.
    pub closed spec fn wf(&self) -> bool {
        &&& self.piece_tables@.len() >= 1
        &&& lines_wf(self.piece_tables@, self.data@)
    }

    /// The text that the buffer was loaded with.
    pub closed spec fn original(&self) -> Seq<char> {
        self.data@
    }

    /// The pieces of line `row`.
    pub closed spec fn pieces(&self, row: int) -> Seq<PieceView> {
        pieces_view(self.piece_tables@[row]@)
    }

    /// A line is the text of its pieces, one after the other.
    pub proof fn lemma_pieces(&self, row: int)
        requires
            0 <= row < self@.len(),
        ensures
            self@[row] == views_text(self.pieces(row), self.original()),
            self.wf() ==> views_wf(self.pieces(row), self.original()),
            self.original().len() <= usize::MAX,
    {
        lemma_views_text(self.piece_tables@[row]@, self.data@);
        assert(self.data.len() == self.data@.len());
        if self.wf() {
            let line = self.piece_tables@[row]@;
            assert(pieces_wf(line, self.data@));
            assert forall|i: int| 0 <= i < self.pieces(row).len() implies ((
            #[trigger] self.pieces(row)[i]) matches PieceView::Original(start, length) ==> start
                + length <= self.original().len()) by {
                assert(line[i].wf(self.data@));
            }
        }
    }

    /// What `wf` says of the view.
    pub proof fn lemma_wf(&self)
        requires
            self.wf(),
        ensures
            self@.len() >= 1,
            forall|i: int| 0 <= i < self@.len() ==> (#[trigger] self@[i]).len() <= usize::MAX,
    {
    }

    /// The buffer of a text: one line for each line of the text, each a
    /// single `Original` piece.
    pub fn from_text(text: &str) -> (r: Buffer)
        ensures
            r.wf(),
            r@ == lines_of(text@),
            r.original() == text@,
            forall|row: int|
                0 <= row < r@.len() ==> {
                    &&& (#[trigger] r.pieces(row)).len() == 1
                    &&& r.pieces(row)[0] is Original
                    &&& r.pieces(row)[0].text(text@) == r@[row]
                },
    {
        let data: Vec<char> = chars_of(text);
        let mut piece_tables: Vec<Vec<Piece>> = Vec::new();
        let mut start: usize = 0;
        let mut i: usize = 0;
        assert(data@.take(0) =~= Seq::<char>::empty());
        assert(data@.subrange(0, 0) =~= Seq::<char>::empty());
        assert(lines_view(piece_tables@, data@) =~= segments(data@.take(0), '\n').drop_last());
        proof {
            lemma_segments_len(data@.take(0), '\n');
        }
        while i < data.len()
            invariant
                start <= i <= data.len(),
                lines_wf(piece_tables@, data@),
                forall|row: int|
                    0 <= row < piece_tables@.len() ==> (#[trigger] piece_tables@[row])@.len() == 1
                        && piece_tables@[row]@[0] is Original,
                segments(data@.take(i as int), '\n').len() >= 1,
                lines_view(piece_tables@, data@) == segments(data@.take(i as int), '\n').drop_last(),
                data@.subrange(start as int, i as int) == segments(data@.take(i as int), '\n').last(),
            decreases data.len() - i,
        {
            let ghost before = segments(data@.take(i as int), '\n');
            proof {
                lemma_segments_len(data@.take(i + 1), '\n');
                assert(data@.take(i + 1).drop_last() =~= data@.take(i as int));
                assert(data@.take(i + 1).last() == data@[i as int]);
            }
            if data[i] == '\n' {
                let ghost old_tables = piece_tables@;
                let piece = Piece::Original(start, i - start);
                let mut line: Vec<Piece> = Vec::new();
                line.push(piece);
                proof {
                    lemma_text_push(Seq::<Piece>::empty(), piece, data@);
                    assert(line@ =~= Seq::<Piece>::empty().push(piece));
                    assert(pieces_text(line@, data@) =~= data@.subrange(start as int, i as int));
                }
                piece_tables.push(line);
                start = i + 1;
                proof {
                    assert(piece_tables@ == old_tables.push(line));
                    assert(before =~= before.drop_last().push(before.last()));
                    assert(lines_view(piece_tables@, data@) =~= lines_view(old_tables, data@).push(
                        pieces_text(line@, data@),
                    ));
                    assert(lines_view(piece_tables@, data@) =~= before);
                    assert(data@.subrange(start as int, i + 1) =~= Seq::<char>::empty());
                    assert forall|j: int| 0 <= j < piece_tables@.len() implies {
                        &&& pieces_wf(#[trigger] piece_tables@[j]@, data@)
                        &&& pieces_text(piece_tables@[j]@, data@).len() <= usize::MAX
                    } by {
                        if j < old_tables.len() {
                            assert(piece_tables@[j] == old_tables[j]);
                        }
                    }
                }
            } else {
                proof {
                    assert(data@.subrange(start as int, i + 1) =~= data@.subrange(
                        start as int,
                        i as int,
                    ).push(data@[i as int]));
                    let after = segments(data@.take(i + 1), '\n');
                    assert(after.drop_last() =~= before.drop_last());
                }
            }
            i += 1;
        }
        assert(data@.take(i as int) =~= data@);
        proof {
            lemma_segments_len(data@, '\n');
        }
        if start < data.len() || piece_tables.len() == 0 {
            let ghost old_tables = piece_tables@;
            let piece = Piece::Original(start, data.len() - start);
            let mut line: Vec<Piece> = Vec::new();
            line.push(piece);
            proof {
                lemma_text_push(Seq::<Piece>::empty(), piece, data@);
                assert(line@ =~= Seq::<Piece>::empty().push(piece));
                assert(pieces_text(line@, data@) =~= data@.subrange(
                    start as int,
                    data@.len() as int,
                ));
            }
            piece_tables.push(line);
            proof {
                let segs = segments(data@, '\n');
                assert(piece_tables@ == old_tables.push(line));
                assert(segs =~= segs.drop_last().push(segs.last()));
                assert(lines_view(piece_tables@, data@) =~= lines_view(old_tables, data@).push(
                    pieces_text(line@, data@),
                ));
                assert(lines_view(piece_tables@, data@) =~= segments(data@, '\n'));
                assert forall|j: int| 0 <= j < piece_tables@.len() implies {
                    &&& pieces_wf(#[trigger] piece_tables@[j]@, data@)
                    &&& pieces_text(piece_tables@[j]@, data@).len() <= usize::MAX
                } by {
                    if j < old_tables.len() {
                        assert(piece_tables@[j] == old_tables[j]);
                    }
                }
            }
        }
        let r = Buffer { data, piece_tables };
        proof {
            assert forall|row: int| 0 <= row < r@.len() implies (#[trigger] r.pieces(row))[0].text(
                text@,
            ) == r@[row] by {
                r.lemma_pieces(row);
                let pieces = r.pieces(row);
                assert(r.piece_tables@[row]@.len() == 1);
                assert(pieces.len() == 1);
                assert(pieces.drop_last() =~= Seq::<PieceView>::empty());
                assert(views_text(pieces.drop_last(), text@) =~= Seq::<char>::empty());
                assert(views_text(pieces, text@) =~= pieces[0].text(text@));
            }
        }
        r
    }

    /// A buffer of one empty line.
    pub fn empty() -> (r: Buffer)
        ensures
            r.wf(),
            r@ == seq![Seq::<char>::empty()],
            r.original() == Seq::<char>::empty(),
    {
        let mut piece_tables: Vec<Vec<Piece>> = Vec::new();
        piece_tables.push(Vec::new());
        let r = Buffer { data: Vec::new(), piece_tables };
        assert(r@ =~= seq![Seq::<char>::empty()]);
        r
    }

    /// Number of lines.
    pub fn height(&self) -> (r: usize)
        ensures
            r == self@.len(),
            self.wf() ==> r >= 1,
    {
        self.piece_tables.len()
    }

    /// The text of line `line_i`.
    pub fn line_at(&self, line_i: usize) -> (r: String)
        requires
            self.wf(),
            line_i < self@.len(),
        ensures
            r@ == self@[line_i as int],
    {
        line_string(&self.piece_tables[line_i], &self.data)
    }

    /// The pieces of line `line_i`, in order.
    pub fn pieces_at(&self, line_i: usize) -> (r: Vec<Piece>)
        requires
            line_i < self@.len(),
        ensures
            pieces_view(r@) == self.pieces(line_i as int),
    {
        let line = &self.piece_tables[line_i];
        let mut out: Vec<Piece> = Vec::new();
        let mut i: usize = 0;
        while i < line.len()
            invariant
                0 <= i <= line.len(),
                out@ == line@.take(i as int),
            decreases line.len() - i,
        {
            out.push(line[i].duplicate());
            i += 1;
            assert(out@ =~= line@.take(i as int));
        }
        assert(line@.take(i as int) =~= line@);
        out
    }

    /// Number of characters in line `line_i`.
    pub fn line_width_at(&self, line_i: usize) -> (r: usize)
        requires
            self.wf(),
            line_i < self@.len(),
        ensures
            r == self@[line_i as int].len(),
    {
        assert(self.data.len() == self.data@.len());
        line_width(&self.piece_tables[line_i], Ghost(self.data@))
    }

    /// Inserts `c` in row `cursor.y` before column `cursor.x`, or at the
    /// end of the row where the column lies beyond it.
    pub fn insert_at_cursor(&mut self, c: char, cursor: &Cursor)
        requires
            old(self).wf(),
            cursor.y < old(self)@.len(),
            old(self)@[cursor.y as int].len() < usize::MAX,
        ensures
            final(self).wf(),
            final(self)@ == insert_char(old(self)@, c, cursor.x as int, cursor.y as int),
            cursor.x >= old(self)@[cursor.y as int].len() ==> final(self)@[cursor.y as int] == old(
                self,
            )@[cursor.y as int].push(c),
            final(self).original() == old(self).original(),
            final(self).pieces(cursor.y as int) == inserted(
                old(self).pieces(cursor.y as int),
                column(old(self)@[cursor.y as int], cursor.x as int),
                c,
            ),
            forall|row: int|
                0 <= row < old(self)@.len() && row != cursor.y ==> #[trigger] final(self).pieces(row)
                    == old(self).pieces(row),
    {
        let ghost data = self.data@;
        let ghost old_tables = self.piece_tables@;
        assert(self.data.len() == self.data@.len());
        let line_width: usize = line_width(&self.piece_tables[cursor.y], Ghost(data));
        let insert_x: usize = if cursor.x >= line_width {
            line_width
        } else {
            cursor.x
        };
        let line = insert_into_line(&self.piece_tables[cursor.y], insert_x, c, Ghost(data));
        self.piece_tables[cursor.y] = line;
        proof {
            assert forall|j: int| 0 <= j < self.piece_tables@.len() implies {
                &&& pieces_wf(#[trigger] self.piece_tables@[j]@, data)
                &&& pieces_text(self.piece_tables@[j]@, data).len() <= usize::MAX
            } by {
                if j != cursor.y {
                    assert(self.piece_tables@[j] == old_tables[j]);
                }
            }
            assert(self@ =~= insert_char(old(self)@, c, cursor.x as int, cursor.y as int));
        }
    }

    /// Erases the character in row `cursor.y`, column `cursor.x`. With the
    /// cursor at or past the end of the row, nothing changes.
    pub fn erase_at_cursor(&mut self, cursor: &Cursor)
        requires
            old(self).wf(),
            cursor.y < old(self)@.len(),
        ensures
            final(self).wf(),
            final(self)@ == erase_char(old(self)@, cursor.x as int, cursor.y as int),
            cursor.x >= old(self)@[cursor.y as int].len() ==> final(self)@ == old(self)@,
            final(self).original() == old(self).original(),
            cursor.x >= old(self)@[cursor.y as int].len() ==> *final(self) == *old(self),
            cursor.x < old(self)@[cursor.y as int].len() ==> final(self).pieces(cursor.y as int)
                == erased(old(self).pieces(cursor.y as int), cursor.x as int),
            forall|row: int|
                0 <= row < old(self)@.len() && row != cursor.y ==> #[trigger] final(self).pieces(row)
                    == old(self).pieces(row),
    {
        let ghost data = self.data@;
        let ghost old_tables = self.piece_tables@;
        assert(self.data.len() == self.data@.len());
        let line_width: usize = line_width(&self.piece_tables[cursor.y], Ghost(data));
        if cursor.x >= line_width {
            return ;
        }
        let line = erase_from_line(&self.piece_tables[cursor.y], cursor.x, Ghost(data));
        self.piece_tables[cursor.y] = line;
        proof {
            assert forall|j: int| 0 <= j < self.piece_tables@.len() implies {
                &&& pieces_wf(#[trigger] self.piece_tables@[j]@, data)
                &&& pieces_text(self.piece_tables@[j]@, data).len() <= usize::MAX
            } by {
                if j != cursor.y {
                    assert(self.piece_tables@[j] == old_tables[j]);
                }
            }
            assert(self@ =~= erase_char(old(self)@, cursor.x as int, cursor.y as int));
        }
    }

    /// Breaks row `cursor.y` before column `cursor.x`, or at its end where
    /// the column lies beyond it: the row keeps what stands before the
    /// column, and a new row right below it takes the rest.
    pub fn insert_line_at_cursor(&mut self, cursor: &Cursor)
        requires
            old(self).wf(),
            cursor.y < old(self)@.len(),
        ensures
            final(self).wf(),
            final(self)@ == break_line(old(self)@, cursor.x as int, cursor.y as int),
            final(self)@.len() == old(self)@.len() + 1,
            final(self)@[cursor.y as int] + final(self)@[cursor.y + 1] == old(
                self,
            )@[cursor.y as int],
            final(self).original() == old(self).original(),
            final(self).pieces(cursor.y as int) == left_of(
                old(self).pieces(cursor.y as int),
                cursor.x as int,
            ),
            final(self).pieces(cursor.y + 1) == right_of(
                old(self).pieces(cursor.y as int),
                cursor.x as int,
            ),
            forall|row: int|
                0 <= row < cursor.y ==> #[trigger] final(self).pieces(row) == old(self).pieces(row),
            forall|row: int|
                cursor.y < row < old(self)@.len() ==> #[trigger] final(self).pieces(row + 1) == old(
                    self,
                ).pieces(row),
    {
        let ghost data = self.data@;
        let ghost old_tables = self.piece_tables@;
        assert(self.data.len() == self.data@.len());
        let height: usize = self.piece_tables.len();
        let (left, right) = split_line_pieces(&self.piece_tables[cursor.y], cursor.x, Ghost(data));
        self.piece_tables[cursor.y] = left;
        self.piece_tables.insert(cursor.y + 1, right);
        proof {
            let whole = pieces_text(old_tables[cursor.y as int]@, data);
            let k = column(whole, cursor.x as int);
            assert(whole.take(k).len() <= whole.len());
            assert(whole.skip(k).len() <= whole.len());
            assert forall|j: int| 0 <= j < self.piece_tables@.len() implies {
                &&& pieces_wf(#[trigger] self.piece_tables@[j]@, data)
                &&& pieces_text(self.piece_tables@[j]@, data).len() <= usize::MAX
            } by {
                if j < cursor.y {
                    assert(self.piece_tables@[j] == old_tables[j]);
                } else if j > cursor.y + 1 {
                    assert(self.piece_tables@[j] == old_tables[j - 1]);
                }
            }
            let after = break_line(old(self)@, cursor.x as int, cursor.y as int);
            assert(self.piece_tables@ == old_tables.update(cursor.y as int, left).insert(
                cursor.y + 1,
                right,
            ));
            assert(self@.len() == after.len());
            assert forall|j: int| 0 <= j < self@.len() implies self@[j] == after[j] by {
                if j < cursor.y {
                    assert(self.piece_tables@[j] == old_tables[j]);
                } else if j == cursor.y {
                    assert(self.piece_tables@[j] == left);
                } else if j == cursor.y + 1 {
                    assert(self.piece_tables@[j] == right);
                } else {
                    assert(self.piece_tables@[j] == old_tables[j - 1]);
                }
            }
            assert(self@ =~= after);
        }
    }

    /// Makes one edit and tells whether it could be made. An edit whose
    /// row does not exist, or an insertion into a row that has no room left,
    /// cannot, and leaves the buffer as it is.
    pub fn apply(&mut self, edit: &Edit) -> (r: bool)
        requires
            old(self).wf(),
        ensures
            final(self).wf(),
            r == edit.applies(old(self)@),
            final(self)@ == edit.apply(old(self)@),
            final(self).original() == old(self).original(),
    {
        match edit {
            Edit::Insert(c, cursor) => {
                if cursor.y < self.height() && self.line_width_at(cursor.y) < usize::MAX {
                    self.insert_at_cursor(*c, cursor);
                    true
                } else {
                    false
                }
            },
            Edit::Erase(cursor) => {
                if cursor.y < self.height() {
                    self.erase_at_cursor(cursor);
                    true
                } else {
                    false
                }
            },
            Edit::InsertLine(cursor) => {
                if cursor.y < self.height() {
                    self.insert_line_at_cursor(cursor);
                    true
                } else {
                    false
                }
            },
        }
    }

    /// Makes the edits of `edits` one after the other. The lines that
    /// come of it are those that the same edits give on plain lines.
    pub fn apply_all(&mut self, edits: &Vec<Edit>)
        requires
            old(self).wf(),
        ensures
            final(self).wf(),
            final(self)@ == apply_edits(old(self)@, edits@),
            final(self).original() == old(self).original(),
    {
        let mut i: usize = 0;
        assert(edits@.take(0) =~= Seq::<Edit>::empty());
        while i < edits.len()
            invariant
                0 <= i <= edits.len(),
                self.wf(),
                self@ == apply_edits(old(self)@, edits@.take(i as int)),
                self.original() == old(self).original(),
            decreases edits.len() - i,
        {
            proof {
                assert(edits@.take(i + 1).drop_last() =~= edits@.take(i as int));
                assert(edits@.take(i + 1).last() == edits@[i as int]);
            }
            self.apply(&edits[i]);
            i += 1;
        }
        assert(edits@.take(i as int) =~= edits@);
    }

    /// Replaces the content by one empty line.
    pub fn clear(&mut self) -> (r: &mut Self)
        ensures
            r.wf(),
            r@ == seq![Seq::<char>::empty()],
            r.original() == old(self).original(),
            *final(self) == *final(r),
    {
        let mut line: Vec<Piece> = Vec::new();
        line.push(Piece::Original(0, 0));
        let mut piece_tables: Vec<Vec<Piece>> = Vec::new();
        piece_tables.push(line);
        self.piece_tables = piece_tables;
        proof {
            lemma_text_push(Seq::<Piece>::empty(), Piece::Original(0, 0), self.data@);
            assert(line@ =~= Seq::<Piece>::empty().push(Piece::Original(0, 0)));
            assert(pieces_text(line@, self.data@) =~= Seq::<char>::empty());
            assert(self@ =~= seq![Seq::<char>::empty()]);
        }
        self
    }

    /// Adds `word` at the end of the last line.
    pub fn push(&mut self, word: String) -> (r: &mut Self)
        requires
            old(self).wf(),
            old(self)@.last().len() + word@.len() <= usize::MAX,
        ensures
            r.wf(),
            r@ == old(self)@.update(old(self)@.len() - 1, old(self)@.last() + word@),
            r.original() == old(self).original(),
            *final(self) == *final(r),
    {
        let ghost data = self.data@;
        let ghost old_tables = self.piece_tables@;
        let last: usize = self.piece_tables.len() - 1;
        let ghost old_line = self.piece_tables@[last as int]@;
        let piece = Piece::Add(word);
        self.piece_tables[last].push(piece);
        proof {
            lemma_text_push(old_line, piece, data);
            assert(self.piece_tables@[last as int]@ == old_line.push(piece));
            assert forall|j: int| 0 <= j < self.piece_tables@.len() implies {
                &&& pieces_wf(#[trigger] self.piece_tables@[j]@, data)
                &&& pieces_text(self.piece_tables@[j]@, data).len() <= usize::MAX
            } by {
                if j != last {
                    assert(self.piece_tables@[j] == old_tables[j]);
                } else {
                    assert forall|i: int| 0 <= i < old_line.push(piece).len() implies (
                    #[trigger] old_line.push(piece)[i]).wf(data) by {
                        if i < old_line.len() {
                            assert(old_line.push(piece)[i] == old_line[i]);
                        }
                    }
                }
            }
            assert(self@ =~= old(self)@.update(old(self)@.len() - 1, old(self)@.last() + word@));
        }
        self
    }

    /// The two buffers of a status line, each one empty line: the first
    /// for the mode, the second for messages.
    pub fn status_buffer() -> (r: (Buffer, Buffer))
        ensures
            r.0.wf(),
            r.1.wf(),
            r.0@ == seq![Seq::<char>::empty()],
            r.1@ == seq![Seq::<char>::empty()],
    {
        (Buffer::empty(), Buffer::empty())
    }

    /// A buffer that numbers `n_lines` lines from zero, every numeral
    /// right-aligned to the width of the numeral of `n_lines`. For no lines
    /// at all it holds one empty line.
    pub fn line_number(n_lines: usize) -> (r: Buffer)
        ensures
            r.wf(),
            r@ == numbering(n_lines as nat),
    {
        if n_lines == 0 {
            return Buffer::empty();
        }
        let width: usize = decimal_chars(n_lines).len();
        let data: Vec<char> = Vec::new();
        let mut piece_tables: Vec<Vec<Piece>> = Vec::new();
        let mut n: usize = 0;
        while n < n_lines
            invariant
                0 <= n <= n_lines,
                width == decimal(n_lines as nat).len(),
                piece_tables@.len() == n,
                lines_wf(piece_tables@, data@),
                forall|j: int|
                    0 <= j < n ==> pieces_text(#[trigger] piece_tables@[j]@, data@)
                        == right_aligned(decimal(j as nat), width as nat),
            decreases n_lines - n,
        {
            let digits: Vec<char> = decimal_chars(n);
            let mut label: String = String::new();
            let mut k: usize = digits.len();
            while k < width
                invariant
                    digits.len() <= k,
                    k <= width || k == digits.len(),
                    label@ == Seq::new((k - digits.len()) as nat, |i: int| ' '),
                decreases width - k,
            {
                push_char(&mut label, ' ');
                k += 1;
                assert(label@ =~= Seq::new((k - digits.len()) as nat, |i: int| ' '));
            }
            let numeral: String = string_of(&digits, 0, digits.len());
            assert(numeral@ =~= digits@);
            label.append(numeral.as_str());
            assert(label@ =~= right_aligned(decimal(n as nat), width as nat));
            let ghost old_tables = piece_tables@;
            let piece = Piece::Add(label);
            let mut line: Vec<Piece> = Vec::new();
            line.push(piece);
            proof {
                lemma_text_push(Seq::<Piece>::empty(), piece, data@);
                assert(line@ =~= Seq::<Piece>::empty().push(piece));
                assert(pieces_text(line@, data@) =~= label@);
            }
            piece_tables.push(line);
            proof {
                assert forall|j: int| 0 <= j < piece_tables@.len() implies {
                    &&& pieces_wf(#[trigger] piece_tables@[j]@, data@)
                    &&& pieces_text(piece_tables@[j]@, data@).len() <= usize::MAX
                    &&& pieces_text(piece_tables@[j]@, data@) == right_aligned(
                        decimal(j as nat),
                        width as nat,
                    )
                } by {
                    if j < old_tables.len() {
                        assert(piece_tables@[j] == old_tables[j]);
                    }
                }
            }
            n += 1;
        }
        let r = Buffer { data, piece_tables };
        assert(r@ =~= numbering(n_lines as nat));
        r
    }

    /// The whole text of the buffer: every line followed by one newline.
    pub fn text(&self) -> (r: String)
        requires
            self.wf(),
        ensures
            r@ == text_of(self@),
    {
        let mut result: String = String::new();
        let mut i: usize = 0;
        assert(self@.take(0) =~= Seq::<Seq<char>>::empty());
        while i < self.piece_tables.len()
            invariant
                0 <= i <= self.piece_tables@.len(),
                self.wf(),
                result@ == text_of(self@.take(i as int)),
            decreases self.piece_tables@.len() - i,
        {
            let line: String = line_string(&self.piece_tables[i], &self.data);
            result.append(line.as_str());
            push_char(&mut result, '\n');
            proof {
                assert(self@.take(i + 1).drop_last() =~= self@.take(i as int));
                assert(self@.take(i + 1).last() == line@);
                assert(result@ =~= text_of(self@.take(i as int)) + line@.push('\n'));
            }
            i += 1;
        }
        assert(self@.take(i as int) =~= self@);
        result
    }
}

} // verus!
