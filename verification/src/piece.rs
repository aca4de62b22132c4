//! Pieces: the stretches that a line of a buffer is made of.
//!
//! A piece is a span of the text that the buffer was loaded with, or text
//! that was inserted later. The text of a line is the text of its pieces,
//! one after the other. An edit of a line builds a new list of pieces from
//! the old one; besides the text that comes of it, the functions here say
//! which pieces stay as they are.

use crate::text::{push_char, string_of};
use vstd::prelude::*;
use vstd::string::{StrSliceExecFns, StringExecFns};

verus! {

/// A span of the text that a buffer was loaded with: where it starts and
/// how many characters it has.
#[derive(Debug, Clone, Copy, PartialEq, Eq, Structural)]
pub struct Original {
    pub start: usize,
    pub length: usize,
}

/// One stretch of a line's text.
#[derive(Debug, Clone)]
pub enum Piece {
    /// `Original(start, length)`: a span of the text the buffer was loaded with.
    Original(usize, usize),
    /// Text that was inserted after loading.
    Add(String),
}

impl Piece {
    /// Number of characters in the piece.
    pub open spec fn len(&self) -> nat {
        match self {
            Piece::Original(_, length) => *length as nat,
            Piece::Add(s) => s@.len(),
        }
    }

    /// An `Original` piece lies inside the loaded text `data`.
    pub open spec fn wf(&self, data: Seq<char>) -> bool {
        match self {
            Piece::Original(start, length) => *start + *length <= data.len(),
            Piece::Add(_) => true,
        }
    }

    /// The characters that the piece stands for, given the loaded text `data`.
    pub open spec fn text(&self, data: Seq<char>) -> Seq<char> {
        match self {
            Piece::Original(start, length) => data.subrange(*start as int, *start + *length),
            Piece::Add(s) => s@,
        }
    }

    /// The span of the loaded text that the piece stands for, if it is
    /// one.
    pub fn span(&self) -> (r: Option<Original>)
        ensures
            r == (match self {
                Piece::Original(start, length) => Some(Original { start: *start, length: *length }),
                Piece::Add(_) => None::<Original>,
            }),
    {
        match self {
            Piece::Original(start, length) => Some(Original { start: *start, length: *length }),
            Piece::Add(_) => None,
        }
    }

    /// Tells whether the piece is a span of the loaded text.
    pub fn is_original(&self) -> (r: bool)
        ensures
            r == (self is Original),
    {
        match self {
            Piece::Original(_, _) => true,
            _ => false,
        }
    }

    /// Tells whether the piece is inserted text.
    pub fn is_add(&self) -> (r: bool)
        ensures
            r == (self is Add),
    {
        match self {
            Piece::Add(_) => true,
            _ => false,
        }
    }

    /// Number of characters in the piece.
    pub fn length(&self) -> (r: usize)
        ensures
            r == self.len(),
    {
        match self {
            Piece::Original(_, length) => *length,
            Piece::Add(s) => s.as_str().unicode_len(),
        }
    }

    /// A second piece that stands for the same characters.
    pub fn duplicate(&self) -> (r: Piece)
        ensures
            r == *self,
    {
        match self {
            Piece::Original(start, length) => Piece::Original(*start, *length),
            Piece::Add(s) => Piece::Add(s.clone()),
        }
    }

    /// Cuts the piece in two after its first `pos` characters.
    pub fn split(self, pos: usize) -> (r: (Piece, Piece))
        requires
            pos <= self.len(),
            self matches Piece::Original(start, length) ==> start + length <= usize::MAX,
        ensures
            r.0.len() == pos,
            r.1.len() == self.len() - pos,
            forall|data: Seq<char>| #[trigger]
                self.wf(data) ==> {
                    &&& r.0.wf(data)
                    &&& r.1.wf(data)
                    &&& r.0.text(data) == self.text(data).take(pos as int)
                    &&& r.1.text(data) == self.text(data).skip(pos as int)
                },
            match self {
                Piece::Original(start, length) => {
                    &&& r.0 == Piece::Original(start, pos)
                    &&& r.1 == Piece::Original((start + pos) as usize, (length - pos) as usize)
                },
                Piece::Add(s) => {
                    &&& r.0 matches Piece::Add(left) && left@ == s@.take(pos as int)
                    &&& r.1 matches Piece::Add(right) && right@ == s@.skip(pos as int)
                },
            },
    {
        match self {
            Piece::Original(start, length) => {
                let r = (Piece::Original(start, pos), Piece::Original(start + pos, length - pos));
                assert forall|data: Seq<char>| #[trigger] self.wf(data) implies {
                    &&& r.0.text(data) == self.text(data).take(pos as int)
                    &&& r.1.text(data) == self.text(data).skip(pos as int)
                } by {
                    assert(r.0.text(data) =~= self.text(data).take(pos as int));
                    assert(r.1.text(data) =~= self.text(data).skip(pos as int));
                }
                r
            },
            Piece::Add(s) => {
                let n: usize = s.as_str().unicode_len();
                let left: String = String::from_str(s.as_str().substring_char(0, pos));
                let right: String = String::from_str(s.as_str().substring_char(pos, n));
                (Piece::Add(left), Piece::Add(right))
            },
        }
    }

    /// The piece without its last character, or `None` when that was its
    /// only one.
    pub fn pop(self) -> (r: Option<Piece>)
        requires
            self.len() >= 1,
        ensures
            r is None <==> self.len() == 1,
            r matches Some(p) ==> {
                &&& p.len() == self.len() - 1
                &&& forall|data: Seq<char>| #[trigger]
                    self.wf(data) ==> p.wf(data) && p.text(data) == self.text(data).drop_last()
                &&& match self {
                    Piece::Original(start, length) => p == Piece::Original(
                        start,
                        (length - 1) as usize,
                    ),
                    Piece::Add(s) => p matches Piece::Add(rest) && rest@ == s@.drop_last(),
                }
            },
    {
        match self {
            Piece::Original(start, length) => {
                if length == 1 {
                    None
                } else {
                    let p = Piece::Original(start, length - 1);
                    assert forall|data: Seq<char>| #[trigger] self.wf(data) implies p.text(data)
                        == self.text(data).drop_last() by {
                        assert(p.text(data) =~= self.text(data).drop_last());
                    }
                    Some(p)
                }
            },
            Piece::Add(s) => {
                let n: usize = s.as_str().unicode_len();
                if n == 1 {
                    None
                } else {
                    let rest: String = String::from_str(s.as_str().substring_char(0, n - 1));
                    Some(Piece::Add(rest))
                }
            },
        }
    }
}

/// A piece as plain values: a span of the loaded text by its start and
/// length, or inserted text by its characters.
pub enum PieceView {
    Original(usize, usize),
    Add(Seq<char>),
}

impl PieceView {
    /// Number of characters in the piece.
    pub open spec fn len(self) -> nat {
        match self {
            PieceView::Original(_, length) => length as nat,
            PieceView::Add(text) => text.len(),
        }
    }
}

impl View for Piece {
    type V = PieceView;

    open spec fn view(&self) -> PieceView {
        match self {
            Piece::Original(start, length) => PieceView::Original(*start, *length),
            Piece::Add(s) => PieceView::Add(s@),
        }
    }
}

/// The pieces of a line as plain values.
pub open spec fn pieces_view(pieces: Seq<Piece>) -> Seq<PieceView> {
    Seq::new(pieces.len(), |i: int| pieces[i]@)
}

/// Number of characters in a list of pieces.
pub open spec fn width(pieces: Seq<PieceView>) -> nat
    decreases pieces.len(),
{
    if pieces.len() == 0 {
        0
    } else {
        width(pieces.drop_last()) + pieces.last().len()
    }
}

/// The piece that holds column `x`: the number of the first piece that
/// the column lies in; the number of pieces where the column lies behind all
/// of them.
pub open spec fn holder(pieces: Seq<PieceView>, x: int) -> int
    decreases pieces.len(),
{
    if pieces.len() == 0 {
        0
    } else if x < pieces[0].len() {
        0
    } else {
        1 + holder(pieces.drop_first(), x - pieces[0].len())
    }
}

/// What is left of a piece without its character number `k`: the part
/// before the character and the part behind it, each only if it is not
/// empty. Inserted text stays one piece.
pub open spec fn without(piece: PieceView, k: int) -> Seq<PieceView> {
    match piece {
        PieceView::Original(start, length) => (if k > 0 {
            seq![PieceView::Original(start, k as usize)]
        } else {
            Seq::<PieceView>::empty()
        }) + (if length - k - 1 > 0 {
            seq![PieceView::Original((start + k + 1) as usize, (length - k - 1) as usize)]
        } else {
            Seq::<PieceView>::empty()
        }),
        PieceView::Add(text) => if text.len() > 1 {
            seq![PieceView::Add(text.remove(k))]
        } else {
            Seq::<PieceView>::empty()
        },
    }
}

/// The pieces of a line without the character in column `x`: the piece
/// that holds the column is replaced by what is left of it, every other piece
/// is untouched. A column behind the line changes nothing.
pub open spec fn erased(pieces: Seq<PieceView>, x: int) -> Seq<PieceView> {
    let k = holder(pieces, x);
    if k >= pieces.len() {
        pieces
    } else {
        pieces.take(k) + without(pieces[k], x - width(pieces.take(k))) + pieces.skip(k + 1)
    }
}

/// The piece at which a character that is inserted before column `x`
/// goes in: the number of the first piece that is a span of the loaded text
/// and starts at the column, or that the column lies in; the number of pieces
/// where there is none, so that the character goes behind the last.
pub open spec fn site(pieces: Seq<PieceView>, x: int) -> int
    decreases pieces.len(),
{
    if pieces.len() == 0 {
        0
    } else if (x == 0 && pieces[0] is Original) || x < pieces[0].len() {
        0
    } else {
        1 + site(pieces.drop_first(), x - pieces[0].len())
    }
}

/// The pieces that come of a piece when `c` is inserted before its
/// character number `k`. A span of the loaded text is cut in two, with the
/// character between the two parts, of which an empty one is left out;
/// inserted text takes the character in.
pub open spec fn with_char(piece: PieceView, k: int, c: char) -> Seq<PieceView> {
    match piece {
        PieceView::Original(start, length) => (if k > 0 {
            seq![PieceView::Original(start, k as usize)]
        } else {
            Seq::<PieceView>::empty()
        }) + seq![PieceView::Add(seq![c])] + (if length - k > 0 {
            seq![PieceView::Original((start + k) as usize, (length - k) as usize)]
        } else {
            Seq::<PieceView>::empty()
        }),
        PieceView::Add(text) => seq![PieceView::Add(text.insert(k, c))],
    }
}

/// The pieces of a line with `c` inserted before column `x`, a column
/// that is not behind the end of the line.
///
/// Where the column lies inside a piece, or at the start of a piece of
/// inserted text, that piece takes the character (see `with_char`).
/// Otherwise the column is where a span of the loaded text starts, or the
/// end of the line: the character is added to the piece before that place
/// if that holds inserted text, and becomes a piece of its own if not.
/// Every other piece is untouched.
pub open spec fn inserted(pieces: Seq<PieceView>, x: int, c: char) -> Seq<PieceView> {
    let k = site(pieces, x);
    let at = x - width(pieces.take(k));
    if k < pieces.len() && !(at == 0 && pieces[k] is Original) {
        pieces.take(k) + with_char(pieces[k], at, c) + pieces.skip(k + 1)
    } else if k > 0 && pieces[k - 1] is Add {
        pieces.take(k - 1) + seq![PieceView::Add(pieces[k - 1]->Add_0.push(c))] + pieces.skip(k)
    } else {
        pieces.take(k) + seq![PieceView::Add(seq![c])] + pieces.skip(k)
    }
}

/// The site of an insertion among the pieces from number `i` on is piece
/// `i` itself where the character goes in there, and is found among the
/// pieces behind it otherwise.
pub proof fn lemma_site_skip(pieces: Seq<PieceView>, i: int, y: int)
    requires
        0 <= i < pieces.len(),
    ensures
        site(pieces.skip(i), y) == (if (y == 0 && pieces[i] is Original) || y < pieces[i].len() {
            0
        } else {
            1 + site(pieces.skip(i + 1), y - pieces[i].len())
        }),
{
    assert(pieces.skip(i)[0] == pieces[i]);
    assert(pieces.skip(i).drop_first() =~= pieces.skip(i + 1));
}

/// Number of pieces at the front of a line that end at or before column
/// `x`.
pub open spec fn before_column(pieces: Seq<PieceView>, x: int) -> int
    decreases pieces.len(),
{
    if pieces.len() == 0 {
        0
    } else if pieces[0].len() <= x {
        1 + before_column(pieces.drop_first(), x - pieces[0].len())
    } else {
        0
    }
}

/// The first `k` characters of a piece as a piece.
pub open spec fn first_part(piece: PieceView, k: int) -> PieceView {
    match piece {
        PieceView::Original(start, _) => PieceView::Original(start, k as usize),
        PieceView::Add(text) => PieceView::Add(text.take(k)),
    }
}

/// A piece without its first `k` characters as a piece.
pub open spec fn second_part(piece: PieceView, k: int) -> PieceView {
    match piece {
        PieceView::Original(start, length) => PieceView::Original(
            (start + k) as usize,
            (length - k) as usize,
        ),
        PieceView::Add(text) => PieceView::Add(text.skip(k)),
    }
}

/// The pieces of a line that stand before column `x`: the pieces that
/// end at or before the column, untouched, and the first part of the piece
/// that lies across it, if one does.
pub open spec fn left_of(pieces: Seq<PieceView>, x: int) -> Seq<PieceView> {
    let k = before_column(pieces, x);
    let at = x - width(pieces.take(k));
    if k < pieces.len() && at > 0 {
        pieces.take(k).push(first_part(pieces[k], at))
    } else {
        pieces.take(k)
    }
}

/// The pieces of a line that stand from column `x` on: the second part
/// of the piece that lies across the column, if one does, and the pieces
/// behind it, untouched.
pub open spec fn right_of(pieces: Seq<PieceView>, x: int) -> Seq<PieceView> {
    let k = before_column(pieces, x);
    let at = x - width(pieces.take(k));
    if k < pieces.len() && at > 0 {
        seq![second_part(pieces[k], at)] + pieces.skip(k + 1)
    } else {
        pieces.skip(k)
    }
}

/// The pieces before a column among the pieces from number `i` on are
/// counted from piece `i`.
pub proof fn lemma_before_column_skip(pieces: Seq<PieceView>, i: int, y: int)
    requires
        0 <= i < pieces.len(),
    ensures
        before_column(pieces.skip(i), y) == (if pieces[i].len() <= y {
            1 + before_column(pieces.skip(i + 1), y - pieces[i].len())
        } else {
            0
        }),
{
    assert(pieces.skip(i)[0] == pieces[i]);
    assert(pieces.skip(i).drop_first() =~= pieces.skip(i + 1));
}

/// The holder of a column among the pieces from number `i` on is piece
/// `i` itself where the column lies in it, and is found among the pieces
/// behind it otherwise.
pub proof fn lemma_holder_skip(pieces: Seq<PieceView>, i: int, y: int)
    requires
        0 <= i < pieces.len(),
    ensures
        holder(pieces.skip(i), y) == (if y < pieces[i].len() {
            0
        } else {
            1 + holder(pieces.skip(i + 1), y - pieces[i].len())
        }),
{
    assert(pieces.skip(i)[0] == pieces[i]);
    assert(pieces.skip(i).drop_first() =~= pieces.skip(i + 1));
}

/// The first `i + 1` pieces are as wide as the first `i` and piece `i`.
pub proof fn lemma_width_take(pieces: Seq<PieceView>, i: int)
    requires
        0 <= i < pieces.len(),
    ensures
        width(pieces.take(i + 1)) == width(pieces.take(i)) + pieces[i].len(),
{
    assert(pieces.take(i + 1).drop_last() =~= pieces.take(i));
}

/// Taking and adding pieces commutes with looking at them as plain
/// values.
pub proof fn lemma_pieces_view(pieces: Seq<Piece>, i: int)
    requires
        0 <= i <= pieces.len(),
    ensures
        pieces_view(pieces.take(i)) == pieces_view(pieces).take(i),
        pieces_view(pieces.skip(i)) == pieces_view(pieces).skip(i),
        forall|p: Piece| #[trigger] pieces_view(pieces.push(p)) == pieces_view(pieces).push(p@),
{
    assert(pieces_view(pieces.take(i)) =~= pieces_view(pieces).take(i));
    assert(pieces_view(pieces.skip(i)) =~= pieces_view(pieces).skip(i));
    assert forall|p: Piece| #[trigger] pieces_view(pieces.push(p)) == pieces_view(pieces).push(
        p@,
    ) by {
        assert(pieces_view(pieces.push(p)) =~= pieces_view(pieces).push(p@));
    }
}

/// The text of a line: the texts of its pieces, one after the other.
pub open spec fn pieces_text(pieces: Seq<Piece>, data: Seq<char>) -> Seq<char>
    decreases pieces.len(),
{
    if pieces.len() == 0 {
        Seq::empty()
    } else {
        pieces_text(pieces.drop_last(), data) + pieces.last().text(data)
    }
}

/// Every piece of the line lies inside the loaded text.
pub open spec fn pieces_wf(pieces: Seq<Piece>, data: Seq<char>) -> bool {
    forall|i: int| 0 <= i < pieces.len() ==> (#[trigger] pieces[i]).wf(data)
}

/// The text of a line with one more piece is its text and the text of that
/// piece.
pub proof fn lemma_text_push(pieces: Seq<Piece>, p: Piece, data: Seq<char>)
    ensures
        pieces_text(pieces.push(p), data) == pieces_text(pieces, data) + p.text(data),
{
    assert(pieces.push(p).drop_last() =~= pieces);
}

/// The text of two lists of pieces, one after the other, is the text of the
/// first and that of the second.
pub proof fn lemma_text_concat(a: Seq<Piece>, b: Seq<Piece>, data: Seq<char>)
    ensures
        pieces_text(a + b, data) == pieces_text(a, data) + pieces_text(b, data),
    decreases b.len(),
{
    if b.len() == 0 {
        assert(a + b =~= a);
        assert(pieces_text(a, data) + pieces_text(b, data) =~= pieces_text(a, data));
    } else {
        lemma_text_concat(a, b.drop_last(), data);
        assert((a + b).drop_last() =~= a + b.drop_last());
        assert((a + b).last() == b.last());
        assert(pieces_text(a, data) + (pieces_text(b.drop_last(), data) + b.last().text(data))
            =~= (pieces_text(a, data) + pieces_text(b.drop_last(), data)) + b.last().text(data));
    }
}

/// The text of the first `i + 1` pieces is the text of the first `i` and
/// that of piece `i`; and no prefix is longer than the whole.
pub proof fn lemma_text_prefix(pieces: Seq<Piece>, data: Seq<char>, i: int)
    requires
        0 <= i <= pieces.len(),
    ensures
        pieces_text(pieces.take(i), data).len() <= pieces_text(pieces, data).len(),
        i < pieces.len() ==> pieces_text(pieces.take(i + 1), data) == pieces_text(
            pieces.take(i),
            data,
        ) + pieces[i].text(data),
{
    lemma_text_concat(pieces.take(i), pieces.skip(i), data);
    assert(pieces.take(i) + pieces.skip(i) =~= pieces);
    if i < pieces.len() {
        assert(pieces.take(i + 1) =~= pieces.take(i).push(pieces[i]));
        lemma_text_push(pieces.take(i), pieces[i], data);
    }
}

/// Under `wf`, a piece's text has the piece's length.
pub proof fn lemma_piece_len(p: Piece, data: Seq<char>)
    requires
        p.wf(data),
    ensures
        p.text(data).len() == p.len(),
{
}

impl PieceView {
    /// The characters that the piece stands for, given the loaded text
    /// `data`.
    pub open spec fn text(self, data: Seq<char>) -> Seq<char> {
        match self {
            PieceView::Original(start, length) => data.subrange(start as int, start + length),
            PieceView::Add(text) => text,
        }
    }
}

/// The text of pieces given as plain values: their texts, one after the
/// other.
pub open spec fn views_text(pieces: Seq<PieceView>, data: Seq<char>) -> Seq<char>
    decreases pieces.len(),
{
    if pieces.len() == 0 {
        Seq::empty()
    } else {
        views_text(pieces.drop_last(), data) + pieces.last().text(data)
    }
}

/// The text of pieces is the text of their plain values.
pub proof fn lemma_views_text(pieces: Seq<Piece>, data: Seq<char>)
    ensures
        pieces_text(pieces, data) == views_text(pieces_view(pieces), data),
    decreases pieces.len(),
{
    if pieces.len() > 0 {
        lemma_views_text(pieces.drop_last(), data);
        assert(pieces_view(pieces).drop_last() =~= pieces_view(pieces.drop_last()));
    }
}

/// Every piece lies inside the loaded text.
pub open spec fn views_wf(pieces: Seq<PieceView>, data: Seq<char>) -> bool {
    forall|i: int|
        0 <= i < pieces.len() ==> ((#[trigger] pieces[i]) matches PieceView::Original(
            start,
            length,
        ) ==> start + length <= data.len())
}

/// The text of two lists of pieces, one after the other, is the text of
/// the first and that of the second, and they are as wide as the two
/// together.
pub proof fn lemma_views_concat(a: Seq<PieceView>, b: Seq<PieceView>, data: Seq<char>)
    ensures
        views_text(a + b, data) == views_text(a, data) + views_text(b, data),
        width(a + b) == width(a) + width(b),
    decreases b.len(),
{
    if b.len() == 0 {
        assert(a + b =~= a);
        assert(views_text(a, data) + views_text(b, data) =~= views_text(a, data));
    } else {
        lemma_views_concat(a, b.drop_last(), data);
        assert((a + b).drop_last() =~= a + b.drop_last());
        assert((a + b).last() == b.last());
        assert(views_text(a, data) + (views_text(b.drop_last(), data) + b.last().text(data))
            =~= (views_text(a, data) + views_text(b.drop_last(), data)) + b.last().text(data));
    }
}

/// The text of pieces that lie inside the loaded text is as long as the
/// pieces are wide.
pub proof fn lemma_views_text_len(pieces: Seq<PieceView>, data: Seq<char>)
    requires
        views_wf(pieces, data),
    ensures
        views_text(pieces, data).len() == width(pieces),
    decreases pieces.len(),
{
    if pieces.len() > 0 {
        let front = pieces.drop_last();
        assert forall|i: int| 0 <= i < front.len() implies ((#[trigger] front[i]) matches PieceView::Original(
            start,
            length,
        ) ==> start + length <= data.len()) by {
            assert(front[i] == pieces[i]);
        }
        lemma_views_text_len(front, data);
        assert(pieces[pieces.len() - 1] == pieces.last());
    }
}

/// The text and the width of one piece and of a list of one piece.
pub proof fn lemma_views_single(piece: PieceView, data: Seq<char>)
    ensures
        views_text(seq![piece], data) == piece.text(data),
        width(seq![piece]) == piece.len(),
        views_text(Seq::<PieceView>::empty(), data) == Seq::<char>::empty(),
        width(Seq::<PieceView>::empty()) == 0,
{
    let one = seq![piece];
    assert(one.len() == 1);
    assert(one.last() == piece);
    assert(one.drop_last() =~= Seq::<PieceView>::empty());
    assert(views_text(one.drop_last(), data) =~= Seq::<char>::empty());
    assert(width(one.drop_last()) == 0);
    assert(views_text(one, data) =~= piece.text(data));
}

/// A list of pieces splits, at any number `k`, into its first `k` pieces
/// and the rest, and so do its text and its width.
pub proof fn lemma_views_split(pieces: Seq<PieceView>, k: int, data: Seq<char>)
    requires
        0 <= k <= pieces.len(),
        views_wf(pieces, data),
    ensures
        views_text(pieces, data) == views_text(pieces.take(k), data) + views_text(
            pieces.skip(k),
            data,
        ),
        width(pieces) == width(pieces.take(k)) + width(pieces.skip(k)),
        views_wf(pieces.take(k), data),
        views_wf(pieces.skip(k), data),
        views_text(pieces.take(k), data).len() == width(pieces.take(k)),
        views_text(pieces.skip(k), data).len() == width(pieces.skip(k)),
{
    assert(pieces.take(k) + pieces.skip(k) =~= pieces);
    lemma_views_concat(pieces.take(k), pieces.skip(k), data);
    assert forall|i: int| 0 <= i < pieces.take(k).len() implies ((#[trigger] pieces.take(
        k,
    )[i]) matches PieceView::Original(start, length) ==> start + length <= data.len()) by {
        assert(pieces.take(k)[i] == pieces[i]);
    }
    assert forall|i: int| 0 <= i < pieces.skip(k).len() implies ((#[trigger] pieces.skip(
        k,
    )[i]) matches PieceView::Original(start, length) ==> start + length <= data.len()) by {
        assert(pieces.skip(k)[i] == pieces[k + i]);
    }
    lemma_views_text_len(pieces.take(k), data);
    lemma_views_text_len(pieces.skip(k), data);
}

/// Where an insertion takes place: the site is a piece of the line or
/// its end, the column does not lie before it, and lies in the piece at the
/// site or at its very start.
pub proof fn lemma_site(pieces: Seq<PieceView>, x: int)
    requires
        0 <= x,
    ensures
        ({
            let k = site(pieces, x);
            let at = x - width(pieces.take(k));
            &&& 0 <= k <= pieces.len()
            &&& 0 <= at
            &&& k < pieces.len() ==> (at == 0 && pieces[k] is Original) || at < pieces[k].len()
            &&& k > 0 && at == 0 && pieces[k - 1] is Add ==> true
        }),
    decreases pieces.len(),
{
    if pieces.len() == 0 {
        assert(pieces.take(0) =~= Seq::<PieceView>::empty());
    } else if (x == 0 && pieces[0] is Original) || x < pieces[0].len() {
        assert(pieces.take(0) =~= Seq::<PieceView>::empty());
    } else {
        let rest = pieces.drop_first();
        let y = x - pieces[0].len();
        lemma_site(rest, y);
        let k = site(rest, y);
        assert(pieces.take(k + 1) =~= seq![pieces[0]] + rest.take(k));
        lemma_views_concat(seq![pieces[0]], rest.take(k), Seq::<char>::empty());
        lemma_views_single(pieces[0], Seq::<char>::empty());
        if k < rest.len() {
            assert(rest[k] == pieces[k + 1]);
        }
    }
}

/// The pieces that come of a piece when a character is inserted in it
/// hold the text of the piece with the character in its place.
pub proof fn lemma_with_char(piece: PieceView, at: int, c: char, data: Seq<char>)
    requires
        0 <= at <= piece.len(),
        views_wf(seq![piece], data),
        data.len() <= usize::MAX,
    ensures
        views_text(with_char(piece, at, c), data) == piece.text(data).insert(at, c),
        width(with_char(piece, at, c)) == piece.len() + 1,
        views_wf(with_char(piece, at, c), data),
{
    let fresh = PieceView::Add(seq![c]);
    let grown = with_char(piece, at, c);
    assert(seq![piece][0] == piece);
    lemma_views_single(fresh, data);
    match piece {
        PieceView::Original(start, length) => {
            assert(start + length <= data.len());
            let left = PieceView::Original(start, at as usize);
            let right = PieceView::Original((start + at) as usize, (length - at) as usize);
            let a = if at > 0 {
                seq![left]
            } else {
                Seq::<PieceView>::empty()
            };
            let b = if length - at > 0 {
                seq![right]
            } else {
                Seq::<PieceView>::empty()
            };
            lemma_views_single(left, data);
            lemma_views_single(right, data);
            lemma_views_concat(a, seq![fresh], data);
            lemma_views_concat(a + seq![fresh], b, data);
            assert(grown == a + seq![fresh] + b);
            assert(views_text(a, data) =~= left.text(data));
            assert(views_text(b, data) =~= right.text(data));
            assert(left.text(data) + seq![c] + right.text(data) =~= piece.text(data).insert(
                at,
                c,
            ));
            assert forall|i: int| 0 <= i < grown.len() implies ((#[trigger] grown[i]) matches PieceView::Original(
                s,
                l,
            ) ==> s + l <= data.len()) by {
                if at > 0 && i == 0 {
                    assert(grown[i] == left);
                } else if i == a.len() {
                    assert(grown[i] == fresh);
                } else {
                    assert(grown[i] == right);
                }
            }
        },
        PieceView::Add(text) => {
            lemma_views_single(PieceView::Add(text.insert(at, c)), data);
        },
    }
}

/// Inserting a character at the level of pieces is inserting it in the
/// text: the text of the pieces that come of it is the text of the line
/// with the character in its place, and they lie inside the loaded text as
/// the old ones did.
pub proof fn lemma_inserted_text(pieces: Seq<PieceView>, x: int, c: char, data: Seq<char>)
    requires
        views_wf(pieces, data),
        data.len() <= usize::MAX,
        0 <= x <= width(pieces),
    ensures
        views_text(inserted(pieces, x, c), data) == views_text(pieces, data).insert(x, c),
        views_wf(inserted(pieces, x, c), data),
{
    let k = site(pieces, x);
    let at = x - width(pieces.take(k));
    lemma_site(pieces, x);
    lemma_views_split(pieces, k, data);
    if k < pieces.len() && !(at == 0 && pieces[k] is Original) {
        lemma_inserted_inside(pieces, k, at, c, data);
    } else if k > 0 && pieces[k - 1] is Add {
        assert(at == 0) by {
            if k < pieces.len() {
            } else {
                assert(pieces.take(k) =~= pieces);
            }
        }
        lemma_inserted_behind(pieces, k, c, data);
    } else {
        assert(at == 0) by {
            if k < pieces.len() {
            } else {
                assert(pieces.take(k) =~= pieces);
            }
        }
        lemma_inserted_between(pieces, k, c, data);
    }
}

/// The text of a line of which piece `k` took a character in.
pub proof fn lemma_inserted_inside(
    pieces: Seq<PieceView>,
    k: int,
    at: int,
    c: char,
    data: Seq<char>,
)
    requires
        views_wf(pieces, data),
        data.len() <= usize::MAX,
        0 <= k < pieces.len(),
        0 <= at <= pieces[k].len(),
    ensures
        ({
            let new = pieces.take(k) + with_char(pieces[k], at, c) + pieces.skip(k + 1);
            &&& views_text(new, data) == views_text(pieces, data).insert(
                width(pieces.take(k)) + at,
                c,
            )
            &&& views_wf(new, data)
        }),
{
    let p = pieces[k];
    let rest = pieces.skip(k + 1);
    let grown = with_char(p, at, c);
    let new = pieces.take(k) + grown + rest;
    lemma_views_split(pieces, k, data);
    lemma_views_split(pieces.skip(k), 1, data);
    assert(pieces.skip(k).take(1) =~= seq![p]);
    assert(pieces.skip(k).skip(1) =~= rest);
    lemma_views_single(p, data);
    lemma_with_char(p, at, c, data);
    lemma_views_concat(pieces.take(k), grown, data);
    lemma_views_concat(pieces.take(k) + grown, rest, data);
    let head = views_text(pieces.take(k), data);
    let r = views_text(rest, data);
    assert(head + p.text(data).insert(at, c) + r =~= (head + (p.text(data) + r)).insert(
        head.len() + at,
        c,
    ));
    assert forall|i: int| 0 <= i < new.len() implies ((#[trigger] new[i]) matches PieceView::Original(
        start,
        length,
    ) ==> start + length <= data.len()) by {
        if i < k {
            assert(new[i] == pieces[i]);
        } else if i >= k + grown.len() {
            assert(new[i] == rest[i - k - grown.len()]);
        } else {
            assert(new[i] == grown[i - k]);
        }
    }
}

/// The text of a line of which piece `k - 1`, inserted text, took a
/// character at its end.
pub proof fn lemma_inserted_behind(pieces: Seq<PieceView>, k: int, c: char, data: Seq<char>)
    requires
        views_wf(pieces, data),
        0 < k <= pieces.len(),
        pieces[k - 1] is Add,
    ensures
        ({
            let new = pieces.take(k - 1) + seq![PieceView::Add(pieces[k - 1]->Add_0.push(c))]
                + pieces.skip(k);
            &&& views_text(new, data) == views_text(pieces, data).insert(
                width(pieces.take(k)) as int,
                c,
            )
            &&& views_wf(new, data)
        }),
{
    let t = pieces[k - 1]->Add_0;
    let longer = PieceView::Add(t.push(c));
    let new = pieces.take(k - 1) + seq![longer] + pieces.skip(k);
    lemma_views_split(pieces, k, data);
    lemma_views_split(pieces.take(k), k - 1, data);
    assert(pieces.take(k).take(k - 1) =~= pieces.take(k - 1));
    assert(pieces.take(k).skip(k - 1) =~= seq![pieces[k - 1]]);
    lemma_views_single(pieces[k - 1], data);
    lemma_views_single(longer, data);
    lemma_views_concat(pieces.take(k - 1), seq![longer], data);
    lemma_views_concat(pieces.take(k - 1) + seq![longer], pieces.skip(k), data);
    let before = views_text(pieces.take(k - 1), data);
    let tail = views_text(pieces.skip(k), data);
    assert(before + t.push(c) + tail =~= ((before + t) + tail).insert(
        (before + t).len() as int,
        c,
    ));
    assert forall|i: int| 0 <= i < new.len() implies ((#[trigger] new[i]) matches PieceView::Original(
        start,
        length,
    ) ==> start + length <= data.len()) by {
        if i < k - 1 {
            assert(new[i] == pieces[i]);
        } else if i >= k {
            assert(new[i] == pieces[i]);
        }
    }
}

/// The text of a line that got a character as a piece of its own before
/// piece `k`.
pub proof fn lemma_inserted_between(pieces: Seq<PieceView>, k: int, c: char, data: Seq<char>)
    requires
        views_wf(pieces, data),
        0 <= k <= pieces.len(),
    ensures
        ({
            let new = pieces.take(k) + seq![PieceView::Add(seq![c])] + pieces.skip(k);
            &&& views_text(new, data) == views_text(pieces, data).insert(
                width(pieces.take(k)) as int,
                c,
            )
            &&& views_wf(new, data)
        }),
{
    let fresh = PieceView::Add(seq![c]);
    let new = pieces.take(k) + seq![fresh] + pieces.skip(k);
    lemma_views_split(pieces, k, data);
    lemma_views_single(fresh, data);
    lemma_views_concat(pieces.take(k), seq![fresh], data);
    lemma_views_concat(pieces.take(k) + seq![fresh], pieces.skip(k), data);
    let head = views_text(pieces.take(k), data);
    let tail = views_text(pieces.skip(k), data);
    assert(head + seq![c] + tail =~= (head + tail).insert(head.len() as int, c));
    assert forall|i: int| 0 <= i < new.len() implies ((#[trigger] new[i]) matches PieceView::Original(
        start,
        length,
    ) ==> start + length <= data.len()) by {
        if i < k {
            assert(new[i] == pieces[i]);
        } else if i > k {
            assert(new[i] == pieces[i - 1]);
        }
    }
}

/// Where an erasure takes place: the holder of a column is a piece of
/// the line that the column lies in, or the column lies behind the line.
pub proof fn lemma_holder(pieces: Seq<PieceView>, x: int)
    requires
        0 <= x,
    ensures
        ({
            let k = holder(pieces, x);
            let at = x - width(pieces.take(k));
            &&& 0 <= k <= pieces.len()
            &&& 0 <= at
            &&& k < pieces.len() ==> at < pieces[k].len()
            &&& k == pieces.len() ==> x >= width(pieces)
        }),
    decreases pieces.len(),
{
    if pieces.len() == 0 {
        assert(pieces.take(0) =~= pieces);
    } else if x < pieces[0].len() {
        assert(pieces.take(0) =~= Seq::<PieceView>::empty());
    } else {
        let rest = pieces.drop_first();
        let y = x - pieces[0].len();
        lemma_holder(rest, y);
        let k = holder(rest, y);
        assert(pieces.take(k + 1) =~= seq![pieces[0]] + rest.take(k));
        lemma_views_concat(seq![pieces[0]], rest.take(k), Seq::<char>::empty());
        lemma_views_single(pieces[0], Seq::<char>::empty());
        if k < rest.len() {
            assert(rest[k] == pieces[k + 1]);
        } else {
            assert(rest.take(k) =~= rest);
            assert(pieces.take(k + 1) =~= pieces);
        }
    }
}

/// What is left of a piece without one of its characters holds the text
/// of the piece without that character.
pub proof fn lemma_without(piece: PieceView, at: int, data: Seq<char>)
    requires
        0 <= at < piece.len(),
        views_wf(seq![piece], data),
        data.len() <= usize::MAX,
    ensures
        views_text(without(piece, at), data) == piece.text(data).remove(at),
        views_wf(without(piece, at), data),
        forall|i: int| 0 <= i < without(piece, at).len() ==> (#[trigger] without(piece, at)[i]).len()
            >= 1,
{
    let left_over = without(piece, at);
    assert(seq![piece][0] == piece);
    match piece {
        PieceView::Original(start, length) => {
            assert(start + length <= data.len());
            let left = PieceView::Original(start, at as usize);
            let right = PieceView::Original(
                (start + at + 1) as usize,
                (length - at - 1) as usize,
            );
            let a = if at > 0 {
                seq![left]
            } else {
                Seq::<PieceView>::empty()
            };
            let b = if length - at - 1 > 0 {
                seq![right]
            } else {
                Seq::<PieceView>::empty()
            };
            lemma_views_single(left, data);
            lemma_views_single(right, data);
            lemma_views_concat(a, b, data);
            assert(left_over == a + b);
            assert(views_text(a, data) =~= left.text(data));
            assert(views_text(b, data) =~= right.text(data));
            assert(left.text(data) + right.text(data) =~= piece.text(data).remove(at));
            assert forall|i: int| 0 <= i < left_over.len() implies ((#[trigger] left_over[i]) matches PieceView::Original(
                s,
                l,
            ) ==> s + l <= data.len()) && left_over[i].len() >= 1 by {
                if at > 0 && i == 0 {
                    assert(left_over[i] == left);
                } else {
                    assert(left_over[i] == right);
                }
            }
        },
        PieceView::Add(text) => {
            if text.len() > 1 {
                lemma_views_single(PieceView::Add(text.remove(at)), data);
            } else {
                lemma_views_single(piece, data);
                assert(text.remove(at) =~= Seq::<char>::empty());
            }
        },
    }
}

/// Erasing a character at the level of pieces is erasing it in the text:
/// the text of the pieces that are left is the text of the line without the
/// character, and they lie inside the loaded text as the old ones did.
pub proof fn lemma_erased_text(pieces: Seq<PieceView>, x: int, data: Seq<char>)
    requires
        views_wf(pieces, data),
        data.len() <= usize::MAX,
        0 <= x < width(pieces),
    ensures
        views_text(erased(pieces, x), data) == views_text(pieces, data).remove(x),
        views_wf(erased(pieces, x), data),
{
    let k = holder(pieces, x);
    let at = x - width(pieces.take(k));
    lemma_holder(pieces, x);
    let p = pieces[k];
    let rest = pieces.skip(k + 1);
    let left_over = without(p, at);
    let new = pieces.take(k) + left_over + rest;
    lemma_views_split(pieces, k, data);
    lemma_views_split(pieces.skip(k), 1, data);
    assert(pieces.skip(k).take(1) =~= seq![p]);
    assert(pieces.skip(k).skip(1) =~= rest);
    lemma_views_single(p, data);
    lemma_without(p, at, data);
    lemma_views_concat(pieces.take(k), left_over, data);
    lemma_views_concat(pieces.take(k) + left_over, rest, data);
    let head = views_text(pieces.take(k), data);
    let r = views_text(rest, data);
    assert(head + p.text(data).remove(at) + r =~= (head + (p.text(data) + r)).remove(
        head.len() + at,
    ));
    assert forall|i: int| 0 <= i < new.len() implies ((#[trigger] new[i]) matches PieceView::Original(
        start,
        length,
    ) ==> start + length <= data.len()) by {
        if i < k {
            assert(new[i] == pieces[i]);
        } else if i >= k + left_over.len() {
            assert(new[i] == rest[i - k - left_over.len()]);
        } else {
            assert(new[i] == left_over[i - k]);
        }
    }
}

/// Where a line is broken: the pieces before the column are pieces of
/// the line, and the column lies in the piece behind them if there is one.
pub proof fn lemma_before_column(pieces: Seq<PieceView>, x: int)
    requires
        0 <= x,
    ensures
        ({
            let k = before_column(pieces, x);
            let at = x - width(pieces.take(k));
            &&& 0 <= k <= pieces.len()
            &&& 0 <= at
            &&& k < pieces.len() ==> at < pieces[k].len()
            &&& k == pieces.len() ==> x >= width(pieces)
        }),
    decreases pieces.len(),
{
    if pieces.len() == 0 {
        assert(pieces.take(0) =~= pieces);
    } else if pieces[0].len() <= x {
        let rest = pieces.drop_first();
        let y = x - pieces[0].len();
        lemma_before_column(rest, y);
        let k = before_column(rest, y);
        assert(pieces.take(k + 1) =~= seq![pieces[0]] + rest.take(k));
        lemma_views_concat(seq![pieces[0]], rest.take(k), Seq::<char>::empty());
        lemma_views_single(pieces[0], Seq::<char>::empty());
        if k < rest.len() {
            assert(rest[k] == pieces[k + 1]);
        } else {
            assert(rest.take(k) =~= rest);
            assert(pieces.take(k + 1) =~= pieces);
        }
    } else {
        assert(pieces.take(0) =~= Seq::<PieceView>::empty());
    }
}

/// Breaking a line at the level of pieces is breaking its text: the
/// pieces before the column hold the text before it, the pieces from the
/// column on hold the rest, and both lie inside the loaded text as the old
/// ones did.
pub proof fn lemma_parts_text(pieces: Seq<PieceView>, x: int, data: Seq<char>)
    requires
        views_wf(pieces, data),
        data.len() <= usize::MAX,
        0 <= x <= width(pieces),
    ensures
        views_text(left_of(pieces, x), data) == views_text(pieces, data).take(x),
        views_text(right_of(pieces, x), data) == views_text(pieces, data).skip(x),
        views_wf(left_of(pieces, x), data),
        views_wf(right_of(pieces, x), data),
{
    let k = before_column(pieces, x);
    let at = x - width(pieces.take(k));
    lemma_before_column(pieces, x);
    lemma_views_split(pieces, k, data);
    let head = views_text(pieces.take(k), data);
    let tail = views_text(pieces.skip(k), data);
    let left = left_of(pieces, x);
    let right = right_of(pieces, x);
    if k < pieces.len() && at > 0 {
        let p = pieces[k];
        let rest = pieces.skip(k + 1);
        let first = first_part(p, at);
        let second = second_part(p, at);
        lemma_views_split(pieces.skip(k), 1, data);
        assert(pieces.skip(k).take(1) =~= seq![p]);
        assert(pieces.skip(k).skip(1) =~= rest);
        lemma_views_single(p, data);
        lemma_views_single(first, data);
        lemma_views_single(second, data);
        assert(left =~= pieces.take(k) + seq![first]);
        lemma_views_concat(pieces.take(k), seq![first], data);
        lemma_views_concat(seq![second], rest, data);
        let r = views_text(rest, data);
        assert(first.text(data) =~= p.text(data).take(at) && second.text(data) =~= p.text(
            data,
        ).skip(at)) by {
            match p {
                PieceView::Original(start, length) => {
                    assert(start + length <= data.len());
                },
                PieceView::Add(text) => {},
            }
        }
        assert(head + p.text(data).take(at) =~= (head + (p.text(data) + r)).take(x));
        assert(p.text(data).skip(at) + r =~= (head + (p.text(data) + r)).skip(x));
        assert forall|i: int| 0 <= i < left.len() implies ((#[trigger] left[i]) matches PieceView::Original(
            start,
            length,
        ) ==> start + length <= data.len()) by {
            if i < k {
                assert(left[i] == pieces[i]);
            } else {
                assert(left[i] == first);
            }
        }
        assert forall|i: int| 0 <= i < right.len() implies ((#[trigger] right[i]) matches PieceView::Original(
            start,
            length,
        ) ==> start + length <= data.len()) by {
            if i == 0 {
                assert(right[i] == second);
            } else {
                assert(right[i] == rest[i - 1]);
            }
        }
    } else {
        assert(at == 0) by {
            if k == pieces.len() {
                assert(pieces.take(k) =~= pieces);
            }
        }
        assert(head =~= (head + tail).take(x));
        assert(tail =~= (head + tail).skip(x));
    }
}

/// A string of the single character `c`.
pub(crate) fn single(c: char) -> (r: String)
    ensures
        r@ == seq![c],
{
    let mut s: String = String::new();
    push_char(&mut s, c);
    assert(s@ =~= seq![c]);
    s
}

/// Adds `c` at the end of a line: to its last piece where that holds
/// inserted text, as a piece of its own otherwise.
pub(crate) fn append_char(out: &mut Vec<Piece>, c: char, Ghost(data): Ghost<Seq<char>>)
    requires
        pieces_wf(old(out)@, data),
    ensures
        pieces_wf(final(out)@, data),
        pieces_text(final(out)@, data) == pieces_text(old(out)@, data).push(c),
        pieces_view(final(out)@) == (if old(out)@.len() > 0 && old(out)@.last() is Add {
            pieces_view(old(out)@).drop_last().push(
                PieceView::Add(old(out)@.last()@->Add_0.push(c)),
            )
        } else {
            pieces_view(old(out)@).push(PieceView::Add(seq![c]))
        }),
{
    let ghost before = out@;
    match out.pop() {
        Some(Piece::Add(s)) => {
            let mut s = s;
            let ghost rest = out@;
            assert(rest =~= before.drop_last());
            assert(before.last() == Piece::Add(s));
            push_char(&mut s, c);
            out.push(Piece::Add(s));
            proof {
                assert(pieces_view(out@) =~= pieces_view(before).drop_last().push(
                    PieceView::Add(before.last()@->Add_0.push(c)),
                ));
                lemma_text_push(rest, Piece::Add(s), data);
                assert(pieces_text(out@, data) =~= pieces_text(before, data).push(c));
                assert forall|i: int| 0 <= i < out@.len() implies (#[trigger] out@[i]).wf(data) by {
                    if i < rest.len() {
                        assert(out@[i] == before[i]);
                    }
                }
            }
        },
        Some(p) => {
            let ghost rest = out@;
            assert(rest =~= before.drop_last());
            out.push(p);
            assert(out@ =~= before);
            out.push(Piece::Add(single(c)));
            proof {
                assert(pieces_view(out@) =~= pieces_view(before).push(PieceView::Add(seq![c])));
                lemma_text_push(before, out@.last(), data);
                assert(pieces_text(out@, data) =~= pieces_text(before, data).push(c));
                assert forall|i: int| 0 <= i < out@.len() implies (#[trigger] out@[i]).wf(data) by {
                    if i < before.len() {
                        assert(out@[i] == before[i]);
                    }
                }
            }
        },
        None => {
            assert(before =~= Seq::<Piece>::empty());
            out.push(Piece::Add(single(c)));
            proof {
                assert(pieces_view(out@) =~= pieces_view(before).push(PieceView::Add(seq![c])));
                lemma_text_push(before, out@.last(), data);
                assert(pieces_text(out@, data) =~= pieces_text(before, data).push(c));
            }
        },
    }
}

/// Adds a piece at the end of a line.
pub(crate) fn append_piece(out: &mut Vec<Piece>, p: Piece, Ghost(data): Ghost<Seq<char>>)
    requires
        pieces_wf(old(out)@, data),
        p.wf(data),
    ensures
        pieces_wf(final(out)@, data),
        final(out)@ == old(out)@.push(p),
        pieces_view(final(out)@) == pieces_view(old(out)@).push(p@),
        pieces_text(final(out)@, data) == pieces_text(old(out)@, data) + p.text(data),
{
    proof {
        lemma_text_push(out@, p, data);
        lemma_pieces_view(out@, 0);
    }
    out.push(p);
    assert forall|i: int| 0 <= i < out@.len() implies (#[trigger] out@[i]).wf(data) by {
        if i < old(out)@.len() {
            assert(out@[i] == old(out)@[i]);
        }
    }
}

/// Inserting in the first of two texts, or between them, leaves the
/// second as it is.
pub proof fn lemma_insert_in_first(a: Seq<char>, b: Seq<char>, x: int, c: char)
    requires
        0 <= x <= a.len(),
    ensures
        (a + b).insert(x, c) == a.insert(x, c) + b,
        a.insert(a.len() as int, c) == a.push(c),
{
    assert((a + b).insert(x, c) =~= a.insert(x, c) + b);
    assert(a.insert(a.len() as int, c) =~= a.push(c));
}

/// Inserting in the second of two texts leaves the first as it is.
pub proof fn lemma_insert_in_second(a: Seq<char>, b: Seq<char>, k: int, c: char)
    requires
        0 <= k <= b.len(),
    ensures
        (a + b).insert(a.len() + k, c) == a + b.insert(k, c),
{
    assert((a + b).insert(a.len() + k, c) =~= a + b.insert(k, c));
}

/// Removing from the first of two texts leaves the second as it is.
pub proof fn lemma_remove_in_first(a: Seq<char>, b: Seq<char>, x: int)
    requires
        0 <= x < a.len(),
    ensures
        (a + b).remove(x) == a.remove(x) + b,
{
    assert((a + b).remove(x) =~= a.remove(x) + b);
}

/// Removing from the second of two texts leaves the first as it is.
pub proof fn lemma_remove_in_second(a: Seq<char>, b: Seq<char>, k: int)
    requires
        0 <= k < b.len(),
    ensures
        (a + b).remove(a.len() + k) == a + b.remove(k),
{
    assert((a + b).remove(a.len() + k) =~= a + b.remove(k));
}

/// Adds to a line the pieces that come of `piece` when `c` is inserted
/// before its character number `k`: for a span of the loaded text its part
/// before `k`, the character, and its part from `k` on; for inserted text the
/// text with the character in it.
pub(crate) fn push_with_char(
    out: &mut Vec<Piece>,
    piece: Piece,
    k: usize,
    c: char,
    Ghost(data): Ghost<Seq<char>>,
)
    requires
        pieces_wf(old(out)@, data),
        piece.wf(data),
        data.len() <= usize::MAX,
        k < piece.len() <= usize::MAX,
    ensures
        pieces_wf(final(out)@, data),
        pieces_text(final(out)@, data) == pieces_text(old(out)@, data) + piece.text(data).insert(
            k as int,
            c,
        ),
        pieces_view(final(out)@) == pieces_view(old(out)@) + with_char(piece@, k as int, c),
{
    let ghost views = pieces_view(out@);
    let ghost whole = piece@;
    let ghost p_text = piece.text(data);
    let ghost out_before = pieces_text(out@, data);
    proof {
        lemma_piece_len(piece, data);
    }
    match piece {
        Piece::Original(_, _) => {
            let (left, right) = piece.split(k);
            assert(left.text(data) == p_text.take(k as int));
            assert(right.text(data) == p_text.skip(k as int));
            proof {
                lemma_piece_len(left, data);
                lemma_piece_len(right, data);
            }
            if left.length() != 0 {
                append_piece(out, left, Ghost(data));
            }
            assert(pieces_text(out@, data) =~= out_before + left.text(data));
            append_piece(out, Piece::Add(single(c)), Ghost(data));
            let ghost mid = pieces_text(out@, data);
            if right.length() != 0 {
                append_piece(out, right, Ghost(data));
            }
            assert(pieces_text(out@, data) =~= mid + right.text(data));
            assert(pieces_text(out@, data) =~= out_before + p_text.insert(k as int, c));
            assert(pieces_view(out@) =~= views + with_char(whole, k as int, c));
        },
        Piece::Add(s) => {
            let n: usize = s.as_str().unicode_len();
            let mut t: String = String::from_str(s.as_str().substring_char(0, k));
            push_char(&mut t, c);
            t.append(s.as_str().substring_char(k, n));
            assert(t@ =~= p_text.insert(k as int, c));
            append_piece(out, Piece::Add(t), Ghost(data));
            assert(pieces_view(out@) =~= views + with_char(whole, k as int, c));
        },
    }
}

/// Adds to a line what is left of `piece` without its character number
/// `k`: at most two pieces, none of them empty.
pub(crate) fn push_without_char(
    out: &mut Vec<Piece>,
    piece: Piece,
    k: usize,
    Ghost(data): Ghost<Seq<char>>,
)
    requires
        pieces_wf(old(out)@, data),
        piece.wf(data),
        data.len() <= usize::MAX,
        k < piece.len() <= usize::MAX,
    ensures
        pieces_wf(final(out)@, data),
        pieces_text(final(out)@, data) == pieces_text(old(out)@, data) + piece.text(data).remove(
            k as int,
        ),
        pieces_view(final(out)@) == pieces_view(old(out)@) + without(piece@, k as int),
{
    let ghost before = out@;
    let ghost views = pieces_view(out@);
    let ghost whole = piece@;
    let ghost p_text = piece.text(data);
    let ghost out_before = pieces_text(out@, data);
    proof {
        lemma_piece_len(piece, data);
    }
    match piece {
        Piece::Original(_, _) => {
            let (left, right) = piece.split(k + 1);
            assert(left.text(data) == p_text.take(k + 1));
            assert(right.text(data) == p_text.skip(k + 1));
            proof {
                lemma_piece_len(left, data);
                lemma_piece_len(right, data);
            }
            assert(left.wf(data));
            match left.pop() {
                Some(l) => {
                    append_piece(out, l, Ghost(data));
                },
                None => {},
            }
            assert(pieces_text(out@, data) =~= out_before + p_text.take(k as int));
            let ghost mid = pieces_text(out@, data);
            if right.length() != 0 {
                append_piece(out, right, Ghost(data));
            }
            assert(pieces_text(out@, data) =~= mid + right.text(data));
            assert(pieces_text(out@, data) =~= out_before + p_text.remove(k as int));
            assert(pieces_view(out@) =~= views + without(whole, k as int));
        },
        Piece::Add(s) => {
            let n: usize = s.as_str().unicode_len();
            if n > 1 {
                let mut t: String = String::from_str(s.as_str().substring_char(0, k));
                t.append(s.as_str().substring_char(k + 1, n));
                assert(t@ =~= p_text.remove(k as int));
                append_piece(out, Piece::Add(t), Ghost(data));
                assert(pieces_view(out@) =~= views + without(whole, k as int));
            } else {
                assert(p_text.remove(k as int) =~= Seq::<char>::empty());
                assert(out_before + p_text.remove(k as int) =~= out_before);
                assert(pieces_view(out@) =~= views + without(whole, k as int));
            }
        },
    }
}

/// The pieces of `line` with `c` inserted before column `x`.
pub(crate) fn insert_into_line(
    line: &Vec<Piece>,
    x: usize,
    c: char,
    Ghost(data): Ghost<Seq<char>>,
) -> (out: Vec<Piece>)
    requires
        pieces_wf(line@, data),
        data.len() <= usize::MAX,
        x <= pieces_text(line@, data).len() < usize::MAX,
    ensures
        pieces_wf(out@, data),
        pieces_text(out@, data) == pieces_text(line@, data).insert(x as int, c),
        pieces_view(out@) == inserted(pieces_view(line@), x as int, c),
{
    let ghost ps = pieces_view(line@);
    let mut out: Vec<Piece> = Vec::new();
    let mut pos: usize = 0;
    let mut done: bool = false;
    let mut i: usize = 0;
    let ghost mut head: Seq<PieceView> = Seq::empty();
    let ghost mut to: int = 0;
    assert(line@.take(0) =~= Seq::<Piece>::empty());
    assert(out@ =~= line@.take(0));
    assert(ps.take(0) =~= Seq::<PieceView>::empty());
    assert(ps.skip(0) =~= ps);
    while i < line.len()
        invariant
            0 <= i <= line.len(),
            ps == pieces_view(line@),
            pieces_wf(line@, data),
            pieces_wf(out@, data),
            data.len() <= usize::MAX,
            x <= pieces_text(line@, data).len() < usize::MAX,
            pos == pieces_text(line@.take(i as int), data).len(),
            pos == width(ps.take(i as int)),
            !done ==> pos <= x && out@ == line@.take(i as int) && site(ps, x as int) == i + site(
                ps.skip(i as int),
                x - pos,
            ),
            done ==> x <= pos && pieces_text(out@, data) == pieces_text(
                line@.take(i as int),
                data,
            ).insert(x as int, c),
            done ==> {
                &&& 0 <= to <= i
                &&& pieces_view(out@) == head + ps.subrange(to, i as int)
                &&& head + ps.skip(to) == inserted(ps, x as int, c)
            },
        decreases line.len() - i,
    {
        let piece = line[i].duplicate();
        let n: usize = piece.length();
        let ghost before = pieces_text(line@.take(i as int), data);
        let ghost p_text = piece.text(data);
        let ghost old_out = out@;
        proof {
            lemma_text_prefix(line@, data, i as int);
            lemma_text_prefix(line@, data, i + 1);
            assert(line@[i as int].wf(data));
            lemma_piece_len(piece, data);
            assert(line@.take(i + 1) =~= line@.take(i as int).push(piece));
            lemma_width_take(ps, i as int);
            lemma_site_skip(ps, i as int, x - pos);
            lemma_pieces_view(line@, i as int);
        }
        if !done && pos == x && piece.is_original() {
            append_char(&mut out, c, Ghost(data));
            let ghost with_char_views = pieces_view(out@);
            append_piece(&mut out, piece, Ghost(data));
            done = true;
            proof {
                lemma_insert_in_first(before, p_text, x as int, c);
                let k = i as int;
                head = with_char_views;
                to = k;
                assert(ps.subrange(to, i + 1) =~= seq![ps[k]]);
                assert(pieces_view(out@) =~= head + ps.subrange(to, i + 1));
                if k > 0 {
                    assert(old_out.last() == line@[k - 1]);
                    assert(ps.take(k).drop_last() =~= ps.take(k - 1));
                }
                if k > 0 && ps[k - 1] is Add {
                    assert(head =~= ps.take(k - 1) + seq![
                        PieceView::Add(ps[k - 1]->Add_0.push(c)),
                    ]);
                } else {
                    assert(head =~= ps.take(k) + seq![PieceView::Add(seq![c])]);
                }
            }
        } else if !done && pos <= x && x < pos + n {
            push_with_char(&mut out, piece, x - pos, c, Ghost(data));
            done = true;
            proof {
                lemma_insert_in_second(before, p_text, x - pos, c);
                let k = i as int;
                head = pieces_view(out@);
                to = k + 1;
                assert(ps.subrange(to, i + 1) =~= Seq::<PieceView>::empty());
                assert(pieces_view(out@) =~= head + ps.subrange(to, i + 1));
                assert(head =~= ps.take(k) + with_char(ps[k], x - pos, c));
            }
        } else {
            append_piece(&mut out, piece, Ghost(data));
            proof {
                if done {
                    lemma_insert_in_first(before, p_text, x as int, c);
                    assert(ps.subrange(to, i + 1) =~= ps.subrange(to, i as int).push(ps[i as int]));
                    assert(pieces_view(out@) =~= head + ps.subrange(to, i + 1));
                }
            }
        }
        pos = pos + n;
        i += 1;
    }
    assert(line@.take(i as int) =~= line@);
    assert(ps.take(i as int) =~= ps);
    if !done {
        append_char(&mut out, c, Ghost(data));
        proof {
            lemma_insert_in_first(pieces_text(line@, data), Seq::<char>::empty(), x as int, c);
            let k = ps.len() as int;
            assert(ps.skip(k) =~= Seq::<PieceView>::empty());
            assert(site(ps.skip(k), x - pos) == 0);
            if k > 0 {
                assert(ps.drop_last() =~= ps.take(k - 1));
            }
            assert(pieces_view(out@) =~= inserted(ps, x as int, c));
        }
    } else {
        assert(ps.subrange(to, i as int) =~= ps.skip(to));
    }
    out
}

/// The pieces of `line` without the character in column `x`.
pub(crate) fn erase_from_line(line: &Vec<Piece>, x: usize, Ghost(data): Ghost<Seq<char>>) -> (out:
    Vec<Piece>)
    requires
        pieces_wf(line@, data),
        data.len() <= usize::MAX,
        x < pieces_text(line@, data).len() <= usize::MAX,
    ensures
        pieces_wf(out@, data),
        pieces_text(out@, data) == pieces_text(line@, data).remove(x as int),
        pieces_view(out@) == erased(pieces_view(line@), x as int),
{
    let ghost ps = pieces_view(line@);
    let mut out: Vec<Piece> = Vec::new();
    let mut pos: usize = 0;
    let mut done: bool = false;
    let mut i: usize = 0;
    let ghost mut k: int = 0;
    assert(line@.take(0) =~= Seq::<Piece>::empty());
    assert(out@ =~= line@.take(0));
    assert(ps.take(0) =~= Seq::<PieceView>::empty());
    assert(ps.skip(0) =~= ps);
    while i < line.len()
        invariant
            0 <= i <= line.len(),
            ps == pieces_view(line@),
            pieces_wf(line@, data),
            pieces_wf(out@, data),
            data.len() <= usize::MAX,
            x < pieces_text(line@, data).len() <= usize::MAX,
            pos == pieces_text(line@.take(i as int), data).len(),
            pos == width(ps.take(i as int)),
            !done ==> pos <= x && out@ == line@.take(i as int) && holder(ps, x as int) == i
                + holder(ps.skip(i as int), x - pos),
            done ==> x < pos && pieces_text(out@, data) == pieces_text(
                line@.take(i as int),
                data,
            ).remove(x as int),
            done ==> {
                &&& 0 <= k < i
                &&& holder(ps, x as int) == k
                &&& pieces_view(out@) == ps.take(k) + without(ps[k], x - width(ps.take(k)))
                    + ps.subrange(k + 1, i as int)
            },
        decreases line.len() - i,
    {
        let piece = line[i].duplicate();
        let n: usize = piece.length();
        let ghost before = pieces_text(line@.take(i as int), data);
        let ghost p_text = piece.text(data);
        proof {
            lemma_text_prefix(line@, data, i as int);
            lemma_text_prefix(line@, data, i + 1);
            assert(line@[i as int].wf(data));
            lemma_piece_len(piece, data);
            assert(line@.take(i + 1) =~= line@.take(i as int).push(piece));
            lemma_width_take(ps, i as int);
            lemma_holder_skip(ps, i as int, x - pos);
            lemma_pieces_view(line@, i as int);
        }
        if !done && pos <= x && x < pos + n {
            push_without_char(&mut out, piece, x - pos, Ghost(data));
            done = true;
            proof {
                lemma_remove_in_second(before, p_text, x - pos);
                k = i as int;
                assert(ps.subrange(k + 1, i + 1) =~= Seq::<PieceView>::empty());
                assert(pieces_view(out@) =~= ps.take(k) + without(ps[k], x - width(ps.take(k)))
                    + ps.subrange(k + 1, i + 1));
            }
        } else {
            append_piece(&mut out, piece, Ghost(data));
            proof {
                if done {
                    lemma_remove_in_first(before, p_text, x as int);
                    assert(ps.subrange(k + 1, i + 1) =~= ps.subrange(k + 1, i as int).push(
                        ps[i as int],
                    ));
                    assert(pieces_view(out@) =~= ps.take(k) + without(
                        ps[k],
                        x - width(ps.take(k)),
                    ) + ps.subrange(k + 1, i + 1));
                }
            }
        }
        pos = pos + n;
        i += 1;
    }
    assert(line@.take(i as int) =~= line@);
    assert(ps.subrange(k + 1, i as int) =~= ps.skip(k + 1));
    out
}

/// The pieces of `line` before column `split_pos` and those from it on. A
/// piece that lies across the column is cut there. A column past the end of
/// the line counts as the end.
pub(crate) fn split_line_pieces(
    line: &Vec<Piece>,
    split_pos: usize,
    Ghost(data): Ghost<Seq<char>>,
) -> (r: (Vec<Piece>, Vec<Piece>))
    requires
        pieces_wf(line@, data),
        data.len() <= usize::MAX,
        pieces_text(line@, data).len() <= usize::MAX,
    ensures
        pieces_wf(r.0@, data),
        pieces_wf(r.1@, data),
        split_pos <= pieces_text(line@, data).len() ==> {
            &&& pieces_text(r.0@, data) == pieces_text(line@, data).take(split_pos as int)
            &&& pieces_text(r.1@, data) == pieces_text(line@, data).skip(split_pos as int)
        },
        split_pos >= pieces_text(line@, data).len() ==> {
            &&& pieces_text(r.0@, data) == pieces_text(line@, data)
            &&& pieces_text(r.1@, data) == Seq::<char>::empty()
        },
        pieces_view(r.0@) == left_of(pieces_view(line@), split_pos as int),
        pieces_view(r.1@) == right_of(pieces_view(line@), split_pos as int),
{
    let ghost ps = pieces_view(line@);
    let mut left: Vec<Piece> = Vec::new();
    let mut right: Vec<Piece> = Vec::new();
    let mut pos: usize = 0;
    let mut i: usize = 0;
    let ghost mut head: Seq<PieceView> = Seq::empty();
    let ghost mut to: int = 0;
    assert(line@.take(0) =~= Seq::<Piece>::empty());
    assert(left@ =~= line@.take(0));
    assert(ps.take(0) =~= Seq::<PieceView>::empty());
    assert(ps.skip(0) =~= ps);
    while i < line.len()
        invariant
            0 <= i <= line.len(),
            ps == pieces_view(line@),
            pieces_wf(line@, data),
            data.len() <= usize::MAX,
            pieces_wf(left@, data),
            pieces_wf(right@, data),
            pieces_text(line@, data).len() <= usize::MAX,
            pos == pieces_text(line@.take(i as int), data).len(),
            pos == width(ps.take(i as int)),
            pos <= split_pos ==> {
                &&& pieces_text(left@, data) == pieces_text(line@.take(i as int), data)
                &&& pieces_text(right@, data) == Seq::<char>::empty()
            },
            pos > split_pos ==> {
                &&& pieces_text(left@, data) == pieces_text(line@.take(i as int), data).take(
                    split_pos as int,
                )
                &&& pieces_text(right@, data) == pieces_text(line@.take(i as int), data).skip(
                    split_pos as int,
                )
            },
            right@.len() == 0 ==> {
                &&& pos <= split_pos
                &&& left@ == line@.take(i as int)
                &&& before_column(ps, split_pos as int) == i + before_column(
                    ps.skip(i as int),
                    split_pos - pos,
                )
            },
            right@.len() > 0 ==> {
                &&& pos > split_pos
                &&& 0 <= to <= i
                &&& pieces_view(left@) == left_of(ps, split_pos as int)
                &&& pieces_view(right@) == head + ps.subrange(to, i as int)
                &&& head + ps.skip(to) == right_of(ps, split_pos as int)
            },
        decreases line.len() - i,
    {
        let piece = line[i].duplicate();
        let n: usize = piece.length();
        let ghost before = pieces_text(line@.take(i as int), data);
        let ghost p_text = piece.text(data);
        let ghost old_right = right@;
        proof {
            lemma_text_prefix(line@, data, i as int);
            lemma_text_prefix(line@, data, i + 1);
            assert(line@[i as int].wf(data));
            lemma_piece_len(piece, data);
            lemma_width_take(ps, i as int);
            lemma_before_column_skip(ps, i as int, split_pos - pos);
            lemma_pieces_view(line@, i as int);
        }
        if pos < split_pos && split_pos < pos + n {
            let (l, r) = piece.split(split_pos - pos);
            assert(l.text(data) == p_text.take(split_pos - pos));
            assert(r.text(data) == p_text.skip(split_pos - pos));
            append_piece(&mut left, l, Ghost(data));
            append_piece(&mut right, r, Ghost(data));
            proof {
                assert(pieces_text(left@, data) =~= (before + p_text).take(split_pos as int));
                assert(pieces_text(right@, data) =~= (before + p_text).skip(split_pos as int));
                let k = i as int;
                head = seq![second_part(ps[k], split_pos - pos)];
                to = k + 1;
                assert(pieces_view(left@) =~= ps.take(k).push(first_part(ps[k], split_pos - pos)));
                assert(ps.subrange(to, i + 1) =~= Seq::<PieceView>::empty());
                assert(pieces_view(right@) =~= head + ps.subrange(to, i + 1));
            }
        } else if pos + n <= split_pos {
            append_piece(&mut left, piece, Ghost(data));
            proof {
                assert(left@ =~= line@.take(i + 1));
            }
        } else {
            append_piece(&mut right, piece, Ghost(data));
            proof {
                assert(pieces_text(left@, data) =~= (before + p_text).take(split_pos as int));
                assert(pieces_text(right@, data) =~= (before + p_text).skip(split_pos as int));
                if old_right.len() == 0 {
                    let k = i as int;
                    head = Seq::<PieceView>::empty();
                    to = k;
                    assert(pieces_view(left@) =~= ps.take(k));
                    assert(ps.subrange(to, i + 1) =~= seq![ps[k]]);
                    assert(pieces_view(right@) =~= head + ps.subrange(to, i + 1));
                    assert(head + ps.skip(to) =~= ps.skip(k));
                } else {
                    assert(ps.subrange(to, i + 1) =~= ps.subrange(to, i as int).push(ps[i as int]));
                    assert(pieces_view(right@) =~= head + ps.subrange(to, i + 1));
                }
            }
        }
        pos = pos + n;
        i += 1;
    }
    assert(line@.take(i as int) =~= line@);
    assert(ps.take(i as int) =~= ps);
    proof {
        let whole = pieces_text(line@, data);
        if split_pos == whole.len() {
            assert(whole.take(split_pos as int) =~= whole);
            assert(whole.skip(split_pos as int) =~= Seq::<char>::empty());
        }
        if right@.len() == 0 {
            let k = ps.len() as int;
            assert(ps.skip(k) =~= Seq::<PieceView>::empty());
            assert(before_column(ps.skip(k), split_pos - pos) == 0);
            assert(pieces_view(left@) =~= left_of(ps, split_pos as int));
            assert(pieces_view(right@) =~= right_of(ps, split_pos as int));
        } else {
            assert(ps.subrange(to, i as int) =~= ps.skip(to));
        }
    }
    (left, right)
}

/// Number of characters in a line.
pub(crate) fn line_width(line: &Vec<Piece>, Ghost(data): Ghost<Seq<char>>) -> (r: usize)
    requires
        pieces_wf(line@, data),
        pieces_text(line@, data).len() <= usize::MAX,
    ensures
        r == pieces_text(line@, data).len(),
{
    let mut result: usize = 0;
    let mut i: usize = 0;
    assert(line@.take(0) =~= Seq::<Piece>::empty());
    while i < line.len()
        invariant
            0 <= i <= line.len(),
            pieces_wf(line@, data),
            pieces_text(line@, data).len() <= usize::MAX,
            result == pieces_text(line@.take(i as int), data).len(),
        decreases line.len() - i,
    {
        proof {
            lemma_text_prefix(line@, data, i as int);
            lemma_text_prefix(line@, data, i + 1);
            assert(line@[i as int].wf(data));
            lemma_piece_len(line@[i as int], data);
        }
        result = result + line[i].length();
        i += 1;
    }
    assert(line@.take(i as int) =~= line@);
    result
}

/// The text of a line as a string.
pub(crate) fn line_string(line: &Vec<Piece>, data: &Vec<char>) -> (r: String)
    requires
        pieces_wf(line@, data@),
    ensures
        r@ == pieces_text(line@, data@),
{
    let mut result: String = String::new();
    let mut i: usize = 0;
    assert(line@.take(0) =~= Seq::<Piece>::empty());
    while i < line.len()
        invariant
            0 <= i <= line.len(),
            pieces_wf(line@, data@),
            result@ == pieces_text(line@.take(i as int), data@),
        decreases line.len() - i,
    {
        proof {
            lemma_text_prefix(line@, data@, i as int);
            assert(line@[i as int].wf(data@));
        }
        match &line[i] {
            Piece::Original(start, length) => {
                assert(data@.len() == data.len());
                let word: String = string_of(data, *start, *start + *length);
                result.append(word.as_str());
            },
            Piece::Add(s) => {
                result.append(s.as_str());
            },
        }
        i += 1;
    }
    assert(line@.take(i as int) =~= line@);
    result
}

} // verus!
