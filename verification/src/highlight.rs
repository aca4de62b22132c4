//! Syntax highlighting: cutting a line into spans of code, keywords and
//! comments.
//!
//! A span is a stretch of a line with one category. The spans of a line,
//! put together, are the line.

use crate::config::syntax_highlight::{SyntaxHighlight, SyntaxView};
use crate::text::{
    chars_of, find_from, lemma_position_from, lemma_position_skip, position,
    same_chars, string_of, words_view,
};
use vstd::prelude::*;

verus! {

/// What a span is.
#[derive(Debug, Clone, Copy, PartialEq, Eq, Structural)]
pub enum Category {
    Plain,
    Keyword,
    Comment,
}

/// A stretch of a line and its category.
#[derive(Debug, Clone, PartialEq, Eq)]
pub struct Span {
    pub text: String,
    pub category: Category,
}

/// A span with its text as plain characters.
pub struct SpanView {
    pub text: Seq<char>,
    pub category: Category,
}

impl View for Span {
    type V = SpanView;

    open spec fn view(&self) -> SpanView {
        SpanView { text: self.text@, category: self.category }
    }
}

/// The views of a list of spans.
pub open spec fn spans_view(spans: Seq<Span>) -> Seq<SpanView> {
    Seq::new(spans.len(), |i: int| spans[i]@)
}

/// The texts of spans, one after the other.
pub open spec fn spans_text(spans: Seq<SpanView>) -> Seq<char>
    decreases spans.len(),
{
    if spans.len() == 0 {
        Seq::empty()
    } else {
        spans_text(spans.drop_last()) + spans.last().text
    }
}

/// Whether `c` is alphabetic, as `char::is_alphabetic` tells it.
pub uninterp spec fn alphabetic(c: char) -> bool;

/// Trusted: `char::is_alphabetic` of std, which tells whether a character
/// has the Unicode property `Alphabetic`. The answer depends on the character
/// alone.
#[verifier::external_body]
fn is_alphabetic(c: char) -> (r: bool)
    ensures
        r == alphabetic(c),
{
    c.is_alphabetic()
}

/// For every character of `s`, whether it may stand in a word: whether it
/// is alphabetic or an underscore.
pub open spec fn word_mask(s: Seq<char>) -> Seq<bool> {
    Seq::new(s.len(), |i: int| s[i] == '_' || alphabetic(s[i]))
}

/// Number of entries at the front of `mask` that are like its first.
pub open spec fn run_len(mask: Seq<bool>) -> nat
    decreases mask.len(),
{
    if mask.len() == 0 {
        0
    } else if mask.len() >= 2 && mask[1] == mask[0] {
        1 + run_len(mask.drop_first())
    } else {
        1
    }
}

/// The first run is not longer than the mask, not empty where the mask is
/// not, alike throughout, and ends where the mask changes.
pub proof fn lemma_run_len(mask: Seq<bool>)
    ensures
        run_len(mask) <= mask.len(),
        mask.len() > 0 ==> run_len(mask) >= 1,
        forall|i: int| 0 <= i < run_len(mask) ==> #[trigger] mask[i] == mask[0],
        run_len(mask) < mask.len() ==> mask[run_len(mask) as int] != mask[0],
    decreases mask.len(),
{
    if mask.len() >= 2 && mask[1] == mask[0] {
        let rest = mask.drop_first();
        lemma_run_len(rest);
        assert forall|i: int| 0 <= i < run_len(mask) implies #[trigger] mask[i] == mask[0] by {
            if i > 0 {
                assert(mask[i] == rest[i - 1]);
            }
        }
        if run_len(mask) < mask.len() {
            assert(mask[run_len(mask) as int] == rest[run_len(rest) as int]);
        }
    }
}

/// If the first `n` entries of `mask` are alike and the next one differs
/// (or there is none), the first run has `n` entries.
pub proof fn lemma_run_len_is(mask: Seq<bool>, n: int)
    requires
        1 <= n <= mask.len(),
        forall|i: int| 0 <= i < n ==> #[trigger] mask[i] == mask[0],
        n < mask.len() ==> mask[n] != mask[0],
    ensures
        run_len(mask) == n,
    decreases mask.len(),
{
    if n >= 2 {
        let rest = mask.drop_first();
        assert(mask[1] == mask[0]);
        assert forall|i: int| 0 <= i < n - 1 implies #[trigger] rest[i] == rest[0] by {
            assert(rest[i] == mask[i + 1]);
            assert(rest[0] == mask[1]);
        }
        if n - 1 < rest.len() {
            assert(rest[n - 1] == mask[n]);
        }
        lemma_run_len_is(rest, n - 1);
    } else {
        if mask.len() >= 2 {
            assert(mask[1] != mask[0]);
        }
    }
}

/// The spans of a stretch of code. It is cut into words, the maximal
/// stretches of characters that may stand in a word, and what lies between
/// them; a word that is among `keywords` is a keyword, everything else is
/// plain. `mask` says of every character whether it may stand in a word.
pub open spec fn code_spans(s: Seq<char>, mask: Seq<bool>, keywords: Seq<Seq<char>>) -> Seq<
    SpanView,
>
    decreases s.len(),
    via code_spans_decreases
{
    if s.len() == 0 || mask.len() != s.len() {
        Seq::empty()
    } else {
        let n = run_len(mask) as int;
        let word = s.take(n);
        seq![
            SpanView {
                text: word,
                category: if mask[0] && keywords.contains(word) {
                    Category::Keyword
                } else {
                    Category::Plain
                },
            },
        ] + code_spans(s.skip(n), mask.skip(n), keywords)
    }
}

#[via_fn]
proof fn code_spans_decreases(s: Seq<char>, mask: Seq<bool>, keywords: Seq<Seq<char>>) {
    lemma_run_len(mask);
}

/// A mark that can be searched for: one that is there and not empty.
pub open spec fn usable(mark: Option<Seq<char>>) -> Option<Seq<char>> {
    match mark {
        Some(m) => if m.len() > 0 {
            Some(m)
        } else {
            None
        },
        None => None,
    }
}

impl SyntaxView {
    /// The mark that opens a comment to the end of the line, if it can be
    /// searched for.
    pub open spec fn line_mark(self) -> Option<Seq<char>> {
        usable(self.line_comment_mark)
    }

    /// The length of the mark that opens a comment that may span lines;
    /// zero where there is none.
    pub open spec fn begin_len(self) -> int {
        match self.block_marks() {
            Some((begin, _)) => begin.len() as int,
            None => 0,
        }
    }

    /// The marks that open and close a comment that may span lines, if
    /// both can be searched for.
    pub open spec fn block_marks(self) -> Option<(Seq<char>, Seq<char>)> {
        match self.multi_comment_mark {
            Some((begin, end)) => if begin.len() > 0 && end.len() > 0 {
                Some((begin, end))
            } else {
                None
            },
            None => None,
        }
    }
}

/// Where `mark` first stands in `line`, if there is a mark and it stands
/// there at all.
pub open spec fn mark_position(line: Seq<char>, mark: Option<Seq<char>>) -> Option<int> {
    match mark {
        Some(m) => position(line, m),
        None => None,
    }
}

/// The spans of a line, and whether a comment that spans lines is open at
/// its end. `in_comment` says whether one is open at its start.
///
/// Inside such a comment everything up to and with the closing mark is
/// comment; without a closing mark the whole line is. Outside, the first mark
/// that opens a comment decides: from a line mark on, the rest of the line is
/// comment; a block mark is comment itself and opens a comment. Where both
/// stand at the same place, the block mark counts. What stands before the mark
/// is code, and so is a line without marks.
pub open spec fn classify(
    line: Seq<char>,
    mask: Seq<bool>,
    in_comment: bool,
    syntax: SyntaxView,
) -> (Seq<SpanView>, bool)
    decreases line.len(),
    via classify_decreases
{
    if line.len() == 0 {
        (Seq::empty(), in_comment)
    } else if in_comment {
        match syntax.block_marks() {
            Some((_, end)) => match position(line, end) {
                Some(p) => {
                    let cut = p + end.len();
                    let rest = classify(line.skip(cut), mask.skip(cut), false, syntax);
                    (
                        seq![SpanView { text: line.take(cut), category: Category::Comment }]
                            + rest.0,
                        rest.1,
                    )
                },
                None => (seq![SpanView { text: line, category: Category::Comment }], true),
            },
            None => (seq![SpanView { text: line, category: Category::Comment }], true),
        }
    } else {
        let at_line = mark_position(line, syntax.line_mark());
        let at_block = match syntax.block_marks() {
            Some((begin, _)) => position(line, begin),
            None => None,
        };
        if at_line is Some && (at_block is None || at_line->0 < at_block->0) {
            let p = at_line->0;
            (
                code_spans(line.take(p), mask.take(p), syntax.keywords) + seq![
                    SpanView { text: line.skip(p), category: Category::Comment },
                ],
                false,
            )
        } else if at_block is Some {
            let p = at_block->0;
            let cut = p + syntax.begin_len();
            let rest = classify(line.skip(cut), mask.skip(cut), true, syntax);
            (
                code_spans(line.take(p), mask.take(p), syntax.keywords) + seq![
                    SpanView { text: line.subrange(p, cut), category: Category::Comment },
                ] + rest.0,
                rest.1,
            )
        } else {
            (code_spans(line, mask, syntax.keywords), false)
        }
    }
}

#[via_fn]
proof fn classify_decreases(
    line: Seq<char>,
    mask: Seq<bool>,
    in_comment: bool,
    syntax: SyntaxView,
) {
    match syntax.block_marks() {
        Some((begin, end)) => {
            lemma_position_from(line, end, 0);
            lemma_position_from(line, begin, 0);
        },
        None => {},
    }
}

/// The spans of a list of lines, the first of which starts outside a
/// comment: every line starts as the line before it ends.
pub open spec fn classify_lines(lines: Seq<Seq<char>>, syntax: SyntaxView) -> Seq<Seq<SpanView>>
    decreases lines.len(),
{
    if lines.len() == 0 {
        Seq::empty()
    } else {
        classify_lines(lines.drop_last(), syntax).push(
            classify(
                lines.last(),
                word_mask(lines.last()),
                open_after(lines.drop_last(), syntax),
                syntax,
            ).0,
        )
    }
}

/// Whether a comment that spans lines is open after `lines`.
pub open spec fn open_after(lines: Seq<Seq<char>>, syntax: SyntaxView) -> bool
    decreases lines.len(),
{
    if lines.len() == 0 {
        false
    } else {
        classify(
            lines.last(),
            word_mask(lines.last()),
            open_after(lines.drop_last(), syntax),
            syntax,
        ).1
    }
}

/// The text of spans with one more span is their text and the text of that
/// span.
pub proof fn lemma_spans_text_push(spans: Seq<SpanView>, span: SpanView)
    ensures
        spans_text(spans.push(span)) == spans_text(spans) + span.text,
{
    assert(spans.push(span).drop_last() =~= spans);
}

/// The text of two lists of spans, one after the other, is the text of the
/// first and that of the second.
pub proof fn lemma_spans_text_concat(a: Seq<SpanView>, b: Seq<SpanView>)
    ensures
        spans_text(a + b) == spans_text(a) + spans_text(b),
    decreases b.len(),
{
    if b.len() == 0 {
        assert(a + b =~= a);
        assert(spans_text(a) + spans_text(b) =~= spans_text(a));
    } else {
        lemma_spans_text_concat(a, b.drop_last());
        assert((a + b).drop_last() =~= a + b.drop_last());
        assert((a + b).last() == b.last());
        assert(spans_text(a) + (spans_text(b.drop_last()) + b.last().text) =~= (spans_text(a)
            + spans_text(b.drop_last())) + b.last().text);
    }
}

/// The spans of a stretch of code, put together, are the stretch.
pub proof fn lemma_code_spans_cover(s: Seq<char>, mask: Seq<bool>, keywords: Seq<Seq<char>>)
    requires
        mask.len() == s.len(),
    ensures
        spans_text(code_spans(s, mask, keywords)) == s,
    decreases s.len(),
{
    if s.len() == 0 {
        assert(spans_text(code_spans(s, mask, keywords)) =~= s);
    } else {
        lemma_run_len(mask);
        let n = run_len(mask) as int;
        let first = code_spans(s, mask, keywords)[0];
        lemma_code_spans_cover(s.skip(n), mask.skip(n), keywords);
        lemma_spans_text_concat(seq![first], code_spans(s.skip(n), mask.skip(n), keywords));
        lemma_spans_text_push(Seq::<SpanView>::empty(), first);
        assert(seq![first] =~= Seq::<SpanView>::empty().push(first));
        assert(s.take(n) + s.skip(n) =~= s);
        assert(Seq::<char>::empty() + s.take(n) =~= s.take(n));
    }
}

/// The spans of a line, put together, are the line: highlighting loses
/// and adds no character.
pub proof fn lemma_classify_covers(
    line: Seq<char>,
    mask: Seq<bool>,
    in_comment: bool,
    syntax: SyntaxView,
)
    requires
        mask.len() == line.len(),
    ensures
        spans_text(classify(line, mask, in_comment, syntax).0) == line,
    decreases line.len(),
{
    let whole = Seq::<SpanView>::empty().push(
        SpanView { text: line, category: Category::Comment },
    );
    lemma_spans_text_push(
        Seq::<SpanView>::empty(),
        SpanView { text: line, category: Category::Comment },
    );
    assert(seq![SpanView { text: line, category: Category::Comment }] =~= whole);
    assert(Seq::<char>::empty() + line =~= line);
    if line.len() == 0 {
    } else if in_comment {
        match syntax.block_marks() {
            Some((_, end)) => {
                lemma_position_from(line, end, 0);
                match position(line, end) {
                    Some(p) => {
                        let cut = p + end.len();
                        let head = SpanView { text: line.take(cut), category: Category::Comment };
                        let rest = classify(line.skip(cut), mask.skip(cut), false, syntax);
                        lemma_classify_covers(line.skip(cut), mask.skip(cut), false, syntax);
                        lemma_spans_text_concat(seq![head], rest.0);
                        lemma_spans_text_push(Seq::<SpanView>::empty(), head);
                        assert(seq![head] =~= Seq::<SpanView>::empty().push(head));
                        assert(Seq::<char>::empty() + line.take(cut) =~= line.take(cut));
                        assert(line.take(cut) + line.skip(cut) =~= line);
                    },
                    None => {},
                }
            },
            None => {},
        }
    } else {
        let at_line = mark_position(line, syntax.line_mark());
        let at_block = match syntax.block_marks() {
            Some((begin, _)) => position(line, begin),
            None => None,
        };
        if at_line is Some && (at_block is None || at_line->0 < at_block->0) {
            let p = at_line->0;
            lemma_position_from(line, syntax.line_mark()->0, 0);
            let tail = SpanView { text: line.skip(p), category: Category::Comment };
            let code = code_spans(line.take(p), mask.take(p), syntax.keywords);
            lemma_code_spans_cover(line.take(p), mask.take(p), syntax.keywords);
            lemma_spans_text_push(code, tail);
            assert(code + seq![tail] =~= code.push(tail));
            assert(line.take(p) + line.skip(p) =~= line);
        } else if at_block is Some {
            let p = at_block->0;
            let cut = p + syntax.begin_len();
            match syntax.block_marks() {
                Some((begin, _)) => {
                    lemma_position_from(line, begin, 0);
                },
                None => {},
            }
            let mid = SpanView { text: line.subrange(p, cut), category: Category::Comment };
            let code = code_spans(line.take(p), mask.take(p), syntax.keywords);
            let rest = classify(line.skip(cut), mask.skip(cut), true, syntax);
            lemma_code_spans_cover(line.take(p), mask.take(p), syntax.keywords);
            lemma_classify_covers(line.skip(cut), mask.skip(cut), true, syntax);
            lemma_spans_text_push(code, mid);
            assert(code + seq![mid] =~= code.push(mid));
            lemma_spans_text_concat(code.push(mid), rest.0);
            assert(line.take(p) + line.subrange(p, cut) + line.skip(cut) =~= line);
        } else {
            lemma_code_spans_cover(line, mask, syntax.keywords);
        }
    }
}

/// Tells whether `word` is among `keywords`.
fn is_keyword(keywords: &Vec<Vec<char>>, word: &Vec<char>) -> (r: bool)
    ensures
        r == words_view(keywords@).contains(word@),
{
    let mut i: usize = 0;
    while i < keywords.len()
        invariant
            0 <= i <= keywords.len(),
            forall|j: int| 0 <= j < i ==> words_view(keywords@)[j] != word@,
        decreases keywords.len() - i,
    {
        if same_chars(&keywords[i], word) {
            assert(words_view(keywords@)[i as int] == word@);
            return true;
        }
        i += 1;
    }
    false
}

/// The characters `chars[from..to]` as a vector of their own.
fn slice_of(chars: &Vec<char>, from: usize, to: usize) -> (r: Vec<char>)
    requires
        from <= to <= chars.len(),
    ensures
        r@ == chars@.subrange(from as int, to as int),
{
    let mut out: Vec<char> = Vec::new();
    let mut i: usize = from;
    while i < to
        invariant
            from <= i <= to <= chars.len(),
            out@ == chars@.subrange(from as int, i as int),
        decreases to - i,
    {
        out.push(chars[i]);
        i += 1;
        assert(out@ =~= chars@.subrange(from as int, i as int));
    }
    out
}

/// Adds one span to `out`: the characters `chars[from..to]` with the
/// given category.
fn push_span(out: &mut Vec<Span>, chars: &Vec<char>, from: usize, to: usize, category: Category)
    requires
        from <= to <= chars.len(),
    ensures
        spans_view(final(out)@) == spans_view(old(out)@).push(
            SpanView { text: chars@.subrange(from as int, to as int), category },
        ),
{
    let span = Span { text: string_of(chars, from, to), category };
    out.push(span);
    assert(spans_view(out@) =~= spans_view(old(out)@).push(
        SpanView { text: chars@.subrange(from as int, to as int), category },
    ));
}

/// Adds the spans of the code `chars[from..to]` to `out`.
fn push_code_spans(
    out: &mut Vec<Span>,
    chars: &Vec<char>,
    mask: &Vec<bool>,
    from: usize,
    to: usize,
    keywords: &Vec<Vec<char>>,
)
    requires
        from <= to <= chars.len(),
        mask.len() == chars.len(),
    ensures
        spans_view(final(out)@) == spans_view(old(out)@) + code_spans(
            chars@.subrange(from as int, to as int),
            mask@.subrange(from as int, to as int),
            words_view(keywords@),
        ),
{
    let ghost kw = words_view(keywords@);
    let ghost before = spans_view(out@);
    let ghost goal = code_spans(
        chars@.subrange(from as int, to as int),
        mask@.subrange(from as int, to as int),
        kw,
    );
    let mut i: usize = from;
    assert(before + goal =~= spans_view(out@) + goal);
    while i < to
        invariant
            from <= i <= to <= chars.len(),
            mask.len() == chars.len(),
            kw == words_view(keywords@),
            spans_view(out@) + code_spans(
                chars@.subrange(i as int, to as int),
                mask@.subrange(i as int, to as int),
                kw,
            ) == before + goal,
        decreases to - i,
    {
        let ghost s = chars@.subrange(i as int, to as int);
        let ghost m = mask@.subrange(i as int, to as int);
        let ghost so_far = spans_view(out@);
        let kind: bool = mask[i];
        let mut j: usize = i + 1;
        while j < to && mask[j] == kind
            invariant
                i < j <= to <= chars.len(),
                mask.len() == chars.len(),
                kind == mask@[i as int],
                forall|k: int| i <= k < j ==> mask@[k] == kind,
            decreases to - j,
        {
            j += 1;
        }
        proof {
            assert forall|k: int| 0 <= k < j - i implies #[trigger] m[k] == m[0] by {
                assert(m[k] == mask@[i + k]);
            }
            if j - i < m.len() {
                assert(m[j - i] == mask@[j as int]);
            }
            lemma_run_len_is(m, j - i);
            assert(s.take(j - i) =~= chars@.subrange(i as int, j as int));
            assert(s.skip(j - i) =~= chars@.subrange(j as int, to as int));
            assert(m.skip(j - i) =~= mask@.subrange(j as int, to as int));
        }
        let word: Vec<char> = slice_of(chars, i, j);
        let category: Category = if kind && is_keyword(keywords, &word) {
            Category::Keyword
        } else {
            Category::Plain
        };
        push_span(out, chars, i, j, category);
        proof {
            let first = SpanView { text: chars@.subrange(i as int, j as int), category };
            let tail = code_spans(
                chars@.subrange(j as int, to as int),
                mask@.subrange(j as int, to as int),
                kw,
            );
            assert(code_spans(s, m, kw) == seq![first] + tail);
            assert(so_far.push(first) + tail =~= so_far + (seq![first] + tail));
        }
        i = j;
    }
    assert(chars@.subrange(to as int, to as int) =~= Seq::<char>::empty());
    assert(spans_view(out@) + Seq::<SpanView>::empty() =~= spans_view(out@));
}

/// The rules of highlighting with their texts as characters, ready to be
/// searched for.
struct Marks {
    line: Option<Vec<char>>,
    begin: Option<Vec<char>>,
    end: Option<Vec<char>>,
    keywords: Vec<Vec<char>>,
}

impl Marks {
    /// The marks are those of `syntax`, as far as they can be searched for.
    spec fn agrees(&self, syntax: SyntaxView) -> bool {
        &&& syntax.line_mark() == (match self.line {
            Some(m) => Some(m@),
            None => None,
        })
        &&& self.begin is Some <==> self.end is Some
        &&& syntax.block_marks() == (match (self.begin, self.end) {
            (Some(b), Some(e)) => Some((b@, e@)),
            _ => None,
        })
        &&& syntax.keywords == words_view(self.keywords@)
    }

    /// The marks and keywords of `syntax` as characters.
    fn of(syntax: &SyntaxHighlight) -> (r: Marks)
        ensures
            r.agrees(syntax@),
    {
        let line: Option<Vec<char>> = match &syntax.comment.line_comment_mark {
            Some(mark) => {
                let m: Vec<char> = chars_of(mark.as_str());
                if m.len() > 0 {
                    Some(m)
                } else {
                    None
                }
            },
            None => None,
        };
        let (begin, end): (Option<Vec<char>>, Option<Vec<char>>) =
            match &syntax.comment.multi_comment_mark {
            Some((begin, end)) => {
                let b: Vec<char> = chars_of(begin.as_str());
                let e: Vec<char> = chars_of(end.as_str());
                if b.len() > 0 && e.len() > 0 {
                    (Some(b), Some(e))
                } else {
                    (None, None)
                }
            },
            None => (None, None),
        };
        let mut keywords: Vec<Vec<char>> = Vec::new();
        let mut i: usize = 0;
        while i < syntax.keyword.keywords.len()
            invariant
                0 <= i <= syntax.keyword.keywords@.len(),
                keywords@.len() == i,
                forall|j: int| 0 <= j < i ==> (#[trigger] keywords@[j])@ == syntax.keyword.keywords@[j]@,
            decreases syntax.keyword.keywords@.len() - i,
        {
            keywords.push(chars_of(syntax.keyword.keywords[i].as_str()));
            i += 1;
        }
        assert(syntax@.keywords =~= words_view(keywords@));
        Marks { line, begin, end, keywords }
    }
}

/// Searches for an optional mark from position `from` on.
fn find_mark(line: &Vec<char>, mark: &Option<Vec<char>>, from: usize) -> (r: Option<usize>)
    requires
        from <= line.len(),
    ensures
        match r {
            Some(p) => {
                &&& mark is Some
                &&& from <= p
                &&& p + mark->0@.len() <= line.len()
                &&& position(line@.skip(from as int), mark->0@) == Some(p - from)
            },
            None => mark is Some ==> position(line@.skip(from as int), mark->0@) is None,
        },
{
    match mark {
        Some(m) => {
            proof {
                lemma_position_skip(line@, m@, from as int);
                lemma_position_from(line@, m@, from as int);
            }
            find_from(line, m, from)
        },
        None => None,
    }
}

/// Cuts a line, given as its characters, into spans. `mask` says of every
/// character whether it may stand in a word; `in_comment` says whether a
/// comment that spans lines is open at the start of the line. Returns the
/// spans and whether such a comment is open at the end.
pub fn classify_with(
    line: &Vec<char>,
    mask: &Vec<bool>,
    in_comment: bool,
    syntax: &SyntaxHighlight,
) -> (r: (Vec<Span>, bool))
    requires
        mask.len() == line.len(),
    ensures
        spans_view(r.0@) == classify(line@, mask@, in_comment, syntax@).0,
        r.1 == classify(line@, mask@, in_comment, syntax@).1,
        spans_text(spans_view(r.0@)) == line@,
{
    let marks = Marks::of(syntax);
    proof {
        lemma_classify_covers(line@, mask@, in_comment, syntax@);
    }
    let ghost goal = classify(line@, mask@, in_comment, syntax@);
    let ghost sv = syntax@;
    let n: usize = line.len();
    let mut out: Vec<Span> = Vec::new();
    let mut i: usize = 0;
    let mut inside: bool = in_comment;
    assert(line@.skip(0) =~= line@);
    assert(mask@.skip(0) =~= mask@);
    assert(spans_view(out@) + goal.0 =~= goal.0);
    while i < n
        invariant
            0 <= i <= n,
            n == line.len(),
            mask.len() == line.len(),
            sv == syntax@,
            marks.agrees(sv),
            spans_view(out@) + classify(line@.skip(i as int), mask@.skip(i as int), inside, sv).0
                == goal.0,
            classify(line@.skip(i as int), mask@.skip(i as int), inside, sv).1 == goal.1,
        decreases n - i,
    {
        let ghost rest = line@.skip(i as int);
        let ghost rmask = mask@.skip(i as int);
        let ghost so_far = spans_view(out@);
        if inside {
            match find_mark(line, &marks.end, i) {
                Some(p) => {
                    let cut: usize = p + marks.end.as_ref().unwrap().len();
                    push_span(&mut out, line, i, cut, Category::Comment);
                    proof {
                        let head = SpanView {
                            text: line@.subrange(i as int, cut as int),
                            category: Category::Comment,
                        };
                        let tail = classify(
                            line@.skip(cut as int),
                            mask@.skip(cut as int),
                            false,
                            sv,
                        );
                        assert(rest.take(cut - i) =~= line@.subrange(i as int, cut as int));
                        assert(rest.skip(cut - i) =~= line@.skip(cut as int));
                        assert(rmask.skip(cut - i) =~= mask@.skip(cut as int));
                        assert(classify(rest, rmask, true, sv).0 == seq![head] + tail.0);
                        assert(so_far.push(head) + tail.0 =~= so_far + (seq![head] + tail.0));
                    }
                    i = cut;
                    inside = false;
                },
                None => {
                    push_span(&mut out, line, i, n, Category::Comment);
                    proof {
                        let head = SpanView { text: rest, category: Category::Comment };
                        assert(rest =~= line@.subrange(i as int, n as int));
                        assert(classify(rest, rmask, true, sv).0 == seq![head]);
                        assert(line@.skip(n as int) =~= Seq::<char>::empty());
                        assert(so_far.push(head) + Seq::<SpanView>::empty() =~= so_far + seq![head]);
                    }
                    i = n;
                },
            }
        } else {
            let at_line: Option<usize> = find_mark(line, &marks.line, i);
            let at_block: Option<usize> = find_mark(line, &marks.begin, i);
            let line_first: bool = match (at_line, at_block) {
                (Some(l), Some(b)) => l < b,
                (Some(_), None) => true,
                _ => false,
            };
            if line_first {
                let p: usize = at_line.unwrap();
                push_code_spans(&mut out, line, mask, i, p, &marks.keywords);
                push_span(&mut out, line, p, n, Category::Comment);
                proof {
                    let code = code_spans(rest.take(p - i), rmask.take(p - i), sv.keywords);
                    let tail = SpanView { text: rest.skip(p - i), category: Category::Comment };
                    assert(rest.take(p - i) =~= line@.subrange(i as int, p as int));
                    assert(rmask.take(p - i) =~= mask@.subrange(i as int, p as int));
                    assert(rest.skip(p - i) =~= line@.subrange(p as int, n as int));
                    assert(classify(rest, rmask, false, sv).0 == code + seq![tail]);
                    assert(line@.skip(n as int) =~= Seq::<char>::empty());
                    assert((so_far + code).push(tail) + Seq::<SpanView>::empty() =~= so_far + (code
                        + seq![tail]));
                }
                i = n;
            } else if at_block.is_some() {
                let p: usize = at_block.unwrap();
                let cut: usize = p + marks.begin.as_ref().unwrap().len();
                push_code_spans(&mut out, line, mask, i, p, &marks.keywords);
                push_span(&mut out, line, p, cut, Category::Comment);
                proof {
                    let code = code_spans(rest.take(p - i), rmask.take(p - i), sv.keywords);
                    let mid = SpanView {
                        text: rest.subrange(p - i, cut - i),
                        category: Category::Comment,
                    };
                    let tail = classify(line@.skip(cut as int), mask@.skip(cut as int), true, sv);
                    assert(rest.take(p - i) =~= line@.subrange(i as int, p as int));
                    assert(rmask.take(p - i) =~= mask@.subrange(i as int, p as int));
                    assert(rest.subrange(p - i, cut - i) =~= line@.subrange(p as int, cut as int));
                    assert(rest.skip(cut - i) =~= line@.skip(cut as int));
                    assert(rmask.skip(cut - i) =~= mask@.skip(cut as int));
                    assert(sv.begin_len() == cut - p);
                    assert(classify(rest, rmask, false, sv).0 == code + seq![mid] + tail.0);
                    assert((so_far + code).push(mid) + tail.0 =~= so_far + (code + seq![mid]
                        + tail.0));
                }
                i = cut;
                inside = true;
            } else {
                push_code_spans(&mut out, line, mask, i, n, &marks.keywords);
                proof {
                    let code = code_spans(rest, rmask, sv.keywords);
                    assert(rest =~= line@.subrange(i as int, n as int));
                    assert(rmask =~= mask@.subrange(i as int, n as int));
                    assert(classify(rest, rmask, false, sv).0 == code);
                    assert(line@.skip(n as int) =~= Seq::<char>::empty());
                    assert((so_far + code) + Seq::<SpanView>::empty() =~= so_far + code);
                }
                i = n;
            }
        }
    }
    assert(line@.skip(n as int) =~= Seq::<char>::empty());
    assert(spans_view(out@) + Seq::<SpanView>::empty() =~= spans_view(out@));
    (out, inside)
}

/// Says of every character of a line whether it may stand in a word.
pub fn mask_of(line: &Vec<char>) -> (r: Vec<bool>)
    ensures
        r@ == word_mask(line@),
{
    let mut mask: Vec<bool> = Vec::new();
    let mut i: usize = 0;
    while i < line.len()
        invariant
            0 <= i <= line.len(),
            mask@.len() == i,
            forall|j: int| 0 <= j < i ==> mask@[j] == (line@[j] == '_' || alphabetic(line@[j])),
        decreases line.len() - i,
    {
        let c: char = line[i];
        mask.push(c == '_' || is_alphabetic(c));
        i += 1;
    }
    assert(mask@ =~= word_mask(line@));
    mask
}

/// Cuts a line into spans. `in_comment` says whether a comment that spans
/// lines is open at the start of the line; the second result says whether one
/// is open at its end.
pub fn classify_line(line: &str, in_comment: bool, syntax: &SyntaxHighlight) -> (r: (
    Vec<Span>,
    bool,
))
    ensures
        spans_view(r.0@) == classify(line@, word_mask(line@), in_comment, syntax@).0,
        r.1 == classify(line@, word_mask(line@), in_comment, syntax@).1,
        spans_text(spans_view(r.0@)) == line@,
{
    let chars: Vec<char> = chars_of(line);
    let mask: Vec<bool> = mask_of(&chars);
    classify_with(&chars, &mask, in_comment, syntax)
}

/// The views of a list of lists of spans.
pub open spec fn lines_spans_view(lines: Seq<Vec<Span>>) -> Seq<Seq<SpanView>> {
    Seq::new(lines.len(), |i: int| spans_view(lines[i]@))
}

/// The views of a list of strings.
pub open spec fn strings_view(lines: Seq<String>) -> Seq<Seq<char>> {
    Seq::new(lines.len(), |i: int| lines[i]@)
}

/// Cuts every line of a list into spans. The first line starts outside a
/// comment; every other line starts as the line before it ends.
pub fn highlight(lines: &Vec<String>, syntax: &SyntaxHighlight) -> (r: Vec<Vec<Span>>)
    ensures
        lines_spans_view(r@) == classify_lines(strings_view(lines@), syntax@),
        r@.len() == lines@.len(),
        forall|i: int| 0 <= i < r@.len() ==> spans_text(spans_view(#[trigger] r@[i]@)) == lines@[i]@,
{
    let ghost all = strings_view(lines@);
    let mut out: Vec<Vec<Span>> = Vec::new();
    let mut inside: bool = false;
    let mut i: usize = 0;
    assert(all.take(0) =~= Seq::<Seq<char>>::empty());
    assert(lines_spans_view(out@) =~= classify_lines(all.take(0), syntax@));
    while i < lines.len()
        invariant
            0 <= i <= lines.len(),
            all == strings_view(lines@),
            out@.len() == i,
            lines_spans_view(out@) == classify_lines(all.take(i as int), syntax@),
            inside == open_after(all.take(i as int), syntax@),
            forall|k: int|
                0 <= k < i ==> spans_text(spans_view(#[trigger] out@[k]@)) == lines@[k]@,
        decreases lines.len() - i,
    {
        proof {
            assert(all.take(i + 1).drop_last() =~= all.take(i as int));
            assert(all.take(i + 1).last() == lines@[i as int]@);
        }
        let ghost before = out@;
        let (spans, after) = classify_line(lines[i].as_str(), inside, syntax);
        out.push(spans);
        inside = after;
        proof {
            assert(lines_spans_view(out@) =~= lines_spans_view(before).push(spans_view(spans@)));
            assert forall|k: int| 0 <= k < i + 1 implies spans_text(
                spans_view(#[trigger] out@[k]@),
            ) == lines@[k]@ by {
                if k < i {
                    assert(out@[k] == before[k]);
                }
            }
        }
        i += 1;
    }
    assert(all.take(i as int) =~= all);
    out
}

} // verus!
