//! How comments and keywords are told apart and coloured.

use crate::util::Rgb;
use vstd::prelude::*;

verus! {

/// The marks that open comments, and the colour of comments.
#[derive(Debug, Clone, PartialEq, Eq)]
pub struct Comment {
    /// What opens a comment that runs to the end of its line.
    pub line_comment_mark: Option<String>,
    /// What opens and what closes a comment that may span lines.
    pub multi_comment_mark: Option<(String, String)>,
    pub color: Rgb,
}

/// The keywords, and their colour. Neither the order of the keywords nor
/// a repetition among them means anything.
#[derive(Debug, Clone, PartialEq, Eq)]
pub struct Keyword {
    pub keywords: Vec<String>,
    pub color: Rgb,
}

/// The rules of syntax highlighting.
#[derive(Debug, Clone, PartialEq, Eq)]
pub struct SyntaxHighlight {
    pub comment: Comment,
    pub keyword: Keyword,
}

/// The rules of syntax highlighting as plain characters.
pub struct SyntaxView {
    pub line_comment_mark: Option<Seq<char>>,
    pub multi_comment_mark: Option<(Seq<char>, Seq<char>)>,
    pub comment_color: Rgb,
    pub keywords: Seq<Seq<char>>,
    pub keyword_color: Rgb,
}

impl View for SyntaxHighlight {
    type V = SyntaxView;

    open spec fn view(&self) -> SyntaxView {
        SyntaxView {
            line_comment_mark: match self.comment.line_comment_mark {
                Some(mark) => Some(mark@),
                None => None,
            },
            multi_comment_mark: match self.comment.multi_comment_mark {
                Some((begin, end)) => Some((begin@, end@)),
                None => None,
            },
            comment_color: self.comment.color,
            keywords: Seq::new(
                self.keyword.keywords@.len(),
                |i: int| self.keyword.keywords@[i]@,
            ),
            keyword_color: self.keyword.color,
        }
    }
}

impl Default for SyntaxHighlight {
    /// No marks, no keywords, everything black.
    fn default() -> (r: SyntaxHighlight)
        ensures
            r@ == (SyntaxView {
                line_comment_mark: None,
                multi_comment_mark: None,
                comment_color: Rgb(0, 0, 0),
                keywords: Seq::<Seq<char>>::empty(),
                keyword_color: Rgb(0, 0, 0),
            }),
    {
        let r = SyntaxHighlight {
            comment: Comment {
                line_comment_mark: None,
                multi_comment_mark: None,
                color: Rgb(0, 0, 0),
            },
            keyword: Keyword { keywords: Vec::new(), color: Rgb(0, 0, 0) },
        };
        assert(r@.keywords =~= Seq::<Seq<char>>::empty());
        r
    }
}

} // verus!
