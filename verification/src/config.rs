//! The settings of an editor.

pub mod syntax_highlight;

use crate::config::syntax_highlight::{SyntaxHighlight, SyntaxView};
use crate::util::Rgb;
use vstd::prelude::*;

verus! {

/// The settings: whether line numbers are shown, and how syntax is
/// highlighted.
#[derive(Debug, Clone, PartialEq, Eq)]
pub struct Config {
    pub visible_line_number: bool,
    pub syntax_highlight: SyntaxHighlight,
}

impl Default for Config {
    /// No line numbers and the default rules of highlighting.
    fn default() -> (r: Config)
        ensures
            !r.visible_line_number,
            r.syntax_highlight@ == (SyntaxView {
                line_comment_mark: None,
                multi_comment_mark: None,
                comment_color: Rgb(0, 0, 0),
                keywords: Seq::<Seq<char>>::empty(),
                keyword_color: Rgb(0, 0, 0),
            }),
    {
        Config { visible_line_number: false, syntax_highlight: SyntaxHighlight::default() }
    }
}

} // verus!
