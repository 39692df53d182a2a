//! Serialized CSS.
//!
//! What is written of a rule is text but for the percentages of its
//! selectors. A percentage is a number with a fraction, and how such a
//! number is written in decimal is not decided here: it is handed out as it
//! is, between the pieces of text around it.

use vstd::prelude::*;
use vstd::string::*;
use crate::percentage::KeyframePercentage;
use crate::views::{lemma_views_push, views};

verus! {

/// One piece of serialized CSS.
#[derive(Clone, Debug, PartialEq, Eq)]
pub enum CssFragment {
    /// Text, to be written as it is.
    Text(String),
    /// A percentage, to be written as the number times one hundred and a
    /// percent sign.
    Percentage(KeyframePercentage),
}

/// What a fragment is in contracts.
pub enum CssFragmentView {
    Text(Seq<char>),
    Percentage(KeyframePercentage),
}

impl View for CssFragment {
    type V = CssFragmentView;

    open spec fn view(&self) -> CssFragmentView {
        match *self {
            CssFragment::Text(text) => CssFragmentView::Text(text@),
            CssFragment::Percentage(percentage) => CssFragmentView::Percentage(percentage),
        }
    }
}

/// The one piece of text `text`.
pub open spec fn text(text: Seq<char>) -> Seq<CssFragmentView> {
    seq![CssFragmentView::Text(text)]
}

/// Writes `text` at the end of `dest`.
pub fn write_str(dest: &mut Vec<CssFragment>, text: &str)
    ensures
        views(final(dest)@) == views(old(dest)@) + self::text(text@),
{
    let fragment = CssFragment::Text(String::from_str(text));
    proof {
        lemma_views_push(dest@, fragment);
        assert(views(dest@).push(fragment@) =~= views(dest@) + self::text(text@));
    }
    dest.push(fragment);
}

/// Writes `percentage` at the end of `dest`.
pub fn write_percentage(dest: &mut Vec<CssFragment>, percentage: KeyframePercentage)
    ensures
        views(final(dest)@) == views(old(dest)@) + seq![CssFragmentView::Percentage(percentage)],
{
    let fragment = CssFragment::Percentage(percentage);
    proof {
        lemma_views_push(dest@, fragment);
        assert(views(dest@).push(fragment@) =~= views(dest@) + seq![
            CssFragmentView::Percentage(percentage),
        ]);
    }
    dest.push(fragment);
}

} // verus!
