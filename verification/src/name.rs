//! The name of an animation.

use vstd::prelude::*;
use vstd::string::*;
use crate::css::{text, write_str, CssFragment};
use crate::views::views;

verus! {

/// The name that an `@keyframes` rule gives its animation: an identifier or
/// a quoted string.
#[derive(Clone, Debug, PartialEq, Eq)]
pub enum KeyframesName {
    Ident(String),
    QuotedString(String),
}

/// What a name is in contracts.
pub enum KeyframesNameView {
    Ident(Seq<char>),
    QuotedString(Seq<char>),
}

impl View for KeyframesName {
    type V = KeyframesNameView;

    open spec fn view(&self) -> KeyframesNameView {
        match *self {
            KeyframesName::Ident(name) => KeyframesNameView::Ident(name@),
            KeyframesName::QuotedString(name) => KeyframesNameView::QuotedString(name@),
        }
    }
}

/// `value` written as a CSS identifier, with the escapes that `cssparser`
/// puts where a character could not stand in an identifier as it is.
pub uninterp spec fn serialized_identifier(value: Seq<char>) -> Seq<char>;

/// `value` written as a CSS string between double quotes, with the escapes
/// that `cssparser` puts where a character could not stand in a string as it
/// is.
pub uninterp spec fn serialized_string(value: Seq<char>) -> Seq<char>;

/// Calls `cssparser::serialize_identifier`, which writes `value` as a CSS
/// identifier.
#[verifier::external_body]
fn serialize_identifier(value: &str) -> (css: String)
    ensures
        css@ == serialized_identifier(value@),
{
    let mut css = String::new();
    let _ = cssparser::serialize_identifier(value, &mut css);
    css
}

/// Calls `cssparser::serialize_string`, which writes `value` as a CSS string
/// between double quotes.
#[verifier::external_body]
fn serialize_string(value: &str) -> (css: String)
    ensures
        css@ == serialized_string(value@),
{
    let mut css = String::new();
    let _ = cssparser::serialize_string(value, &mut css);
    css
}

impl KeyframesNameView {
    /// What the name is written as: an identifier as an identifier, a string
    /// as a string.
    pub open spec fn to_css(self) -> Seq<char> {
        match self {
            KeyframesNameView::Ident(name) => serialized_identifier(name),
            KeyframesNameView::QuotedString(name) => serialized_string(name),
        }
    }
}

impl KeyframesName {
    /// Writes the name at the end of `dest`.
    pub fn to_css(&self, dest: &mut Vec<CssFragment>)
        ensures
            views(final(dest)@) == views(old(dest)@) + text(self@.to_css()),
    {
        let css = match self {
            KeyframesName::Ident(name) => serialize_identifier(name.as_str()),
            KeyframesName::QuotedString(name) => serialize_string(name.as_str()),
        };
        write_str(dest, css.as_str());
    }

    /// An independent copy of the name.
    pub fn deep_clone(&self) -> (copy: KeyframesName)
        ensures
            copy@ == self@,
    {
        match self {
            KeyframesName::Ident(name) => KeyframesName::Ident(name.clone()),
            KeyframesName::QuotedString(name) => KeyframesName::QuotedString(name.clone()),
        }
    }
}

} // verus!
