//! The point of an animation's duration at which a keyframe applies.

use vstd::prelude::*;
use vstd::string::*;
use crate::error::ParseErrorKind;
use crate::tokenizer::{Token, TokenView};

verus! {

/// The bit pattern of the single-precision number zero.
pub const ZERO_BITS: u32 = 0;

/// The bit pattern of the single-precision number one.
pub const ONE_BITS: u32 = 0x3F80_0000;

/// The bit pattern of the single-precision number minus zero.
pub const NEGATIVE_ZERO_BITS: u32 = 0x8000_0000;

/// A number from zero to one: the fraction of an animation's duration at
/// which a keyframe applies.
///
/// The number is held as the bit pattern of a single-precision number.
/// Among the patterns from `ZERO_BITS` to `ONE_BITS` the order of the
/// patterns is the order of the numbers they stand for, and two patterns
/// are equal exactly where the numbers are.
#[derive(Clone, Copy, Debug, PartialEq, Eq, PartialOrd, Ord, Hash, Structural)]
pub struct KeyframePercentage(pub u32);

impl KeyframePercentage {
    /// Whether the pattern stands for a number from zero to one.
    pub open spec fn in_range(self) -> bool {
        self.0 <= ONE_BITS
    }

    /// The percentage with the given bit pattern.
    #[inline]
    pub fn new(bits: u32) -> (percentage: KeyframePercentage)
        requires
            bits <= ONE_BITS,
        ensures
            percentage == KeyframePercentage(bits),
            percentage.in_range(),
    {
        KeyframePercentage(bits)
    }

    /// The percentage that a single-precision number with the given bit
    /// pattern stands for, if the number lies between zero and one. Minus
    /// zero is zero; a number below zero or above one, an infinity or a
    /// not-a-number gives `None`.
    pub fn from_bits(bits: u32) -> (percentage: Option<KeyframePercentage>)
        ensures
            percentage == Self::of_bits(bits),
    {
        if bits <= ONE_BITS {
            Some(KeyframePercentage(bits))
        } else if bits == NEGATIVE_ZERO_BITS {
            Some(KeyframePercentage(ZERO_BITS))
        } else {
            None
        }
    }

    /// The percentage that a bit pattern stands for: see `from_bits`.
    pub open spec fn of_bits(bits: u32) -> Option<KeyframePercentage> {
        if bits <= ONE_BITS {
            Some(KeyframePercentage(bits))
        } else if bits == NEGATIVE_ZERO_BITS {
            Some(KeyframePercentage(ZERO_BITS))
        } else {
            None
        }
    }

    /// Whether this is the start of the animation, exactly.
    pub fn is_start(&self) -> (start: bool)
        ensures
            start == (self.0 == ZERO_BITS),
    {
        self.0 == ZERO_BITS
    }

    /// Whether this is the end of the animation, exactly.
    pub fn is_end(&self) -> (end: bool)
        ensures
            end == (self.0 == ONE_BITS),
    {
        self.0 == ONE_BITS
    }

    /// The percentage that one token stands for: the keywords `from` and
    /// `to`, in any case, are zero and one; a percentage token stands for
    /// itself if it lies between zero and one.
    pub open spec fn of_token(token: TokenView) -> Result<KeyframePercentage, ParseErrorKind> {
        match token {
            TokenView::Ident(name) => {
                if is_from(name) {
                    Ok(KeyframePercentage(ZERO_BITS))
                } else if is_to(name) {
                    Ok(KeyframePercentage(ONE_BITS))
                } else {
                    Err(ParseErrorKind::UnexpectedToken)
                }
            },
            TokenView::Percentage(bits) => match Self::of_bits(bits) {
                Some(percentage) => Ok(percentage),
                None => Err(ParseErrorKind::UnspecifiedError),
            },
            _ => Err(ParseErrorKind::UnexpectedToken),
        }
    }

    /// Reads a percentage from one token.
    pub fn parse(token: &Token) -> (parsed: Result<KeyframePercentage, ParseErrorKind>)
        ensures
            parsed == Self::of_token(token@),
            parsed matches Ok(percentage) ==> percentage.in_range(),
    {
        match token {
            Token::Ident(name) => {
                if name_is_from(name.as_str()) {
                    Ok(KeyframePercentage(ZERO_BITS))
                } else if name_is_to(name.as_str()) {
                    Ok(KeyframePercentage(ONE_BITS))
                } else {
                    Err(ParseErrorKind::UnexpectedToken)
                }
            },
            Token::Percentage(bits) => match Self::from_bits(*bits) {
                Some(percentage) => Ok(percentage),
                None => Err(ParseErrorKind::UnspecifiedError),
            },
            _ => Err(ParseErrorKind::UnexpectedToken),
        }
    }
}

/// Whether `c` is the letter `lower`, in either case. `lower` is a small
/// letter and `upper` its capital.
pub open spec fn is_letter(c: char, lower: char, upper: char) -> bool {
    c == lower || c == upper
}

/// Whether `name` is the keyword `from`, in any case.
pub open spec fn is_from(name: Seq<char>) -> bool {
    &&& name.len() == 4
    &&& is_letter(name[0], 'f', 'F')
    &&& is_letter(name[1], 'r', 'R')
    &&& is_letter(name[2], 'o', 'O')
    &&& is_letter(name[3], 'm', 'M')
}

/// Whether `name` is the keyword `to`, in any case.
pub open spec fn is_to(name: Seq<char>) -> bool {
    &&& name.len() == 2
    &&& is_letter(name[0], 't', 'T')
    &&& is_letter(name[1], 'o', 'O')
}

fn letter_at(name: &str, index: usize, lower: char, upper: char) -> (same: bool)
    requires
        index < name@.len(),
    ensures
        same == is_letter(name@[index as int], lower, upper),
{
    let c = name.get_char(index);
    c == lower || c == upper
}

fn name_is_from(name: &str) -> (from: bool)
    ensures
        from == is_from(name@),
{
    name.unicode_len() == 4 && letter_at(name, 0, 'f', 'F') && letter_at(name, 1, 'r', 'R')
        && letter_at(name, 2, 'o', 'O') && letter_at(name, 3, 'm', 'M')
}

fn name_is_to(name: &str) -> (to: bool)
    ensures
        to == is_to(name@),
{
    name.unicode_len() == 2 && letter_at(name, 0, 't', 'T') && letter_at(name, 1, 'o', 'O')
}

} // verus!
