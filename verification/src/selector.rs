//! The selector of a keyframe: the list of percentages at which it applies.

use vstd::prelude::*;
use vstd::string::*;
use crate::css::{text, write_percentage, write_str, CssFragment, CssFragmentView};
use crate::error::ParseErrorKind;
use crate::percentage::{KeyframePercentage, ONE_BITS};
use crate::tokenizer::{
    all_settled,
    lexemes_of,
    reads_as,
    significant,
    significant_tokens,
    tokenize,
    tokens_of,
    Lexeme,
    LexemeView,
    Token,
    TokenView,
};
use crate::views::views;

verus! {

/// What holds of the percentages of every selector: there is at least one,
/// and each lies between zero and one. Nothing else is asked: a percentage
/// may occur more than once, and a larger one may come before a smaller one.
pub open spec fn selector_wf(percentages: Seq<KeyframePercentage>) -> bool {
    &&& percentages.len() > 0
    &&& forall|i: int| 0 <= i < percentages.len() ==> (#[trigger] percentages[i]).in_range()
}

/// The percentages that a keyframe is declared for, in the order in which
/// they were written: at least one, each between zero and one.
#[derive(Debug, PartialEq, Eq)]
pub struct KeyframeSelector(Vec<KeyframePercentage>);

impl Clone for KeyframeSelector {
    fn clone(&self) -> (copy: KeyframeSelector)
        ensures
            copy@ == self@,
    {
        self.deep_clone()
    }
}

impl View for KeyframeSelector {
    type V = Seq<KeyframePercentage>;

    closed spec fn view(&self) -> Seq<KeyframePercentage> {
        self.0@
    }
}

impl KeyframeSelector {
    #[verifier::type_invariant]
    spec fn well_formed(&self) -> bool {
        selector_wf(self.0@)
    }

    /// The percentages of the selector: at least one, each between zero and
    /// one.
    #[inline]
    pub fn percentages(&self) -> (percentages: &[KeyframePercentage])
        ensures
            percentages@ == self@,
            selector_wf(self@),
    {
        proof {
            use_type_invariant(self);
        }
        self.0.as_slice()
    }

    /// The selector with the given percentages.
    pub fn new_for_unit_testing(percentages: Vec<KeyframePercentage>) -> (selector:
        KeyframeSelector)
        requires
            selector_wf(percentages@),
        ensures
            selector@ == percentages@,
    {
        KeyframeSelector(percentages)
    }

    /// The selector with the given percentages, if there is at least one and
    /// each lies between zero and one.
    pub fn new(percentages: Vec<KeyframePercentage>) -> (selector: Option<KeyframeSelector>)
        ensures
            match selector {
                Some(selector) => selector_wf(percentages@) && selector@ == percentages@,
                None => !selector_wf(percentages@),
            },
    {
        if percentages.len() == 0 {
            return None;
        }
        let mut i: usize = 0;
        while i < percentages.len()
            invariant
                i <= percentages@.len(),
                forall|j: int| 0 <= j < i ==> (#[trigger] percentages@[j]).in_range(),
            decreases percentages.len() - i,
        {
            if percentages[i].0 > ONE_BITS {
                assert(!percentages@[i as int].in_range());
                return None;
            }
            i += 1;
        }
        Some(KeyframeSelector(percentages))
    }

    /// Whether the two selectors hold the same percentages in the same
    /// order.
    pub fn same_as(&self, other: &KeyframeSelector) -> (same: bool)
        ensures
            same == (self@ == other@),
    {
        if self.0.len() != other.0.len() {
            return false;
        }
        let mut i: usize = 0;
        while i < self.0.len()
            invariant
                i <= self.0.len(),
                self.0.len() == other.0.len(),
                forall|j: int| 0 <= j < i ==> self@[j] == other@[j],
            decreases self.0.len() - i,
        {
            if self.0[i].0 != other.0[i].0 {
                return false;
            }
            i += 1;
        }
        assert(self@ =~= other@);
        true
    }

    /// An independent copy of the selector.
    pub fn deep_clone(&self) -> (copy: KeyframeSelector)
        ensures
            copy@ == self@,
    {
        let mut percentages: Vec<KeyframePercentage> = Vec::new();
        let mut i: usize = 0;
        while i < self.0.len()
            invariant
                i <= self.0.len(),
                percentages@ == self@.take(i as int),
            decreases self.0.len() - i,
        {
            percentages.push(self.0[i]);
            i += 1;
            assert(percentages@ =~= self@.take(i as int));
        }
        assert(percentages@ =~= self@);
        proof {
            use_type_invariant(self);
        }
        KeyframeSelector(percentages)
    }
}

/// The selector that significant tokens spell: one percentage or keyword,
/// or several with a comma between one and the next, and nothing else.
/// The first token that does not fit decides the error. Where a percentage
/// or keyword is due and the tokens end, or a comma stands, the error is
/// that of input that ends too early.
pub open spec fn selector_of(tokens: Seq<TokenView>) -> Result<
    Seq<KeyframePercentage>,
    ParseErrorKind,
>
    decreases tokens.len(),
{
    if tokens.len() == 0 || tokens[0] == TokenView::Comma {
        Err(ParseErrorKind::EndOfInput)
    } else {
        match KeyframePercentage::of_token(tokens[0]) {
            Err(error) => Err(error),
            Ok(percentage) => {
                if tokens.len() == 1 {
                    Ok(seq![percentage])
                } else if tokens[1] != TokenView::Comma {
                    Err(ParseErrorKind::UnexpectedToken)
                } else {
                    match selector_of(tokens.skip(2)) {
                        Ok(others) => Ok(seq![percentage] + others),
                        Err(error) => Err(error),
                    }
                }
            },
        }
    }
}

/// The selector that lexemes spell. White space and comments may stand
/// anywhere between the other tokens.
pub open spec fn selector_of_lexemes(lexemes: Seq<LexemeView>) -> Result<
    Seq<KeyframePercentage>,
    ParseErrorKind,
> {
    selector_of(significant(tokens_of(lexemes)))
}

/// The selector that a text spells, where the text decides it: where none
/// of its percentages is written with an exponent.
pub open spec fn selector_of_text(css: Seq<char>) -> Result<Seq<KeyframePercentage>, ParseErrorKind> {
    selector_of_lexemes(lexemes_of(css))
}

/// Whether `parsed` is `expected`, with the selector taken by its view.
pub open spec fn selector_is(
    parsed: Result<KeyframeSelector, ParseErrorKind>,
    expected: Result<Seq<KeyframePercentage>, ParseErrorKind>,
) -> bool {
    match parsed {
        Ok(selector) => expected == Ok::<Seq<KeyframePercentage>, ParseErrorKind>(selector@),
        Err(error) => expected == Err::<Seq<KeyframePercentage>, ParseErrorKind>(error),
    }
}

/// `percentages` put in front of what follows: of a selector, or of the
/// error that was found behind them.
pub open spec fn followed_by(
    percentages: Seq<KeyframePercentage>,
    others: Result<Seq<KeyframePercentage>, ParseErrorKind>,
) -> Result<Seq<KeyframePercentage>, ParseErrorKind> {
    match others {
        Ok(others) => Ok(percentages + others),
        Err(error) => Err(error),
    }
}

/// What a selector is written as: its percentages, with a comma and a space
/// between one and the next.
pub open spec fn selector_css(percentages: Seq<KeyframePercentage>) -> Seq<CssFragmentView>
    decreases percentages.len(),
{
    if percentages.len() == 0 {
        Seq::empty()
    } else if percentages.len() == 1 {
        seq![CssFragmentView::Percentage(percentages[0])]
    } else {
        selector_css(percentages.drop_last()) + text(seq![',', ' ']) + seq![
            CssFragmentView::Percentage(percentages.last()),
        ]
    }
}

/// Every percentage of a selector that tokens spell lies between zero and
/// one, and there is at least one.
pub proof fn lemma_selector_in_range(tokens: Seq<TokenView>)
    ensures
        selector_of(tokens) matches Ok(percentages) ==> selector_wf(percentages),
    decreases tokens.len(),
{
    if tokens.len() > 1 {
        lemma_selector_in_range(tokens.skip(2));
    }
}

/// What tokens that spell a selector look like: a percentage or keyword at
/// every even place, a comma at every odd place, and a percentage or keyword
/// at the end. Nothing else is asked: a percentage may come twice, and a
/// larger one may come before a smaller one.
pub proof fn lemma_selector_shape(tokens: Seq<TokenView>)
    ensures
        selector_of(tokens) matches Ok(percentages) ==> {
            &&& tokens.len() == 2 * percentages.len() - 1
            &&& forall|k: int|
                0 <= k < percentages.len() ==> KeyframePercentage::of_token(#[trigger] tokens[2 * k])
                    == Ok::<KeyframePercentage, ParseErrorKind>(percentages[k])
            &&& forall|k: int|
                0 <= k < percentages.len() - 1 ==> #[trigger] tokens[2 * k + 1] == TokenView::Comma
        },
    decreases tokens.len(),
{
    if tokens.len() > 1 {
        let rest = tokens.skip(2);
        lemma_selector_shape(rest);
        if let Ok(percentages) = selector_of(tokens) {
            let others = selector_of(rest)->Ok_0;
            assert forall|k: int| 0 <= k < percentages.len() implies KeyframePercentage::of_token(
                #[trigger] tokens[2 * k],
            ) == Ok::<KeyframePercentage, ParseErrorKind>(percentages[k]) by {
                if k > 0 {
                    assert(tokens[2 * k] == rest[2 * (k - 1)]);
                    assert(percentages[k] == others[k - 1]);
                }
            }
            assert forall|k: int| 0 <= k < percentages.len() - 1 implies #[trigger] tokens[2 * k
                + 1] == TokenView::Comma by {
                if k > 0 {
                    assert(tokens[2 * k + 1] == rest[2 * (k - 1) + 1]);
                }
            }
        }
    }
}

impl KeyframeSelector {
    /// Reads a selector from the tokens of the text that spells it.
    pub fn parse_tokens(lexemes: &[Lexeme]) -> (parsed: Result<KeyframeSelector, ParseErrorKind>)
        ensures
            match parsed {
                Ok(selector) => selector_of(significant(tokens_of(views(lexemes@)))) == Ok::<
                    Seq<KeyframePercentage>,
                    ParseErrorKind,
                >(selector@),
                Err(error) => selector_of(significant(tokens_of(views(lexemes@)))) == Err::<
                    Seq<KeyframePercentage>,
                    ParseErrorKind,
                >(error),
            },
            parsed matches Ok(selector) ==> selector_wf(selector@),
    {
        let tokens = significant_tokens(lexemes);
        let ghost all = views(tokens@);
        let mut percentages: Vec<KeyframePercentage> = Vec::new();
        let mut i: usize = 0;
        assert(all.skip(0) =~= all);
        assert(Seq::<KeyframePercentage>::empty() + selector_of(all)->Ok_0 =~= selector_of(
            all,
        )->Ok_0);
        while i < tokens.len()
            invariant
                i <= tokens@.len(),
                all == views(tokens@),
                all == significant(tokens_of(views(lexemes@))),
                selector_of(all) == followed_by(percentages@, selector_of(all.skip(i as int))),
            decreases tokens.len() - i,
        {
            let ghost rest = all.skip(i as int);
            assert(rest[0] == tokens@[i as int]@);
            if let Token::Comma = tokens[i] {
                return Err(ParseErrorKind::EndOfInput);
            }
            match KeyframePercentage::parse(tokens[i]) {
                Err(error) => {
                    return Err(error);
                },
                Ok(percentage) => {
                    let ghost before = percentages@;
                    percentages.push(percentage);
                    if i + 1 == tokens.len() {
                        assert(before + seq![percentage] =~= percentages@);
                        proof {
                            lemma_selector_in_range(all);
                            assert(selector_of(rest) == Ok::<Seq<KeyframePercentage>, ParseErrorKind>(
                                seq![percentage],
                            ));
                            assert(selector_of(all) == Ok::<Seq<KeyframePercentage>, ParseErrorKind>(
                                percentages@,
                            ));
                        }
                        return Ok(KeyframeSelector(percentages));
                    }
                    assert(rest[1] == tokens@[i + 1]@);
                    match tokens[i + 1] {
                        Token::Comma => {},
                        _ => {
                            return Err(ParseErrorKind::UnexpectedToken);
                        },
                    }
                    proof {
                        assert(rest.skip(2) =~= all.skip(i + 2));
                        let others = selector_of(all.skip(i + 2));
                        if others is Ok {
                            assert(before + (seq![percentage] + others->Ok_0) =~= percentages@
                                + others->Ok_0);
                        }
                    }
                    i += 2;
                },
            }
        }
        Err(ParseErrorKind::EndOfInput)
    }

    /// Reads a selector from the text that spells it: the selector that the
    /// lexemes of one scan of the text spell. Where no percentage of the
    /// text is written with an exponent, that is the selector of the text.
    pub fn parse(css: &str) -> (parsed: Result<KeyframeSelector, ParseErrorKind>)
        ensures
            exists|lexemes: Seq<LexemeView>| #[trigger]
                reads_as(css@, lexemes) && selector_is(parsed, selector_of_lexemes(lexemes)),
            all_settled(css@) ==> selector_is(parsed, selector_of_text(css@)),
            parsed matches Ok(selector) ==> selector_wf(selector@),
    {
        let lexemes = tokenize(css);
        let parsed = Self::parse_tokens(lexemes.as_slice());
        assert(reads_as(css@, views(lexemes@)) && selector_is(
            parsed,
            selector_of_lexemes(views(lexemes@)),
        ));
        parsed
    }

    /// Writes the selector at the end of `dest`: its percentages, with a
    /// comma and a space between one and the next.
    pub fn to_css(&self, dest: &mut Vec<CssFragment>)
        ensures
            views(final(dest)@) == views(old(dest)@) + selector_css(self@),
    {
        proof {
            use_type_invariant(self);
        }
        write_percentage(dest, self.0[0]);
        assert(self@.take(1) =~= seq![self@[0]]);
        let mut i: usize = 1;
        while i < self.0.len()
            invariant
                1 <= i <= self.0.len(),
                views(dest@) == views(old(dest)@) + selector_css(self@.take(i as int)),
            decreases self.0.len() - i,
        {
            let ghost before = views(dest@);
            write_str(dest, ", ");
            write_percentage(dest, self.0[i]);
            proof {
                reveal_strlit(", ");
                assert(", "@ =~= seq![',', ' ']);
                assert(self@.take(i + 1).drop_last() =~= self@.take(i as int));
                assert(views(dest@) =~= views(old(dest)@) + selector_css(self@.take(i + 1)));
            }
            i += 1;
        }
        assert(self@.take(i as int) =~= self@);
    }
}

} // verus!
