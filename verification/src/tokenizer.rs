//! The tokens of CSS text, as the keyframe grammar reads them.
//!
//! Splitting text into tokens is the work of `cssparser`. This module asks it
//! for one token at a time and keeps, of each token, what the grammar of
//! keyframes looks at, together with the text the token was read from.

use vstd::prelude::*;
use vstd::string::*;
use crate::views::views;

verus! {

/// The three kinds of bracketed block.
#[derive(Clone, Copy, Debug, PartialEq, Eq, Structural)]
pub enum BlockType {
    Parenthesis,
    SquareBracket,
    CurlyBracket,
}

/// One token of CSS text.
#[derive(Clone, Debug, PartialEq, Eq)]
pub enum Token {
    /// An identifier, with escapes resolved.
    Ident(String),
    /// An at-keyword such as `@media`.
    AtKeyword,
    /// A percentage, as the bit pattern of the single-precision number that
    /// is one for `100%`. Where the percentage is written with an exponent,
    /// as in `5e1%`, the pattern is the one that this scan of the text gave:
    /// the text alone does not decide it.
    Percentage(u32),
    /// White space or a comment.
    WhiteSpace,
    Comma,
    Colon,
    Semicolon,
    /// An opening bracket, or a function name with its opening parenthesis.
    Open(BlockType),
    /// A closing bracket.
    Close(BlockType),
    /// Any other token.
    Other,
}

/// What a token is in contracts.
pub enum TokenView {
    Ident(Seq<char>),
    AtKeyword,
    Percentage(u32),
    WhiteSpace,
    Comma,
    Colon,
    Semicolon,
    Open(BlockType),
    Close(BlockType),
    Other,
}

impl View for Token {
    type V = TokenView;

    open spec fn view(&self) -> TokenView {
        match *self {
            Token::Ident(name) => TokenView::Ident(name@),
            Token::AtKeyword => TokenView::AtKeyword,
            Token::Percentage(bits) => TokenView::Percentage(bits),
            Token::WhiteSpace => TokenView::WhiteSpace,
            Token::Comma => TokenView::Comma,
            Token::Colon => TokenView::Colon,
            Token::Semicolon => TokenView::Semicolon,
            Token::Open(block) => TokenView::Open(block),
            Token::Close(block) => TokenView::Close(block),
            Token::Other => TokenView::Other,
        }
    }
}

/// A token together with the text it was read from.
#[derive(Clone, Debug, PartialEq, Eq)]
pub struct Lexeme {
    pub token: Token,
    /// The text of the token.
    pub text: String,
    /// Where the token stands: the number of characters in front of it.
    pub position: usize,
}

/// What a lexeme is in contracts.
pub struct LexemeView {
    pub token: TokenView,
    pub text: Seq<char>,
    pub position: usize,
}

impl View for Lexeme {
    type V = LexemeView;

    open spec fn view(&self) -> LexemeView {
        LexemeView { token: self.token@, text: self.text@, position: self.position }
    }
}

/// The first token of `css` as `cssparser` reads it, and the number of
/// characters it spans; `None` where `css` holds no token.
///
/// The text decides the token but for one thing: the bits of a percentage
/// that is written with an exponent. `cssparser` computes those with a power
/// of ten whose last bits are not promised to come out the same each time.
/// Of such a percentage the name tells that it is a percentage and how many
/// characters it spans; the bits that it holds there stand for nothing, and
/// no contract rests on them.
pub uninterp spec fn first_token(css: Seq<char>) -> Option<(TokenView, nat)>;

/// Whether the text of a number holds an exponent. The letter `e` stands in
/// the text of a percentage only where an exponent starts.
pub open spec fn has_exponent(text: Seq<char>) -> bool {
    exists|i: int| 0 <= i < text.len() && ((#[trigger] text[i]) == 'e' || text[i] == 'E')
}

/// `token`, read from `text`, with the bits put to zero that the text does
/// not decide: those of a percentage that is written with an exponent. Two
/// tokens that are equal after this differ at most in such bits.
pub open spec fn settled_token(token: TokenView, text: Seq<char>) -> TokenView {
    match token {
        TokenView::Percentage(_) if has_exponent(text) => TokenView::Percentage(0),
        _ => token,
    }
}

/// `token` with every bracket taken for `Other`.
pub open spec fn without_bracket(token: TokenView) -> TokenView {
    match token {
        TokenView::Open(_) => TokenView::Other,
        TokenView::Close(_) => TokenView::Other,
        _ => token,
    }
}

/// Whether `token` opens (`true`) or closes (`false`) a block, and which kind
/// of block; `None` for a token that is no bracket.
pub open spec fn bracket_of(token: TokenView) -> Option<(bool, BlockType)> {
    match token {
        TokenView::Open(block) => Some((true, block)),
        TokenView::Close(block) => Some((false, block)),
        _ => None,
    }
}

/// Makes a `cssparser::Parser` for `css` and takes one token from it with
/// `Parser::next_including_whitespace_and_comments`. The token is handed back
/// with `css` split in two at `Parser::position`: the text of the token and
/// the text that follows it. Brackets and function names come back as
/// `Token::Other`, comments as white space. Of the bits of a percentage
/// that is written with an exponent nothing is claimed.
#[verifier::external_body]
fn scan_token<'a>(css: &'a str) -> (scanned: Option<(Token, &'a str, &'a str)>)
    ensures
        scanned matches Some((token, text, rest)) ==> {
            &&& css@ == text@ + rest@
            &&& first_token(css@) matches Some((first, len))
            &&& len == text@.len()
            &&& settled_token(without_bracket(first), text@) == settled_token(token@, text@)
        },
        scanned.is_none() ==> first_token(css@).is_none(),
{
    let mut parser = cssparser::Parser::new(css);
    let token = match parser.next_including_whitespace_and_comments().ok()? {
        cssparser::Token::Ident(name) => Token::Ident(name.to_string()),
        cssparser::Token::AtKeyword(_) => Token::AtKeyword,
        cssparser::Token::Percentage { unit_value, .. } => Token::Percentage(unit_value.to_bits()),
        cssparser::Token::WhiteSpace(_) | cssparser::Token::Comment(_) => Token::WhiteSpace,
        cssparser::Token::Comma => Token::Comma,
        cssparser::Token::Colon => Token::Colon,
        cssparser::Token::Semicolon => Token::Semicolon,
        _ => Token::Other,
    };
    let (text, rest) = css.split_at(parser.position().byte_index());
    Some((token, text, rest))
}

/// Makes a `cssparser::Parser` for `css`, takes one token from it with
/// `Parser::next_including_whitespace_and_comments`, and tells the six
/// bracket tokens and the function token, which opens a parenthesis, from
/// all others.
#[verifier::external_body]
fn scan_bracket(css: &str) -> (bracket: Option<(bool, BlockType)>)
    ensures
        bracket == match first_token(css@) {
            Some((first, _)) => bracket_of(first),
            None => None,
        },
{
    match cssparser::Parser::new(css).next_including_whitespace_and_comments().ok()? {
        cssparser::Token::Function(_) => Some((true, BlockType::Parenthesis)),
        cssparser::Token::ParenthesisBlock => Some((true, BlockType::Parenthesis)),
        cssparser::Token::SquareBracketBlock => Some((true, BlockType::SquareBracket)),
        cssparser::Token::CurlyBracketBlock => Some((true, BlockType::CurlyBracket)),
        cssparser::Token::CloseParenthesis => Some((false, BlockType::Parenthesis)),
        cssparser::Token::CloseSquareBracket => Some((false, BlockType::SquareBracket)),
        cssparser::Token::CloseCurlyBracket => Some((false, BlockType::CurlyBracket)),
        _ => None,
    }
}

/// The first lexeme of `css` and the text that follows it, where `css` is
/// what is left of a text behind its first `position` characters. There is
/// none where `css` holds no token.
pub open spec fn next_lexeme(css: Seq<char>, position: usize) -> Option<(LexemeView, Seq<char>)> {
    match first_token(css) {
        Some((token, len)) if 0 < len <= css.len() => Some(
            (LexemeView { token, text: css.take(len as int), position }, css.skip(len as int)),
        ),
        _ => None,
    }
}

/// The lexemes of `css`, in order, where `css` is what is left of a text
/// behind its first `position` characters.
pub open spec fn lexemes_from(css: Seq<char>, position: usize) -> Seq<LexemeView>
    decreases css.len(),
{
    match next_lexeme(css, position) {
        Some((lexeme, rest)) if rest.len() < css.len() => seq![lexeme] + lexemes_from(
            rest,
            (position + lexeme.text.len()) as usize,
        ),
        _ => Seq::empty(),
    }
}

/// The lexemes of `css`, in order. See `first_token` for what the text does
/// not decide, and `reads_as` for how a scan of the text stands to them.
pub open spec fn lexemes_of(css: Seq<char>) -> Seq<LexemeView> {
    lexemes_from(css, 0)
}

/// Whether the text does not decide the bits of the lexeme: whether it is a
/// percentage that is written with an exponent.
pub open spec fn is_unsettled(lexeme: LexemeView) -> bool {
    lexeme.token is Percentage && has_exponent(lexeme.text)
}

/// `lexeme` with the bits put to zero that its text does not decide.
pub open spec fn settled_lexeme(lexeme: LexemeView) -> LexemeView {
    LexemeView { token: settled_token(lexeme.token, lexeme.text), ..lexeme }
}

/// `lexemes`, each with the bits put to zero that its text does not decide.
pub open spec fn settled_lexemes(lexemes: Seq<LexemeView>) -> Seq<LexemeView> {
    Seq::new(lexemes.len(), |i: int| settled_lexeme(lexemes[i]))
}

/// Whether `lexemes` are what a scan of `css` may give: the lexemes of `css`,
/// token for token, text for text and place for place, but for the bits of
/// the percentages that are written with an exponent.
pub open spec fn reads_as(css: Seq<char>, lexemes: Seq<LexemeView>) -> bool {
    settled_lexemes(lexemes) == settled_lexemes(lexemes_of(css))
}

/// Whether `css` decides every one of its lexemes: whether none of its
/// percentages is written with an exponent.
pub open spec fn all_settled(css: Seq<char>) -> bool {
    forall|i: int| 0 <= i < lexemes_of(css).len() ==> !is_unsettled(#[trigger] lexemes_of(css)[i])
}

/// Lexemes that differ at most in bits that their texts do not decide are
/// the same where no such bits are among them.
pub proof fn lemma_settled_lexemes(lexemes: Seq<LexemeView>, named: Seq<LexemeView>)
    requires
        settled_lexemes(lexemes) == settled_lexemes(named),
        forall|i: int| 0 <= i < named.len() ==> !is_unsettled(#[trigger] named[i]),
    ensures
        lexemes == named,
{
    assert(lexemes.len() == settled_lexemes(lexemes).len());
    assert(named.len() == settled_lexemes(named).len());
    assert forall|i: int| 0 <= i < lexemes.len() implies lexemes[i] == named[i] by {
        assert(settled_lexemes(lexemes)[i] == settled_lexeme(lexemes[i]));
        assert(settled_lexemes(named)[i] == settled_lexeme(named[i]));
        assert(!is_unsettled(named[i]));
    }
    assert(lexemes =~= named);
}

/// A scan of a text that decides every one of its lexemes gives those
/// lexemes, bits and all.
pub proof fn lemma_reads_as_settled(css: Seq<char>, lexemes: Seq<LexemeView>)
    requires
        reads_as(css, lexemes),
        all_settled(css),
    ensures
        lexemes == lexemes_of(css),
{
    lemma_settled_lexemes(lexemes, lexemes_of(css));
}

/// Lexemes that differ at most in bits that their texts do not decide have
/// as many tokens that are no white space.
pub proof fn lemma_settled_significant(lexemes: Seq<LexemeView>, named: Seq<LexemeView>)
    requires
        settled_lexemes(lexemes) == settled_lexemes(named),
    ensures
        significant(tokens_of(lexemes)).len() == significant(tokens_of(named)).len(),
    decreases lexemes.len(),
{
    assert(lexemes.len() == settled_lexemes(lexemes).len());
    assert(named.len() == settled_lexemes(named).len());
    if lexemes.len() > 0 {
        let shorter = lexemes.drop_last();
        let named_shorter = named.drop_last();
        assert(settled_lexemes(shorter) =~= settled_lexemes(lexemes).drop_last());
        assert(settled_lexemes(named_shorter) =~= settled_lexemes(named).drop_last());
        lemma_settled_significant(shorter, named_shorter);
        let last = lexemes.len() - 1;
        assert(settled_lexemes(lexemes)[last] == settled_lexeme(lexemes[last]));
        assert(settled_lexemes(named)[last] == settled_lexeme(named[last]));
        assert(tokens_of(lexemes) =~= tokens_of(shorter).push(lexemes[last].token));
        assert(tokens_of(named) =~= tokens_of(named_shorter).push(named[last].token));
        tokens_of(shorter).lemma_filter_push(lexemes[last].token, is_significant());
        tokens_of(named_shorter).lemma_filter_push(named[last].token, is_significant());
    } else {
        assert(tokens_of(lexemes) =~= tokens_of(named));
    }
}

/// Reads the first lexeme of `css`, which is what is left of a text behind
/// its first `position` characters: the lexeme that the text spells, but for
/// the bits of a percentage that is written with an exponent.
pub fn read_lexeme<'a>(css: &'a str, position: usize) -> (read: Option<(Lexeme, &'a str)>)
    ensures
        read matches Some((lexeme, rest)) ==> {
            &&& next_lexeme(css@, position) matches Some((named, named_rest))
            &&& named_rest == rest@
            &&& settled_lexeme(named) == settled_lexeme(lexeme@)
        },
        read matches Some((lexeme, rest)) ==> !is_unsettled(lexeme@) ==> next_lexeme(
            css@,
            position,
        ) == Some((lexeme@, rest@)),
        read.is_none() ==> next_lexeme(css@, position).is_none(),
{
    match scan_token(css) {
        None => None,
        Some((token, text, rest)) => {
            if text.is_empty() {
                return None;
            }
            assert(css@.take(text@.len() as int) =~= text@);
            assert(css@.skip(text@.len() as int) =~= rest@);
            let token = match token {
                Token::Other => match scan_bracket(css) {
                    Some((true, block)) => Token::Open(block),
                    Some((false, block)) => Token::Close(block),
                    None => Token::Other,
                },
                other => other,
            };
            Some((Lexeme { token, text: String::from_str(text), position }, rest))
        },
    }
}

/// Splits `css` into its lexemes: those that the text spells, but for the
/// bits of the percentages that are written with an exponent. Where the text
/// holds no such percentage, the lexemes are those of the text exactly.
pub fn tokenize(css: &str) -> (lexemes: Vec<Lexeme>)
    ensures
        reads_as(css@, views(lexemes@)),
        all_settled(css@) ==> views(lexemes@) == lexemes_of(css@),
{
    let mut lexemes: Vec<Lexeme> = Vec::new();
    let mut rest: &str = css;
    let mut position: usize = 0;
    let total = css.unicode_len();
    assert(settled_lexemes(views(lexemes@)) + settled_lexemes(lexemes_from(rest@, position))
        =~= settled_lexemes(lexemes_of(css@)));
    loop
        invariant
            total == css@.len(),
            position + rest@.len() == total,
            settled_lexemes(views(lexemes@)) + settled_lexemes(lexemes_from(rest@, position))
                == settled_lexemes(lexemes_of(css@)),
        decreases rest@.len(),
    {
        match read_lexeme(rest, position) {
            None => {
                proof {
                    assert(settled_lexemes(views(lexemes@)) + Seq::<LexemeView>::empty()
                        =~= settled_lexemes(views(lexemes@)));
                    assert(settled_lexemes(Seq::<LexemeView>::empty()) =~= Seq::<
                        LexemeView,
                    >::empty());
                    if all_settled(css@) {
                        lemma_reads_as_settled(css@, views(lexemes@));
                    }
                }
                return lexemes;
            },
            Some((lexeme, tail)) => {
                let len = lexeme.text.as_str().unicode_len();
                proof {
                    let before = settled_lexemes(views(lexemes@));
                    let named = next_lexeme(rest@, position)->Some_0.0;
                    let others = lexemes_from(tail@, (position + len) as usize);
                    assert(named.text == lexeme@.text);
                    assert(lexemes_from(rest@, position) == seq![named] + others);
                    assert(settled_lexemes(views(lexemes@.push(lexeme))) =~= before + seq![
                        settled_lexeme(lexeme@),
                    ]);
                    assert(settled_lexemes(seq![named] + others) =~= seq![settled_lexeme(named)]
                        + settled_lexemes(others));
                    assert((before + seq![settled_lexeme(lexeme@)]) + settled_lexemes(others)
                        =~= before + (seq![settled_lexeme(named)] + settled_lexemes(others)));
                }
                lexemes.push(lexeme);
                rest = tail;
                position = position + len;
            },
        }
    }
}

/// The tokens of the lexemes.
pub open spec fn tokens_of(lexemes: Seq<LexemeView>) -> Seq<TokenView> {
    Seq::new(lexemes.len(), |i: int| lexemes[i].token)
}

/// The test whether a token is anything but white space.
pub open spec fn is_significant() -> spec_fn(TokenView) -> bool {
    |token: TokenView| token != TokenView::WhiteSpace
}

/// The tokens without white space and comments.
pub open spec fn significant(tokens: Seq<TokenView>) -> Seq<TokenView> {
    tokens.filter(is_significant())
}

/// The tokens of the lexemes, without white space and comments.
pub fn significant_tokens<'a>(lexemes: &'a [Lexeme]) -> (tokens: Vec<&'a Token>)
    ensures
        views(tokens@) == significant(tokens_of(views(lexemes@))),
{
    let ghost all = tokens_of(views(lexemes@));
    let mut tokens: Vec<&'a Token> = Vec::new();
    let mut i: usize = 0;
    assert(views(tokens@) =~= significant(all.take(0)));
    while i < lexemes.len()
        invariant
            i <= lexemes@.len(),
            all == tokens_of(views(lexemes@)),
            views(tokens@) == significant(all.take(i as int)),
        decreases lexemes.len() - i,
    {
        proof {
            assert(all.take(i + 1) =~= all.take(i as int).push(all[i as int]));
            all.take(i as int).lemma_filter_push(all[i as int], is_significant());
        }
        match lexemes[i].token {
            Token::WhiteSpace => {},
            _ => {
                let ghost before = views(tokens@);
                tokens.push(&lexemes[i].token);
                assert(views(tokens@) =~= before.push(all[i as int]));
            },
        }
        i += 1;
    }
    assert(all.take(i as int) =~= all);
    tokens
}

} // verus!
