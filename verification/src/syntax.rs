//! The shape of a list of keyframes and of a block of declarations.
//!
//! A list of keyframes is a list of rules, each a prelude and a block
//! between braces. A block is a list of declarations, each a name, a colon
//! and a value, with semicolons between them. This module finds where the
//! rules and the declarations begin and end. What a prelude or a value means
//! is decided elsewhere.

use vstd::prelude::*;
use vstd::slice::slice_subrange;
use vstd::string::*;
use crate::error::ParseErrorKind;
use crate::tokenizer::{BlockType, Lexeme, LexemeView, Token, TokenView};
use crate::views::{lemma_views_push, lemma_views_subrange, views};

verus! {

/// The tokens at which a piece of input may end.
#[derive(Clone, Copy, Debug, PartialEq, Eq, Structural)]
pub struct Delimiters {
    /// Whether a semicolon ends the piece.
    pub semicolon: bool,
    /// Whether an opening brace ends the piece.
    pub curly_bracket_block: bool,
}

/// Whether `token` is one of `delimiters`.
pub open spec fn is_delimiter(token: TokenView, delimiters: Delimiters) -> bool {
    ||| delimiters.semicolon && token == TokenView::Semicolon
    ||| delimiters.curly_bracket_block && token == TokenView::Open(BlockType::CurlyBracket)
}

/// The blocks that are open behind `token`, given those that were open
/// before it, innermost last. A closing bracket closes the innermost block
/// if it is of its kind, and is passed over if not.
pub open spec fn nesting_after(open: Seq<BlockType>, token: TokenView) -> Seq<BlockType> {
    match token {
        TokenView::Open(block) => open.push(block),
        TokenView::Close(block) => if open.len() > 0 && open.last() == block {
            open.drop_last()
        } else {
            open
        },
        _ => open,
    }
}

/// The place of the first delimiter from `from` on that stands in no block,
/// where the blocks `open` are open at `from`. It is the number of lexemes
/// if there is none.
pub open spec fn delimiter_at(
    lexemes: Seq<LexemeView>,
    from: int,
    open: Seq<BlockType>,
    delimiters: Delimiters,
) -> int
    decreases lexemes.len() - from,
{
    if from < 0 || from >= lexemes.len() {
        lexemes.len() as int
    } else if open.len() == 0 && is_delimiter(lexemes[from].token, delimiters) {
        from
    } else {
        delimiter_at(lexemes, from + 1, nesting_after(open, lexemes[from].token), delimiters)
    }
}

/// The place of the bracket that closes the outermost of the blocks `open`,
/// which are open at `from`. It is the number of lexemes where the block is
/// not closed.
pub open spec fn block_close(lexemes: Seq<LexemeView>, from: int, open: Seq<BlockType>) -> int
    decreases lexemes.len() - from,
{
    if from < 0 || from >= lexemes.len() {
        lexemes.len() as int
    } else if open.len() == 1 && lexemes[from].token == TokenView::Close(open[0]) {
        from
    } else {
        block_close(lexemes, from + 1, nesting_after(open, lexemes[from].token))
    }
}

/// A delimiter is found at `from` or behind it.
pub proof fn lemma_delimiter_at(
    lexemes: Seq<LexemeView>,
    from: int,
    open: Seq<BlockType>,
    delimiters: Delimiters,
)
    requires
        0 <= from <= lexemes.len(),
    ensures
        from <= delimiter_at(lexemes, from, open, delimiters) <= lexemes.len(),
    decreases lexemes.len() - from,
{
    if from < lexemes.len() && !(open.len() == 0 && is_delimiter(lexemes[from].token, delimiters)) {
        lemma_delimiter_at(lexemes, from + 1, nesting_after(open, lexemes[from].token), delimiters);
    }
}

/// A block is closed at `from` or behind it.
pub proof fn lemma_block_close(lexemes: Seq<LexemeView>, from: int, open: Seq<BlockType>)
    requires
        0 <= from <= lexemes.len(),
    ensures
        from <= block_close(lexemes, from, open) <= lexemes.len(),
    decreases lexemes.len() - from,
{
    if from < lexemes.len() && !(open.len() == 1 && lexemes[from].token == TokenView::Close(
        open[0],
    )) {
        lemma_block_close(lexemes, from + 1, nesting_after(open, lexemes[from].token));
    }
}

/// Takes the nesting over one token.
fn step_nesting(open: &mut Vec<BlockType>, token: &Token)
    ensures
        final(open)@ == nesting_after(old(open)@, token@),
{
    match token {
        Token::Open(block) => {
            open.push(*block);
        },
        Token::Close(block) => {
            let depth = open.len();
            if depth > 0 && block_eq(open[depth - 1], *block) {
                open.pop();
            }
        },
        _ => {},
    }
}

/// Whether two kinds of block are the same.
fn block_eq(a: BlockType, b: BlockType) -> (same: bool)
    ensures
        same == (a == b),
{
    match (a, b) {
        (BlockType::Parenthesis, BlockType::Parenthesis) => true,
        (BlockType::SquareBracket, BlockType::SquareBracket) => true,
        (BlockType::CurlyBracket, BlockType::CurlyBracket) => true,
        _ => false,
    }
}

/// Whether `token` is one of `delimiters`.
fn token_is_delimiter(token: &Token, delimiters: Delimiters) -> (is: bool)
    ensures
        is == is_delimiter(token@, delimiters),
{
    match token {
        Token::Semicolon => delimiters.semicolon,
        Token::Open(BlockType::CurlyBracket) => delimiters.curly_bracket_block,
        _ => false,
    }
}

/// The place of the first delimiter from `from` on that stands in no block.
pub fn find_delimiter(lexemes: &[Lexeme], from: usize, delimiters: Delimiters) -> (at: usize)
    requires
        from <= lexemes@.len(),
    ensures
        at == delimiter_at(views(lexemes@), from as int, Seq::empty(), delimiters),
        from <= at <= lexemes@.len(),
{
    let ghost all = views(lexemes@);
    proof {
        lemma_delimiter_at(all, from as int, Seq::empty(), delimiters);
    }
    let mut open: Vec<BlockType> = Vec::new();
    let mut at: usize = from;
    while at < lexemes.len()
        invariant
            from <= at <= lexemes@.len(),
            all == views(lexemes@),
            delimiter_at(all, from as int, Seq::empty(), delimiters) == delimiter_at(
                all,
                at as int,
                open@,
                delimiters,
            ),
        decreases lexemes.len() - at,
    {
        assert(all[at as int].token == lexemes@[at as int].token@);
        if open.len() == 0 && token_is_delimiter(&lexemes[at].token, delimiters) {
            return at;
        }
        step_nesting(&mut open, &lexemes[at].token);
        at += 1;
    }
    at
}

/// The place of the bracket that closes the block of kind `block` that is
/// open at `from`.
pub fn find_block_close(lexemes: &[Lexeme], from: usize, block: BlockType) -> (at: usize)
    requires
        from <= lexemes@.len(),
    ensures
        at == block_close(views(lexemes@), from as int, seq![block]),
        from <= at <= lexemes@.len(),
{
    let ghost all = views(lexemes@);
    proof {
        lemma_block_close(all, from as int, seq![block]);
    }
    let mut open: Vec<BlockType> = Vec::new();
    open.push(block);
    assert(open@ =~= seq![block]);
    let mut at: usize = from;
    while at < lexemes.len()
        invariant
            from <= at <= lexemes@.len(),
            all == views(lexemes@),
            block_close(all, from as int, seq![block]) == block_close(all, at as int, open@),
        decreases lexemes.len() - at,
    {
        assert(all[at as int].token == lexemes@[at as int].token@);
        if open.len() == 1 {
            if let Token::Close(closed) = &lexemes[at].token {
                if block_eq(open[0], *closed) {
                    return at;
                }
            }
        }
        step_nesting(&mut open, &lexemes[at].token);
        at += 1;
    }
    at
}

/// The text that the lexemes were read from.
pub open spec fn text_of(lexemes: Seq<LexemeView>) -> Seq<char>
    decreases lexemes.len(),
{
    if lexemes.len() == 0 {
        Seq::empty()
    } else {
        text_of(lexemes.drop_last()) + lexemes.last().text
    }
}

/// The text that the lexemes from `from` up to `to` were read from.
pub fn source_text(lexemes: &[Lexeme], from: usize, to: usize) -> (text: String)
    requires
        from <= to <= lexemes@.len(),
    ensures
        text@ == text_of(views(lexemes@).subrange(from as int, to as int)),
{
    let ghost all = views(lexemes@);
    let mut text = String::new();
    let mut at: usize = from;
    assert(text@ =~= text_of(all.subrange(from as int, from as int)));
    while at < to
        invariant
            from <= at <= to <= lexemes@.len(),
            all == views(lexemes@),
            text@ == text_of(all.subrange(from as int, at as int)),
        decreases to - at,
    {
        proof {
            let longer = all.subrange(from as int, at + 1);
            assert(longer.drop_last() =~= all.subrange(from as int, at as int));
            assert(longer.last().text == lexemes@[at as int].text@);
        }
        text.append(lexemes[at].text.as_str());
        at += 1;
    }
    text
}

/// The place of the first lexeme from `from` on that is not white space.
pub open spec fn skip_space(lexemes: Seq<LexemeView>, from: int) -> int
    decreases lexemes.len() - from,
{
    if from < 0 || from >= lexemes.len() {
        lexemes.len() as int
    } else if lexemes[from].token == TokenView::WhiteSpace {
        skip_space(lexemes, from + 1)
    } else {
        from
    }
}

/// The place of the first lexeme from `from` on that is not white space.
pub fn skip_whitespace(lexemes: &[Lexeme], from: usize) -> (at: usize)
    requires
        from <= lexemes@.len(),
    ensures
        at == skip_space(views(lexemes@), from as int),
        from <= at <= lexemes@.len(),
{
    let ghost all = views(lexemes@);
    let mut at: usize = from;
    while at < lexemes.len()
        invariant
            from <= at <= lexemes@.len(),
            all == views(lexemes@),
            skip_space(all, from as int) == skip_space(all, at as int),
        decreases lexemes.len() - at,
    {
        assert(all[at as int].token == lexemes@[at as int].token@);
        match &lexemes[at].token {
            Token::WhiteSpace => {},
            _ => {
                return at;
            },
        }
        at += 1;
    }
    at
}

/// Where one rule of a list of rules stands: the places of the first lexeme
/// of its prelude, of the brace that opens its block and of the brace that
/// closes it. Where the rule has no block, or the block is not closed, the
/// place of the missing brace is the number of lexemes.
#[derive(Clone, Copy, Debug, PartialEq, Eq, Structural)]
pub struct RuleSpan {
    pub start: usize,
    pub open: usize,
    pub close: usize,
}

/// A semicolon ends the piece.
pub open spec fn until_semicolon() -> Delimiters {
    Delimiters { semicolon: true, curly_bracket_block: false }
}

/// An opening brace ends the piece.
pub open spec fn until_block() -> Delimiters {
    Delimiters { semicolon: false, curly_bracket_block: true }
}

/// A semicolon or an opening brace ends the piece.
pub open spec fn until_semicolon_or_block() -> Delimiters {
    Delimiters { semicolon: true, curly_bracket_block: true }
}

/// The place behind the brace at `close`, or the number of lexemes if there
/// is no such place.
pub open spec fn behind(lexemes: Seq<LexemeView>, close: int) -> int {
    if close < lexemes.len() {
        close + 1
    } else {
        lexemes.len() as int
    }
}

/// The place behind the at-rule whose at-keyword stands at `start`. An
/// at-rule ends with the first semicolon, or with the block that the first
/// opening brace opens.
pub open spec fn at_rule_end(lexemes: Seq<LexemeView>, start: int) -> int {
    let end = delimiter_at(lexemes, start + 1, Seq::empty(), until_semicolon_or_block());
    if end >= lexemes.len() {
        lexemes.len() as int
    } else if lexemes[end].token == TokenView::Semicolon {
        end + 1
    } else {
        behind(lexemes, block_close(lexemes, end + 1, seq![BlockType::CurlyBracket]))
    }
}

/// The rule that starts at `start`: its prelude runs up to the first opening
/// brace, its block up to the brace that closes it.
pub open spec fn rule_at(lexemes: Seq<LexemeView>, start: int) -> RuleSpan {
    let open = delimiter_at(lexemes, start, Seq::empty(), until_block());
    if open >= lexemes.len() {
        RuleSpan { start: start as usize, open: open as usize, close: open as usize }
    } else {
        RuleSpan {
            start: start as usize,
            open: open as usize,
            close: block_close(lexemes, open + 1, seq![BlockType::CurlyBracket]) as usize,
        }
    }
}

/// The rules from `from` on, in order. White space between rules is passed
/// over, and so is every at-rule: no at-rule is allowed among keyframes.
pub open spec fn rule_spans(lexemes: Seq<LexemeView>, from: int) -> Seq<RuleSpan>
    decreases lexemes.len() - from,
{
    let start = skip_space(lexemes, from);
    if from < 0 || start >= lexemes.len() {
        Seq::empty()
    } else if lexemes[start].token == TokenView::AtKeyword {
        let next = at_rule_end(lexemes, start);
        if next > from {
            rule_spans(lexemes, next)
        } else {
            Seq::empty()
        }
    } else {
        let rule = rule_at(lexemes, start);
        let next = behind(lexemes, rule.close as int);
        if next > from {
            seq![rule] + rule_spans(lexemes, next)
        } else {
            seq![rule]
        }
    }
}

/// The place behind the at-rule whose at-keyword stands at `start`.
fn find_at_rule_end(lexemes: &[Lexeme], start: usize) -> (next: usize)
    requires
        start < lexemes@.len(),
    ensures
        next == at_rule_end(views(lexemes@), start as int),
        start < next <= lexemes@.len(),
{
    let len = lexemes.len();
    let end = find_delimiter(
        lexemes,
        start + 1,
        Delimiters { semicolon: true, curly_bracket_block: true },
    );
    if end >= len {
        return len;
    }
    assert(views(lexemes@)[end as int].token == lexemes@[end as int].token@);
    match &lexemes[end].token {
        Token::Semicolon => end + 1,
        _ => {
            let close = find_block_close(lexemes, end + 1, BlockType::CurlyBracket);
            if close < lexemes.len() {
                close + 1
            } else {
                lexemes.len()
            }
        },
    }
}

/// The rule that starts at `start`.
pub fn find_rule_at(lexemes: &[Lexeme], start: usize) -> (rule: RuleSpan)
    requires
        start < lexemes@.len(),
    ensures
        rule == rule_at(views(lexemes@), start as int),
        rule.start == start,
        start <= rule.open <= lexemes@.len(),
        rule.open <= rule.close <= lexemes@.len(),
        rule.open < lexemes@.len() ==> rule.open < rule.close,
{
    let open = find_delimiter(
        lexemes,
        start,
        Delimiters { semicolon: false, curly_bracket_block: true },
    );
    if open >= lexemes.len() {
        RuleSpan { start, open, close: open }
    } else {
        RuleSpan { start, open, close: find_block_close(lexemes, open + 1, BlockType::CurlyBracket) }
    }
}

/// Splits a list of rules into its rules.
pub fn split_rules(lexemes: &[Lexeme]) -> (rules: Vec<RuleSpan>)
    ensures
        rules@ == rule_spans(views(lexemes@), 0),
        forall|i: int|
            0 <= i < rules@.len() ==> (#[trigger] rules@[i]).start < lexemes@.len()
                && rules@[i].start <= rules@[i].open <= rules@[i].close <= lexemes@.len() && (
            rules@[i].open < lexemes@.len() ==> rules@[i].open < rules@[i].close),
{
    let ghost all = views(lexemes@);
    let mut rules: Vec<RuleSpan> = Vec::new();
    let mut from: usize = 0;
    assert(rules@ + rule_spans(all, 0) =~= rule_spans(all, 0));
    loop
        invariant
            from <= lexemes@.len(),
            all == views(lexemes@),
            rules@ + rule_spans(all, from as int) == rule_spans(all, 0),
            forall|i: int|
                0 <= i < rules@.len() ==> (#[trigger] rules@[i]).start < lexemes@.len()
                    && rules@[i].start <= rules@[i].open <= rules@[i].close <= lexemes@.len() && (
                rules@[i].open < lexemes@.len() ==> rules@[i].open < rules@[i].close),
        decreases lexemes@.len() - from,
    {
        let start = skip_whitespace(lexemes, from);
        if start >= lexemes.len() {
            assert(rules@ + Seq::<RuleSpan>::empty() =~= rules@);
            return rules;
        }
        assert(all[start as int].token == lexemes@[start as int].token@);
        match &lexemes[start].token {
            Token::AtKeyword => {
                from = find_at_rule_end(lexemes, start);
            },
            _ => {
                let rule = find_rule_at(lexemes, start);
                let ghost before = rules@;
                rules.push(rule);
                let next = if rule.close < lexemes.len() {
                    rule.close + 1
                } else {
                    lexemes.len()
                };
                assert(before + (seq![rule] + rule_spans(all, next as int)) =~= rules@ + rule_spans(
                    all,
                    next as int,
                ));
                if next <= from {
                    assert(before + seq![rule] =~= rules@);
                    return rules;
                }
                from = next;
            },
        }
    }
}

/// One item of a block of declarations.
#[derive(Clone, Debug, PartialEq, Eq)]
pub enum DeclarationItem {
    /// A name, a colon and a value.
    Declaration {
        /// The name in front of the colon.
        name: String,
        /// The text behind the colon.
        value: String,
        /// The text of the whole item.
        source: String,
        /// Where the item stands: the number of characters in front of it.
        position: usize,
    },
    /// Anything else.
    Invalid {
        /// Why this is no declaration.
        error: ParseErrorKind,
        /// The text of the whole item.
        source: String,
        /// Where the item stands: the number of characters in front of it.
        position: usize,
    },
}

/// What an item is in contracts.
pub enum DeclarationItemView {
    Declaration { name: Seq<char>, value: Seq<char>, source: Seq<char>, position: usize },
    Invalid { error: ParseErrorKind, source: Seq<char>, position: usize },
}

impl View for DeclarationItem {
    type V = DeclarationItemView;

    open spec fn view(&self) -> DeclarationItemView {
        match *self {
            DeclarationItem::Declaration { name, value, source, position } =>
                DeclarationItemView::Declaration {
                    name: name@,
                    value: value@,
                    source: source@,
                    position,
                },
            DeclarationItem::Invalid { error, source, position } => DeclarationItemView::Invalid {
                error,
                source: source@,
                position,
            },
        }
    }
}

/// The place at which the item that starts at `start` ends: the first
/// semicolon that stands in no block; for an at-rule, the first semicolon or
/// opening brace.
pub open spec fn item_end(lexemes: Seq<LexemeView>, start: int) -> int {
    match lexemes[start].token {
        TokenView::Ident(_) => delimiter_at(lexemes, start + 1, Seq::empty(), until_semicolon()),
        TokenView::AtKeyword => delimiter_at(
            lexemes,
            start + 1,
            Seq::empty(),
            until_semicolon_or_block(),
        ),
        _ => delimiter_at(lexemes, start, Seq::empty(), until_semicolon()),
    }
}

/// The place behind the item that starts at `start`: behind the semicolon
/// that ends it, or behind the block of an at-rule.
pub open spec fn item_next(lexemes: Seq<LexemeView>, start: int) -> int {
    let end = item_end(lexemes, start);
    if end >= lexemes.len() {
        lexemes.len() as int
    } else if lexemes[end].token == TokenView::Semicolon {
        end + 1
    } else {
        behind(lexemes, block_close(lexemes, end + 1, seq![BlockType::CurlyBracket]))
    }
}

/// The item that starts at `start` and ends at `end`. An identifier starts a
/// declaration, and a colon must follow it; an at-keyword starts an at-rule,
/// and none is allowed in a block; nothing else can start an item.
pub open spec fn item_at(lexemes: Seq<LexemeView>, start: int, end: int) -> DeclarationItemView {
    let source = text_of(lexemes.subrange(start, end));
    let position = lexemes[start].position;
    match lexemes[start].token {
        TokenView::Ident(name) => {
            let colon = skip_space(lexemes.take(end), start + 1);
            if colon >= end {
                DeclarationItemView::Invalid { error: ParseErrorKind::EndOfInput, source, position }
            } else if lexemes[colon].token != TokenView::Colon {
                DeclarationItemView::Invalid {
                    error: ParseErrorKind::UnexpectedToken,
                    source,
                    position,
                }
            } else {
                DeclarationItemView::Declaration {
                    name,
                    value: text_of(lexemes.subrange(colon + 1, end)),
                    source,
                    position,
                }
            }
        },
        TokenView::AtKeyword => DeclarationItemView::Invalid {
            error: ParseErrorKind::AtRuleInvalid,
            source,
            position,
        },
        _ => DeclarationItemView::Invalid {
            error: ParseErrorKind::UnexpectedToken,
            source,
            position,
        },
    }
}

/// The items of a block from `from` on, in order. White space and
/// semicolons between items are passed over.
pub open spec fn declaration_items(lexemes: Seq<LexemeView>, from: int) -> Seq<DeclarationItemView>
    decreases lexemes.len() - from,
{
    if from < 0 || from >= lexemes.len() {
        Seq::empty()
    } else if lexemes[from].token == TokenView::WhiteSpace || lexemes[from].token
        == TokenView::Semicolon {
        declaration_items(lexemes, from + 1)
    } else {
        let item = item_at(lexemes, from, item_end(lexemes, from));
        let next = item_next(lexemes, from);
        if next > from {
            seq![item] + declaration_items(lexemes, next)
        } else {
            seq![item]
        }
    }
}

/// The item that starts at `start`, and the place behind it.
fn read_item(lexemes: &[Lexeme], start: usize) -> (read: (DeclarationItem, usize))
    requires
        start < lexemes@.len(),
        lexemes@[start as int].token@ != TokenView::WhiteSpace,
        lexemes@[start as int].token@ != TokenView::Semicolon,
    ensures
        read.0@ == item_at(views(lexemes@), start as int, item_end(views(lexemes@), start as int)),
        read.1 == item_next(views(lexemes@), start as int),
        start < read.1 <= lexemes@.len(),
{
    let ghost all = views(lexemes@);
    let len = lexemes.len();
    assert(all[start as int].token == lexemes@[start as int].token@);
    let semicolon = Delimiters { semicolon: true, curly_bracket_block: false };
    let end = match &lexemes[start].token {
        Token::Ident(_) => find_delimiter(lexemes, start + 1, semicolon),
        Token::AtKeyword => find_delimiter(
            lexemes,
            start + 1,
            Delimiters { semicolon: true, curly_bracket_block: true },
        ),
        _ => {
            let end = find_delimiter(lexemes, start, semicolon);
            assert(end > start) by {
                assert(!is_delimiter(all[start as int].token, semicolon));
                lemma_delimiter_at(
                    all,
                    start + 1,
                    nesting_after(Seq::empty(), all[start as int].token),
                    semicolon,
                );
            }
            end
        },
    };
    assert(end == item_end(all, start as int));
    let next = if end >= lexemes.len() {
        lexemes.len()
    } else {
        assert(all[end as int].token == lexemes@[end as int].token@);
        match &lexemes[end].token {
            Token::Semicolon => end + 1,
            _ => {
                let close = find_block_close(lexemes, end + 1, BlockType::CurlyBracket);
                if close < lexemes.len() {
                    close + 1
                } else {
                    lexemes.len()
                }
            },
        }
    };
    let source = source_text(lexemes, start, end);
    let position = lexemes[start].position;
    assert(position == all[start as int].position);
    let item = match &lexemes[start].token {
        Token::Ident(name) => {
            let head = slice_subrange(lexemes, 0, end);
            proof {
                lemma_views_subrange(lexemes@, 0, end as int);
                assert(all.take(end as int) =~= all.subrange(0, end as int));
            }
            let colon = skip_whitespace(head, start + 1);
            if colon >= end {
                DeclarationItem::Invalid { error: ParseErrorKind::EndOfInput, source, position }
            } else {
                assert(all[colon as int].token == lexemes@[colon as int].token@);
                match &lexemes[colon].token {
                    Token::Colon => DeclarationItem::Declaration {
                        name: name.clone(),
                        value: source_text(lexemes, colon + 1, end),
                        source,
                        position,
                    },
                    _ => DeclarationItem::Invalid {
                        error: ParseErrorKind::UnexpectedToken,
                        source,
                        position,
                    },
                }
            }
        },
        Token::AtKeyword => DeclarationItem::Invalid {
            error: ParseErrorKind::AtRuleInvalid,
            source,
            position,
        },
        _ => DeclarationItem::Invalid { error: ParseErrorKind::UnexpectedToken, source, position },
    };
    (item, next)
}

/// Splits a block of declarations into its items.
pub fn split_declarations(lexemes: &[Lexeme]) -> (items: Vec<DeclarationItem>)
    ensures
        views(items@) == declaration_items(views(lexemes@), 0),
{
    let ghost all = views(lexemes@);
    let mut items: Vec<DeclarationItem> = Vec::new();
    let mut from: usize = 0;
    assert(views(items@) + declaration_items(all, 0) =~= declaration_items(all, 0));
    while from < lexemes.len()
        invariant
            from <= lexemes@.len(),
            all == views(lexemes@),
            views(items@) + declaration_items(all, from as int) == declaration_items(all, 0),
        decreases lexemes@.len() - from,
    {
        assert(all[from as int].token == lexemes@[from as int].token@);
        match &lexemes[from].token {
            Token::WhiteSpace => {
                from += 1;
            },
            Token::Semicolon => {
                from += 1;
            },
            _ => {
                let (item, next) = read_item(lexemes, from);
                proof {
                    lemma_views_push(items@, item);
                    assert(views(items@).push(item@) + declaration_items(all, next as int) =~= views(
                        items@,
                    ) + (seq![item@] + declaration_items(all, next as int)));
                }
                items.push(item);
                from = next;
            },
        }
    }
    assert(views(items@) + Seq::<DeclarationItemView>::empty() =~= views(items@));
    items
}

} // verus!
