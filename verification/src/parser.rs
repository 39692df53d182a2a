//! The grammar of keyframes: a list of keyframes, each a selector and a
//! block of declarations.
//!
//! Which properties exist and what values they take is not decided here. A
//! parser is handed a property grammar: a function that is asked, for the
//! name and the value of each declaration, which declarations they make. A
//! declaration that the grammar refuses, or that has text left behind its
//! value, is left out and reported; the declarations around it stay. In the
//! same way a keyframe whose selector is refused is left out and reported,
//! and the keyframes around it stay.

use vstd::prelude::*;
use vstd::slice::slice_subrange;
use vstd::string::*;
use std::sync::Arc;
use crate::declaration_block::{
    all_normal,
    entries_wf,
    extended,
    lemma_extended_wf,
    Entries,
    PropertyDeclarationBlock,
};
use crate::error::ParseErrorKind;
use crate::keyframe::{
    all_blocks_wf,
    all_under_lock,
    all_wf,
    keyframe_wf,
    under_lock,
    Keyframe,
    KeyframeView,
    LockedKeyframe,
};
use crate::percentage::KeyframePercentage;
use crate::properties::{Importance, PropertyDeclaration, PropertyDeclarationView};
use crate::selector::{selector_of, selector_wf, KeyframeSelector};
use crate::shared_lock::{Locked, LockedView, SharedRwLock};
use crate::syntax::{
    behind,
    declaration_items,
    find_rule_at,
    rule_at,
    rule_spans,
    skip_space,
    skip_whitespace,
    source_text,
    split_declarations,
    split_rules,
    text_of,
    DeclarationItem,
    DeclarationItemView,
    RuleSpan,
};
use crate::tokenizer::{
    all_settled,
    lemma_settled_significant,
    lexemes_of,
    reads_as,
    significant,
    significant_tokens,
    tokenize,
    tokens_of,
    Lexeme,
    LexemeView,
    TokenView,
};
use crate::views::{lemma_views_push, lemma_views_subrange, views};

verus! {

/// What a property grammar makes of the name and the value of a declaration.
#[derive(Debug)]
pub enum PropertyOutcome {
    /// The name is the name of no property.
    UnknownProperty,
    /// The value does not start with a value of the property.
    InvalidValue,
    /// The value starts with a value of the property.
    Parsed {
        /// The declarations that the value makes: one for a longhand, one
        /// for each longhand of a shorthand.
        declarations: Vec<PropertyDeclaration>,
        /// The text that is left of the value behind what was read.
        remainder: String,
    },
}

/// What an outcome is in contracts.
pub enum PropertyOutcomeView {
    UnknownProperty,
    InvalidValue,
    Parsed { declarations: Seq<PropertyDeclarationView>, remainder: Seq<char> },
}

impl View for PropertyOutcome {
    type V = PropertyOutcomeView;

    open spec fn view(&self) -> PropertyOutcomeView {
        match *self {
            PropertyOutcome::UnknownProperty => PropertyOutcomeView::UnknownProperty,
            PropertyOutcome::InvalidValue => PropertyOutcomeView::InvalidValue,
            PropertyOutcome::Parsed { declarations, remainder } => PropertyOutcomeView::Parsed {
                declarations: views(declarations@),
                remainder: remainder@,
            },
        }
    }
}

/// A failure that was passed over, with the text that was left out.
#[derive(Clone, Debug, PartialEq, Eq)]
pub enum ContextualParseError {
    /// A declaration of a keyframe was left out.
    UnsupportedKeyframePropertyDeclaration(String, ParseErrorKind),
    /// A keyframe was left out because of its selector.
    InvalidKeyframeRule(String, ParseErrorKind),
}

/// What a failure is in contracts.
pub enum ContextualParseErrorView {
    UnsupportedKeyframePropertyDeclaration(Seq<char>, ParseErrorKind),
    InvalidKeyframeRule(Seq<char>, ParseErrorKind),
}

impl View for ContextualParseError {
    type V = ContextualParseErrorView;

    open spec fn view(&self) -> ContextualParseErrorView {
        match *self {
            ContextualParseError::UnsupportedKeyframePropertyDeclaration(text, kind) =>
                ContextualParseErrorView::UnsupportedKeyframePropertyDeclaration(text@, kind),
            ContextualParseError::InvalidKeyframeRule(text, kind) =>
                ContextualParseErrorView::InvalidKeyframeRule(text@, kind),
        }
    }
}

/// The report of a failure that was passed over.
#[derive(Clone, Debug, PartialEq, Eq)]
pub struct Report {
    /// Where the text that was left out stands: the number of characters in
    /// front of it.
    pub position: usize,
    /// What was left out, and why.
    pub error: ContextualParseError,
}

/// What a report is in contracts.
pub struct ReportView {
    pub position: usize,
    pub error: ContextualParseErrorView,
}

impl View for Report {
    type V = ReportView;

    open spec fn view(&self) -> ReportView {
        ReportView { position: self.position, error: self.error@ }
    }
}

/// Where the failures that a parser passes over are reported.
#[derive(Debug)]
pub struct ParserContext {
    /// The reports, in the order in which they were made.
    pub errors: Vec<Report>,
}

impl View for ParserContext {
    type V = Seq<ReportView>;

    open spec fn view(&self) -> Seq<ReportView> {
        views(self.errors@)
    }
}

impl ParserContext {
    /// A context without reports.
    pub fn new() -> (context: ParserContext)
        ensures
            context@ == Seq::<ReportView>::empty(),
    {
        let context = ParserContext { errors: Vec::new() };
        assert(context@ =~= Seq::<ReportView>::empty());
        context
    }

    /// Reports that the text at `position` was left out for `error`.
    pub fn log_css_error(&mut self, position: usize, error: ContextualParseError)
        ensures
            final(self)@ == old(self)@.push(ReportView { position, error: error@ }),
    {
        let report = Report { position, error };
        proof {
            lemma_views_push(self.errors@, report);
        }
        self.errors.push(report);
    }
}

/// Whether each of `declarations` is well formed.
pub open spec fn all_declarations_wf(declarations: Seq<PropertyDeclarationView>) -> bool {
    forall|i: int| 0 <= i < declarations.len() ==> (#[trigger] declarations[i]).wf()
}

/// The declarations that a value makes, given what the property grammar
/// made of it. The value is refused if its name is the name of no property,
/// if it does not start with a value of the property, if the grammar hands
/// out a declaration that is not well formed, or if anything but white space
/// is left behind the value.
pub open spec fn value_result(outcome: PropertyOutcomeView) -> Result<
    Seq<PropertyDeclarationView>,
    ParseErrorKind,
> {
    match outcome {
        PropertyOutcomeView::UnknownProperty => Err(ParseErrorKind::UnknownProperty),
        PropertyOutcomeView::InvalidValue => Err(ParseErrorKind::UnspecifiedError),
        PropertyOutcomeView::Parsed { declarations, remainder } => {
            if !all_declarations_wf(declarations) {
                Err(ParseErrorKind::UnspecifiedError)
            } else if significant(tokens_of(lexemes_of(remainder))).len() > 0 {
                Err(ParseErrorKind::UnexpectedToken)
            } else {
                Ok(declarations)
            }
        },
    }
}

/// Whether `parsed` is `expected`, with the declarations taken by their
/// views.
pub open spec fn is_result(
    parsed: Result<Vec<PropertyDeclaration>, ParseErrorKind>,
    expected: Result<Seq<PropertyDeclarationView>, ParseErrorKind>,
) -> bool {
    match parsed {
        Ok(declarations) => expected == Ok::<Seq<PropertyDeclarationView>, ParseErrorKind>(
            views(declarations@),
        ),
        Err(error) => expected == Err::<Seq<PropertyDeclarationView>, ParseErrorKind>(error),
    }
}

/// Whether each of `declarations` is well formed.
fn all_well_formed(declarations: &Vec<PropertyDeclaration>) -> (wf: bool)
    ensures
        wf == all_declarations_wf(views(declarations@)),
{
    let mut i: usize = 0;
    while i < declarations.len()
        invariant
            i <= declarations@.len(),
            forall|j: int| 0 <= j < i ==> (#[trigger] views(declarations@)[j]).wf(),
        decreases declarations.len() - i,
    {
        if !declarations[i].is_well_formed() {
            assert(!views(declarations@)[i as int].wf());
            return false;
        }
        i += 1;
    }
    true
}

/// Decides what the answer of a property grammar amounts to: the
/// declarations that the value makes, or why it is refused.
pub fn check_value(outcome: PropertyOutcome) -> (parsed: Result<
    Vec<PropertyDeclaration>,
    ParseErrorKind,
>)
    ensures
        is_result(parsed, value_result(outcome@)),
{
    match outcome {
        PropertyOutcome::UnknownProperty => Err(ParseErrorKind::UnknownProperty),
        PropertyOutcome::InvalidValue => Err(ParseErrorKind::UnspecifiedError),
        PropertyOutcome::Parsed { declarations, remainder } => {
            if !all_well_formed(&declarations) {
                return Err(ParseErrorKind::UnspecifiedError);
            }
            let rest = tokenize(remainder.as_str());
            proof {
                // Whether a token is white space does not hang on its bits.
                lemma_settled_significant(views(rest@), lexemes_of(remainder@));
            }
            if significant_tokens(rest.as_slice()).len() > 0 {
                Err(ParseErrorKind::UnexpectedToken)
            } else {
                Ok(declarations)
            }
        },
    }
}

/// Whether `answer` is something that `grammar` may make of `name` and
/// `value`.
pub open spec fn answers<F: Fn(&str, &str) -> PropertyOutcome>(
    grammar: &F,
    name: Seq<char>,
    value: Seq<char>,
    answer: PropertyOutcomeView,
) -> bool {
    exists|asked_name: &str, asked_value: &str, outcome: PropertyOutcome|
        asked_name@ == name && asked_value@ == value && outcome@ == answer && #[trigger] call_ensures(
            *grammar,
            (asked_name, asked_value),
            outcome,
        )
}

/// Whether a property grammar can be asked about every name and value.
pub open spec fn always_answers<F: Fn(&str, &str) -> PropertyOutcome>(grammar: &F) -> bool {
    forall|name: &str, value: &str| #[trigger] call_requires(*grammar, (name, value))
}

/// The parser of the declarations of a keyframe.
pub struct KeyframeDeclarationParser<'a, F: Fn(&str, &str) -> PropertyOutcome> {
    /// The property grammar.
    pub grammar: &'a F,
}

impl<'a, F: Fn(&str, &str) -> PropertyOutcome> KeyframeDeclarationParser<'a, F> {
    /// Reads the value of the declaration of a property: asks the property
    /// grammar what `name` and `value` make, and refuses the value if
    /// anything is left behind it. `!important` is no part of this grammar:
    /// it is text left behind the value.
    pub fn parse_value(&self, name: &str, value: &str) -> (parsed: Result<
        Vec<PropertyDeclaration>,
        ParseErrorKind,
    >)
        requires
            always_answers(self.grammar),
        ensures
            exists|answer: PropertyOutcomeView|
                answers(self.grammar, name@, value@, answer) && is_result(
                    parsed,
                    #[trigger] value_result(answer),
                ),
    {
        let outcome = (self.grammar)(name, value);
        let ghost answer = outcome@;
        assert(call_ensures(*self.grammar, (name, value), outcome));
        assert(answers(self.grammar, name@, value@, answer));
        let parsed = check_value(outcome);
        assert(is_result(parsed, value_result(answer)));
        parsed
    }
}

/// What one item of a block makes: the declarations of a declaration
/// whose value is accepted, or why the item is refused.
pub open spec fn item_result(item: DeclarationItemView, answer: PropertyOutcomeView) -> Result<
    Seq<PropertyDeclarationView>,
    ParseErrorKind,
> {
    match item {
        DeclarationItemView::Declaration { .. } => value_result(answer),
        DeclarationItemView::Invalid { error, .. } => Err(error),
    }
}

/// The text of an item.
pub open spec fn item_source(item: DeclarationItemView) -> Seq<char> {
    match item {
        DeclarationItemView::Declaration { source, .. } => source,
        DeclarationItemView::Invalid { source, .. } => source,
    }
}

/// The place of an item.
pub open spec fn item_position(item: DeclarationItemView) -> usize {
    match item {
        DeclarationItemView::Declaration { position, .. } => position,
        DeclarationItemView::Invalid { position, .. } => position,
    }
}

/// Whether `answer` is something that `grammar` may make of `item`. Of an
/// item that is no declaration the grammar is not asked.
pub open spec fn item_answered<F: Fn(&str, &str) -> PropertyOutcome>(
    grammar: &F,
    item: DeclarationItemView,
    answer: PropertyOutcomeView,
) -> bool {
    match item {
        DeclarationItemView::Declaration { name, value, .. } => answers(
            grammar,
            name,
            value,
            answer,
        ),
        DeclarationItemView::Invalid { .. } => true,
    }
}

/// Whether `given` holds, for each of `items`, something that `grammar` may
/// make of it.
pub open spec fn answered<F: Fn(&str, &str) -> PropertyOutcome>(
    grammar: &F,
    items: Seq<DeclarationItemView>,
    given: Seq<PropertyOutcomeView>,
) -> bool {
    &&& given.len() == items.len()
    &&& forall|i: int|
        0 <= i < items.len() ==> #[trigger] item_answered(grammar, items[i], given[i])
}

/// The block that the items make, given what the property grammar made of
/// each: the declarations of the accepted items, in order, where a later
/// declaration of a longhand takes the place of an earlier one. A refused
/// item leaves the block as it is.
pub open spec fn block_after(
    items: Seq<DeclarationItemView>,
    given: Seq<PropertyOutcomeView>,
) -> Entries
    decreases items.len(),
{
    if items.len() == 0 {
        Seq::empty()
    } else {
        let before = block_after(items.drop_last(), given.drop_last());
        match item_result(items.last(), given.last()) {
            Ok(declarations) => extended(before, declarations, Importance::Normal),
            Err(_) => before,
        }
    }
}

/// The reports that the items make: one for each refused item, in order,
/// with the place and the text of the item and why it is refused.
pub open spec fn reports_after(
    items: Seq<DeclarationItemView>,
    given: Seq<PropertyOutcomeView>,
) -> Seq<ReportView>
    decreases items.len(),
{
    if items.len() == 0 {
        Seq::empty()
    } else {
        let before = reports_after(items.drop_last(), given.drop_last());
        match item_result(items.last(), given.last()) {
            Ok(_) => before,
            Err(error) => before.push(
                ReportView {
                    position: item_position(items.last()),
                    error: ContextualParseErrorView::UnsupportedKeyframePropertyDeclaration(
                        item_source(items.last()),
                        error,
                    ),
                },
            ),
        }
    }
}

/// The block that items make is well formed and holds no important
/// declaration.
pub proof fn lemma_block_after_wf(
    items: Seq<DeclarationItemView>,
    given: Seq<PropertyOutcomeView>,
)
    ensures
        entries_wf(block_after(items, given)),
        all_normal(block_after(items, given)),
    decreases items.len(),
{
    if items.len() > 0 {
        lemma_block_after_wf(items.drop_last(), given.drop_last());
        if let Ok(declarations) = item_result(items.last(), given.last()) {
            lemma_extended_wf(
                block_after(items.drop_last(), given.drop_last()),
                declarations,
                Importance::Normal,
            );
        }
    }
}

/// The keyframe with the given selector and declarations, with its block and
/// itself under `lock`.
pub open spec fn keyframe_of(
    lock: SharedRwLock,
    selector: Seq<KeyframePercentage>,
    entries: Entries,
) -> LockedKeyframe {
    LockedView {
        lock,
        data: KeyframeView { selector, block: LockedView { lock, data: entries } },
    }
}

/// The parser of a list of keyframes.
pub struct KeyframeListParser<'a, F: Fn(&str, &str) -> PropertyOutcome> {
    /// The lock that the keyframes and their blocks are put under.
    pub shared_lock: &'a SharedRwLock,
    /// The property grammar.
    pub grammar: &'a F,
}

impl<'a, F: Fn(&str, &str) -> PropertyOutcome> KeyframeListParser<'a, F> {
    /// Reads the selector of a keyframe from the lexemes in front of its
    /// block, which stand at `position`. A selector that is refused is
    /// reported.
    pub fn parse_prelude(
        &self,
        context: &mut ParserContext,
        position: usize,
        input: &[Lexeme],
    ) -> (parsed: Result<KeyframeSelector, ParseErrorKind>)
        ensures
            match parsed {
                Ok(selector) => {
                    &&& prelude_result(views(input@)) == Ok::<
                        Seq<KeyframePercentage>,
                        ParseErrorKind,
                    >(selector@)
                    &&& final(context)@ == old(context)@
                },
                Err(error) => {
                    &&& prelude_result(views(input@)) == Err::<
                        Seq<KeyframePercentage>,
                        ParseErrorKind,
                    >(error)
                    &&& final(context)@ == old(context)@ + prelude_reports(
                        views(input@),
                        position,
                    )
                },
            },
            parsed matches Ok(selector) ==> selector_wf(selector@),
    {
        match KeyframeSelector::parse_tokens(input) {
            Ok(selector) => {
                Ok(selector)
            },
            Err(error) => {
                let text = source_text(input, 0, input.len());
                assert(views(input@).subrange(0, input@.len() as int) =~= views(input@));
                let ghost before = context@;
                context.log_css_error(
                    position,
                    ContextualParseError::InvalidKeyframeRule(text, error),
                );
                assert(context@ =~= before + prelude_reports(views(input@), position));
                Err(error)
            },
        }
    }

    /// Reads the block of a keyframe from the lexemes between its braces,
    /// declaration after declaration. A declaration that is refused is
    /// left out and reported, and the next one is read.
    pub fn parse_block(
        &self,
        context: &mut ParserContext,
        prelude: KeyframeSelector,
        input: &[Lexeme],
    ) -> (keyframe: Arc<Locked<Keyframe>>)
        requires
            always_answers(self.grammar),
        ensures
            exists|given: Seq<PropertyOutcomeView>|
                {
                    &&& answered(self.grammar, declaration_items(views(input@), 0), given)
                    &&& keyframe@ == keyframe_of(
                        *self.shared_lock,
                        prelude@,
                        #[trigger] block_after(declaration_items(views(input@), 0), given),
                    )
                    &&& final(context)@ == old(context)@ + reports_after(
                        declaration_items(views(input@), 0),
                        given,
                    )
                },
            entries_wf(keyframe@.data.block.data),
            all_normal(keyframe@.data.block.data),
    {
        let items = split_declarations(input);
        let ghost all = views(items@);
        let parser = KeyframeDeclarationParser { grammar: self.grammar };
        let mut block = PropertyDeclarationBlock::new();
        let ghost mut given: Seq<PropertyOutcomeView> = Seq::empty();
        proof {
            assert(all.take(0) =~= Seq::<DeclarationItemView>::empty());
            assert(context@ + reports_after(all.take(0), given) =~= context@);
        }
        for item in iter: items
            invariant
                iter.seq() == items@,
                all == views(items@),
                always_answers(self.grammar),
                parser.grammar == self.grammar,
                block.wf(),
                answered(self.grammar, all.take(iter.index() as int), given),
                block@ == block_after(all.take(iter.index() as int), given),
                context@ == old(context)@ + reports_after(all.take(iter.index() as int), given),
        {
            let ghost done = iter.index() as int;
            let ghost before = context@;
            let ghost answer;
            let (parsed, source, position) = match item {
                DeclarationItem::Declaration { name, value, source, position } => {
                    let parsed = parser.parse_value(name.as_str(), value.as_str());
                    proof {
                        answer = choose|answer: PropertyOutcomeView|
                            answers(self.grammar, name@, value@, answer) && is_result(
                                parsed,
                                #[trigger] value_result(answer),
                            );
                    }
                    (parsed, source, position)
                },
                DeclarationItem::Invalid { error, source, position } => {
                    proof {
                        answer = PropertyOutcomeView::UnknownProperty;
                    }
                    (Err(error), source, position)
                },
            };
            proof {
                let longer = all.take(done + 1);
                assert(longer.drop_last() =~= all.take(done));
                assert(longer.last() == item@);
                assert(given.push(answer).drop_last() =~= given);
                assert(is_result(parsed, item_result(item@, answer)));
                assert forall|i: int| 0 <= i < longer.len() implies #[trigger] item_answered(
                    self.grammar,
                    longer[i],
                    given.push(answer)[i],
                ) by {
                    if i < done {
                        assert(item_answered(self.grammar, all.take(done)[i], given[i]));
                    }
                }
                given = given.push(answer);
            }
            match parsed {
                Ok(declarations) => {
                    assert forall|i: int| 0 <= i < declarations@.len() implies (
                    #[trigger] declarations@[i])@.wf() by {
                        assert(views(declarations@)[i].wf());
                    }
                    block.extend(declarations, Importance::Normal);
                },
                Err(error) => {
                    context.log_css_error(
                        position,
                        ContextualParseError::UnsupportedKeyframePropertyDeclaration(source, error),
                    );
                    assert(context@ =~= old(context)@ + reports_after(all.take(done + 1), given));
                },
            }
        }
        proof {
            assert(all.take(items@.len() as int) =~= all);
            lemma_block_after_wf(all, given);
        }
        let keyframe = Arc::new(
            self.shared_lock.wrap(
                Keyframe { selector: prelude, block: Arc::new(self.shared_lock.wrap(block)) },
            ),
        );
        assert(keyframe@ == keyframe_of(*self.shared_lock, prelude@, block_after(all, given)));
        keyframe
    }
}

/// The selector that the lexemes in front of a block spell.
pub open spec fn prelude_result(prelude: Seq<LexemeView>) -> Result<
    Seq<KeyframePercentage>,
    ParseErrorKind,
> {
    selector_of(significant(tokens_of(prelude)))
}

/// The reports that the lexemes in front of a block make, which stand at
/// `position`: one if they spell no selector, with their place, their text
/// and why they are refused.
pub open spec fn prelude_reports(prelude: Seq<LexemeView>, position: usize) -> Seq<ReportView> {
    match prelude_result(prelude) {
        Ok(_) => Seq::empty(),
        Err(error) => seq![
            ReportView {
                position,
                error: ContextualParseErrorView::InvalidKeyframeRule(text_of(prelude), error),
            },
        ],
    }
}

/// The lexemes of the prelude of a rule.
pub open spec fn rule_prelude(lexemes: Seq<LexemeView>, rule: RuleSpan) -> Seq<LexemeView> {
    lexemes.subrange(rule.start as int, rule.open as int)
}

/// Whether a rule has a block.
pub open spec fn rule_has_block(lexemes: Seq<LexemeView>, rule: RuleSpan) -> bool {
    rule.open < lexemes.len()
}

/// The items of the block of a rule.
pub open spec fn rule_items(lexemes: Seq<LexemeView>, rule: RuleSpan) -> Seq<DeclarationItemView> {
    declaration_items(lexemes.subrange(rule.open + 1, rule.close as int), 0)
}

/// Whether a rule makes a keyframe: it does if it has a block and its
/// prelude spells a selector.
pub open spec fn makes_keyframe(lexemes: Seq<LexemeView>, rule: RuleSpan) -> bool {
    rule_has_block(lexemes, rule) && prelude_result(rule_prelude(lexemes, rule)) is Ok
}

/// The keyframe that a rule makes, given what the property grammar made of
/// the items of its block.
pub open spec fn rule_keyframe(
    lexemes: Seq<LexemeView>,
    rule: RuleSpan,
    given: Seq<PropertyOutcomeView>,
    lock: SharedRwLock,
) -> LockedKeyframe {
    keyframe_of(
        lock,
        prelude_result(rule_prelude(lexemes, rule))->Ok_0,
        block_after(rule_items(lexemes, rule), given),
    )
}

/// The reports that a rule makes: one for its prelude if that spells no
/// selector; else, if the rule has a block, those of its items.
pub open spec fn rule_reports(
    lexemes: Seq<LexemeView>,
    rule: RuleSpan,
    given: Seq<PropertyOutcomeView>,
) -> Seq<ReportView> {
    if makes_keyframe(lexemes, rule) {
        reports_after(rule_items(lexemes, rule), given)
    } else {
        prelude_reports(rule_prelude(lexemes, rule), lexemes[rule.start as int].position)
    }
}

/// The keyframes that the rules make, in order. A rule that makes none is
/// passed over.
pub open spec fn keyframes_after(
    lexemes: Seq<LexemeView>,
    rules: Seq<RuleSpan>,
    given: Seq<Seq<PropertyOutcomeView>>,
    lock: SharedRwLock,
) -> Seq<LockedKeyframe>
    decreases rules.len(),
{
    if rules.len() == 0 {
        Seq::empty()
    } else {
        let before = keyframes_after(lexemes, rules.drop_last(), given.drop_last(), lock);
        if makes_keyframe(lexemes, rules.last()) {
            before.push(rule_keyframe(lexemes, rules.last(), given.last(), lock))
        } else {
            before
        }
    }
}

/// The reports that the rules make, in order.
pub open spec fn list_reports(
    lexemes: Seq<LexemeView>,
    rules: Seq<RuleSpan>,
    given: Seq<Seq<PropertyOutcomeView>>,
) -> Seq<ReportView>
    decreases rules.len(),
{
    if rules.len() == 0 {
        Seq::empty()
    } else {
        list_reports(lexemes, rules.drop_last(), given.drop_last()) + rule_reports(
            lexemes,
            rules.last(),
            given.last(),
        )
    }
}

/// Whether `given` holds, for the items of each rule that makes a keyframe,
/// something that `grammar` may make of them.
pub open spec fn rule_answered<F: Fn(&str, &str) -> PropertyOutcome>(
    grammar: &F,
    lexemes: Seq<LexemeView>,
    rule: RuleSpan,
    given: Seq<PropertyOutcomeView>,
) -> bool {
    makes_keyframe(lexemes, rule) ==> answered(grammar, rule_items(lexemes, rule), given)
}

/// Whether `given` holds, for each rule, what `rule_answered` asks.
pub open spec fn list_answered<F: Fn(&str, &str) -> PropertyOutcome>(
    grammar: &F,
    lexemes: Seq<LexemeView>,
    rules: Seq<RuleSpan>,
    given: Seq<Seq<PropertyOutcomeView>>,
) -> bool {
    &&& given.len() == rules.len()
    &&& forall|i: int|
        0 <= i < rules.len() ==> #[trigger] rule_answered(grammar, lexemes, rules[i], given[i])
}

/// Whether `keyframes` are what the lexemes of a list of keyframes make, and
/// whether the reports `after` are the reports `before` with those that the
/// lexemes make behind them, for some answers of the property grammar to the
/// declarations of each keyframe.
pub open spec fn list_read<F: Fn(&str, &str) -> PropertyOutcome>(
    grammar: &F,
    lexemes: Seq<LexemeView>,
    lock: SharedRwLock,
    keyframes: Seq<LockedKeyframe>,
    before: Seq<ReportView>,
    after: Seq<ReportView>,
) -> bool {
    exists|given: Seq<Seq<PropertyOutcomeView>>|
        {
            &&& list_answered(grammar, lexemes, rule_spans(lexemes, 0), given)
            &&& keyframes == #[trigger] keyframes_after(
                lexemes,
                rule_spans(lexemes, 0),
                given,
                lock,
            )
            &&& after == before + list_reports(lexemes, rule_spans(lexemes, 0), given)
        }
}

/// Reads a list of keyframes, such as
///
/// ```css
/// 0%, 50% { width: 50%; }
/// 40%, 60%, 100% { width: 100%; }
/// ```
///
/// The keyframes come in the order in which they are written, each with its
/// block and itself under `shared_lock`. A keyframe whose selector is
/// refused is left out and reported, and so is each declaration that is
/// refused; what stands around them is read as if they were not there.
///
/// The keyframes are those that the lexemes of one scan of the text make.
/// Where no percentage of the text is written with an exponent, those are
/// the lexemes of the text.
pub fn parse_keyframe_list<F: Fn(&str, &str) -> PropertyOutcome>(
    context: &mut ParserContext,
    input: &str,
    shared_lock: &SharedRwLock,
    grammar: &F,
) -> (keyframes: Vec<Arc<Locked<Keyframe>>>)
    requires
        always_answers(grammar),
    ensures
        exists|lexemes: Seq<LexemeView>| #[trigger]
            reads_as(input@, lexemes) && list_read(
                grammar,
                lexemes,
                *shared_lock,
                views(keyframes@),
                old(context)@,
                final(context)@,
            ),
        all_settled(input@) ==> list_read(
            grammar,
            lexemes_of(input@),
            *shared_lock,
            views(keyframes@),
            old(context)@,
            final(context)@,
        ),
        all_under_lock(views(keyframes@), *shared_lock),
        all_wf(views(keyframes@)),
        all_blocks_wf(views(keyframes@)),
{
    let lexemes = tokenize(input);
    let lexemes = lexemes.as_slice();
    let rules = split_rules(lexemes);
    let parser = KeyframeListParser { shared_lock, grammar };
    let ghost all = views(lexemes@);
    let ghost lock = *shared_lock;
    let mut keyframes: Vec<Arc<Locked<Keyframe>>> = Vec::new();
    let ghost mut given: Seq<Seq<PropertyOutcomeView>> = Seq::empty();
    proof {
        assert(rules@.take(0) =~= Seq::<RuleSpan>::empty());
        assert(views(keyframes@) =~= keyframes_after(all, rules@.take(0), given, lock));
        assert(context@ + list_reports(all, rules@.take(0), given) =~= context@);
    }
    let mut r: usize = 0;
    while r < rules.len()
        invariant
            r <= rules@.len(),
            all == views(lexemes@),
            lock == *shared_lock,
            parser.shared_lock == shared_lock,
            parser.grammar == grammar,
            always_answers(grammar),
            forall|i: int|
                0 <= i < rules@.len() ==> (#[trigger] rules@[i]).start < lexemes@.len()
                    && rules@[i].start <= rules@[i].open <= rules@[i].close <= lexemes@.len() && (
                rules@[i].open < lexemes@.len() ==> rules@[i].open < rules@[i].close),
            list_answered(grammar, all, rules@.take(r as int), given),
            views(keyframes@) == keyframes_after(all, rules@.take(r as int), given, lock),
            context@ == old(context)@ + list_reports(all, rules@.take(r as int), given),
            all_under_lock(views(keyframes@), lock),
            all_wf(views(keyframes@)),
            all_blocks_wf(views(keyframes@)),
        decreases rules.len() - r,
    {
        let rule = rules[r];
        let ghost done = rules@.take(r as int);
        let ghost longer = rules@.take(r + 1);
        let ghost before = context@;
        let ghost answer: Seq<PropertyOutcomeView> = Seq::empty();
        assert(rule == rules@[r as int]);
        let prelude = slice_subrange(lexemes, rule.start, rule.open);
        proof {
            lemma_views_subrange(lexemes@, rule.start as int, rule.open as int);
            assert(longer.drop_last() =~= done);
            assert(longer.last() == rule);
        }
        assert(all[rule.start as int].position == lexemes@[rule.start as int].position);
        let selector = parser.parse_prelude(context, lexemes[rule.start].position, prelude);
        if rule.open < lexemes.len() {
            if let Ok(selector) = selector {
                let block = slice_subrange(lexemes, rule.open + 1, rule.close);
                proof {
                    lemma_views_subrange(lexemes@, rule.open + 1, rule.close as int);
                }
                let keyframe = parser.parse_block(context, selector, block);
                proof {
                    let items = rule_items(all, rule);
                    answer = choose|answer: Seq<PropertyOutcomeView>|
                        {
                            &&& answered(grammar, items, answer)
                            &&& keyframe@ == keyframe_of(
                                lock,
                                selector@,
                                #[trigger] block_after(items, answer),
                            )
                            &&& context@ == before + reports_after(items, answer)
                        };
                    lemma_views_push(keyframes@, keyframe);
                    let grown = views(keyframes@).push(keyframe@);
                    assert forall|k: int| 0 <= k < grown.len() implies under_lock(
                        #[trigger] grown[k],
                        lock,
                    ) by {
                        if k < views(keyframes@).len() {
                            assert(under_lock(views(keyframes@)[k], lock));
                        }
                    }
                    assert forall|k: int| 0 <= k < grown.len() implies keyframe_wf(
                        (#[trigger] grown[k]).data,
                    ) && entries_wf(grown[k].data.block.data) by {
                        if k < views(keyframes@).len() {
                            assert(keyframe_wf(views(keyframes@)[k].data));
                            assert(entries_wf(views(keyframes@)[k].data.block.data));
                        }
                    }
                }
                keyframes.push(keyframe);
            }
        }
        proof {
            assert(given.push(answer).drop_last() =~= given);
            assert forall|i: int| 0 <= i < longer.len() implies #[trigger] rule_answered(
                grammar,
                all,
                longer[i],
                given.push(answer)[i],
            ) by {
                if i < r {
                    assert(rule_answered(grammar, all, done[i], given[i]));
                }
            }
            given = given.push(answer);
            assert(context@ =~= old(context)@ + list_reports(all, longer, given));
        }
        r += 1;
    }
    assert(rules@.take(r as int) =~= rules@);
    assert(views(keyframes@) == keyframes_after(all, rule_spans(all, 0), given, lock));
    assert(reads_as(input@, all) && list_read(
        grammar,
        all,
        lock,
        views(keyframes@),
        old(context)@,
        context@,
    ));
    keyframes
}

/// What a keyframe is read for: the style sheet that it belongs to.
#[derive(Debug)]
pub struct Stylesheet {
    /// The lock that the rules of the style sheet are under.
    pub shared_lock: SharedRwLock,
}

/// The keyframe that a text spells, given what the property grammar made of
/// the items of its block. The text must hold one rule and nothing else: a
/// selector and a block.
///
/// An at-rule is refused. A rule without a block is refused as input that
/// ends too early, whatever its prelude is. A prelude that spells no
/// selector is refused for the reason that the selector is. Anything but
/// white space behind the block is refused as an unexpected token.
pub open spec fn one_keyframe(
    lexemes: Seq<LexemeView>,
    given: Seq<PropertyOutcomeView>,
    lock: SharedRwLock,
) -> Result<LockedKeyframe, ParseErrorKind> {
    let start = skip_space(lexemes, 0);
    if start >= lexemes.len() {
        Err(ParseErrorKind::EndOfInput)
    } else if lexemes[start].token == TokenView::AtKeyword {
        Err(ParseErrorKind::AtRuleInvalid)
    } else {
        let rule = rule_at(lexemes, start);
        if !rule_has_block(lexemes, rule) {
            Err(ParseErrorKind::EndOfInput)
        } else {
            match prelude_result(rule_prelude(lexemes, rule)) {
                Err(error) => Err(error),
                Ok(_) => {
                    if skip_space(lexemes, behind(lexemes, rule.close as int)) < lexemes.len() {
                        Err(ParseErrorKind::UnexpectedToken)
                    } else {
                        Ok(rule_keyframe(lexemes, rule, given, lock))
                    }
                },
            }
        }
    }
}

/// Whether the text holds a rule whose block is read: a rule with a block
/// and a prelude that spells a selector, in front of which stands nothing
/// but white space.
pub open spec fn reads_block(lexemes: Seq<LexemeView>) -> bool {
    let start = skip_space(lexemes, 0);
    &&& start < lexemes.len()
    &&& lexemes[start].token != TokenView::AtKeyword
    &&& makes_keyframe(lexemes, rule_at(lexemes, start))
}

/// Whether `parsed` is the keyframe that the lexemes spell, or the reason
/// for which they spell none, for some answers of the property grammar to
/// the declarations of the block.
pub open spec fn keyframe_read<F: Fn(&str, &str) -> PropertyOutcome>(
    grammar: &F,
    lexemes: Seq<LexemeView>,
    lock: SharedRwLock,
    parsed: Result<Arc<Locked<Keyframe>>, ParseErrorKind>,
) -> bool {
    exists|given: Seq<PropertyOutcomeView>|
        {
            &&& reads_block(lexemes) ==> answered(
                grammar,
                rule_items(lexemes, rule_at(lexemes, skip_space(lexemes, 0))),
                given,
            )
            &&& match parsed {
                Ok(keyframe) => #[trigger] one_keyframe(lexemes, given, lock) == Ok::<
                    LockedKeyframe,
                    ParseErrorKind,
                >(keyframe@),
                Err(error) => one_keyframe(lexemes, given, lock) == Err::<
                    LockedKeyframe,
                    ParseErrorKind,
                >(error),
            }
        }
}

impl Keyframe {
    /// Reads one keyframe, such as `from, 50% { width: 10px }`, for the
    /// style sheet `parent_stylesheet`. What is refused inside the block of
    /// the keyframe is left out and not reported.
    ///
    /// The keyframe is the one that the lexemes of one scan of the text
    /// spell. Where no percentage of the text is written with an exponent,
    /// those are the lexemes of the text.
    pub fn parse<F: Fn(&str, &str) -> PropertyOutcome>(
        css: &str,
        parent_stylesheet: &Stylesheet,
        grammar: &F,
    ) -> (parsed: Result<Arc<Locked<Keyframe>>, ParseErrorKind>)
        requires
            always_answers(grammar),
        ensures
            exists|lexemes: Seq<LexemeView>| #[trigger]
                reads_as(css@, lexemes) && keyframe_read(
                    grammar,
                    lexemes,
                    parent_stylesheet.shared_lock,
                    parsed,
                ),
            all_settled(css@) ==> keyframe_read(
                grammar,
                lexemes_of(css@),
                parent_stylesheet.shared_lock,
                parsed,
            ),
            parsed matches Ok(keyframe) ==> {
                &&& under_lock(keyframe@, parent_stylesheet.shared_lock)
                &&& keyframe_wf(keyframe@.data)
                &&& entries_wf(keyframe@.data.block.data)
            },
    {
        let lexemes = tokenize(css);
        let lexemes = lexemes.as_slice();
        let ghost all = views(lexemes@);
        let ghost lock = parent_stylesheet.shared_lock;
        let ghost none: Seq<PropertyOutcomeView> = Seq::empty();
        let mut context = ParserContext::new();
        let parser = KeyframeListParser { shared_lock: &parent_stylesheet.shared_lock, grammar };
        let start = skip_whitespace(lexemes, 0);
        if start >= lexemes.len() {
            assert(one_keyframe(all, none, lock) == Err::<LockedKeyframe, ParseErrorKind>(
                ParseErrorKind::EndOfInput,
            ));
            return Err(ParseErrorKind::EndOfInput);
        }
        assert(all[start as int].token == lexemes@[start as int].token@);
        if let crate::tokenizer::Token::AtKeyword = &lexemes[start].token {
            assert(one_keyframe(all, none, lock) == Err::<LockedKeyframe, ParseErrorKind>(
                ParseErrorKind::AtRuleInvalid,
            ));
            return Err(ParseErrorKind::AtRuleInvalid);
        }
        let rule = find_rule_at(lexemes, start);
        let prelude = slice_subrange(lexemes, rule.start, rule.open);
        proof {
            lemma_views_subrange(lexemes@, rule.start as int, rule.open as int);
        }
        let selector = parser.parse_prelude(&mut context, lexemes[start].position, prelude);
        if rule.open >= lexemes.len() {
            assert(one_keyframe(all, none, lock) == Err::<LockedKeyframe, ParseErrorKind>(
                ParseErrorKind::EndOfInput,
            ));
            return Err(ParseErrorKind::EndOfInput);
        }
        match selector {
            Err(error) => {
                assert(one_keyframe(all, none, lock) == Err::<LockedKeyframe, ParseErrorKind>(
                    error,
                ));
                Err(error)
            },
            Ok(selector) => {
                let block = slice_subrange(lexemes, rule.open + 1, rule.close);
                proof {
                    lemma_views_subrange(lexemes@, rule.open + 1, rule.close as int);
                }
                let ghost before = context@;
                let keyframe = parser.parse_block(&mut context, selector, block);
                let ghost items = rule_items(all, rule);
                let ghost given = choose|given: Seq<PropertyOutcomeView>|
                    {
                        &&& answered(grammar, items, given)
                        &&& keyframe@ == keyframe_of(
                            lock,
                            selector@,
                            #[trigger] block_after(items, given),
                        )
                        &&& context@ == before + reports_after(items, given)
                    };
                let next = if rule.close < lexemes.len() {
                    rule.close + 1
                } else {
                    lexemes.len()
                };
                if skip_whitespace(lexemes, next) < lexemes.len() {
                    assert(one_keyframe(all, given, lock) == Err::<LockedKeyframe, ParseErrorKind>(
                        ParseErrorKind::UnexpectedToken,
                    ));
                    return Err(ParseErrorKind::UnexpectedToken);
                }
                assert(one_keyframe(all, given, lock) == Ok::<LockedKeyframe, ParseErrorKind>(
                    keyframe@,
                ));
                Ok(keyframe)
            },
        }
    }
}

/// A refused item leaves no trace in the block: the block is the one that
/// the other items make.
pub proof fn lemma_refused_item_changes_nothing(
    items: Seq<DeclarationItemView>,
    given: Seq<PropertyOutcomeView>,
    refused: int,
)
    requires
        given.len() == items.len(),
        0 <= refused < items.len(),
        item_result(items[refused], given[refused]) is Err,
    ensures
        block_after(items.remove(refused), given.remove(refused)) == block_after(items, given),
    decreases items.len(),
{
    if refused == items.len() - 1 {
        assert(items.remove(refused) =~= items.drop_last());
        assert(given.remove(refused) =~= given.drop_last());
    } else {
        lemma_refused_item_changes_nothing(items.drop_last(), given.drop_last(), refused);
        assert(items.remove(refused).drop_last() =~= items.drop_last().remove(refused));
        assert(given.remove(refused).drop_last() =~= given.drop_last().remove(refused));
        assert(items.remove(refused).last() == items.last());
        assert(given.remove(refused).last() == given.last());
    }
}

/// A rule that makes no keyframe leaves no trace among the keyframes: they
/// are the ones that the other rules make.
pub proof fn lemma_refused_rule_changes_nothing(
    lexemes: Seq<LexemeView>,
    rules: Seq<RuleSpan>,
    given: Seq<Seq<PropertyOutcomeView>>,
    lock: SharedRwLock,
    refused: int,
)
    requires
        given.len() == rules.len(),
        0 <= refused < rules.len(),
        !makes_keyframe(lexemes, rules[refused]),
    ensures
        keyframes_after(lexemes, rules.remove(refused), given.remove(refused), lock)
            == keyframes_after(lexemes, rules, given, lock),
    decreases rules.len(),
{
    if refused == rules.len() - 1 {
        assert(rules.remove(refused) =~= rules.drop_last());
        assert(given.remove(refused) =~= given.drop_last());
    } else {
        lemma_refused_rule_changes_nothing(
            lexemes,
            rules.drop_last(),
            given.drop_last(),
            lock,
            refused,
        );
        assert(rules.remove(refused).drop_last() =~= rules.drop_last().remove(refused));
        assert(given.remove(refused).drop_last() =~= given.drop_last().remove(refused));
        assert(rules.remove(refused).last() == rules.last());
        assert(given.remove(refused).last() == given.last());
    }
}

/// Every keyframe that a list makes is well formed, and so is its block: its
/// selector holds a percentage, each of its percentages lies between zero
/// and one, no two of its declarations set the same longhand, and none of
/// them is important.
pub proof fn lemma_keyframes_after_wf(
    lexemes: Seq<LexemeView>,
    rules: Seq<RuleSpan>,
    given: Seq<Seq<PropertyOutcomeView>>,
    lock: SharedRwLock,
)
    ensures
        keyframes_after(lexemes, rules, given, lock).len() <= rules.len(),
        all_under_lock(keyframes_after(lexemes, rules, given, lock), lock),
        all_wf(keyframes_after(lexemes, rules, given, lock)),
        all_blocks_wf(keyframes_after(lexemes, rules, given, lock)),
    decreases rules.len(),
{
    if rules.len() > 0 {
        lemma_keyframes_after_wf(lexemes, rules.drop_last(), given.drop_last(), lock);
        let before = keyframes_after(lexemes, rules.drop_last(), given.drop_last(), lock);
        let after = keyframes_after(lexemes, rules, given, lock);
        if makes_keyframe(lexemes, rules.last()) {
            let made = rule_keyframe(lexemes, rules.last(), given.last(), lock);
            lemma_block_after_wf(rule_items(lexemes, rules.last()), given.last());
            crate::selector::lemma_selector_in_range(
                significant(tokens_of(rule_prelude(lexemes, rules.last()))),
            );
            assert forall|k: int| 0 <= k < after.len() implies under_lock(
                #[trigger] after[k],
                lock,
            ) && keyframe_wf(after[k].data) && entries_wf(after[k].data.block.data) by {
                if k < before.len() {
                    assert(after[k] == before[k]);
                    assert(under_lock(before[k], lock));
                    assert(keyframe_wf(before[k].data));
                }
            }
        }
    }
}

} // verus!
