use keyframes::declaration_block::PropertyDeclarationBlock;
use keyframes::error::ParseErrorKind;
use keyframes::keyframe::Keyframe;
use keyframes::parser::{
    check_value, parse_keyframe_list, ContextualParseError, KeyframeDeclarationParser,
    KeyframeListParser, ParserContext, PropertyOutcome, Report, Stylesheet,
};
use keyframes::percentage::{KeyframePercentage, NEGATIVE_ZERO_BITS, ONE_BITS, ZERO_BITS};
use keyframes::properties::{
    CSSWideKeyword, DeclaredValue, LonghandId, PropertyDeclaration, SpecifiedTimingFunction,
    TimingKeyword,
};
use keyframes::selector::KeyframeSelector;
use keyframes::shared_lock::{Locked, SharedRwLock, SharedRwLockReadGuard};
use keyframes::syntax::{
    find_block_close, find_delimiter, split_declarations, split_rules, DeclarationItem,
    Delimiters, RuleSpan,
};
use keyframes::tokenizer::{tokenize, BlockType, Token};
use std::sync::Arc;

fn percent(value: f32) -> KeyframePercentage {
    KeyframePercentage::new(value.to_bits())
}

fn selector(values: &[f32]) -> KeyframeSelector {
    KeyframeSelector::new_for_unit_testing(values.iter().map(|value| percent(*value)).collect())
}

/// A property grammar of four properties: `width` and `height` take one
/// dimension, `display` takes one identifier, and
/// `animation-timing-function` takes `linear` or `ease`. All of them take
/// `inherit`.
fn grammar(name: &str, value: &str) -> PropertyOutcome {
    let (id, animatable) = match name.to_ascii_lowercase().as_str() {
        "width" => (LonghandId::Other(1), true),
        "height" => (LonghandId::Other(2), true),
        "display" => (LonghandId::Other(3), false),
        "animation-timing-function" => (LonghandId::AnimationTimingFunction, false),
        _ => return PropertyOutcome::UnknownProperty,
    };
    let mut parser = cssparser::Parser::new(value);
    let start = parser.position();
    let declared = match parser.next() {
        Ok(cssparser::Token::Ident(word)) if word.eq_ignore_ascii_case("inherit") => {
            DeclaredValue::CSSWideKeyword(CSSWideKeyword::Inherit)
        }
        Ok(cssparser::Token::Dimension { .. }) if animatable => DeclaredValue::Specified,
        Ok(cssparser::Token::Ident(word)) if id == LonghandId::AnimationTimingFunction => {
            if word.eq_ignore_ascii_case("linear") {
                DeclaredValue::TimingFunctions(vec![SpecifiedTimingFunction::Keyword(
                    TimingKeyword::Linear,
                )])
            } else if word.eq_ignore_ascii_case("ease") {
                DeclaredValue::TimingFunctions(vec![SpecifiedTimingFunction::Keyword(
                    TimingKeyword::Ease,
                )])
            } else {
                return PropertyOutcome::InvalidValue;
            }
        }
        Ok(cssparser::Token::Ident(_)) if id == LonghandId::Other(3) => DeclaredValue::Specified,
        _ => return PropertyOutcome::InvalidValue,
    };
    let css = parser.slice_from(start).trim().to_string();
    let remainder = value[parser.position().byte_index()..].to_string();
    PropertyOutcome::Parsed {
        declarations: vec![PropertyDeclaration {
            id,
            animatable,
            value: declared,
            name: name.to_ascii_lowercase(),
            css,
        }],
        remainder,
    }
}

fn block_css(block: &Arc<Locked<PropertyDeclarationBlock>>, guard: &SharedRwLockReadGuard) -> String {
    let mut css = String::new();
    block.read_with(guard).to_css(&mut css);
    css
}

fn unsupported(position: usize, text: &str, kind: ParseErrorKind) -> Report {
    Report {
        position,
        error: ContextualParseError::UnsupportedKeyframePropertyDeclaration(text.to_string(), kind),
    }
}

fn invalid_rule(position: usize, text: &str, kind: ParseErrorKind) -> Report {
    Report { position, error: ContextualParseError::InvalidKeyframeRule(text.to_string(), kind) }
}

#[test]
fn percentage_from_bits_keeps_zero_to_one() {
    assert_eq!(KeyframePercentage::from_bits(ZERO_BITS), Some(KeyframePercentage(ZERO_BITS)));
    assert_eq!(KeyframePercentage::from_bits(ONE_BITS), Some(KeyframePercentage(ONE_BITS)));
    assert_eq!(KeyframePercentage::from_bits(0.5f32.to_bits()), Some(percent(0.5)));
    assert_eq!(
        KeyframePercentage::from_bits(NEGATIVE_ZERO_BITS),
        Some(KeyframePercentage(ZERO_BITS))
    );
    assert_eq!((-0.0f32).to_bits(), NEGATIVE_ZERO_BITS);
    assert_eq!(1.0f32.to_bits(), ONE_BITS);
    assert_eq!(KeyframePercentage::from_bits(1.0000001f32.to_bits()), None);
    assert_eq!(KeyframePercentage::from_bits((-0.5f32).to_bits()), None);
    assert_eq!(KeyframePercentage::from_bits(f32::INFINITY.to_bits()), None);
    assert_eq!(KeyframePercentage::from_bits(f32::NAN.to_bits()), None);
    assert_eq!(KeyframePercentage::from_bits(f32::MIN_POSITIVE.to_bits()), Some(percent(f32::MIN_POSITIVE)));
}

#[test]
fn percentages_are_ordered_as_their_numbers() {
    let values = [0.0f32, 1e-40, 0.001, 0.25, 0.33333334, 0.5, 0.99999994, 1.0];
    for pair in values.windows(2) {
        assert!(percent(pair[0]) < percent(pair[1]));
        assert!(pair[0].to_bits() < pair[1].to_bits());
    }
    assert!(percent(0.5).is_start() == false);
    assert!(percent(0.0).is_start());
    assert!(percent(1.0).is_end());
    assert!(!percent(0.99999994).is_end());
}

#[test]
fn percentage_parse_reads_keywords_and_percentages() {
    assert_eq!(KeyframePercentage::parse(&Token::Ident("from".to_string())), Ok(percent(0.0)));
    assert_eq!(KeyframePercentage::parse(&Token::Ident("FROM".to_string())), Ok(percent(0.0)));
    assert_eq!(KeyframePercentage::parse(&Token::Ident("To".to_string())), Ok(percent(1.0)));
    assert_eq!(
        KeyframePercentage::parse(&Token::Ident("too".to_string())),
        Err(ParseErrorKind::UnexpectedToken)
    );
    assert_eq!(
        KeyframePercentage::parse(&Token::Ident("fro".to_string())),
        Err(ParseErrorKind::UnexpectedToken)
    );
    assert_eq!(KeyframePercentage::parse(&Token::Percentage(0.25f32.to_bits())), Ok(percent(0.25)));
    assert_eq!(
        KeyframePercentage::parse(&Token::Percentage(1.5f32.to_bits())),
        Err(ParseErrorKind::UnspecifiedError)
    );
    assert_eq!(KeyframePercentage::parse(&Token::Comma), Err(ParseErrorKind::UnexpectedToken));
    assert_eq!(KeyframePercentage::parse(&Token::Other), Err(ParseErrorKind::UnexpectedToken));
}

#[test]
fn a_selector_holds_percentages_between_zero_and_one() {
    assert_eq!(KeyframeSelector::new(vec![]), None);
    assert_eq!(KeyframeSelector::new(vec![KeyframePercentage(ONE_BITS + 1)]), None);
    assert_eq!(
        KeyframeSelector::new(vec![percent(0.5), KeyframePercentage(NEGATIVE_ZERO_BITS)]),
        None
    );
    let twice = KeyframeSelector::new(vec![percent(1.0), percent(0.0), percent(1.0)]).unwrap();
    assert_eq!(twice.percentages(), &[percent(1.0), percent(0.0), percent(1.0)]);
    assert_eq!(twice, selector(&[1.0, 0.0, 1.0]));
    assert!(twice.same_as(&twice.clone()));
    assert!(!twice.same_as(&selector(&[1.0, 0.0])));
    assert!(!twice.same_as(&selector(&[1.0, 1.0, 0.0])));
    assert_eq!(twice.deep_clone(), twice);
}

#[test]
fn selector_parse_reads_a_list() {
    assert_eq!(KeyframeSelector::parse("50%"), Ok(selector(&[0.5])));
    assert_eq!(KeyframeSelector::parse("from"), Ok(selector(&[0.0])));
    assert_eq!(KeyframeSelector::parse("to"), Ok(selector(&[1.0])));
    assert_eq!(
        KeyframeSelector::parse(" 0% ,/* half */ 50%,TO , from,0% "),
        Ok(selector(&[0.0, 0.5, 1.0, 0.0, 0.0]))
    );
    assert_eq!(KeyframeSelector::parse("100%, 0%"), Ok(selector(&[1.0, 0.0])));
    assert_eq!(KeyframeSelector::parse("12.5%"), Ok(selector(&[0.125])));
    assert_eq!(KeyframeSelector::parse("-0%"), Ok(selector(&[0.0])));
    assert_eq!(KeyframeSelector::parse("0.00001%").unwrap().percentages()[0].is_start(), false);
}

#[test]
fn selector_parse_refuses_what_is_no_list() {
    assert_eq!(KeyframeSelector::parse(""), Err(ParseErrorKind::EndOfInput));
    assert_eq!(KeyframeSelector::parse("  "), Err(ParseErrorKind::EndOfInput));
    assert_eq!(KeyframeSelector::parse("50%,"), Err(ParseErrorKind::EndOfInput));
    assert_eq!(KeyframeSelector::parse(",50%"), Err(ParseErrorKind::EndOfInput));
    assert_eq!(KeyframeSelector::parse("50%,,60%"), Err(ParseErrorKind::EndOfInput));
    assert_eq!(KeyframeSelector::parse("50% 60%"), Err(ParseErrorKind::UnexpectedToken));
    assert_eq!(KeyframeSelector::parse("50"), Err(ParseErrorKind::UnexpectedToken));
    assert_eq!(KeyframeSelector::parse("50px"), Err(ParseErrorKind::UnexpectedToken));
    assert_eq!(KeyframeSelector::parse("middle"), Err(ParseErrorKind::UnexpectedToken));
    assert_eq!(KeyframeSelector::parse("50% {}"), Err(ParseErrorKind::UnexpectedToken));
    assert_eq!(KeyframeSelector::parse("101%"), Err(ParseErrorKind::UnspecifiedError));
    assert_eq!(KeyframeSelector::parse("-1%"), Err(ParseErrorKind::UnspecifiedError));
    assert_eq!(KeyframeSelector::parse("0%, 200%, x"), Err(ParseErrorKind::UnspecifiedError));
    assert_eq!(KeyframeSelector::parse("x, 200%"), Err(ParseErrorKind::UnexpectedToken));
}

#[test]
fn every_parsed_percentage_lies_between_zero_and_one() {
    for text in ["0%", "100%", "from, to", "33.333%, 66.667%", "0.0001%, 99.9999%", "-0%"] {
        let parsed = KeyframeSelector::parse(text).unwrap();
        assert!(!parsed.percentages().is_empty());
        for percentage in parsed.percentages() {
            assert!(percentage.0 <= ONE_BITS);
            let number = f32::from_bits(percentage.0);
            assert!(number >= 0.0 && number <= 1.0);
        }
    }
    for text in ["100.0001%", "-0.0001%", "1000000000%", "50%, 150%"] {
        assert_eq!(KeyframeSelector::parse(text), Err(ParseErrorKind::UnspecifiedError));
    }
}

#[test]
fn a_percentage_with_an_exponent_is_read_as_this_scan_gave_it() {
    // The last bits of such a percentage are not decided by the text: what
    // holds of every scan is that it gives one percentage between zero and
    // one, or refuses the number as out of range.
    for text in ["5e1%", "1e2%", "2.5E+1%", "1e-50%", "from, 5e1%", "0E0%"] {
        match KeyframeSelector::parse(text) {
            Ok(parsed) => {
                assert!(!parsed.percentages().is_empty());
                for percentage in parsed.percentages() {
                    assert!(percentage.0 <= ONE_BITS);
                }
            }
            Err(kind) => assert_eq!(kind, ParseErrorKind::UnspecifiedError),
        }
    }
    for text in ["5e1", "5e%", "e1%", "5e1%%", "5e1% 6e1%"] {
        assert_eq!(KeyframeSelector::parse(text), Err(ParseErrorKind::UnexpectedToken));
    }
}

#[test]
fn brackets_nest_and_hide_delimiters() {
    let lexemes = tokenize("a(;[}]{;});b}c");
    let tokens: Vec<Token> = lexemes.iter().map(|lexeme| lexeme.token.clone()).collect();
    assert_eq!(tokens[0], Token::Open(BlockType::Parenthesis));
    assert_eq!(tokens[2], Token::Open(BlockType::SquareBracket));
    assert_eq!(tokens[3], Token::Close(BlockType::CurlyBracket));
    let semicolon = Delimiters { semicolon: true, curly_bracket_block: false };
    assert_eq!(find_delimiter(&lexemes, 0, semicolon), 9);
    assert_eq!(find_delimiter(&lexemes, 1, semicolon), 1);
    assert_eq!(find_delimiter(&lexemes, 10, semicolon), lexemes.len());
    let block = Delimiters { semicolon: false, curly_bracket_block: true };
    assert_eq!(find_delimiter(&lexemes, 0, block), lexemes.len());
    assert_eq!(find_delimiter(&lexemes, 5, block), 5);
    assert_eq!(find_block_close(&lexemes, 1, BlockType::Parenthesis), 8);
    assert_eq!(find_block_close(&lexemes, 6, BlockType::CurlyBracket), 7);
    assert_eq!(find_block_close(&lexemes, 9, BlockType::CurlyBracket), 11);
    assert_eq!(find_block_close(&lexemes, 9, BlockType::Parenthesis), lexemes.len());
}

#[test]
fn split_rules_finds_preludes_and_blocks() {
    let lexemes = tokenize("0%{a} @x y; 50% (}) {b{}c} to");
    let rules = split_rules(&lexemes);
    assert_eq!(
        rules,
        vec![
            RuleSpan { start: 0, open: 1, close: 3 },
            RuleSpan { start: 10, open: 16, close: 21 },
            RuleSpan { start: 23, open: 24, close: 24 },
        ]
    );
    assert_eq!(lexemes.len(), 24);
    // A brace inside parentheses opens a block that the parenthesis does not
    // close: the rule has no block.
    assert_eq!(
        split_rules(&tokenize("50% ({) {b}")),
        vec![RuleSpan { start: 0, open: 9, close: 9 }]
    );
    assert_eq!(split_rules(&tokenize("  ")), vec![]);
    assert_eq!(split_rules(&tokenize("@media x { 0% {} } ")), vec![]);
    assert_eq!(split_rules(&tokenize("0% { a")), vec![RuleSpan { start: 0, open: 2, close: 5 }]);
}

#[test]
fn split_declarations_finds_names_and_values() {
    let lexemes = tokenize(" width : 10px ; ;height:calc(1px; 2px) !important;@x {;} 5: 6; top");
    let items = split_declarations(&lexemes);
    let declaration =
        |position: usize, name: &str, value: &str, source: &str| DeclarationItem::Declaration {
            name: name.to_string(),
            value: value.to_string(),
            source: source.to_string(),
            position,
        };
    let invalid = |position: usize, error: ParseErrorKind, source: &str| DeclarationItem::Invalid {
        error,
        source: source.to_string(),
        position,
    };
    assert_eq!(
        items,
        vec![
            declaration(1, "width", " 10px ", "width : 10px "),
            declaration(
                17,
                "height",
                "calc(1px; 2px) !important",
                "height:calc(1px; 2px) !important"
            ),
            invalid(50, ParseErrorKind::AtRuleInvalid, "@x "),
            invalid(57, ParseErrorKind::UnexpectedToken, "5: 6"),
            invalid(63, ParseErrorKind::EndOfInput, "top"),
        ]
    );
    assert_eq!(
        split_declarations(&tokenize("top 1px; left:")),
        vec![
            invalid(0, ParseErrorKind::UnexpectedToken, "top 1px"),
            declaration(9, "left", "", "left:")
        ]
    );
}

#[test]
fn check_value_accepts_a_whole_value_only() {
    let width = || PropertyDeclaration {
        id: LonghandId::Other(1),
        animatable: true,
        value: DeclaredValue::Specified,
        name: "width".to_string(),
        css: "10px".to_string(),
    };
    let parsed = |declarations: Vec<PropertyDeclaration>, remainder: &str| {
        PropertyOutcome::Parsed { declarations, remainder: remainder.to_string() }
    };
    assert_eq!(check_value(PropertyOutcome::UnknownProperty).unwrap_err(), ParseErrorKind::UnknownProperty);
    assert_eq!(check_value(PropertyOutcome::InvalidValue).unwrap_err(), ParseErrorKind::UnspecifiedError);
    assert_eq!(check_value(parsed(vec![width()], "")).unwrap().len(), 1);
    assert_eq!(check_value(parsed(vec![width(), width()], "  /* */ ")).unwrap().len(), 2);
    assert_eq!(
        check_value(parsed(vec![width()], " !important")).unwrap_err(),
        ParseErrorKind::UnexpectedToken
    );
    assert_eq!(check_value(parsed(vec![width()], "x")).unwrap_err(), ParseErrorKind::UnexpectedToken);
    let broken = PropertyDeclaration {
        id: LonghandId::Other(1),
        animatable: true,
        value: DeclaredValue::TimingFunctions(vec![]),
        name: "width".to_string(),
        css: String::new(),
    };
    assert!(!broken.is_well_formed());
    assert_eq!(check_value(parsed(vec![width(), broken], "")).unwrap_err(), ParseErrorKind::UnspecifiedError);
}

#[test]
fn parse_value_asks_the_grammar() {
    let parser = KeyframeDeclarationParser { grammar: &grammar };
    let declarations = parser.parse_value("width", " 10px ").unwrap();
    assert_eq!(declarations.len(), 1);
    assert_eq!(declarations[0].id, LonghandId::Other(1));
    assert_eq!(declarations[0].css, "10px");
    assert_eq!(parser.parse_value("WIDTH", "10px").unwrap()[0].name, "width");
    assert_eq!(parser.parse_value("color", "red").unwrap_err(), ParseErrorKind::UnknownProperty);
    assert_eq!(parser.parse_value("width", "red").unwrap_err(), ParseErrorKind::UnspecifiedError);
    assert_eq!(
        parser.parse_value("width", "10px !important").unwrap_err(),
        ParseErrorKind::UnexpectedToken
    );
    assert_eq!(parser.parse_value("width", "10px 20px").unwrap_err(), ParseErrorKind::UnexpectedToken);
}

#[test]
fn parse_block_leaves_out_what_is_refused() {
    let lock = SharedRwLock::new(7);
    let guard = lock.read();
    let parser = KeyframeListParser { shared_lock: &lock, grammar: &grammar };
    let mut context = ParserContext::new();
    let input = tokenize(
        "width: 10px; color: red; height: 5px !important; width: 20px;; display block; \
         display: none; @media {height: 1px}; height: 2px",
    );
    let keyframe = parser.parse_block(&mut context, selector(&[0.5]), &input);
    let keyframe = keyframe.read_with(&guard);
    assert_eq!(keyframe.selector, selector(&[0.5]));
    assert_eq!(block_css(&keyframe.block, &guard), "width: 20px; display: none; height: 2px;");
    assert!(keyframe.block.read_with(&guard).is_all_normal());
    assert_eq!(
        context.errors,
        vec![
            unsupported(13, "color: red", ParseErrorKind::UnknownProperty),
            unsupported(25, "height: 5px !important", ParseErrorKind::UnexpectedToken),
            unsupported(63, "display block", ParseErrorKind::UnexpectedToken),
            unsupported(93, "@media ", ParseErrorKind::AtRuleInvalid),
        ]
    );
}

#[test]
fn parse_prelude_reports_a_refused_selector() {
    let lock = SharedRwLock::new(7);
    let parser = KeyframeListParser { shared_lock: &lock, grammar: &grammar };
    let mut context = ParserContext::new();
    assert_eq!(
        parser.parse_prelude(&mut context, 0, &tokenize("from, 50% ")),
        Ok(selector(&[0.0, 0.5]))
    );
    assert!(context.errors.is_empty());
    assert_eq!(
        parser.parse_prelude(&mut context, 40, &tokenize("50%, 120% ")),
        Err(ParseErrorKind::UnspecifiedError)
    );
    assert_eq!(
        context.errors,
        vec![invalid_rule(40, "50%, 120% ", ParseErrorKind::UnspecifiedError)]
    );
}

#[test]
fn parse_keyframe_list_reads_each_keyframe_for_itself() {
    let lock = SharedRwLock::new(3);
    let guard = lock.read();
    let mut context = ParserContext::new();
    let css = "0%, 50% { width: 50px; }\n\
               middle { width: 1px }\n\
               @font-face { width: 2px }\n\
               40%, 60%, 100% { width: 100px; bogus: 1; height: 3px }\n\
               150% { width: 4px }\n\
               to { }\n\
               from";
    let keyframes = parse_keyframe_list(&mut context, css, &lock, &grammar);
    assert_eq!(keyframes.len(), 3);
    let first = keyframes[0].read_with(&guard);
    assert_eq!(first.selector, selector(&[0.0, 0.5]));
    assert_eq!(block_css(&first.block, &guard), "width: 50px;");
    let second = keyframes[1].read_with(&guard);
    assert_eq!(second.selector, selector(&[0.4, 0.6, 1.0]));
    assert_eq!(block_css(&second.block, &guard), "width: 100px; height: 3px;");
    let third = keyframes[2].read_with(&guard);
    assert_eq!(third.selector, selector(&[1.0]));
    assert_eq!(block_css(&third.block, &guard), "");
    assert_eq!(
        context.errors,
        vec![
            invalid_rule(25, "middle ", ParseErrorKind::UnexpectedToken),
            unsupported(104, "bogus: 1", ParseErrorKind::UnknownProperty),
            invalid_rule(128, "150% ", ParseErrorKind::UnspecifiedError),
        ]
    );
}

#[test]
fn parse_keyframe_list_of_nothing_is_empty() {
    let lock = SharedRwLock::new(3);
    let mut context = ParserContext::new();
    assert!(parse_keyframe_list(&mut context, "", &lock, &grammar).is_empty());
    assert!(parse_keyframe_list(&mut context, " /* nothing */ ", &lock, &grammar).is_empty());
    assert!(context.errors.is_empty());
}

#[test]
fn keyframe_parse_reads_one_rule() {
    let sheet = Stylesheet { shared_lock: SharedRwLock::new(9) };
    let guard = sheet.shared_lock.read();
    let keyframe =
        Keyframe::parse(" from, 25% { width: 1px; nothing: 0; height: 2px } ", &sheet, &grammar)
            .unwrap();
    assert!(keyframe.is_under(&guard));
    let keyframe = keyframe.read_with(&guard);
    assert_eq!(keyframe.selector, selector(&[0.0, 0.25]));
    assert_eq!(block_css(&keyframe.block, &guard), "width: 1px; height: 2px;");
    let timed = Keyframe::parse(
        "to{animation-timing-function: ease; animation-timing-function: linear}",
        &sheet,
        &grammar,
    )
    .unwrap();
    let timed = timed.read_with(&guard);
    assert!(timed.block.read_with(&guard).has_timing_function());
    assert_eq!(block_css(&timed.block, &guard), "animation-timing-function: linear;");
}

#[test]
fn keyframe_parse_refuses_what_is_not_one_rule() {
    let sheet = Stylesheet { shared_lock: SharedRwLock::new(9) };
    let error = |css: &str| Keyframe::parse(css, &sheet, &grammar).unwrap_err();
    assert_eq!(error(""), ParseErrorKind::EndOfInput);
    assert_eq!(error("  "), ParseErrorKind::EndOfInput);
    assert_eq!(error("50%"), ParseErrorKind::EndOfInput);
    assert_eq!(error("bogus"), ParseErrorKind::EndOfInput);
    assert_eq!(error("@media { }"), ParseErrorKind::AtRuleInvalid);
    assert_eq!(error("bogus { }"), ParseErrorKind::UnexpectedToken);
    assert_eq!(error("{ }"), ParseErrorKind::EndOfInput);
    assert_eq!(error("150% { }"), ParseErrorKind::UnspecifiedError);
    assert_eq!(error("50% { } 60% { }"), ParseErrorKind::UnexpectedToken);
    assert_eq!(error("50% { } x"), ParseErrorKind::UnexpectedToken);
}
