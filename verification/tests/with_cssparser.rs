use cssparser::{
    parse_one_rule, AtRuleParser, BasicParseErrorKind, CowRcStr, DeclarationParser, ParseError,
    ParseErrorKind as CssErrorKind, Parser, ParserState, QualifiedRuleParser, RuleBodyItemParser,
    RuleBodyParser,
};
use keyframes::error::ParseErrorKind;
use keyframes::keyframe::Keyframe;
use keyframes::parser::{
    parse_keyframe_list, ContextualParseError, ParserContext, PropertyOutcome, Stylesheet,
};
use keyframes::properties::{DeclaredValue, LonghandId, PropertyDeclaration};
use keyframes::shared_lock::SharedRwLock;

/// A property grammar: every name of small letters is a property, numbered
/// by its first letter, and takes one identifier or one dimension.
fn grammar(name: &str, value: &str) -> PropertyOutcome {
    if name.is_empty() || !name.bytes().all(|byte| byte.is_ascii_lowercase()) {
        return PropertyOutcome::UnknownProperty;
    }
    let mut parser = Parser::new(value);
    let start = parser.state();
    match parser.next() {
        Ok(cssparser::Token::Ident(_)) | Ok(cssparser::Token::Dimension { .. }) => {}
        _ => return PropertyOutcome::InvalidValue,
    }
    let css = parser.slice_from(start.position()).trim().to_string();
    PropertyOutcome::Parsed {
        declarations: vec![PropertyDeclaration {
            id: LonghandId::Other(u16::from(name.as_bytes()[0])),
            animatable: true,
            value: DeclaredValue::Specified,
            name: name.to_string(),
            css,
        }],
        remainder: value[parser.position().byte_index()..].to_string(),
    }
}

/// What was read: for each keyframe its percentages and its declarations,
/// and the failures that were passed over.
#[derive(Debug, PartialEq)]
struct Outcome {
    keyframes: Vec<(Vec<f32>, Vec<(u16, String)>)>,
    reports: Vec<String>,
}

fn kind_of(error: &ParseError<ParseErrorKind>) -> ParseErrorKind {
    match &error.kind {
        CssErrorKind::Basic(BasicParseErrorKind::UnexpectedToken) => ParseErrorKind::UnexpectedToken,
        CssErrorKind::Basic(BasicParseErrorKind::EndOfInput) => ParseErrorKind::EndOfInput,
        CssErrorKind::Basic(BasicParseErrorKind::AtRuleInvalid) => ParseErrorKind::AtRuleInvalid,
        CssErrorKind::Basic(other) => panic!("an error that keyframes do not make: {:?}", other),
        CssErrorKind::Custom(kind) => *kind,
    }
}

fn percentage<'i>(input: &mut Parser<'i>) -> Result<f32, ParseError<ParseErrorKind>> {
    if input.try_parse(|input| input.expect_ident_matching("from")).is_ok() {
        return Ok(0.);
    }
    if input.try_parse(|input| input.expect_ident_matching("to")).is_ok() {
        return Ok(1.);
    }
    let percentage = input.expect_percentage()?;
    if percentage >= 0. && percentage <= 1. {
        Ok(percentage)
    } else {
        Err(ParseError::custom(ParseErrorKind::UnspecifiedError))
    }
}

/// The grammar of a list of keyframes, written with the rule parsers of
/// `cssparser`.
struct ListParser<'a> {
    reports: &'a mut Vec<String>,
}

struct DeclarationsParser;

type Rule = (Vec<f32>, Vec<(u16, String)>);

impl<'a, 'i> QualifiedRuleParser<'i> for ListParser<'a> {
    type Prelude = Vec<f32>;
    type QualifiedRule = Rule;
    type Error = ParseErrorKind;

    fn parse_prelude(
        &mut self,
        input: &mut Parser<'i>,
    ) -> Result<Vec<f32>, ParseError<ParseErrorKind>> {
        match input.parse_comma_separated(percentage) {
            Ok(selector) => Ok(selector),
            Err(error) => {
                self.reports.push(format!("rule {:?}", kind_of(&error)));
                Err(error)
            }
        }
    }

    fn parse_block(
        &mut self,
        prelude: Vec<f32>,
        _start: &ParserState,
        input: &mut Parser<'i>,
    ) -> Result<Rule, ParseError<ParseErrorKind>> {
        let mut parser = DeclarationsParser;
        let mut block: Vec<(u16, String)> = Vec::new();
        for item in RuleBodyParser::new(input, &mut parser) {
            match item {
                Ok(declaration) => {
                    match block.iter_mut().find(|entry| entry.0 == declaration.0) {
                        Some(entry) => *entry = declaration,
                        None => block.push(declaration),
                    }
                }
                Err((error, _, _)) => {
                    self.reports.push(format!("declaration {:?}", kind_of(&error)));
                }
            }
        }
        Ok((prelude, block))
    }
}

impl<'a, 'i> AtRuleParser<'i> for ListParser<'a> {
    type Prelude = ();
    type AtRule = Rule;
    type Error = ParseErrorKind;
}

impl<'a, 'i> DeclarationParser<'i> for ListParser<'a> {
    type Declaration = Rule;
    type Error = ParseErrorKind;
}

impl<'a, 'i> RuleBodyItemParser<'i, Rule, ParseErrorKind> for ListParser<'a> {
    fn parse_declarations(&self) -> bool {
        false
    }

    fn parse_qualified(&self) -> bool {
        true
    }
}

impl<'i> DeclarationParser<'i> for DeclarationsParser {
    type Declaration = (u16, String);
    type Error = ParseErrorKind;

    fn parse_value(
        &mut self,
        name: CowRcStr<'i>,
        input: &mut Parser<'i>,
        _start: &ParserState,
    ) -> Result<(u16, String), ParseError<ParseErrorKind>> {
        let start = input.state();
        while input.next_including_whitespace_and_comments().is_ok() {}
        let value = input.slice_from(start.position());
        match grammar(&name, value) {
            PropertyOutcome::UnknownProperty => {
                Err(ParseError::custom(ParseErrorKind::UnknownProperty))
            }
            PropertyOutcome::InvalidValue => {
                Err(ParseError::custom(ParseErrorKind::UnspecifiedError))
            }
            PropertyOutcome::Parsed { declarations, remainder } => {
                Parser::new(&remainder).expect_exhausted()?;
                let declaration = &declarations[0];
                match declaration.id {
                    LonghandId::Other(number) => Ok((number, declaration.css.clone())),
                    LonghandId::AnimationTimingFunction => unreachable!(),
                }
            }
        }
    }
}

impl<'i> AtRuleParser<'i> for DeclarationsParser {
    type Prelude = ();
    type AtRule = (u16, String);
    type Error = ParseErrorKind;
}

impl<'i> QualifiedRuleParser<'i> for DeclarationsParser {
    type Prelude = ();
    type QualifiedRule = (u16, String);
    type Error = ParseErrorKind;
}

impl<'i> RuleBodyItemParser<'i, (u16, String), ParseErrorKind> for DeclarationsParser {
    fn parse_declarations(&self) -> bool {
        true
    }

    fn parse_qualified(&self) -> bool {
        false
    }
}

fn list_of_cssparser(css: &str) -> Outcome {
    let mut reports = Vec::new();
    let mut input = Parser::new(css);
    let mut parser = ListParser { reports: &mut reports };
    let keyframes = RuleBodyParser::new(&mut input, &mut parser).filter_map(Result::ok).collect();
    Outcome { keyframes, reports }
}

fn read(keyframe: &Keyframe, lock: &SharedRwLock) -> Rule {
    let guard = lock.read();
    let percentages = keyframe.selector.percentages().iter().map(|p| f32::from_bits(p.0)).collect();
    let declarations = keyframe
        .block
        .read_with(&guard)
        .declarations()
        .iter()
        .map(|entry| match entry.0.id {
            LonghandId::Other(number) => (number, entry.0.css.clone()),
            LonghandId::AnimationTimingFunction => unreachable!(),
        })
        .collect();
    (percentages, declarations)
}

fn list_of_this_crate(css: &str) -> Outcome {
    let lock = SharedRwLock::new(1);
    let guard = lock.read();
    let mut context = ParserContext::new();
    let keyframes = parse_keyframe_list(&mut context, css, &lock, &grammar)
        .iter()
        .map(|keyframe| read(keyframe.read_with(&guard), &lock))
        .collect();
    let reports = context
        .errors
        .iter()
        .map(|report| match &report.error {
            ContextualParseError::InvalidKeyframeRule(_, kind) => format!("rule {:?}", kind),
            ContextualParseError::UnsupportedKeyframePropertyDeclaration(_, kind) => {
                format!("declaration {:?}", kind)
            }
        })
        .collect();
    Outcome { keyframes, reports }
}

fn one_of_cssparser(css: &str) -> Result<Rule, ParseErrorKind> {
    let mut reports = Vec::new();
    let mut input = Parser::new(css);
    let mut parser = ListParser { reports: &mut reports };
    parse_one_rule(&mut input, &mut parser).map_err(|error| kind_of(&error))
}

fn one_of_this_crate(css: &str) -> Result<Rule, ParseErrorKind> {
    let sheet = Stylesheet { shared_lock: SharedRwLock::new(1) };
    let guard = sheet.shared_lock.read();
    Keyframe::parse(css, &sheet, &grammar)
        .map(|keyframe| read(keyframe.read_with(&guard), &sheet.shared_lock))
}

const LISTS: [&str; 30] = [
    "",
    "  /* nothing */ ",
    "0% { width: 1px }",
    "from { a: b } to { a: c }",
    "0%, 50% { width: 50px; }\n40%, 60%, 100% { width: 100px; }",
    "0% { a: b; a: c; d: e; a: f }",
    "0% { a: b !important; c: d }",
    "0% { a: b c; d: e; F: g; h: 1; i }",
    "0% { a: b; @media { c: d } e: f; @g; h: i }",
    "0% { a: (b; c); d: [e; f]; g: {h; i}; j: k }",
    "0% { a: b",
    "0% { a: ( b } c: d",
    "middle { a: b } 50% { c: d }",
    "150% { a: b } 50% { c: d }",
    "50%, { a: b } 50% { c: d }",
    ", 50% { a: b } 50% { c: d }",
    "50% 60% { a: b } 50% { c: d }",
    "{ a: b } 50% { c: d }",
    "@media x { 0% { a: b } } 50% { c: d }",
    "@import 'x'; 50% { c: d }",
    "@a { ( } 50% { c: d }",
    "0% ( { ) } { a: b } 50% { c: d }",
    "0% { a: b } 50%",
    "0% { a: b } 50% ,",
    "0% { a: b } bogus",
    "0%{}50%{}100%{}",
    "FROM, To { a: b }",
    "-0%, 0.0% { a: b }",
    "0.00001%, 99.99999% { a: b }",
    "\u{e9} { a: b } 50% { c: '\u{2603}'; d: e }",
];

#[test]
fn lists_are_read_as_the_rule_parsers_of_cssparser_read_them() {
    for css in LISTS {
        assert_eq!(list_of_this_crate(css), list_of_cssparser(css), "for {:?}", css);
    }
}

#[test]
fn one_keyframe_is_read_as_cssparser_reads_one_rule() {
    let inputs = [
        "",
        "  ",
        "50% { a: b }",
        "  from, to { a: b; c: d }  ",
        "/* a */ 50% /* b */ { /* c */ } /* d */",
        "50%",
        "50% ",
        "bogus",
        "bogus { a: b }",
        "150% { a: b }",
        "50%, { a: b }",
        "{ a: b }",
        "50% { a: b",
        "50% { a: b } 60% { c: d }",
        "50% { a: b } x",
        "50% { a: b } ;",
        "50% { a: b } }",
        "@media { a: b }",
        "@media;",
        "@media",
        "50% { a: bogus !important; F: g; c: d }",
    ];
    for css in inputs {
        assert_eq!(one_of_this_crate(css), one_of_cssparser(css), "for {:?}", css);
    }
}
