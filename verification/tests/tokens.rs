use keyframes::tokenizer::{read_lexeme, tokenize, BlockType, Lexeme, Token};

fn lexeme(token: Token, text: &str, position: usize) -> Lexeme {
    Lexeme { token, text: text.to_string(), position }
}

#[test]
fn tokenize_splits_a_keyframe() {
    let lexemes = tokenize("fr\\6f m, 50% { top: calc(1px) }");
    let expected = vec![
        lexeme(Token::Ident("from".to_string()), "fr\\6f m", 0),
        lexeme(Token::Comma, ",", 7),
        lexeme(Token::WhiteSpace, " ", 8),
        lexeme(Token::Percentage(0.5f32.to_bits()), "50%", 9),
        lexeme(Token::WhiteSpace, " ", 12),
        lexeme(Token::Open(BlockType::CurlyBracket), "{", 13),
        lexeme(Token::WhiteSpace, " ", 14),
        lexeme(Token::Ident("top".to_string()), "top", 15),
        lexeme(Token::Colon, ":", 18),
        lexeme(Token::WhiteSpace, " ", 19),
        lexeme(Token::Open(BlockType::Parenthesis), "calc(", 20),
        lexeme(Token::Other, "1px", 25),
        lexeme(Token::Close(BlockType::Parenthesis), ")", 28),
        lexeme(Token::WhiteSpace, " ", 29),
        lexeme(Token::Close(BlockType::CurlyBracket), "}", 30),
    ];
    assert_eq!(lexemes, expected);
}

#[test]
fn tokenize_tells_every_kind_of_token() {
    let kinds: Vec<Token> =
        tokenize("a @b 1% /**/;:,()[]{} 2 'c' #d url(e) f(").into_iter().map(|l| l.token).collect();
    let space = Token::WhiteSpace;
    assert_eq!(
        kinds,
        vec![
            Token::Ident("a".to_string()),
            space.clone(),
            Token::AtKeyword,
            space.clone(),
            Token::Percentage(0.01f32.to_bits()),
            space.clone(),
            Token::WhiteSpace,
            Token::Semicolon,
            Token::Colon,
            Token::Comma,
            Token::Open(BlockType::Parenthesis),
            Token::Close(BlockType::Parenthesis),
            Token::Open(BlockType::SquareBracket),
            Token::Close(BlockType::SquareBracket),
            Token::Open(BlockType::CurlyBracket),
            Token::Close(BlockType::CurlyBracket),
            space.clone(),
            Token::Other,
            space.clone(),
            Token::Other,
            space.clone(),
            Token::Other,
            space.clone(),
            Token::Other,
            space.clone(),
            Token::Open(BlockType::Parenthesis),
        ]
    );
}

#[test]
fn positions_count_characters() {
    let lexemes = tokenize("\u{e9}t\u{e9} /* \u{2603} */ 50%");
    let places: Vec<(String, usize)> =
        lexemes.iter().map(|lexeme| (lexeme.text.clone(), lexeme.position)).collect();
    assert_eq!(
        places,
        vec![
            ("\u{e9}t\u{e9}".to_string(), 0),
            (" ".to_string(), 3),
            ("/* \u{2603} */".to_string(), 4),
            (" ".to_string(), 11),
            ("50%".to_string(), 12),
        ]
    );
}

#[test]
fn read_lexeme_reads_one_token() {
    assert_eq!(read_lexeme("", 3), None);
    assert_eq!(read_lexeme("to, from", 3), Some((lexeme(Token::Ident("to".to_string()), "to", 3), ", from")));
    assert_eq!(read_lexeme("-0%x", 0), Some((lexeme(Token::Percentage((-0.0f32).to_bits()), "-0%", 0), "x")));
}

#[test]
fn the_texts_of_the_lexemes_make_up_the_input() {
    let inputs = [
        "",
        " ",
        "50% { width: 10px }",
        "/* open comment",
        "'open string",
        "\"line\nbreak\"",
        "url(  a b )",
        "url(",
        "a\\",
        "\\",
        "@",
        "#",
        "-->",
        "<!--",
        "u+0-7f",
        "1e3% 1.5e-2% +5% -5% .5%",
        "\u{0}\u{feff}\u{1f600}\u{e9}",
        "((([[[{{{",
        ")]}",
        "a:b;c{d}e!f,g",
        "\r\n\t\u{c}",
    ];
    for input in inputs {
        let lexemes = tokenize(input);
        let text: String = lexemes.iter().map(|lexeme| lexeme.text.as_str()).collect();
        assert_eq!(text, input);
        let mut position = 0;
        for lexeme in &lexemes {
            assert!(!lexeme.text.is_empty());
            assert_eq!(lexeme.position, position);
            position += lexeme.text.chars().count();
        }
    }
}

#[test]
fn percentages_are_read_as_fractions_of_one() {
    let bits = |text: &str| match tokenize(text).remove(0).token {
        Token::Percentage(bits) => f32::from_bits(bits),
        other => panic!("no percentage: {:?}", other),
    };
    assert_eq!(bits("0%"), 0.0);
    assert_eq!(bits("100%"), 1.0);
    assert_eq!(bits("50%"), 0.5);
    assert_eq!(bits("12.5%"), 0.125);
    assert_eq!(bits("+25%"), 0.25);
    assert_eq!(bits("-25%"), -0.25);
    assert_eq!(bits("250%"), 2.5);
    assert!(bits("-0%").is_sign_negative());
    assert_eq!(bits("-0%"), 0.0);
}

#[test]
fn a_percentage_with_an_exponent_is_a_percentage() {
    for text in ["5e1%", "5E1%", "1e+2%", "1.5e-2%", "-3e0%", "1e400%", "1e-400%"] {
        let lexemes = tokenize(text);
        assert_eq!(lexemes.len(), 1, "for {:?}", text);
        assert!(matches!(lexemes[0].token, Token::Percentage(_)), "for {:?}", text);
        assert_eq!(lexemes[0].text, text);
        assert_eq!(lexemes[0].position, 0);
    }
    // Without a digit behind it the letter starts a unit, and the number is
    // no percentage.
    let kinds: Vec<Token> = tokenize("5e%").into_iter().map(|lexeme| lexeme.token).collect();
    assert_eq!(kinds, vec![Token::Other, Token::Other]);
}
