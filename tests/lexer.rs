use templet::lexer::{DocumentKind, LexError, Lexer, Token};
use templet::number::Number;

#[test]
fn categorizes_markup_and_templates() {
    let contents = "markup{}end".to_owned();
    let mut lexer = Lexer::new(&contents);
    assert_eq!(
        lexer.execute(),
        Ok(vec![
            DocumentKind::Markup("markup"),
            DocumentKind::Template(vec![]),
            DocumentKind::Markup("end"),
        ])
    );
}

#[test]
fn lexes_multiple_templates() {
    let contents = "markup 1: {}markup 2: {}markup 3: {}".to_owned();
    let mut lexer = Lexer::new(&contents);
    assert_eq!(
        lexer.execute(),
        Ok(vec![
            DocumentKind::Markup("markup 1: "),
            DocumentKind::Template(vec![]),
            DocumentKind::Markup("markup 2: "),
            DocumentKind::Template(vec![]),
            DocumentKind::Markup("markup 3: "),
            DocumentKind::Template(vec![]),
            DocumentKind::Markup(""),
        ])
    );
}

#[test]
fn skips_whitespace_and_recongnizes_idents() {
    let contents = "{      variable_1       }".to_owned();
    let mut lexer = Lexer::new(&contents);
    assert_eq!(
        lexer.execute(),
        Ok(vec![
            DocumentKind::Markup(""),
            DocumentKind::Template(vec![Token::Ident("variable_1".to_owned())]),
            DocumentKind::Markup(""),
        ])
    );
}

#[test]
fn recognizes_string() {
    let contents = r#"{"lorem ipsum"}"#.to_owned();
    let mut lexer = Lexer::new(&contents);
    assert_eq!(
        lexer.execute(),
        Ok(vec![
            DocumentKind::Markup(""),
            DocumentKind::Template(vec![Token::String("lorem ipsum".to_owned())]),
            DocumentKind::Markup(""),
        ])
    );
}

#[test]
fn recognizes_escaped_string() {
    let contents = r#"{"\"lorem\\ipsum\"\n"}"#.to_owned();
    let mut lexer = Lexer::new(&contents);
    assert_eq!(
        lexer.execute(),
        Ok(vec![
            DocumentKind::Markup(""),
            DocumentKind::Template(vec![Token::String("\"lorem\\ipsum\"\n".to_owned())]),
            DocumentKind::Markup(""),
        ])
    );
}

#[test]
fn panics_on_deformed_escape_char() {
    let contents = r#"{\q}"#.to_owned();
    let mut lexer = Lexer::new(&contents);
    assert_eq!(lexer.execute(), Err(LexError::UnexpectedCharacter('\\')));
}

#[test]
fn recognizes_number() {
    let contents = "{23491.23}".to_owned();
    let mut lexer = Lexer::new(&contents);
    assert_eq!(
        lexer.execute(),
        Ok(vec![
            DocumentKind::Markup(""),
            DocumentKind::Template(vec![Token::Number(Number { scaled: 23_491_230_000 })]),
            DocumentKind::Markup(""),
        ])
    );
}

#[test]
fn panics_on_deformed_number() {
    let contents = "{2s3491.23}".to_owned();
    let mut lexer = Lexer::new(&contents);
    assert_eq!(lexer.execute(), Err(LexError::UnexpectedCharacter('.')));
}

#[test]
fn recognizes_boolean() {
    let contents = "{true} {false}".to_owned();
    let mut lexer = Lexer::new(&contents);
    assert_eq!(
        lexer.execute(),
        Ok(vec![
            DocumentKind::Markup(""),
            DocumentKind::Template(vec![Token::Boolean(true)]),
            DocumentKind::Markup(" "),
            DocumentKind::Template(vec![Token::Boolean(false)]),
            DocumentKind::Markup(""),
        ])
    );
}

#[test]
fn recognizes_keywords() {
    let contents = "{if else for in keys}".to_owned();
    let mut lexer = Lexer::new(&contents);
    assert_eq!(
        lexer.execute(),
        Ok(vec![
            DocumentKind::Markup(""),
            DocumentKind::Template(vec![
                Token::If,
                Token::Else,
                Token::For,
                Token::In,
                Token::Keys,
            ]),
            DocumentKind::Markup(""),
        ])
    );
}

#[test]
fn recognizes_tokens() {
    let contents = "{#:/@}".to_owned();
    let mut lexer = Lexer::new(&contents);
    assert_eq!(
        lexer.execute(),
        Ok(vec![
            DocumentKind::Markup(""),
            DocumentKind::Template(vec![Token::Hashtag, Token::Colon, Token::Slash, Token::At]),
            DocumentKind::Markup(""),
        ])
    );
}

#[test]
fn recognizes_two_length_tokens() {
    let contents = "{<= >= != ++}".to_owned();
    let mut lexer = Lexer::new(&contents);
    assert_eq!(
        lexer.execute(),
        Ok(vec![
            DocumentKind::Markup(""),
            DocumentKind::Template(vec![
                Token::LessThanOrEquals,
                Token::GreaterThanOrEquals,
                Token::NotEquals,
                Token::Concat,
            ]),
            DocumentKind::Markup(""),
        ])
    );
}

#[test]
fn bunch_of_stuff() {
    let contents =
        "{#if len(list) > 4 & true}and {\"yes \" ++ \"it works\"}.{:else}no{/}".to_owned();
    let mut lexer = Lexer::new(&contents);
    assert_eq!(
        lexer.execute(),
        Ok(vec![
            DocumentKind::Markup(""),
            DocumentKind::Template(vec![
                Token::Hashtag,
                Token::If,
                Token::Ident("len".to_owned()),
                Token::OParen,
                Token::Ident("list".to_owned()),
                Token::CParen,
                Token::GreaterThan,
                Token::Number(Number { scaled: 4_000_000 }),
                Token::And,
                Token::Boolean(true),
            ]),
            DocumentKind::Markup("and "),
            DocumentKind::Template(vec![
                Token::String("yes ".to_owned()),
                Token::Concat,
                Token::String("it works".to_owned()),
            ]),
            DocumentKind::Markup("."),
            DocumentKind::Template(vec![Token::Colon, Token::Else]),
            DocumentKind::Markup("no"),
            DocumentKind::Template(vec![Token::Slash]),
            DocumentKind::Markup(""),
        ])
    );
}

#[test]
fn unterminated_string_is_an_error() {
    let mut lexer = Lexer::new("{\"abc");
    assert_eq!(lexer.execute(), Err(LexError::UnterminatedString));
    let mut lexer = Lexer::new("{\"abc\\");
    assert_eq!(lexer.execute(), Err(LexError::UnterminatedString));
}

#[test]
fn malformed_and_oversized_numbers() {
    let mut lexer = Lexer::new("{1.2.3}");
    assert_eq!(lexer.execute(), Err(LexError::MalformedNumber));
    let mut lexer = Lexer::new("{99999999999999999999}");
    assert_eq!(lexer.execute(), Err(LexError::NumberOutOfRange));
}

#[test]
fn template_without_closing_brace_ends_at_input_end() {
    let mut lexer = Lexer::new("a{x");
    assert_eq!(
        lexer.execute(),
        Ok(vec![
            DocumentKind::Markup("a"),
            DocumentKind::Template(vec![Token::Ident("x".to_owned())]),
            DocumentKind::Markup(""),
        ])
    );
}

#[test]
fn markup_keeps_non_ascii_text() {
    let mut lexer = Lexer::new("héllo {x} wörld");
    assert_eq!(
        lexer.execute(),
        Ok(vec![
            DocumentKind::Markup("héllo "),
            DocumentKind::Template(vec![Token::Ident("x".to_owned())]),
            DocumentKind::Markup(" wörld"),
        ])
    );
}

#[test]
fn escapes_tab_and_return_and_other() {
    let mut lexer = Lexer::new(r#"{"a\tb\rc\qd"}"#);
    assert_eq!(
        lexer.execute(),
        Ok(vec![
            DocumentKind::Markup(""),
            DocumentKind::Template(vec![Token::String("a\tb\rcqd".to_owned())]),
            DocumentKind::Markup(""),
        ])
    );
}
