use snowc::parser::parse_expr;
use snowc::scanner::tokenize;
use snowc::span::Span;
use snowc::token::{KeyWord, OpKind, Token};

#[test]
fn tokens_of_a_small_expression() {
    let tokens = tokenize("1 + 2");
    assert_eq!(tokens.len(), 4);
    match &tokens[0] {
        Token::Int(lexeme, span) => {
            assert_eq!(lexeme, "1");
            assert_eq!(*span, Span::new(0, 1));
        }
        other => panic!("expected an integer token, got {other:?}"),
    }
    match &tokens[1] {
        Token::Op(kind, span) => {
            assert_eq!(*kind, OpKind::Plus);
            assert_eq!(*span, Span::new(2, 3));
        }
        other => panic!("expected an operator token, got {other:?}"),
    }
    match &tokens[2] {
        Token::Int(lexeme, span) => {
            assert_eq!(lexeme, "2");
            assert_eq!(*span, Span::new(4, 5));
        }
        other => panic!("expected an integer token, got {other:?}"),
    }
    assert!(matches!(tokens[3], Token::Eof(_)));
}

#[test]
fn lambda_glyph_spans_two_bytes() {
    let tokens = tokenize("λx");
    match &tokens[0] {
        Token::Op(kind, span) => {
            assert_eq!(*kind, OpKind::Lambda);
            assert_eq!(*span, Span::new(0, 2));
        }
        other => panic!("expected the lambda operator, got {other:?}"),
    }
    match &tokens[1] {
        Token::Id(lexeme, span) => {
            assert_eq!(lexeme, "x");
            assert_eq!(*span, Span::new(2, 3));
        }
        other => panic!("expected an identifier, got {other:?}"),
    }
}

#[test]
fn keywords_and_identifiers() {
    let tokens = tokenize("if then else enum true false let in iffy");
    assert!(matches!(tokens[0], Token::KeyWord(KeyWord::If, _)));
    assert!(matches!(tokens[1], Token::KeyWord(KeyWord::Then, _)));
    assert!(matches!(tokens[2], Token::KeyWord(KeyWord::Else, _)));
    assert!(matches!(tokens[3], Token::KeyWord(KeyWord::Enum, _)));
    assert!(matches!(tokens[4], Token::KeyWord(KeyWord::True, _)));
    assert!(matches!(tokens[5], Token::KeyWord(KeyWord::False, _)));
    assert!(matches!(tokens[6], Token::KeyWord(KeyWord::Let, _)));
    assert!(matches!(tokens[7], Token::KeyWord(KeyWord::In, _)));
    assert!(matches!(&tokens[8], Token::Id(lexeme, _) if lexeme == "iffy"));
}

#[test]
fn line_comments_are_discarded() {
    let tokens = tokenize("1 -- a comment\n2");
    assert!(matches!(&tokens[0], Token::Int(lexeme, _) if lexeme == "1"));
    assert!(matches!(&tokens[1], Token::Int(lexeme, _) if lexeme == "2"));
    assert!(matches!(tokens[2], Token::Eof(_)));
}

#[test]
fn string_and_char_literals_keep_their_contents() {
    let tokens = tokenize("\"hi there\" 'c'");
    assert!(matches!(&tokens[0], Token::Str(lexeme, _) if lexeme == "hi there"));
    assert!(matches!(&tokens[1], Token::Char(lexeme, _) if lexeme == "c"));
}

#[test]
fn number_scanning_is_lexically_greedy() {
    let tokens = tokenize("1.2.3");
    assert!(matches!(&tokens[0], Token::Float(lexeme, _) if lexeme == "1.2.3"));
}

#[test]
fn unrecognized_character_becomes_an_error_token() {
    let tokens = tokenize("#");
    assert!(matches!(&tokens[0], Token::Error(lexeme, _) if lexeme == "#"));
    assert!(matches!(tokens[1], Token::Eof(_)));
}

#[test]
fn two_character_operators_win_over_single() {
    let tokens = tokenize("-> => <- <= >= == != :: |>");
    let expected = [
        OpKind::Arrow,
        OpKind::FatArrow,
        OpKind::BackArrow,
        OpKind::LesEq,
        OpKind::GrtEq,
        OpKind::EqEq,
        OpKind::NotEq,
        OpKind::ColonColon,
        OpKind::Pipe,
    ];
    for (i, want) in expected.iter().enumerate() {
        match &tokens[i] {
            Token::Op(kind, _) => assert_eq!(kind, want),
            other => panic!("expected an operator token, got {other:?}"),
        }
    }
}

#[test]
fn unterminated_parenthesis_error_covers_the_open_token() {
    let result = parse_expr("(a");
    match result {
        Err(errors) => {
            assert_eq!(errors.len(), 1);
            assert_eq!(errors[0].span, Span::new(0, 1));
        }
        Ok(e) => panic!("expected a parse error, got {e:?}"),
    }
}

#[test]
fn lexical_error_surfaces_as_a_parse_error() {
    let result = snowc::parser::parse("add = #;");
    assert!(result.is_err());
}

#[test]
fn integer_literal_too_large_is_rejected() {
    let result = parse_expr("99999999999999999999999999");
    assert!(result.is_err());
}

#[test]
fn underscores_in_integer_literals_are_ignored() {
    match snowc::parser::parse_expr("1_000") {
        Ok(e) => match e {
            snowc::ast::Expr::Atom(snowc::ast::Atom::Int(v), _) => assert_eq!(v, 1000),
            other => panic!("expected an integer atom, got {other:?}"),
        },
        Err(errors) => panic!("expected a parse, got {errors:?}"),
    }
}
