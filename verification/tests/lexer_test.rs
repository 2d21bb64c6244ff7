use synq_codec::error::ParseError;
use synq_codec::synq::lexer::{try_tokenize, TokenType};
use synq_codec::synq::scanner::Scanner;

fn kinds(input: &str) -> Vec<(TokenType, String, usize, usize)> {
    let mut scanner = Scanner::new(input);
    let mut out = Vec::new();
    loop {
        let t = scanner.next_token().unwrap();
        out.push((t.typ, t.lexeme.to_string(), t.line, t.col));
        if t.typ == TokenType::Eof {
            break;
        }
    }
    out
}

#[test]
fn keywords_words_and_numbers() {
    let toks = kinds("frame Block {\n  sender u64 1.2_3\n}");
    let expected = vec![
        (TokenType::Frame, "frame".to_string(), 0, 0),
        (TokenType::Ident, "Block".to_string(), 0, 6),
        (TokenType::Lbrace, "{".to_string(), 0, 12),
        (TokenType::Newline, "\n".to_string(), 0, 13),
        (TokenType::Ident, "sender".to_string(), 1, 2),
        (TokenType::Ident, "u64".to_string(), 1, 9),
        (TokenType::Index, "1.2_3".to_string(), 1, 13),
        (TokenType::Newline, "\n".to_string(), 1, 18),
        (TokenType::Rbrace, "}".to_string(), 2, 0),
        (TokenType::Eof, "".to_string(), 2, 1),
    ];
    assert_eq!(toks, expected);
}

#[test]
fn all_keywords() {
    let toks = kinds("package import const option enum frame synq message use other");
    let typs: Vec<TokenType> = toks.iter().map(|t| t.0).collect();
    assert_eq!(
        typs,
        vec![
            TokenType::Package,
            TokenType::Import,
            TokenType::Const,
            TokenType::Option,
            TokenType::Enum,
            TokenType::Frame,
            TokenType::Photon,
            TokenType::Message,
            TokenType::Use,
            TokenType::Ident,
            TokenType::Eof,
        ]
    );
}

#[test]
fn punctuation() {
    let toks = kinds("@ = { } ( ) * . / \"");
    let typs: Vec<TokenType> = toks.iter().map(|t| t.0).collect();
    assert_eq!(
        typs,
        vec![
            TokenType::Attribute,
            TokenType::Equal,
            TokenType::Lbrace,
            TokenType::Rbrace,
            TokenType::Lparen,
            TokenType::Rparen,
            TokenType::Star,
            TokenType::Dot,
            TokenType::Slash,
            TokenType::Quote,
            TokenType::Eof,
        ]
    );
}

#[test]
fn comparisons_take_the_next_token() {
    let toks = kinds(">= <= > x < 1");
    assert_eq!(toks[0].0, TokenType::GreaterThan);
    assert_eq!(toks[0].1, ">=");
    assert_eq!(toks[1].0, TokenType::LessThan);
    assert_eq!(toks[1].1, "<=");
    assert_eq!(toks[2].0, TokenType::Greater);
    assert_eq!(toks[2].1, "> x");
    assert_eq!(toks[3].0, TokenType::Less);
    assert_eq!(toks[3].1, "< 1");
    assert_eq!(toks[4].0, TokenType::Eof);
}

#[test]
fn comments_and_blanks_are_skipped() {
    let toks = kinds("// line comment\n  /* block\n comment */ x\t\r/y");
    assert_eq!(toks[0], (TokenType::Newline, "\n".to_string(), 0, 15));
    assert_eq!(toks[1], (TokenType::Ident, "x".to_string(), 1, 23));
    assert_eq!(toks[2], (TokenType::Slash, "/".to_string(), 1, 26));
    assert_eq!(toks[3], (TokenType::Ident, "y".to_string(), 1, 27));
    assert_eq!(toks[4].0, TokenType::Eof);
}

#[test]
fn unknown_byte_is_an_error() {
    let mut scanner = Scanner::new("a ,");
    assert_eq!(scanner.next_token().unwrap().typ, TokenType::Ident);
    match scanner.next_token() {
        Err(ParseError::Unexpected { typ, line, col }) => {
            assert_eq!(typ, ",");
            assert_eq!(line, 0);
            assert_eq!(col, 2);
        }
        Ok(t) => panic!("expected an error, got {:?}", t),
    }
}

#[test]
fn comparison_before_a_bad_byte_panics_in_try_form() {
    let mut scanner = Scanner::new("> ,");
    assert!(scanner.try_next_token().is_none());
}

#[test]
fn tokenize_reads_to_end_of_file() {
    let toks = try_tokenize("a b").unwrap().unwrap();
    assert_eq!(toks.len(), 3);
    assert_eq!(toks[2].typ, TokenType::Eof);
    match try_tokenize("a ;") {
        Some(Err(ParseError::Unexpected { typ, .. })) => assert_eq!(typ, ";"),
        _ => panic!("expected an error"),
    }
    assert!(try_tokenize("<,").is_none());
}

#[test]
fn non_ascii_text_in_comments_and_after_comparisons() {
    let mut scanner = Scanner::new("> /* é */ x é");
    let t = scanner.next_token().unwrap();
    assert_eq!(t.typ, TokenType::Greater);
    assert_eq!(t.lexeme, "> /* é */ x");
    match scanner.next_token() {
        Err(ParseError::Unexpected { typ, line, col }) => {
            assert_eq!(typ, "\u{c3}");
            assert_eq!((line, col), (0, 13));
        }
        Ok(t) => panic!("expected an error, got {:?}", t),
    }
}
