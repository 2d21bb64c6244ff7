use synq_codec::codec::ast_printer::AstPrinter;
use synq_codec::codec::parser::{Ast, Parser};
use synq_codec::synq::lexer::{Token, TokenType};
use synq_codec::synq::scanner::Scanner;

fn parse_synq(input: &str) -> Ast {
    let mut scanner = Scanner::new(input);
    let mut tokens = Vec::new();

    loop {
        let token = scanner.next_token().unwrap();
        let is_eof = token.typ == TokenType::Eof;
        tokens.push(token);
        if is_eof {
            break;
        }
    }

    let mut parser = Parser::new(&tokens);
    parser.parse().unwrap()
}

#[test]
fn test_print_frame() {
    let input = "@over NATS\nframe Block {\n  sender u64\n  receiver u64\n  amount f64\n}";
    let ast = parse_synq(input);
    println!("{}", AstPrinter::render(&ast));
    let mermaid = AstPrinter::to_mermaid(&ast);
    assert!(mermaid.contains("Frame: Block"));
    assert!(mermaid.contains("sender: u64"));
    assert!(mermaid.contains("receiver: u64"));
    assert!(mermaid.contains("amount: f64"));
}

#[test]
fn test_print_synq() {
    let input =
        "synq Block {\n  message get_id (Addr) (Id) {}\n}\nframe Addr {\n  name string\n}";
    let ast = parse_synq(input);
    println!("{}", AstPrinter::render(&ast));
    let mermaid = AstPrinter::to_mermaid(&ast);
    assert!(mermaid.contains("Photon: Block"));
    assert!(mermaid.contains("Message: get_id"));
    assert!(mermaid.contains("Req: Addr"));
    assert!(mermaid.contains("Res: Id"));
    assert!(mermaid.contains("Frame: Addr"));
}

#[test]
fn earlier_mermaid_of_a_photon_is_exact() {
    let ast = parse_synq("synq S {\nmessage get (A) (B) {}\n}\n");
    assert_eq!(
        AstPrinter::to_mermaid(&ast),
        "graph TD\n  Root[Package: ]\n  Root --> Photons[Photons]\n  Photons --> P_S[Photon: S]\n  P_S --> PM_S_get[Message: get]\n  PM_S_get --> PMR_S_get_Q[Req: A]\n  PM_S_get --> PMR_S_get_S[Res: B]\n"
    );
}

#[test]
fn earlier_message_block_keeps_its_tokens() {
    let ast = parse_synq("synq S {\nmessage m (A) (B) {\noption Check (x) {\nrequire a >= 1\n}\n}\n}\n");
    let msg = &ast.synqs[0].messages[0];
    assert_eq!(msg.name, "m");
    assert_eq!(msg.req, "A");
    assert_eq!(msg.res, "B");
    let body = msg.body.as_ref().unwrap();
    // The line break after `{` takes the place of the `option` keyword.
    assert_eq!(body.name, "option");
    assert_eq!(
        body.body,
        ["x", ")", "{", "\n", "require", "a", ">=", "1", "\n"]
            .iter()
            .map(|s| s.to_string())
            .collect::<Vec<_>>()
    );
    assert_eq!(
        AstPrinter::render(&ast),
        "AST for package: \n\nPhotons:\n  synq S {\n    message m {\n      req: A\n      res: B\n      body option {\n        x\n        )\n        {\n        \n\n        require\n        a\n        >=\n        1\n        \n\n      }\n    }\n  }\n"
    );
}

#[test]
fn earlier_package_and_reserved_are_read_by_token() {
    let ast = parse_synq("package a.b\nimport c\nframe F {\n  reserved 1 u64\n  required id u8\n}\n");
    assert_eq!(ast.package, "a");
    assert_eq!(ast.import, vec!["c".to_string()]);
    let f = &ast.frames[0];
    assert_eq!(f.reservations.len(), 1);
    assert_eq!(f.reservations[0].reservations, vec!["1".to_string(), "u64".to_string()]);
    assert_eq!(f.fields.len(), 2);
    assert_eq!(f.fields[0].hint, None);
    assert_eq!(f.fields[0].name, "required");
    assert_eq!(f.fields[0].typ, "id");
    assert_eq!(f.fields[1].name, "u8");
    assert_eq!(f.fields[1].typ, "\n");
}

#[test]
fn earlier_outline_is_exact() {
    let ast = parse_synq("@codec minimal\nframe F {\n  optional x u8\n  reserved 1 2\n}\n");
    assert_eq!(
        AstPrinter::render(&ast),
        "AST for package: \n\nFrames:\n  frame F {\n    @codec(minimal)\n    optional x u8\n    reserved 1, 2\n  }\n"
    );
}

#[test]
fn earlier_missing_field_type_is_an_error_at_the_field_name() {
    let tokens = vec![
        Token { typ: TokenType::Frame, lexeme: "frame", line: 0, col: 0 },
        Token { typ: TokenType::Ident, lexeme: "A", line: 0, col: 6 },
        Token { typ: TokenType::Lbrace, lexeme: "{", line: 0, col: 8 },
        Token { typ: TokenType::Ident, lexeme: "name", line: 1, col: 6 },
    ];
    let mut parser = Parser::new(&tokens);
    match parser.parse() {
        Err(synq_codec::error::ParseError::Unexpected { typ, line, col }) => {
            assert_eq!((typ.as_str(), line, col), ("EOF", 1, 6));
        }
        Ok(_) => panic!("expected an error"),
    }
}

#[test]
fn earlier_unclosed_message_block_is_reported_by_try_parse() {
    let mut scanner = Scanner::new("synq S {\nmessage m (A) (B) {\noption O (x) {\n");
    let mut tokens = Vec::new();
    loop {
        let t = scanner.next_token().unwrap();
        let eof = t.typ == TokenType::Eof;
        tokens.push(t);
        if eof {
            break;
        }
    }
    let mut parser = Parser::new(&tokens);
    assert!(parser.try_parse().is_none());
}

#[test]
fn earlier_message_block_on_the_same_line() {
    let ast = parse_synq("synq S {\nmessage m (A) (B) {option Check (x) {require a}\n}\n}\n");
    let body = ast.synqs[0].messages[0].body.as_ref().unwrap();
    assert_eq!(body.name, "Check");
    // Two tokens after the name are passed over: `(` and `x`.
    assert_eq!(body.body, vec![")".to_string(), "{".to_string(), "require".to_string(), "a".to_string()]);
}
