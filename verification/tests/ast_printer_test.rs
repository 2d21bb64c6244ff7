use synq_codec::synq::ast_printer::AstPrinter;
use synq_codec::synq::lexer::{Token, TokenType};
use synq_codec::synq::parser::{Ast, Parser};
use synq_codec::synq::scanner::Scanner;

fn parse_synq(input: &str) -> Ast {
    let mut scanner = Scanner::new(input);
    let mut tokens = Vec::new();

    loop {
        let token = scanner.next_token().unwrap();
        let is_eof = token.typ == TokenType::Eof;
        tokens.push(token);
        if is_eof {
            break;
        }
    }

    let mut parser = Parser::new(&tokens);
    parser.parse().unwrap()
}

#[test]
fn print_frame_with_current_parser() {
    let input = "@over NATS\nframe Block {\n  sender u64\n  receiver u64\n  amount f64\n}";
    let ast = parse_synq(input);
    println!("{}", AstPrinter::render(&ast));
    let mermaid = AstPrinter::to_mermaid(&ast);
    assert!(mermaid.contains("Frame: Block"));
    assert!(mermaid.contains("sender: u64"));
    assert!(mermaid.contains("receiver: u64"));
    assert!(mermaid.contains("amount: f64"));
}

#[test]
fn test_option_and_photon() {
    let input =
        "package block.demo\nimport chain\nsynq Block {  \nmessage check_transaction(TrMetadata) returns (TrAcceptance) {    \noption (chain.check) {        \n// param gets automatically namespaced,        \n// To avoid conflicts (undefined behaviour) you may namespace them yourself if multiple arguments        \n// Like: use TrMetadata or px where x is the param index (starting at 1)        \nrequire chain.check.valid_addr(sender)        \nrequire chain.check.valid_addr(receiver)        \nrequire chain.check.no_trunc(amount)        \nrequire trusted >= 128    \n}  \n}\n}\n\nframe TrMetadata {  \nsender u64  \nreceiver u64  \nrequired amount u64  \ntrusted i8\n}\n\nframe TrAcceptance {    \nsender bool    \nreceiver bool    \namount bool    \ntrusted i8\n}
        ";
    let ast = parse_synq(input);
    println!("{ast:?}");
    println!("{}", AstPrinter::render(&ast));
}

#[test]
fn option_block_is_read_into_calls() {
    let input = "package block.demo\nimport chain\nsynq Block {\nmessage check(Tr) returns (Ok) {\noption (chain.check) {\nuse chain\nrequire chain.check.valid(sender receiver)\nrequire trusted >= 128\n}\n}\n}\n";
    let ast = parse_synq(input);
    assert_eq!(ast.package, "block.demo");
    assert_eq!(ast.import, vec!["chain".to_string()]);
    assert_eq!(ast.synqs.len(), 1);
    let photon = &ast.synqs[0];
    assert_eq!(photon.name, "Block");
    assert_eq!(photon.messages.len(), 1);
    let msg = &photon.messages[0];
    assert_eq!(msg.name, "check");
    assert_eq!(msg.req, "Tr");
    assert_eq!(msg.res, "Ok");
    let opt = msg.body.as_ref().unwrap();
    assert_eq!(opt.name, "Block");
    // The line break after `{` is taken as the `option` keyword's place,
    // so the name keeps its parentheses and the `use` line reads as a call.
    assert_eq!(opt.body.name, "(chain.check)");
    assert_eq!(opt.body.namespaces, None);
    assert_eq!(opt.body.calls.len(), 3);
    assert_eq!(opt.body.calls[0].fun_name, "use");
    assert_eq!(opt.body.calls[0].fun_params, vec!["chain".to_string()]);
    let first = &opt.body.calls[1];
    assert_eq!(first.hint, None);
    assert_eq!(first.fun_name, "require");
    assert_eq!(
        first.fun_params,
        ["chain", ".", "check", ".", "valid", "(", "sender", "receiver", ")"]
            .iter()
            .map(|s| s.to_string())
            .collect::<Vec<_>>()
    );
    assert!(!first.is_call);
    let second = &opt.body.calls[2];
    assert_eq!(second.fun_name, "require");
    assert_eq!(second.fun_params, vec!["trusted".to_string(), ">=".to_string(), "128".to_string()]);
}

#[test]
fn option_block_on_the_same_line() {
    let input = "synq S {\nmessage m(A) returns (B) {option (x.y) {use ns use other\noptional f(a b)\n}\n}\n}\n";
    let ast = parse_synq(input);
    let opt = ast.synqs[0].messages[0].body.as_ref().unwrap();
    assert_eq!(opt.name, "S");
    assert_eq!(opt.body.name, "x.y)");
    assert_eq!(opt.body.namespaces, Some(vec!["ns".to_string(), "other".to_string()]));
    assert_eq!(opt.body.calls.len(), 1);
    let call = &opt.body.calls[0];
    assert_eq!(call.hint, Some("optional".to_string()));
    assert_eq!(call.fun_name, "f");
    assert_eq!(call.fun_params, vec!["a".to_string(), "b".to_string()]);
    assert!(call.is_call);
    assert_eq!(
        AstPrinter::render(&ast),
        "AST for package: \n\nPhotons:\n  synq S {\n    message m {\n      req: A\n      res: B\n      option (x.y)) {\n        use ns\n        use other\n        optional f(a, b)\n      }\n    }\n  }\n"
    );
}

#[test]
fn mermaid_of_a_frame_is_exact() {
    let ast = parse_synq("package p\nconst MAX = 3\nframe A {\n  optional x u64\n}\n");
    assert_eq!(
        AstPrinter::to_mermaid(&ast),
        "graph TD\n  Root[Package: p]\n  Root --> Consts[Constants]\n  Consts --> C_MAX[MAX: 3]\n  Root --> Frames[Frames]\n  Frames --> F_A[Frame: A]\n  F_A --> FF_A_x[\"optional x: u64\"]\n"
    );
}

#[test]
fn mermaid_of_a_photon_is_exact() {
    let ast = parse_synq("synq S {\nmessage get(A) returns (B) {}\n}\n");
    assert_eq!(
        AstPrinter::to_mermaid(&ast),
        "graph TD\n  Root[Package: ]\n  Root --> Photons[Photons]\n  Photons --> P_S[Photon: S]\n  P_S --> PM_S_get[Message: get]\n  PM_S_get --> PMR_S_get_Q[Req: A]\n  PM_S_get --> PMR_S_get_S[Res: B]\n"
    );
}

#[test]
fn outline_is_exact() {
    let ast = parse_synq("package a.b\nimport c\noption go = fast\n@codec minimal\nframe F {\n  x u8\n  reserved 1 2 3\n}\n");
    assert_eq!(
        AstPrinter::render(&ast),
        "AST for package: a.b\n\nImports:\n  - c\n\nOptions:\n  go = fast\n\nFrames:\n  frame F {\n    @codec(minimal)\n    x u8\n    reserved 1, 3\n  }\n"
    );
}

#[test]
fn outline_of_an_empty_tree() {
    let ast = parse_synq("");
    assert_eq!(AstPrinter::render(&ast), "AST for package: \n");
    assert_eq!(AstPrinter::to_mermaid(&ast), "graph TD\n  Root[Package: ]\n");
}

#[test]
fn reserved_type_names_join_the_entry_before() {
    let ast = parse_synq("frame F {\n  reserved a u64\n  required id u8\n}\n");
    let f = &ast.frames[0];
    assert_eq!(f.reservations.len(), 1);
    assert_eq!(f.reservations[0].reservations, vec!["a".to_string(), "a\u{2014}u64".to_string()]);
    assert_eq!(f.fields.len(), 1);
    assert_eq!(f.fields[0].hint, Some("required".to_string()));
    assert_eq!(f.fields[0].name, "id");
    assert_eq!(f.fields[0].typ, "u8");
}

#[test]
fn attributes_go_to_the_next_declaration() {
    let ast = parse_synq("@codec minimal\n@over\nframe A {\n}\nsynq S {\n}\n@over NATS\nsynq T {\n}\n");
    assert_eq!(ast.frames[0].attrs.len(), 2);
    assert_eq!(ast.frames[0].attrs[0].key, "codec");
    assert_eq!(ast.frames[0].attrs[0].val, "minimal");
    assert_eq!(ast.frames[0].attrs[1].key, "over");
    assert_eq!(ast.frames[0].attrs[1].val, "");
    assert_eq!(ast.synqs[0].attrs.len(), 0);
    assert_eq!(ast.synqs[1].attrs.len(), 1);
    assert_eq!(ast.synqs[1].attrs[0].val, "NATS");
}

#[test]
fn missing_field_type_is_an_error_at_the_field_name() {
    let tokens = vec![
        Token { typ: TokenType::Frame, lexeme: "frame", line: 0, col: 0 },
        Token { typ: TokenType::Ident, lexeme: "A", line: 0, col: 6 },
        Token { typ: TokenType::Lbrace, lexeme: "{", line: 0, col: 8 },
        Token { typ: TokenType::Ident, lexeme: "name", line: 1, col: 6 },
    ];
    let mut parser = Parser::new(&tokens);
    match parser.parse() {
        Err(synq_codec::error::ParseError::Unexpected { typ, line, col }) => {
            assert_eq!(typ, "EOF");
            assert_eq!(line, 1);
            assert_eq!(col, 6);
        }
        Ok(_) => panic!("expected an error"),
    }
}

#[test]
fn attribute_at_end_is_an_error() {
    let mut scanner = Scanner::new("@");
    let at = scanner.next_token().unwrap();
    let tokens = vec![at];
    let mut parser = Parser::new(&tokens);
    match parser.parse() {
        Err(synq_codec::error::ParseError::Unexpected { typ, line, col }) => {
            assert_eq!((typ.as_str(), line, col), ("EOF", 0, 0));
        }
        Ok(_) => panic!("expected an error"),
    }
}

#[test]
fn try_parse_reports_a_panicking_input() {
    let mut scanner = Scanner::new("const");
    let mut tokens = Vec::new();
    tokens.push(scanner.next_token().unwrap());
    tokens.push(scanner.next_token().unwrap());
    let mut parser = Parser::new(&tokens);
    assert!(parser.try_parse().is_none());
}
