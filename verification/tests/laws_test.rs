use synq_codec::synq::ast_printer::AstPrinter;
use synq_codec::synq::lexer::{try_tokenize, TokenType};
use synq_codec::synq::listing::token_indents;
use synq_codec::synq::parser::{Ast, Parser};
use synq_codec::synq::try_compile;

fn parse_synq(input: &str) -> Ast {
    let tokens = try_tokenize(input).unwrap().unwrap();
    let mut parser = Parser::new(&tokens);
    parser.parse().unwrap()
}

#[test]
fn token_listing_indents_by_brace_depth() {
    let tokens = try_tokenize("frame A {\nx u8\n}\n}").unwrap().unwrap();
    let kinds: Vec<TokenType> = tokens.iter().map(|t| t.typ).collect();
    assert_eq!(
        kinds,
        vec![
            TokenType::Frame,
            TokenType::Ident,
            TokenType::Lbrace,
            TokenType::Newline,
            TokenType::Ident,
            TokenType::Ident,
            TokenType::Newline,
            TokenType::Rbrace,
            TokenType::Newline,
            TokenType::Rbrace,
            TokenType::Eof,
        ]
    );
    assert_eq!(token_indents(&tokens), vec![0, 0, 0, 2, 2, 2, 2, 0, 0, 0, 0]);
}

#[test]
fn token_listing_stops_after_end_of_file() {
    let mut tokens = try_tokenize("{").unwrap().unwrap();
    let more = try_tokenize("x").unwrap().unwrap();
    tokens.extend(more);
    assert_eq!(tokens.len(), 4);
    assert_eq!(token_indents(&tokens), vec![0, 2]);
}

#[test]
fn mermaid_ignores_imports_attributes_and_reservations() {
    let a = parse_synq("package p\nframe A {\n  x u8\n}\nsynq S {\nmessage m(A) returns (A) {}\n}\n");
    let b = parse_synq("package p\nimport q\noption o = v\n@codec minimal\nframe A {\n  x u8\n  reserved a u64\n}\n@over NATS\nsynq S {\nmessage m(A) returns (A) {option (x.y) {use ns\noptional f(a b)\n}\n}\n}\n");
    assert_eq!(b.import.len(), 1);
    assert_eq!(b.frames[0].reservations.len(), 1);
    assert!(b.synqs[0].messages[0].body.is_some());
    assert_eq!(AstPrinter::to_mermaid(&a), AstPrinter::to_mermaid(&b));
}

#[test]
fn mermaid_sections_appear_only_when_not_empty() {
    let m = AstPrinter::to_mermaid(&parse_synq("enum E {\n}\nframe A {\n}\n"));
    assert!(!m.contains("Root --> Consts"));
    assert!(!m.contains("Root --> Photons"));
    let m = AstPrinter::to_mermaid(&parse_synq("const C = 1\nframe A {\n}\n"));
    let consts = m.find("  Root --> Consts[Constants]\n").unwrap();
    let frames = m.find("  Root --> Frames[Frames]\n").unwrap();
    assert!(m.starts_with("graph TD\n  Root[Package: ]\n"));
    assert!(consts < frames);
}

#[test]
fn bytecode_depends_only_on_shape() {
    let a = try_compile("@codec minimal\nframe A {\n  x u8\n}\nsynq S {\nmessage m(A) returns (A) {}\n}\n").unwrap().unwrap();
    let b = try_compile("package z\n@other x\nframe Bee {\n  optional yy string\n}\nsynq T {\nmessage n(X) returns (Y) {}\n}\n").unwrap().unwrap();
    let c = try_compile("@over NATS\nframe A {\n  x u8\n}\nsynq S {\nmessage m(A) returns (A) {}\n}\n").unwrap().unwrap();
    assert_eq!(a, vec![0x20, 0, 0x01, 0x10, 0x12, 0, 0, 0x11, 0, 0x14, 0x16, 0, 1, 0x15]);
    assert_ne!(a[2], 0xFF);
    assert_eq!(b[2], 0xFF);
    assert_eq!(a[3..], b[3..]);
    assert_ne!(a, c);
}

#[test]
fn tokens_stand_at_their_line_and_column() {
    let tokens = try_tokenize("a\n  b /* c */ d\n\tx").unwrap().unwrap();
    let places: Vec<(String, usize, usize)> =
        tokens.iter().map(|t| (t.lexeme.to_string(), t.line, t.col)).collect();
    assert_eq!(
        places,
        vec![
            ("a".to_string(), 0, 0),
            ("\n".to_string(), 0, 1),
            ("b".to_string(), 1, 2),
            ("d".to_string(), 1, 12),
            ("\n".to_string(), 1, 13),
            ("x".to_string(), 2, 1),
            ("".to_string(), 2, 2),
        ]
    );
}

#[test]
fn error_points_at_the_offending_byte() {
    match try_compile("frame A {\n  x $\n}") {
        Some(Err(e)) => {
            assert_eq!(
                e.pretty_print("frame A {\n  x $\n}"),
                "error: unexpected input '$'\n --> 1:4\n  |\n1 |   x $\n  |     ^"
            );
        }
        _ => panic!("expected an error"),
    }
}

#[test]
fn mermaid_line_count() {
    let ast = parse_synq("const A = 1\nconst B = 2\nframe F {\n  x u8\n  y u8\n}\nsynq S {\nmessage m(F) returns (F) {}\n}\n");
    let m = AstPrinter::to_mermaid(&ast);
    let consts = 1 + 2;
    // The parser reads no enums, so that branch is not there.
    assert!(ast.enums.is_empty());
    let frames = 1 + (1 + 2);
    let photons = 1 + (1 + 3);
    assert_eq!(m.matches('\n').count(), 2 + consts + frames + photons);
}

#[test]
fn parsing_joined_sources_joins_the_trees() {
    let a = "package x\n@codec minimal\nframe A {\n  f u8\n}\n";
    let b = "package y\nframe B {\n  g u16\n}\nsynq S {\nmessage m(A) returns (B) {}\n}\n";
    let ta = try_tokenize(a).unwrap().unwrap();
    let tb = try_tokenize(b).unwrap().unwrap();
    let mut joined = ta[..ta.len() - 1].to_vec();
    joined.extend(tb.iter().cloned());
    let pa = parse_synq(a);
    let pb = parse_synq(b);
    let mut parser = Parser::new(&joined);
    let pj = parser.parse().unwrap();
    assert_eq!(pj.package, format!("{}{}", pa.package, pb.package));
    assert_eq!(pj.frames.len(), pa.frames.len() + pb.frames.len());
    assert_eq!(pj.frames[0].name, "A");
    assert_eq!(pj.frames[0].attrs.len(), 1);
    assert_eq!(pj.frames[1].name, "B");
    assert_eq!(pj.frames[1].attrs.len(), 0);
    assert_eq!(pj.synqs.len(), 1);
    let whole = parse_synq(&format!("{a}{b}"));
    assert_eq!(whole.package, pj.package);
    assert_eq!(whole.frames.len(), 2);
}
